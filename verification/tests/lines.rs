use llm_globber::lines::{
    join_with_line_feeds, split_into_lines, split_into_raw_lines, without_line_feed,
};

fn lines(text: &[u8]) -> Vec<Vec<u8>> {
    split_into_lines(text)
}

fn owned(parts: &[&str]) -> Vec<Vec<u8>> {
    parts.iter().map(|p| p.as_bytes().to_vec()).collect()
}

#[test]
fn split_into_lines_agrees_with_std_lines() {
    let samples = [
        "",
        "\n",
        "a",
        "a\n",
        "a\nb",
        "a\n\nb\n",
        "a\r\nb\r\n",
        "a\r",
        "a\r\r\n",
        "\r\n\r\n",
        "a\rb\nc",
        "\n\n\n",
    ];
    for sample in samples {
        let expected: Vec<Vec<u8>> = sample.lines().map(|l| l.as_bytes().to_vec()).collect();
        assert_eq!(lines(sample.as_bytes()), expected, "{:?}", sample);
    }
}

#[test]
fn a_text_that_ends_with_a_line_feed_has_no_empty_last_line() {
    assert_eq!(lines(b"a\nb\n"), owned(&["a", "b"]));
    assert_eq!(lines(b"a\nb"), owned(&["a", "b"]));
    assert_eq!(lines(b""), Vec::<Vec<u8>>::new());
    assert_eq!(lines(b"\n"), owned(&[""]));
}

#[test]
fn one_carriage_return_belongs_to_the_line_end() {
    assert_eq!(lines(b"a\r\nb"), owned(&["a", "b"]));
    assert_eq!(lines(b"a\r\r\nb"), owned(&["a\r", "b"]));
    assert_eq!(lines(b"a\rb\n"), owned(&["a\rb"]));
    assert_eq!(lines(b"a\r"), owned(&["a\r"]));
}

#[test]
fn join_puts_line_feeds_between_lines() {
    assert_eq!(join_with_line_feeds(&owned(&["int x;", ""])), b"int x;\n".to_vec());
    assert_eq!(join_with_line_feeds(&owned(&["a", "b"])), b"a\nb".to_vec());
    assert_eq!(join_with_line_feeds(&owned(&[""])), b"".to_vec());
    assert_eq!(join_with_line_feeds(&owned(&[])), b"".to_vec());
}

#[test]
fn lines_as_they_stand_keep_their_carriage_returns() {
    assert_eq!(split_into_raw_lines(b"a\r\nb\r\r\nc\r"), owned(&["a\r", "b\r\r", "c\r"]));
    assert_eq!(split_into_raw_lines(b"a\n\nb\n"), owned(&["a", "", "b"]));
    assert_eq!(split_into_raw_lines(b"\n"), owned(&[""]));
    assert_eq!(split_into_raw_lines(b""), Vec::<Vec<u8>>::new());
}

#[test]
fn a_chunk_loses_its_line_feed_and_nothing_else() {
    assert_eq!(without_line_feed(b"a\r\n"), b"a\r");
    assert_eq!(without_line_feed(b"a"), b"a");
    assert_eq!(without_line_feed(b"\n"), b"");
    assert_eq!(without_line_feed(b"a\n\n"), b"a\n");
    assert_eq!(without_line_feed(b""), b"");
}
