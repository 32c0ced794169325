use llm_globber::normalize::{clean_up_text, BlankLineFilter, MAX_BLANK_LINES};

#[test]
fn runs_of_blank_lines_are_cut_to_the_limit() {
    assert_eq!(clean_up_text(b"a\n\n\n\n\nb\n", 2), b"a\n\n\nb\n".to_vec());
    assert_eq!(clean_up_text(b"a\n\n\nb\n", 2), b"a\n\n\nb\n".to_vec());
    assert_eq!(clean_up_text(b"a\n\n\n\nb\n", 1), b"a\n\nb\n".to_vec());
    assert_eq!(clean_up_text(b"a\n\n\n\nb\n", 0), b"a\nb\n".to_vec());
    assert_eq!(clean_up_text(b"\n\n\n\n", 2), b"\n\n".to_vec());
}

#[test]
fn the_limit_of_the_archive_writer_is_two() {
    assert_eq!(MAX_BLANK_LINES, 2);
}

#[test]
fn lines_of_white_space_become_empty_lines() {
    assert_eq!(clean_up_text(b"a\n  \t \nb\n", 2), b"a\n\nb\n".to_vec());
    assert_eq!(clean_up_text("a\n\u{3000}\u{a0}\nb\n".as_bytes(), 2), b"a\n\nb\n".to_vec());
    assert_eq!(clean_up_text(b"a\n \n\t\n  \n\nb\n", 2), b"a\n\n\nb\n".to_vec());
}

#[test]
fn other_lines_are_kept_as_they_are() {
    assert_eq!(
        clean_up_text(b"'''--- a.c ---\n  int x;  \n'''\n", 2),
        b"'''--- a.c ---\n  int x;  \n'''\n".to_vec()
    );
}

#[test]
fn every_line_ends_with_a_line_feed() {
    assert_eq!(clean_up_text(b"a\nb", 2), b"a\nb\n".to_vec());
    assert_eq!(clean_up_text(b"a\n\nb", 2), b"a\n\nb\n".to_vec());
    assert_eq!(clean_up_text(b"", 2), b"".to_vec());
}

#[test]
fn carriage_returns_of_lines_that_are_not_blank_are_kept() {
    assert_eq!(clean_up_text(b"a\r\nb\r\n", 2), b"a\r\nb\r\n".to_vec());
    assert_eq!(clean_up_text(b"a\r\r\n", 2), b"a\r\r\n".to_vec());
    assert_eq!(clean_up_text(b"a\r", 2), b"a\r\n".to_vec());
    assert_eq!(clean_up_text(b"a\r\n\r\n\r\n\r\nb\r\n", 2), b"a\r\n\n\nb\r\n".to_vec());
}

#[test]
fn a_run_starts_anew_after_another_line() {
    assert_eq!(
        clean_up_text(b"\n\n\na\n\n\n\nb\n\n\n\n", 2),
        b"\n\na\n\n\nb\n\n\n".to_vec()
    );
}

#[test]
fn cleaning_twice_is_cleaning_once() {
    let samples: [&[u8]; 10] = [
        b"a\r\r\n",
        b"a\r",
        b"\r\r\n\r\n\r\n\r",
        b"a\r\r\r\n \r\nb",
        b"a\n\n\n\n\nb\n",
        b"\n\n\n\n\n\n\n",
        b"a\r\nb\r\n\r\n\r\n\r\n",
        b"  \n\t\n x \n\n\n\n y",
        b"",
        b"'''--- a ---\nx\n\n'''\n\n",
    ];
    for sample in samples {
        let once = clean_up_text(sample, 2);
        assert_eq!(clean_up_text(&once, 2), once);
    }
}

#[test]
fn a_blank_line_may_end_with_a_carriage_return() {
    let once = clean_up_text(b"a\n\r\r\n \r\r\nb\n", 2);
    assert_eq!(once, b"a\n\n\nb\n".to_vec());
    assert_eq!(clean_up_text(&once, 2), once);
}

#[test]
fn the_filter_works_line_by_line() {
    let mut filter = BlankLineFilter::new(1);
    assert_eq!(filter.feed(b"a"), Some(b"a".to_vec()));
    assert_eq!(filter.feed(b" "), Some(b"".to_vec()));
    assert_eq!(filter.feed(b""), None);
    assert_eq!(filter.feed(b"\t"), None);
    assert_eq!(filter.feed(b" b "), Some(b" b ".to_vec()));
    assert_eq!(filter.feed(b""), Some(b"".to_vec()));
}
