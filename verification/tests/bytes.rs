use llm_globber::bytes::{
    blank, ends_with, equal, find_byte, find_last, join_with, leading_whitespace, matches_at,
    starts_with, trailing_whitespace, trimmed,
};

#[test]
fn equal_compares_bytes() {
    assert!(equal(b"abc", b"abc"));
    assert!(!equal(b"abc", b"abd"));
    assert!(!equal(b"abc", b"ab"));
    assert!(equal(b"", b""));
}

#[test]
fn prefixes_and_suffixes() {
    assert!(starts_with(b"'''--- a", b"'''--- "));
    assert!(!starts_with(b"'''", b"'''--- "));
    assert!(starts_with(b"abc", b""));
    assert!(ends_with(b"a ---", b" ---"));
    assert!(!ends_with(b"---", b" ---"));
    assert!(ends_with(b"", b""));
    assert!(matches_at(b"abcabc", b"bc", 4));
    assert!(!matches_at(b"abcabc", b"bc", 5));
    assert!(!matches_at(b"abc", b"c", 7));
}

#[test]
fn find_last_gives_the_last_occurrence() {
    assert_eq!(find_last(b"a--b--c", b"--"), Some(4));
    assert_eq!(find_last(b"aaaa", b"aa"), Some(2));
    assert_eq!(find_last(b"abc", b"x"), None);
    assert_eq!(find_last(b"ab", b"abc"), None);
    assert_eq!(find_last(b"abc", b""), Some(3));
    assert_eq!(find_last(b"abc", b"abc"), Some(0));
}

#[test]
fn find_byte_gives_the_first_index_or_the_length() {
    assert_eq!(find_byte(b"a/b/c", 0, b'/'), 1);
    assert_eq!(find_byte(b"a/b/c", 2, b'/'), 3);
    assert_eq!(find_byte(b"a/b/c", 4, b'/'), 5);
    assert_eq!(find_byte(b"", 0, b'/'), 0);
}

#[test]
fn white_space_lengths() {
    assert_eq!(leading_whitespace(b" a"), 1);
    assert_eq!(leading_whitespace(b"\x0ba"), 1);
    assert_eq!(leading_whitespace("\u{a0}a".as_bytes()), 2);
    assert_eq!(leading_whitespace("\u{3000}a".as_bytes()), 3);
    assert_eq!(leading_whitespace("\u{200b}a".as_bytes()), 0);
    assert_eq!(leading_whitespace(b"a "), 0);
    assert_eq!(leading_whitespace(b""), 0);
    assert_eq!(trailing_whitespace(b"a\t"), 1);
    assert_eq!(trailing_whitespace("a\u{85}".as_bytes()), 2);
    assert_eq!(trailing_whitespace("a\u{205f}".as_bytes()), 3);
    assert_eq!(trailing_whitespace("a\u{feff}".as_bytes()), 0);
    assert_eq!(trailing_whitespace(b""), 0);
}

#[test]
fn trimmed_agrees_with_str_trim() {
    let samples = [
        "",
        " ",
        "a",
        "  a b  ",
        "\t\r\n a \x0b\x0c",
        "\u{a0}\u{1680}x\u{2000}\u{200a}",
        "\u{2028}\u{2029}\u{202f}\u{205f}\u{3000}",
        "\u{85}y\u{85}",
        "\u{200b} z \u{feff}",
        "\u{2001}\u{2002}\u{2003}\u{2004}\u{2005}\u{2006}\u{2007}\u{2008}\u{2009}w",
    ];
    for sample in samples {
        assert_eq!(trimmed(sample.as_bytes()), sample.trim().as_bytes(), "{:?}", sample);
        assert_eq!(blank(sample.as_bytes()), sample.trim().is_empty(), "{:?}", sample);
    }
}

#[test]
fn join_with_puts_the_separator_between_parts() {
    assert_eq!(join_with(&[b"a".to_vec(), b"b".to_vec(), b"".to_vec()], b'/'), b"a/b/".to_vec());
    assert_eq!(join_with(&[b"a".to_vec()], b'/'), b"a".to_vec());
    assert_eq!(join_with(&[], b'/'), Vec::<u8>::new());
    assert_eq!(join_with(&[b"".to_vec()], b'/'), Vec::<u8>::new());
}
