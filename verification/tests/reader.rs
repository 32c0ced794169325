use llm_globber::format::HeaderError;
use llm_globber::reader::{ParseError, ParsedEntry, Parser, Step};
use llm_globber::signature::KeyError;

fn entry(path: &str, lines: &[&str], is_binary: bool, signature: Option<&str>) -> ParsedEntry {
    ParsedEntry {
        path: path.as_bytes().to_vec(),
        lines: lines.iter().map(|l| l.as_bytes().to_vec()).collect(),
        is_binary,
        signature: signature.map(|s| s.as_bytes().to_vec()),
    }
}

fn quiet(step: &Step) -> bool {
    step.finished.is_none() && step.refused_key.is_none() && step.error.is_none()
}

#[test]
fn an_entry_is_closed_by_the_next_header() {
    let mut parser = Parser::new();
    assert!(quiet(&parser.feed_line(b"'''--- a.c ---")));
    assert!(quiet(&parser.feed_line(b"int x;")));
    assert!(quiet(&parser.feed_line(b"")));
    assert!(quiet(&parser.feed_line(b"'''")));
    assert!(quiet(&parser.feed_line(b"")));
    let step = parser.feed_line(b"'''--- b.h --- [SIGNATURE:c2ln]");
    assert_eq!(step.finished, Some(entry("a.c", &["int x;", ""], false, None)));
    assert_eq!(step.error, None);
    assert!(quiet(&parser.feed_line(b"void f();")));
    assert_eq!(parser.finish(), Some(entry("b.h", &["void f();"], false, Some("c2ln"))));
}

#[test]
fn lines_outside_an_entry_are_passed_over() {
    let mut parser = Parser::new();
    assert!(quiet(&parser.feed_line(b"some text")));
    assert!(quiet(&parser.feed_line(b"'''")));
    assert!(quiet(&parser.feed_line(b"[Binary file - contents omitted]")));
    assert_eq!(parser.finish(), None);
}

#[test]
fn lines_after_the_terminator_are_passed_over() {
    let mut parser = Parser::new();
    parser.feed_line(b"'''--- a.c ---");
    parser.feed_line(b"x");
    parser.feed_line(b"'''");
    assert!(quiet(&parser.feed_line(b"y")));
    assert!(quiet(&parser.feed_line(b"'''")));
    assert!(quiet(&parser.feed_line(b"[Binary file - contents omitted]")));
    assert_eq!(parser.finish(), Some(entry("a.c", &["x"], false, None)));
}

#[test]
fn the_sentinel_closes_an_entry_at_once_without_content() {
    let mut parser = Parser::new();
    parser.feed_line(b"'''--- a.bin ---");
    let step = parser.feed_line(b"[Binary file - contents omitted]");
    assert_eq!(step.finished, Some(entry("a.bin", &[], true, None)));
    assert_eq!(parser.finish(), None);

    let mut parser = Parser::new();
    parser.feed_line(b"'''--- a.bin ---");
    parser.feed_line(b"left over");
    let step = parser.feed_line(b"[Binary file - contents omitted]");
    assert_eq!(step.finished, Some(entry("a.bin", &[], true, None)));
    parser.feed_line(b"'''--- b.c ---");
    parser.feed_line(b"x");
    assert_eq!(parser.finish(), Some(entry("b.c", &["x"], false, None)));
}

#[test]
fn an_entry_without_a_terminator_is_closed_at_the_end() {
    let mut parser = Parser::new();
    parser.feed_line(b"'''--- a.c ---");
    parser.feed_line(b"x");
    parser.feed_line(b"y");
    assert_eq!(parser.finish(), Some(entry("a.c", &["x", "y"], false, None)));
}

#[test]
fn a_malformed_header_stops_the_reading_after_closing_the_open_entry() {
    let mut parser = Parser::new();
    parser.feed_line(b"'''--- a.c ---");
    parser.feed_line(b"x");
    let step = parser.feed_line(b"'''--- broken");
    assert_eq!(step.finished, Some(entry("a.c", &["x"], false, None)));
    assert_eq!(step.error, Some(ParseError::MalformedHeader(HeaderError::Malformed)));
    let mut parser = Parser::new();
    let step = parser.feed_line(b"'''--- a [b]");
    assert_eq!(step.finished, None);
    assert_eq!(step.error, Some(ParseError::MalformedHeader(HeaderError::Unrecognized)));
    let mut parser = Parser::new();
    let step = parser.feed_line(b"'''--- a --- [SIGNATURE:b ---");
    assert_eq!(step.error, Some(ParseError::MalformedHeader(HeaderError::UnclosedSignature)));
}

#[test]
fn a_key_record_gives_the_key() {
    let mut parser = Parser::new();
    assert_eq!(parser.public_key(), None);
    assert!(quiet(&parser.feed_line(
        b"'''--- PUBLIC_KEY --- [KEY:11qYAYKxCrfVS/7TyWQHOg7hcvPapiMlrwIaaPcHURo=]"
    )));
    let key = parser.public_key().unwrap();
    assert_eq!(key.to_bytes()[0], 215);
    assert_eq!(key.to_bytes()[31], 26);
    assert!(quiet(&parser.feed_line(b"'''")));
    assert!(quiet(&parser.feed_line(b"")));
    assert_eq!(parser.public_key(), Some(key));
    assert_eq!(parser.finish(), None);
}

#[test]
fn the_line_after_a_key_must_be_the_terminator() {
    let mut parser = Parser::new();
    parser.feed_line(b"'''--- PUBLIC_KEY --- [KEY:11qYAYKxCrfVS/7TyWQHOg7hcvPapiMlrwIaaPcHURo=]");
    let step = parser.feed_line(b"'''--- a.c ---");
    assert_eq!(step.error, Some(ParseError::UnterminatedKeyRecord));
    assert_eq!(step.finished, None);
}

#[test]
fn a_bad_key_is_passed_over() {
    let mut parser = Parser::new();
    let step = parser.feed_line(b"'''--- PUBLIC_KEY --- [KEY:***]");
    assert_eq!(step.refused_key, Some(KeyError::InvalidEncoding));
    assert_eq!(step.error, None);
    let step = parser.feed_line(b"'''--- PUBLIC_KEY --- [KEY:aGVsbG8=]");
    assert_eq!(step.refused_key, Some(KeyError::InvalidLength));
    let step =
        parser.feed_line(b"'''--- PUBLIC_KEY --- [KEY:AgAAAAAAAAAAAAAAAAAAAAAAAAAAAAAAAAAAAAAAAAA=]");
    assert_eq!(step.refused_key, Some(KeyError::InvalidPoint));
    assert_eq!(parser.public_key(), None);
    assert!(quiet(&parser.feed_line(b"'''")));
    assert!(quiet(&parser.feed_line(b"'''--- a.c ---")));
    assert_eq!(parser.finish().unwrap().path, b"a.c".to_vec());
}

#[test]
fn a_key_record_inside_an_entry_is_no_content() {
    let mut parser = Parser::new();
    parser.feed_line(b"'''--- a.c ---");
    parser.feed_line(b"x");
    parser.feed_line(b"'''--- PUBLIC_KEY --- [KEY:11qYAYKxCrfVS/7TyWQHOg7hcvPapiMlrwIaaPcHURo=]");
    parser.feed_line(b"'''");
    parser.feed_line(b"y");
    assert!(parser.public_key().is_some());
    assert_eq!(parser.finish(), Some(entry("a.c", &["x", "y"], false, None)));
}

#[test]
fn a_header_with_a_key_path_and_no_bracket_is_refused() {
    let mut parser = Parser::new();
    let step = parser.feed_line(b"'''--- PUBLIC_KEY --- [KEY:abc");
    assert_eq!(step.error, Some(ParseError::MalformedHeader(HeaderError::Malformed)));
    let mut parser = Parser::new();
    let step = parser.feed_line(b"'''--- PUBLIC_KEY --- [KEY:abc ---");
    assert_eq!(step.error, None);
    assert_eq!(parser.finish().unwrap().path, b"PUBLIC_KEY --- [KEY:abc".to_vec());
}
