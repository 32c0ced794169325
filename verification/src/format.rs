//! The lines of the archive format: headers, the key record, the
//! terminator and the sentinel that stands for binary content.
//!
//! ```text
//! '''--- PUBLIC_KEY --- [KEY:<base64 of the key>]
//! '''
//!
//! '''--- <path> --- [SIGNATURE:<base64 of the signature>]
//! <content>
//! '''
//!
//! '''--- <path> ---
//! <content>
//! '''
//!
//! '''--- <path> ---
//! [Binary file - contents omitted]
//! ```

use vstd::prelude::*;
use vstd::slice::slice_subrange;
use vstd::slice::slice_to_vec;
use crate::bytes::{
    ends_with, find_last, has_no, is_blank, is_trimmed, last_occurrence, lemma_last_occurrence,
    lemma_last_occurrence_is, lemma_trim_of_trimmed, occurs_at, optional_view, starts_with, trim,
    trimmed,
};
use crate::lines::{has_no_line_feed, is_clean_line, LINE_FEED};
use crate::signature::is_base64_symbol;

verus! {

/// What every header line begins with: `'''--- `.
pub const HEADER_MARKER: [u8; 7] = [0x27, 0x27, 0x27, 0x2d, 0x2d, 0x2d, 0x20];

/// What the header of an unsigned entry ends with: ` ---`.
pub const HEADER_END: [u8; 4] = [0x20, 0x2d, 0x2d, 0x2d];

/// What stands between the path and the signature in the header of a signed
/// entry: ` --- [SIGNATURE:`.
pub const SIGNATURE_OPEN: [u8; 16] = [
    0x20, 0x2d, 0x2d, 0x2d, 0x20, 0x5b, 0x53, 0x49, 0x47, 0x4e, 0x41, 0x54, 0x55, 0x52, 0x45, 0x3a,
];

/// The bracket `]` that closes a signature or a key.
pub const BRACKET_CLOSE: u8 = 0x5d;

/// The line that ends the content of a text entry: `'''`.
pub const TERMINATOR: [u8; 3] = [0x27, 0x27, 0x27];

/// The line that stands for the content of a binary entry:
/// `[Binary file - contents omitted]`.
pub const BINARY_SENTINEL: [u8; 32] = [
    0x5b, 0x42, 0x69, 0x6e, 0x61, 0x72, 0x79, 0x20, 0x66, 0x69, 0x6c, 0x65, 0x20, 0x2d, 0x20, 0x63,
    0x6f, 0x6e, 0x74, 0x65, 0x6e, 0x74, 0x73, 0x20, 0x6f, 0x6d, 0x69, 0x74, 0x74, 0x65, 0x64, 0x5d,
];

/// What the header of the key record begins with:
/// `'''--- PUBLIC_KEY --- [KEY:`.
pub const KEY_RECORD_OPEN: [u8; 27] = [
    0x27, 0x27, 0x27, 0x2d, 0x2d, 0x2d, 0x20, 0x50, 0x55, 0x42, 0x4c, 0x49, 0x43, 0x5f, 0x4b, 0x45,
    0x59, 0x20, 0x2d, 0x2d, 0x2d, 0x20, 0x5b, 0x4b, 0x45, 0x59, 0x3a,
];

/// `KEY_RECORD_OPEN` without the header marker: `PUBLIC_KEY --- [KEY:`.
pub const KEY_PATH_OPEN: [u8; 20] = [
    0x50, 0x55, 0x42, 0x4c, 0x49, 0x43, 0x5f, 0x4b, 0x45, 0x59, 0x20, 0x2d, 0x2d, 0x2d, 0x20, 0x5b,
    0x4b, 0x45, 0x59, 0x3a,
];

/// What is written in place of content that is not UTF-8:
/// `Non-UTF8 content`.
pub const NON_UTF8_PLACEHOLDER: [u8; 16] = [
    0x4e, 0x6f, 0x6e, 0x2d, 0x55, 0x54, 0x46, 0x38, 0x20, 0x63, 0x6f, 0x6e, 0x74, 0x65, 0x6e, 0x74,
];

/// What a file header says: the path of the entry and its signature, if it
/// is signed.
#[derive(Debug, PartialEq, Eq)]
pub struct FileHeader {
    pub path: Vec<u8>,
    pub signature: Option<Vec<u8>>,
}

/// The mathematical view of a `FileHeader`.
pub struct FileHeaderView {
    pub path: Seq<u8>,
    pub signature: Option<Seq<u8>>,
}

impl View for FileHeader {
    type V = FileHeaderView;

    open spec fn view(&self) -> FileHeaderView {
        FileHeaderView { path: self.path@, signature: optional_view(self.signature) }
    }
}

/// Why a line that begins like a header is none.
#[derive(Clone, Copy, Debug, PartialEq, Eq, Structural)]
pub enum HeaderError {
    /// The line does not end like a header.
    Malformed,
    /// The signature is not closed by a bracket.
    UnclosedSignature,
    /// The line is the header of a key record, not of a file.
    KeyRecord,
    /// The line has neither the signed nor the unsigned form.
    Unrecognized,
}

/// The header line of an unsigned entry.
pub open spec fn unsigned_header(path: Seq<u8>) -> Seq<u8> {
    HEADER_MARKER@ + path + HEADER_END@
}

/// The header line of a signed entry.
pub open spec fn signed_header(path: Seq<u8>, signature: Seq<u8>) -> Seq<u8> {
    HEADER_MARKER@ + path + SIGNATURE_OPEN@ + signature + seq![BRACKET_CLOSE]
}

/// The header line of an entry.
pub open spec fn header_line(header: FileHeaderView) -> Seq<u8> {
    match header.signature {
        Some(signature) => signed_header(header.path, signature),
        None => unsigned_header(header.path),
    }
}

/// The header line of the key record for the base64 text of a key.
pub open spec fn key_record_header(key_text: Seq<u8>) -> Seq<u8> {
    KEY_RECORD_OPEN@ + key_text + seq![BRACKET_CLOSE]
}

/// Whether a line begins with the header marker.
pub open spec fn is_header_line(line: Seq<u8>) -> bool {
    HEADER_MARKER@.is_prefix_of(line)
}

/// Whether a line is the header of a key record.
pub open spec fn is_key_record_header(line: Seq<u8>) -> bool {
    KEY_RECORD_OPEN@.is_prefix_of(line) && seq![BRACKET_CLOSE].is_suffix_of(line)
}

/// The text between `[KEY:` and the closing bracket of a key record header.
pub open spec fn key_record_text(line: Seq<u8>) -> Seq<u8> {
    line.subrange(KEY_RECORD_OPEN@.len() as int, line.len() - 1)
}

/// What a header line says, or why it is no header.
///
/// White space at the ends of the line and of the path does not count. In
/// the signed form the signature is what stands between the last
/// ` --- [SIGNATURE:` and the closing bracket; in the unsigned form the path
/// is what stands between the marker and the closing ` ---`.
pub open spec fn parse_header(line: Seq<u8>) -> Result<FileHeaderView, HeaderError> {
    let t = trim(line);
    if !HEADER_MARKER@.is_prefix_of(t) || !(HEADER_END@.is_suffix_of(t) || seq![
        BRACKET_CLOSE,
    ].is_suffix_of(t)) {
        Err(HeaderError::Malformed)
    } else {
        let content = t.skip(HEADER_MARKER@.len() as int);
        match last_occurrence(content, SIGNATURE_OPEN@) {
            Some(at) => {
                let rest = content.skip(at + SIGNATURE_OPEN@.len());
                if seq![BRACKET_CLOSE].is_suffix_of(rest) {
                    Ok(
                        FileHeaderView {
                            path: trim(content.take(at)),
                            signature: Some(rest.drop_last()),
                        },
                    )
                } else {
                    Err(HeaderError::UnclosedSignature)
                }
            },
            None => {
                if HEADER_END@.is_suffix_of(content) {
                    Ok(
                        FileHeaderView {
                            path: trim(content.take(content.len() - HEADER_END@.len())),
                            signature: None,
                        },
                    )
                } else if KEY_PATH_OPEN@.is_prefix_of(content) {
                    Err(HeaderError::KeyRecord)
                } else {
                    Err(HeaderError::Unrecognized)
                }
            },
        }
    }
}

/// Whether a path can stand in a header line, signed or not, and be read
/// back from it: it holds no line feed and has no white space at its ends;
/// in a signed header it does not begin with `PUBLIC_KEY --- [KEY:`, and in
/// an unsigned header it does not hold ` --- [SIGNATURE:`.
pub open spec fn is_recordable_path(path: Seq<u8>, signed: bool) -> bool {
    &&& has_no(path, LINE_FEED)
    &&& is_trimmed(path)
    &&& if signed {
        !KEY_PATH_OPEN@.is_prefix_of(path)
    } else {
        forall|i: int| !occurs_at(path, SIGNATURE_OPEN@, i)
    }
}

/// Whether a text can stand in brackets in a header line: it holds base64
/// symbols only.
pub open spec fn is_bracket_text(text: Seq<u8>) -> bool {
    forall|i: int| 0 <= i < text.len() ==> is_base64_symbol(#[trigger] text[i])
}

/// A line that begins with the header marker and ends with `-` or `]` has
/// no white space at its ends.
proof fn lemma_header_is_trimmed(line: Seq<u8>)
    requires
        HEADER_MARKER@.is_prefix_of(line),
        line.last() == 0x2d || line.last() == BRACKET_CLOSE,
    ensures
        trim(line) == line,
{
    assert(line[0] == HEADER_MARKER@[0]);
    lemma_trim_of_trimmed(line);
}

/// What follows the marker in the header of an unsigned entry holds no
/// ` --- [SIGNATURE:`.
proof fn lemma_unsigned_header_holds_no_signature(path: Seq<u8>)
    requires
        forall|i: int| !occurs_at(path, SIGNATURE_OPEN@, i),
    ensures
        last_occurrence(path + HEADER_END@, SIGNATURE_OPEN@) is None,
{
    let n = path.len() as int;
    let content = path + HEADER_END@;
    assert forall|j: int| !occurs_at(content, SIGNATURE_OPEN@, j) by {
        if occurs_at(content, SIGNATURE_OPEN@, j) {
            let found = content.subrange(j, j + 16);
            if j + 16 <= n {
                assert(path.subrange(j, j + 16) =~= found);
                assert(occurs_at(path, SIGNATURE_OPEN@, j));
            } else {
                assert(found[15] == content[j + 15]);
                assert(content[j + 15] == HEADER_END@[j + 15 - n]);
                assert(SIGNATURE_OPEN@[15] == 0x3a);
            }
        }
    }
    lemma_last_occurrence(content, SIGNATURE_OPEN@);
}

/// The header of an unsigned entry is a clean line.
proof fn lemma_unsigned_header_is_clean(path: Seq<u8>)
    requires
        has_no(path, LINE_FEED),
    ensures
        is_clean_line(unsigned_header(path)),
{
    let line = unsigned_header(path);
    let n = path.len() as int;
    assert(line.last() == HEADER_END@[3]);
    assert forall|i: int| 0 <= i < line.len() implies line[i] != LINE_FEED by {
        if i < 7 {
            assert(line[i] == HEADER_MARKER@[i]);
        } else if i < 7 + n {
            assert(line[i] == path[i - 7]);
        } else {
            assert(line[i] == HEADER_END@[i - 7 - n]);
        }
    }
}

/// The header of an unsigned entry is read back as it was written.
pub proof fn lemma_parse_unsigned_header(path: Seq<u8>)
    requires
        is_recordable_path(path, false),
    ensures
        parse_header(unsigned_header(path)) == Ok::<FileHeaderView, HeaderError>(
            FileHeaderView { path, signature: None },
        ),
        is_header_line(unsigned_header(path)),
        !is_key_record_header(unsigned_header(path)),
        is_clean_line(unsigned_header(path)),
        !is_blank(unsigned_header(path)),
{
    let line = unsigned_header(path);
    lemma_unsigned_header_holds_no_signature(path);
    lemma_unsigned_header_is_clean(path);
    assert(line.subrange(0, 7) =~= HEADER_MARKER@);
    assert(line.subrange(line.len() - 4, line.len() as int) =~= HEADER_END@);
    assert(line.last() == HEADER_END@[3]);
    lemma_header_is_trimmed(line);
    let content = line.skip(7);
    assert(content =~= path + HEADER_END@);
    assert(content.subrange(content.len() - 4, content.len() as int) =~= HEADER_END@);
    assert(content.take(content.len() - 4) =~= path);
    lemma_trim_of_trimmed(path);
    assert(!seq![BRACKET_CLOSE].is_suffix_of(line)) by {
        if seq![BRACKET_CLOSE].is_suffix_of(line) {
            assert(line.subrange(line.len() - 1, line.len() as int)[0] == BRACKET_CLOSE);
        }
    }
}

/// What follows the marker in the header of a signed entry.
spec fn signed_content(path: Seq<u8>, signature: Seq<u8>) -> Seq<u8> {
    path + SIGNATURE_OPEN@ + signature + seq![BRACKET_CLOSE]
}

/// In the header of a signed entry, the last ` --- [SIGNATURE:` is the one
/// that stands after the path.
proof fn lemma_signature_open_is_last(path: Seq<u8>, signature: Seq<u8>)
    requires
        is_bracket_text(signature),
    ensures
        last_occurrence(signed_content(path, signature), SIGNATURE_OPEN@) == Some(
            path.len() as int,
        ),
{
    let n = path.len() as int;
    let m = signature.len() as int;
    let content = signed_content(path, signature);
    assert(content.subrange(n, n + 16) =~= SIGNATURE_OPEN@);
    assert forall|j: int| j > n implies !occurs_at(content, SIGNATURE_OPEN@, j) by {
        if occurs_at(content, SIGNATURE_OPEN@, j) {
            let found = content.subrange(j, j + 16);
            assert(found[0] == content[j]);
            assert(found[1] == content[j + 1]);
            assert(SIGNATURE_OPEN@[0] == 0x20);
            assert(SIGNATURE_OPEN@[1] == 0x2d);
            if j < n + 16 {
                assert(content[j] == SIGNATURE_OPEN@[j - n]);
                assert(j == n + 4);
                assert(content[j + 1] == SIGNATURE_OPEN@[5]);
            } else if j < n + 16 + m {
                assert(content[j] == signature[j - n - 16]);
                assert(is_base64_symbol(signature[j - n - 16]));
            } else {
                assert(content[j] == BRACKET_CLOSE);
            }
        }
    }
    lemma_last_occurrence_is(content, SIGNATURE_OPEN@, n);
}

/// The header of a signed entry is not taken for the header of a key
/// record.
proof fn lemma_signed_header_is_no_key_record(path: Seq<u8>, signature: Seq<u8>)
    requires
        !KEY_PATH_OPEN@.is_prefix_of(path),
    ensures
        !KEY_RECORD_OPEN@.is_prefix_of(signed_header(path, signature)),
{
    let line = signed_header(path, signature);
    let n = path.len() as int;
    if KEY_RECORD_OPEN@.is_prefix_of(line) {
        let head = line.subrange(0, 27);
        assert forall|k: int| 0 <= k < 20 implies line[7 + k] == KEY_PATH_OPEN@[k] by {
            assert(head[7 + k] == line[7 + k]);
            assert(KEY_RECORD_OPEN@[7 + k] == KEY_PATH_OPEN@[k]);
        }
        if n >= 20 {
            assert(path.subrange(0, 20) =~= KEY_PATH_OPEN@) by {
                assert forall|k: int| 0 <= k < 20 implies path[k] == KEY_PATH_OPEN@[k] by {
                    assert(line[7 + k] == path[k]);
                }
            }
        } else {
            assert(line[7 + n] == SIGNATURE_OPEN@[0]);
            assert(line[7 + n + 1] == SIGNATURE_OPEN@[1]);
            assert(line[7 + n] == KEY_PATH_OPEN@[n]);
            assert(n == 10 || n == 14);
            if n == 10 {
                assert(line[23int] == SIGNATURE_OPEN@[6]);
                assert(line[23int] == KEY_PATH_OPEN@[16]);
            } else {
                assert(line[22int] == KEY_PATH_OPEN@[15]);
            }
        }
    }
}

/// The header of a signed entry is a clean line.
proof fn lemma_signed_header_is_clean(path: Seq<u8>, signature: Seq<u8>)
    requires
        has_no(path, LINE_FEED),
        is_bracket_text(signature),
    ensures
        is_clean_line(signed_header(path, signature)),
{
    let line = signed_header(path, signature);
    let n = path.len() as int;
    let m = signature.len() as int;
    assert(line.last() == BRACKET_CLOSE);
    assert forall|i: int| 0 <= i < line.len() implies line[i] != LINE_FEED by {
        if i < 7 {
            assert(line[i] == HEADER_MARKER@[i]);
        } else if i < 7 + n {
            assert(line[i] == path[i - 7]);
        } else if i < 7 + n + 16 {
            assert(line[i] == SIGNATURE_OPEN@[i - 7 - n]);
        } else if i < 7 + n + 16 + m {
            assert(line[i] == signature[i - 7 - n - 16]);
            assert(is_base64_symbol(signature[i - 7 - n - 16]));
        } else {
            assert(line[i] == BRACKET_CLOSE);
        }
    }
}

/// The header of a signed entry is read back as it was written.
pub proof fn lemma_parse_signed_header(path: Seq<u8>, signature: Seq<u8>)
    requires
        is_recordable_path(path, true),
        is_bracket_text(signature),
    ensures
        parse_header(signed_header(path, signature)) == Ok::<FileHeaderView, HeaderError>(
            FileHeaderView { path, signature: Some(signature) },
        ),
        is_header_line(signed_header(path, signature)),
        !is_key_record_header(signed_header(path, signature)),
        is_clean_line(signed_header(path, signature)),
        !is_blank(signed_header(path, signature)),
{
    let line = signed_header(path, signature);
    let n = path.len() as int;
    lemma_signed_header_is_no_key_record(path, signature);
    lemma_signed_header_is_clean(path, signature);
    lemma_signature_open_is_last(path, signature);
    assert(line.subrange(0, 7) =~= HEADER_MARKER@);
    assert(line.last() == BRACKET_CLOSE);
    assert(line.subrange(line.len() - 1, line.len() as int) =~= seq![BRACKET_CLOSE]);
    lemma_header_is_trimmed(line);
    let content = line.skip(7);
    assert(content =~= signed_content(path, signature));
    let rest = content.skip(n + 16);
    assert(rest =~= signature + seq![BRACKET_CLOSE]);
    assert(rest.subrange(rest.len() - 1, rest.len() as int) =~= seq![BRACKET_CLOSE]);
    assert(rest.drop_last() =~= signature);
    assert(content.take(n) =~= path);
    lemma_trim_of_trimmed(path);
}

/// The header of the key record is recognised, and the key text is read
/// back from it as it was written.
pub proof fn lemma_read_key_record_header(key_text: Seq<u8>)
    requires
        is_bracket_text(key_text),
    ensures
        is_key_record_header(key_record_header(key_text)),
        key_record_text(key_record_header(key_text)) == key_text,
        is_clean_line(key_record_header(key_text)),
        !is_blank(key_record_header(key_text)),
{
    let line = key_record_header(key_text);
    let m = key_text.len() as int;
    assert(line.subrange(0, 27) =~= KEY_RECORD_OPEN@);
    assert(line[0] == KEY_RECORD_OPEN@[0]);
    assert(line.last() == BRACKET_CLOSE);
    lemma_trim_of_trimmed(line);
    assert(line.subrange(line.len() - 1, line.len() as int) =~= seq![BRACKET_CLOSE]);
    assert(line.subrange(27, line.len() - 1) =~= key_text);
    assert(has_no_line_feed(line)) by {
        assert forall|i: int| 0 <= i < line.len() implies line[i] != LINE_FEED by {
            if i < 27 {
                assert(line[i] == KEY_RECORD_OPEN@[i]);
            } else if i < 27 + m {
                assert(line[i] == key_text[i - 27]);
                assert(is_base64_symbol(key_text[i - 27]));
            } else {
                assert(line[i] == BRACKET_CLOSE);
            }
        }
    }
    assert(line.last() == BRACKET_CLOSE);
}

/// Neither the terminator nor the empty line is a header, and both are
/// clean lines.
pub proof fn lemma_plain_lines()
    ensures
        !is_header_line(TERMINATOR@),
        !is_key_record_header(TERMINATOR@),
        is_clean_line(TERMINATOR@),
        !is_header_line(Seq::<u8>::empty()),
        !is_key_record_header(Seq::<u8>::empty()),
        is_clean_line(Seq::<u8>::empty()),
        !is_header_line(BINARY_SENTINEL@),
        !is_key_record_header(BINARY_SENTINEL@),
        is_clean_line(BINARY_SENTINEL@),
        TERMINATOR@ != BINARY_SENTINEL@,
        !is_blank(TERMINATOR@),
        !is_blank(BINARY_SENTINEL@),
        is_blank(Seq::<u8>::empty()),
{
    lemma_trim_of_trimmed(TERMINATOR@);
    lemma_trim_of_trimmed(BINARY_SENTINEL@);
    assert(BINARY_SENTINEL@.len() == 32);
    assert(TERMINATOR@.len() == 3);
    assert(BINARY_SENTINEL@[0] == 0x5b);
    if is_header_line(BINARY_SENTINEL@) {
        assert(BINARY_SENTINEL@.subrange(0, 7)[0] == HEADER_MARKER@[0]);
    }
    if is_key_record_header(BINARY_SENTINEL@) {
        assert(BINARY_SENTINEL@.subrange(0, 27)[0] == KEY_RECORD_OPEN@[0]);
    }
    assert(has_no_line_feed(TERMINATOR@));
    assert(has_no_line_feed(BINARY_SENTINEL@));
    assert(BINARY_SENTINEL@.last() == 0x5d);
    assert(TERMINATOR@.last() == 0x27);
}

/// Writes the header line of an entry, without a line feed.
pub fn format_header(path: &[u8], signature: Option<&[u8]>) -> (line: Vec<u8>)
    ensures
        line@ == match signature {
            Some(s) => signed_header(path@, s@),
            None => unsigned_header(path@),
        },
{
    let mut line: Vec<u8> = Vec::new();
    line.extend_from_slice(HEADER_MARKER.as_slice());
    line.extend_from_slice(path);
    match signature {
        Some(s) => {
            line.extend_from_slice(SIGNATURE_OPEN.as_slice());
            line.extend_from_slice(s);
            line.push(BRACKET_CLOSE);
            assert(line@ =~= signed_header(path@, s@));
        },
        None => {
            line.extend_from_slice(HEADER_END.as_slice());
            assert(line@ =~= unsigned_header(path@));
        },
    }
    line
}

/// Writes the header line of the key record, without a line feed.
pub fn format_key_record(key_text: &[u8]) -> (line: Vec<u8>)
    ensures
        line@ == key_record_header(key_text@),
{
    let mut line: Vec<u8> = Vec::new();
    line.extend_from_slice(KEY_RECORD_OPEN.as_slice());
    line.extend_from_slice(key_text);
    line.push(BRACKET_CLOSE);
    assert(line@ =~= key_record_header(key_text@));
    line
}

/// Whether a line begins with the header marker.
pub fn begins_header(line: &[u8]) -> (found: bool)
    ensures
        found == is_header_line(line@),
{
    starts_with(line, HEADER_MARKER.as_slice())
}

/// The key text of a key record header, or `None` if the line is no such
/// header.
pub fn key_text_of(line: &[u8]) -> (text: Option<&[u8]>)
    ensures
        text is Some <==> is_key_record_header(line@),
        text matches Some(t) ==> t@ == key_record_text(line@),
{
    let close: [u8; 1] = [BRACKET_CLOSE];
    assert(close@ =~= seq![BRACKET_CLOSE]);
    if starts_with(line, KEY_RECORD_OPEN.as_slice()) && ends_with(line, close.as_slice()) {
        assert(line@.len() > KEY_RECORD_OPEN@.len()) by {
            if line@.len() == KEY_RECORD_OPEN@.len() {
                assert(line@[26] == line@.subrange(0, 27)[26]);
                assert(line@[26] == line@.subrange(26, 27)[0]);
            }
        }
        Some(slice_subrange(line, KEY_RECORD_OPEN.len(), line.len() - 1))
    } else {
        None
    }
}

/// Reads a header line.
///
/// Returns the path and the signature, if there is one, of a line in the
/// signed or the unsigned form, and otherwise the reason for which the line
/// is no file header.
pub fn parse_file_header(line: &[u8]) -> (header: Result<FileHeader, HeaderError>)
    ensures
        header matches Ok(h) ==> parse_header(line@) == Ok::<FileHeaderView, HeaderError>(h@),
        header matches Err(e) ==> parse_header(line@) == Err::<FileHeaderView, HeaderError>(e),
{
    let t = trimmed(line);
    let close: [u8; 1] = [BRACKET_CLOSE];
    assert(close@ =~= seq![BRACKET_CLOSE]);
    if !starts_with(t, HEADER_MARKER.as_slice()) || !(ends_with(t, HEADER_END.as_slice())
        || ends_with(t, close.as_slice())) {
        return Err(HeaderError::Malformed);
    }
    let content = slice_subrange(t, HEADER_MARKER.len(), t.len());
    match find_last(content, SIGNATURE_OPEN.as_slice()) {
        Some(at) => {
            proof {
                lemma_last_occurrence(content@, SIGNATURE_OPEN@);
            }
            let rest = slice_subrange(content, at + SIGNATURE_OPEN.len(), content.len());
            if ends_with(rest, close.as_slice()) {
                let path = slice_to_vec(trimmed(slice_subrange(content, 0, at)));
                let signature = slice_to_vec(slice_subrange(rest, 0, rest.len() - 1));
                Ok(FileHeader { path, signature: Some(signature) })
            } else {
                Err(HeaderError::UnclosedSignature)
            }
        },
        None => {
            if ends_with(content, HEADER_END.as_slice()) {
                let path = slice_to_vec(
                    trimmed(slice_subrange(content, 0, content.len() - HEADER_END.len())),
                );
                Ok(FileHeader { path, signature: None })
            } else if starts_with(content, KEY_PATH_OPEN.as_slice()) {
                Err(HeaderError::KeyRecord)
            } else {
                Err(HeaderError::Unrecognized)
            }
        },
    }
}

} // verus!
