//! Byte strings: comparison, search and white space.
//!
//! Archives are UTF-8 text, and this library handles them as bytes. White
//! space is recognised by the UTF-8 encodings of the characters that Unicode
//! gives the property `White_Space`.

use vstd::prelude::*;
use vstd::slice::slice_subrange;
use vstd::slice::slice_to_vec;

verus! {

/// The byte string that an optional vector holds, if any.
pub open spec fn optional_view(v: Option<Vec<u8>>) -> Option<Seq<u8>> {
    match v {
        Some(bytes) => Some(bytes@),
        None => None,
    }
}

/// The byte strings that a vector of vectors holds.
pub open spec fn views(v: Seq<Vec<u8>>) -> Seq<Seq<u8>> {
    Seq::new(v.len(), |i: int| v[i]@)
}

/// Whether `a` and `b` hold the same bytes.
pub fn equal(a: &[u8], b: &[u8]) -> (same: bool)
    ensures
        same == (a@ == b@),
{
    if a.len() != b.len() {
        return false;
    }
    let mut i: usize = 0;
    while i < a.len()
        invariant
            a@.len() == b@.len(),
            i <= a@.len(),
            a@.take(i as int) == b@.take(i as int),
        decreases a@.len() - i,
    {
        if a[i] != b[i] {
            return false;
        }
        assert(a@.take(i + 1) =~= a@.take(i as int).push(a@[i as int]));
        assert(b@.take(i + 1) =~= b@.take(i as int).push(b@[i as int]));
        i = i + 1;
    }
    assert(a@ =~= a@.take(i as int));
    assert(b@ =~= b@.take(i as int));
    true
}

/// Whether `s` holds no byte `b`.
pub open spec fn has_no(s: Seq<u8>, b: u8) -> bool {
    forall|i: int| 0 <= i < s.len() ==> s[i] != b
}

/// Index of the first byte `b` in `s`, or the length of `s` if there is
/// none.
pub open spec fn first_index(s: Seq<u8>, b: u8) -> nat
    decreases s.len(),
{
    if s.len() == 0 || s[0] == b {
        0
    } else {
        1 + first_index(s.skip(1), b)
    }
}

/// `first_index` is the index of the first byte `b`.
pub proof fn lemma_first_index(s: Seq<u8>, b: u8)
    ensures
        first_index(s, b) <= s.len(),
        has_no(s.take(first_index(s, b) as int), b),
        first_index(s, b) < s.len() ==> s[first_index(s, b) as int] == b,
    decreases s.len(),
{
    if s.len() == 0 || s[0] == b {
    } else {
        lemma_first_index(s.skip(1), b);
        let e = first_index(s, b) as int;
        let head = s.take(e);
        assert forall|i: int| 0 <= i < head.len() implies head[i] != b by {
            if i > 0 {
                assert(s.skip(1).take(e - 1)[i - 1] == s[i]);
            }
        }
    }
}

/// An index that holds `b`, or the length, before which there is no `b` is
/// `first_index`.
pub proof fn lemma_first_index_is(s: Seq<u8>, b: u8, end: int)
    requires
        0 <= end <= s.len(),
        has_no(s.take(end), b),
        end < s.len() ==> s[end] == b,
    ensures
        first_index(s, b) == end,
    decreases s.len(),
{
    if s.len() == 0 {
    } else if s[0] == b {
        if end > 0 {
            assert(s.take(end)[0] == b);
        }
    } else {
        assert(end > 0);
        let head = s.skip(1).take(end - 1);
        assert forall|i: int| 0 <= i < head.len() implies head[i] != b by {
            assert(s.take(end)[i + 1] == s[i + 1]);
        }
        lemma_first_index_is(s.skip(1), b, end - 1);
    }
}

/// Index of the first byte `b` at or after `start`, or the length of
/// `bytes` if there is none.
pub fn find_byte(bytes: &[u8], start: usize, b: u8) -> (end: usize)
    requires
        start <= bytes@.len(),
    ensures
        end == start + first_index(bytes@.skip(start as int), b),
        start <= end <= bytes@.len(),
{
    let mut end: usize = start;
    while end < bytes.len() && bytes[end] != b
        invariant
            start <= end <= bytes@.len(),
            has_no(bytes@.skip(start as int).take(end - start), b),
        decreases bytes@.len() - end,
    {
        proof {
            let longer = bytes@.skip(start as int).take(end + 1 - start);
            assert forall|i: int| 0 <= i < longer.len() implies longer[i] != b by {
                if i < end - start {
                    assert(bytes@.skip(start as int).take(end - start)[i] == bytes@[start + i]);
                }
            }
        }
        end = end + 1;
    }
    proof {
        lemma_first_index_is(bytes@.skip(start as int), b, end - start);
    }
    end
}

/// The parts with the byte `separator` between each two of them.
pub open spec fn join(parts: Seq<Seq<u8>>, separator: u8) -> Seq<u8>
    decreases parts.len(),
{
    if parts.len() == 0 {
        Seq::empty()
    } else if parts.len() == 1 {
        parts[0]
    } else {
        parts[0] + seq![separator] + join(parts.drop_first(), separator)
    }
}

/// Joining takes one more part at the end.
pub proof fn lemma_join_push(parts: Seq<Seq<u8>>, separator: u8, part: Seq<u8>)
    ensures
        join(parts.push(part), separator) == if parts.len() == 0 {
            part
        } else {
            join(parts, separator) + seq![separator] + part
        },
    decreases parts.len(),
{
    if parts.len() == 0 {
        assert(parts.push(part)[0] == part);
    } else {
        assert(parts.push(part).drop_first() =~= parts.drop_first().push(part));
        lemma_join_push(parts.drop_first(), separator, part);
        if parts.len() == 1 {
            assert(parts.drop_first().len() == 0);
            assert(join(parts.push(part), separator) =~= parts[0] + seq![separator] + part);
        } else {
            assert(join(parts.push(part), separator) =~= join(parts, separator) + seq![separator]
                + part);
        }
    }
}

/// Joins parts with the byte `separator` between each two of them.
pub fn join_with(parts: &[Vec<u8>], separator: u8) -> (joined: Vec<u8>)
    ensures
        joined@ == join(views(parts@), separator),
{
    let mut joined: Vec<u8> = Vec::new();
    let mut i: usize = 0;
    assert(views(parts@).take(0) =~= Seq::<Seq<u8>>::empty());
    while i < parts.len()
        invariant
            i <= parts@.len(),
            joined@ == join(views(parts@).take(i as int), separator),
        decreases parts@.len() - i,
    {
        if i > 0 {
            joined.push(separator);
        }
        let ghost before = joined@;
        joined.extend_from_slice(parts[i].as_slice());
        proof {
            assert(joined@ =~= before + parts@[i as int]@);
            assert(views(parts@).take(i + 1) =~= views(parts@).take(i as int).push(
                parts@[i as int]@,
            ));
            lemma_join_push(views(parts@).take(i as int), separator, parts@[i as int]@);
        }
        i = i + 1;
    }
    assert(views(parts@).take(i as int) =~= views(parts@));
    joined
}

/// The byte strings between the bytes `separator` of `s`. There is one more
/// of them than there are separators.
pub open spec fn split(s: Seq<u8>, separator: u8) -> Seq<Seq<u8>>
    decreases s.len(),
{
    let end = first_index(s, separator) as int;
    if end < s.len() {
        seq![s.take(end)] + split(s.skip(end + 1), separator)
    } else {
        seq![s]
    }
}

/// Splits `bytes` at every byte `separator`.
pub fn split_on(bytes: &[u8], separator: u8) -> (parts: Vec<Vec<u8>>)
    ensures
        views(parts@) == split(bytes@, separator),
{
    let mut parts: Vec<Vec<u8>> = Vec::new();
    let mut start: usize = 0;
    let mut done = false;
    proof {
        assert(bytes@.skip(0) =~= bytes@);
        assert(views(parts@) =~= Seq::<Seq<u8>>::empty());
        assert(Seq::<Seq<u8>>::empty() + split(bytes@, separator) =~= split(bytes@, separator));
    }
    while !done
        invariant
            start <= bytes@.len(),
            !done ==> views(parts@) + split(bytes@.skip(start as int), separator) == split(
                bytes@,
                separator,
            ),
            done ==> views(parts@) == split(bytes@, separator),
        decreases bytes@.len() - start + if done { 0int } else { 1int },
    {
        let end = find_byte(bytes, start, separator);
        let part = slice_to_vec(slice_subrange(bytes, start, end));
        let ghost rest = bytes@.skip(start as int);
        let ghost before = views(parts@);
        proof {
            assert(rest.take(end - start) =~= part@);
        }
        parts.push(part);
        proof {
            assert(views(parts@) =~= before.push(part@));
        }
        if end < bytes.len() {
            proof {
                assert(rest.skip(end - start + 1) =~= bytes@.skip(end + 1));
                let tail = split(bytes@.skip(end + 1), separator);
                assert(before.push(part@) + tail =~= before + (seq![part@] + tail));
            }
            start = end + 1;
        } else {
            proof {
                assert(rest.take(end - start) =~= rest);
                assert(before.push(part@) =~= before + seq![rest]);
            }
            done = true;
        }
    }
    parts
}

/// Whether `needle` stands in `hay` at index `i`.
pub open spec fn occurs_at(hay: Seq<u8>, needle: Seq<u8>, i: int) -> bool {
    0 <= i && i + needle.len() <= hay.len() && hay.subrange(i, i + needle.len()) == needle
}

/// Whether `needle` stands in `hay` at index `at`.
pub fn matches_at(hay: &[u8], needle: &[u8], at: usize) -> (found: bool)
    ensures
        found == occurs_at(hay@, needle@, at as int),
{
    if at > hay.len() || needle.len() > hay.len() - at {
        return false;
    }
    equal(slice_subrange(hay, at, at + needle.len()), needle)
}

/// Whether `s` begins with `prefix`.
pub fn starts_with(s: &[u8], prefix: &[u8]) -> (found: bool)
    ensures
        found == prefix@.is_prefix_of(s@),
{
    matches_at(s, prefix, 0)
}

/// Whether `s` ends with `suffix`.
pub fn ends_with(s: &[u8], suffix: &[u8]) -> (found: bool)
    ensures
        found == suffix@.is_suffix_of(s@),
{
    if suffix.len() > s.len() {
        return false;
    }
    matches_at(s, suffix, s.len() - suffix.len())
}

/// The greatest index up to `from` at which `needle` stands in `hay`.
pub open spec fn last_occurrence_up_to(hay: Seq<u8>, needle: Seq<u8>, from: int) -> Option<int>
    decreases from + 1,
{
    if from < 0 {
        None
    } else if occurs_at(hay, needle, from) {
        Some(from)
    } else {
        last_occurrence_up_to(hay, needle, from - 1)
    }
}

/// The greatest index at which `needle` stands in `hay`.
pub open spec fn last_occurrence(hay: Seq<u8>, needle: Seq<u8>) -> Option<int> {
    last_occurrence_up_to(hay, needle, hay.len() - needle.len())
}

/// `last_occurrence_up_to` finds an occurrence, and none lies between it and
/// `from`.
pub proof fn lemma_last_occurrence_up_to(hay: Seq<u8>, needle: Seq<u8>, from: int)
    ensures
        match last_occurrence_up_to(hay, needle, from) {
            Some(i) => 0 <= i <= from && occurs_at(hay, needle, i) && forall|j: int|
                i < j <= from ==> !occurs_at(hay, needle, j),
            None => forall|j: int| j <= from ==> !occurs_at(hay, needle, j),
        },
    decreases from + 1,
{
    if from >= 0 && !occurs_at(hay, needle, from) {
        lemma_last_occurrence_up_to(hay, needle, from - 1);
    }
}

/// `last_occurrence` finds the last occurrence, or none where there is none.
pub proof fn lemma_last_occurrence(hay: Seq<u8>, needle: Seq<u8>)
    ensures
        match last_occurrence(hay, needle) {
            Some(i) => occurs_at(hay, needle, i) && forall|j: int|
                j > i ==> !occurs_at(hay, needle, j),
            None => forall|j: int| !occurs_at(hay, needle, j),
        },
{
    lemma_last_occurrence_up_to(hay, needle, hay.len() - needle.len());
}

/// An occurrence after which there is no other is the last one.
pub proof fn lemma_last_occurrence_is(hay: Seq<u8>, needle: Seq<u8>, i: int)
    requires
        occurs_at(hay, needle, i),
        forall|j: int| j > i ==> !occurs_at(hay, needle, j),
    ensures
        last_occurrence(hay, needle) == Some(i),
{
    lemma_last_occurrence(hay, needle);
}

/// The index of the last occurrence of `needle` in `hay`.
pub fn find_last(hay: &[u8], needle: &[u8]) -> (found: Option<usize>)
    ensures
        found matches Some(i) ==> last_occurrence(hay@, needle@) == Some(i as int) && i
            + needle@.len() <= hay@.len(),
        found is None ==> last_occurrence(hay@, needle@) is None,
{
    if needle.len() > hay.len() {
        return None;
    }
    let mut at: usize = hay.len() - needle.len();
    loop
        invariant
            needle@.len() <= hay@.len(),
            at <= hay@.len() - needle@.len(),
            last_occurrence(hay@, needle@) == last_occurrence_up_to(hay@, needle@, at as int),
        decreases at,
    {
        if matches_at(hay, needle, at) {
            return Some(at);
        }
        if at == 0 {
            assert(last_occurrence_up_to(hay@, needle@, -1) is None);
            return None;
        }
        at = at - 1;
    }
}

/// One of the white-space characters below U+0080: tab, line feed, vertical
/// tab, form feed, carriage return, space.
pub open spec fn is_ascii_whitespace(b: u8) -> bool {
    (0x09 <= b <= 0x0d) || b == 0x20
}

/// The UTF-8 encoding of U+0085 or U+00A0.
pub open spec fn is_whitespace_pair(a: u8, b: u8) -> bool {
    a == 0xc2 && (b == 0x85 || b == 0xa0)
}

/// The UTF-8 encoding of U+1680, U+2000 to U+200A, U+2028, U+2029, U+202F,
/// U+205F or U+3000.
pub open spec fn is_whitespace_triple(a: u8, b: u8, c: u8) -> bool {
    ||| a == 0xe1 && b == 0x9a && c == 0x80
    ||| a == 0xe2 && b == 0x80 && ((0x80 <= c <= 0x8a) || c == 0xa8 || c == 0xa9 || c == 0xaf)
    ||| a == 0xe2 && b == 0x81 && c == 0x9f
    ||| a == 0xe3 && b == 0x80 && c == 0x80
}

/// Length of the encoded white-space character that `s` begins with, or 0
/// if it begins with none.
pub open spec fn whitespace_prefix_len(s: Seq<u8>) -> nat {
    if s.len() >= 1 && is_ascii_whitespace(s[0]) {
        1
    } else if s.len() >= 2 && is_whitespace_pair(s[0], s[1]) {
        2
    } else if s.len() >= 3 && is_whitespace_triple(s[0], s[1], s[2]) {
        3
    } else {
        0
    }
}

/// Length of the encoded white-space character that `s` ends with, or 0 if
/// it ends with none.
pub open spec fn whitespace_suffix_len(s: Seq<u8>) -> nat {
    let n = s.len() as int;
    if n >= 1 && is_ascii_whitespace(s[n - 1]) {
        1
    } else if n >= 2 && is_whitespace_pair(s[n - 2], s[n - 1]) {
        2
    } else if n >= 3 && is_whitespace_triple(s[n - 3], s[n - 2], s[n - 1]) {
        3
    } else {
        0
    }
}

/// `s` without the white space that it begins with.
pub open spec fn trim_start(s: Seq<u8>) -> Seq<u8>
    decreases s.len(),
{
    let n = whitespace_prefix_len(s);
    if n == 0 {
        s
    } else {
        trim_start(s.skip(n as int))
    }
}

/// `s` without the white space that it ends with.
pub open spec fn trim_end(s: Seq<u8>) -> Seq<u8>
    decreases s.len(),
{
    let n = whitespace_suffix_len(s);
    if n == 0 {
        s
    } else {
        trim_end(s.take(s.len() - n))
    }
}

/// `s` without the white space at its two ends.
pub open spec fn trim(s: Seq<u8>) -> Seq<u8> {
    trim_end(trim_start(s))
}

/// Whether `s` holds white space only. The empty string is blank.
pub open spec fn is_blank(s: Seq<u8>) -> bool {
    trim(s).len() == 0
}

/// Whether `s` has no white space at either end.
pub open spec fn is_trimmed(s: Seq<u8>) -> bool {
    whitespace_prefix_len(s) == 0 && whitespace_suffix_len(s) == 0
}

/// Trimming leaves a string that has no white space at its ends as it is.
pub proof fn lemma_trim_of_trimmed(s: Seq<u8>)
    requires
        is_trimmed(s),
    ensures
        trim(s) == s,
{
}

/// Whether a byte is a white-space character below U+0080.
fn ascii_whitespace(b: u8) -> (found: bool)
    ensures
        found == is_ascii_whitespace(b),
{
    (0x09 <= b && b <= 0x0d) || b == 0x20
}

/// Whether two bytes encode U+0085 or U+00A0.
fn whitespace_pair(a: u8, b: u8) -> (found: bool)
    ensures
        found == is_whitespace_pair(a, b),
{
    a == 0xc2 && (b == 0x85 || b == 0xa0)
}

/// Whether three bytes encode a white-space character from U+0800 on.
fn whitespace_triple(a: u8, b: u8, c: u8) -> (found: bool)
    ensures
        found == is_whitespace_triple(a, b, c),
{
    if a == 0xe1 {
        b == 0x9a && c == 0x80
    } else if a == 0xe2 {
        if b == 0x80 {
            (0x80 <= c && c <= 0x8a) || c == 0xa8 || c == 0xa9 || c == 0xaf
        } else {
            b == 0x81 && c == 0x9f
        }
    } else {
        a == 0xe3 && b == 0x80 && c == 0x80
    }
}

/// Length of the encoded white-space character that `s` begins with.
pub fn leading_whitespace(s: &[u8]) -> (n: usize)
    ensures
        n == whitespace_prefix_len(s@),
{
    let len = s.len();
    if len >= 1 && ascii_whitespace(s[0]) {
        1
    } else if len >= 2 && whitespace_pair(s[0], s[1]) {
        2
    } else if len >= 3 && whitespace_triple(s[0], s[1], s[2]) {
        3
    } else {
        0
    }
}

/// Length of the encoded white-space character that `s` ends with.
pub fn trailing_whitespace(s: &[u8]) -> (n: usize)
    ensures
        n == whitespace_suffix_len(s@),
{
    let len = s.len();
    if len >= 1 && ascii_whitespace(s[len - 1]) {
        1
    } else if len >= 2 && whitespace_pair(s[len - 2], s[len - 1]) {
        2
    } else if len >= 3 && whitespace_triple(s[len - 3], s[len - 2], s[len - 1]) {
        3
    } else {
        0
    }
}

/// The part of `s` between the white space at its two ends.
pub fn trimmed(s: &[u8]) -> (t: &[u8])
    ensures
        t@ == trim(s@),
{
    let mut rest = s;
    loop
        invariant
            trim_start(rest@) == trim_start(s@),
        ensures
            whitespace_prefix_len(rest@) == 0,
        decreases rest@.len(),
    {
        let n = leading_whitespace(rest);
        if n == 0 {
            break;
        }
        rest = slice_subrange(rest, n, rest.len());
    }
    let ghost start = rest@;
    loop
        invariant
            trim_end(rest@) == trim_end(start),
            start == trim_start(s@),
        ensures
            whitespace_suffix_len(rest@) == 0,
        decreases rest@.len(),
    {
        let n = trailing_whitespace(rest);
        if n == 0 {
            break;
        }
        rest = slice_subrange(rest, 0, rest.len() - n);
    }
    rest
}

/// Whether `s` holds white space only.
pub fn blank(s: &[u8]) -> (b: bool)
    ensures
        b == is_blank(s@),
{
    trimmed(s).len() == 0
}

} // verus!
