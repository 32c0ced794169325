//! Splitting text into lines and joining lines into text.
//!
//! A line ends at a line feed. Read as text, a carriage return directly
//! before that line feed belongs to the line ending and not to the line,
//! and a last line that no line feed ends is taken as it is. Read as they
//! stand, lines keep their carriage returns.

use vstd::prelude::*;
use vstd::slice::slice_subrange;
use vstd::slice::slice_to_vec;
use crate::bytes::{
    find_byte, first_index, has_no, join, join_with, lemma_first_index, lemma_first_index_is, views,
};

verus! {

/// The line feed, which ends a line.
pub const LINE_FEED: u8 = 10;

/// The carriage return, which may stand before a line feed.
pub const CARRIAGE_RETURN: u8 = 13;

/// Whether `s` holds no line feed.
pub open spec fn has_no_line_feed(s: Seq<u8>) -> bool {
    has_no(s, LINE_FEED)
}

/// Index of the first line feed in `s`, or the length of `s` if there is
/// none.
pub open spec fn line_end(s: Seq<u8>) -> nat {
    first_index(s, LINE_FEED)
}

/// `line` without the carriage return at its end, if it has one.
pub open spec fn strip_carriage_return(line: Seq<u8>) -> Seq<u8> {
    if ends_with_carriage_return(line) {
        line.drop_last()
    } else {
        line
    }
}

/// The lines of `s`. A text that ends with a line feed has no empty line
/// after it, and the empty text has no lines.
pub open spec fn split_lines(s: Seq<u8>) -> Seq<Seq<u8>>
    decreases s.len(),
{
    if s.len() == 0 {
        Seq::empty()
    } else {
        let end = line_end(s) as int;
        if end < s.len() {
            seq![strip_carriage_return(s.take(end))] + split_lines(s.skip(end + 1))
        } else {
            seq![s]
        }
    }
}

/// The lines of `s` as they stand: what is between the line feeds, with
/// every carriage return kept. A text that ends with a line feed has no
/// empty line after it, and the empty text has no lines.
pub open spec fn raw_lines(s: Seq<u8>) -> Seq<Seq<u8>>
    decreases s.len(),
{
    if s.len() == 0 {
        Seq::empty()
    } else {
        let end = line_end(s) as int;
        if end < s.len() {
            seq![s.take(end)] + raw_lines(s.skip(end + 1))
        } else {
            seq![s]
        }
    }
}

/// The lines with a line feed between each two of them.
pub open spec fn join_lines(lines: Seq<Seq<u8>>) -> Seq<u8> {
    join(lines, LINE_FEED)
}

/// The lines with a line feed after each of them.
pub open spec fn terminate_lines(lines: Seq<Seq<u8>>) -> Seq<u8>
    decreases lines.len(),
{
    if lines.len() == 0 {
        Seq::empty()
    } else {
        lines[0] + seq![LINE_FEED] + terminate_lines(lines.drop_first())
    }
}

/// Terminating takes one more line at the end.
pub proof fn lemma_terminate_lines_push(lines: Seq<Seq<u8>>, line: Seq<u8>)
    ensures
        terminate_lines(lines.push(line)) == terminate_lines(lines) + line + seq![LINE_FEED],
    decreases lines.len(),
{
    if lines.len() == 0 {
        assert(lines.push(line).drop_first() =~= Seq::<Seq<u8>>::empty());
        assert(lines.push(line)[0] == line);
        assert(terminate_lines(lines.push(line).drop_first()) =~= Seq::<u8>::empty());
        assert(terminate_lines(lines.push(line)) =~= line + seq![LINE_FEED]);
        assert(terminate_lines(lines) + line + seq![LINE_FEED] =~= line + seq![LINE_FEED]);
    } else {
        assert(lines.push(line).drop_first() =~= lines.drop_first().push(line));
        lemma_terminate_lines_push(lines.drop_first(), line);
        assert(terminate_lines(lines.push(line)) =~= terminate_lines(lines) + line
            + seq![LINE_FEED]);
    }
}

/// Whether a text is empty or ends with a line feed.
pub open spec fn ends_lines(s: Seq<u8>) -> bool {
    s.len() > 0 ==> s.last() == LINE_FEED
}

/// Whether a line ends with a carriage return.
pub open spec fn ends_with_carriage_return(line: Seq<u8>) -> bool {
    line.len() > 0 && line.last() == CARRIAGE_RETURN
}

/// Whether a line holds no line feed and does not end with a carriage
/// return: it is written and read back as it is.
pub open spec fn is_clean_line(line: Seq<u8>) -> bool {
    has_no_line_feed(line) && !ends_with_carriage_return(line)
}

/// Whether no carriage return of a text stands directly before a line
/// feed or at the very end: splitting the text into lines loses nothing.
pub open spec fn has_plain_line_ends(s: Seq<u8>) -> bool {
    forall|i: int|
        0 <= i < s.len() && #[trigger] s[i] == CARRIAGE_RETURN ==> i + 1 < s.len() && s[i + 1]
            != LINE_FEED
}

/// The lines of a content that is followed by a line feed. There is at
/// least one, and a content that ends with a line feed has an empty last
/// line.
pub open spec fn content_lines(content: Seq<u8>) -> Seq<Seq<u8>> {
    split_lines(content + seq![LINE_FEED])
}

/// The first line feed of a text is the first line feed of the text with
/// something after it.
pub proof fn lemma_line_end_append(a: Seq<u8>, b: Seq<u8>)
    requires
        line_end(a) < a.len(),
    ensures
        line_end(a + b) == line_end(a),
{
    lemma_first_index(a, LINE_FEED);
    let e = line_end(a) as int;
    assert((a + b).take(e) =~= a.take(e));
    assert((a + b)[e] == a[e]);
    lemma_first_index_is(a + b, LINE_FEED, e);
}

/// The lines of a text that ends with a line feed, followed by another
/// text, are the lines of the one and then the lines of the other.
pub proof fn lemma_split_lines_append(a: Seq<u8>, b: Seq<u8>)
    requires
        ends_lines(a),
    ensures
        split_lines(a + b) == split_lines(a) + split_lines(b),
    decreases a.len(),
{
    if a.len() == 0 {
        assert(a + b =~= b);
        assert(split_lines(a) + split_lines(b) =~= split_lines(b));
    } else {
        lemma_first_index(a, LINE_FEED);
        let e = line_end(a) as int;
        if e == a.len() {
            assert(a.take(e)[a.len() - 1] == a[a.len() - 1]);
        }
        lemma_line_end_append(a, b);
        assert((a + b).take(e) =~= a.take(e));
        assert((a + b).skip(e + 1) =~= a.skip(e + 1) + b);
        let rest = a.skip(e + 1);
        if rest.len() > 0 {
            assert(rest.last() == a.last());
        }
        lemma_split_lines_append(rest, b);
        assert(split_lines(a + b) =~= split_lines(a) + split_lines(b));
    }
}

/// A clean line followed by a line feed is read as that one line.
pub proof fn lemma_split_one_line(line: Seq<u8>)
    requires
        is_clean_line(line),
    ensures
        split_lines(line + seq![LINE_FEED]) == seq![line],
{
    let text = line + seq![LINE_FEED];
    assert(text.take(line.len() as int) =~= line);
    lemma_first_index_is(text, LINE_FEED, line.len() as int);
    assert(text.skip(line.len() as int + 1) =~= Seq::<u8>::empty());
    assert(split_lines(text.skip(line.len() as int + 1)) =~= Seq::<Seq<u8>>::empty());
    assert(strip_carriage_return(line) == line);
    assert(split_lines(text) =~= seq![line] + Seq::<Seq<u8>>::empty());
    assert(split_lines(text) =~= seq![line]);
}

/// No line of a text holds a line feed.
pub proof fn lemma_split_lines_hold_no_line_feed(s: Seq<u8>)
    ensures
        forall|i: int|
            0 <= i < split_lines(s).len() ==> has_no_line_feed(#[trigger] split_lines(s)[i]),
    decreases s.len(),
{
    if s.len() > 0 {
        lemma_first_index(s, LINE_FEED);
        let e = line_end(s) as int;
        let first = if e < s.len() {
            strip_carriage_return(s.take(e))
        } else {
            s
        };
        assert(has_no_line_feed(first)) by {
            assert forall|i: int| 0 <= i < first.len() implies first[i] != LINE_FEED by {
                assert(first[i] == s.take(e)[i]);
            }
        }
        if e < s.len() {
            lemma_split_lines_hold_no_line_feed(s.skip(e + 1));
            assert(split_lines(s) == seq![first] + split_lines(s.skip(e + 1)));
            assert forall|i: int| 0 <= i < split_lines(s).len() implies has_no_line_feed(
                #[trigger] split_lines(s)[i],
            ) by {
                if i > 0 {
                    assert(split_lines(s)[i] == split_lines(s.skip(e + 1))[i - 1]);
                } else {
                    assert(split_lines(s)[0] == first);
                }
            }
        } else {
            assert(s.take(e) =~= s);
            assert(split_lines(s) == seq![first]);
        }
    }
}

/// A content whose carriage returns do not stand at line ends is the join
/// of its lines: reading loses nothing of it.
pub proof fn lemma_join_content_lines(content: Seq<u8>)
    requires
        has_plain_line_ends(content),
    ensures
        join_lines(content_lines(content)) == content,
        content_lines(content).len() >= 1,
    decreases content.len(),
{
    let text = content + seq![LINE_FEED];
    lemma_first_index(content, LINE_FEED);
    let e = line_end(content) as int;
    assert(text.take(e) =~= content.take(e));
    lemma_first_index_is(text, LINE_FEED, e);
    let first = content.take(e);
    assert(strip_carriage_return(first) == first) by {
        if first.len() > 0 && first.last() == CARRIAGE_RETURN {
            assert(content[e - 1] == CARRIAGE_RETURN);
        }
    }
    if e == content.len() {
        assert(text.skip(e + 1) =~= Seq::<u8>::empty());
        assert(split_lines(text.skip(e + 1)) =~= Seq::<Seq<u8>>::empty());
        assert(first =~= content);
        assert(content_lines(content) =~= seq![content] + Seq::<Seq<u8>>::empty());
        assert(content_lines(content) =~= seq![content]);
    } else {
        let rest = content.skip(e + 1);
        assert(text.skip(e + 1) =~= rest + seq![LINE_FEED]);
        assert(has_plain_line_ends(rest)) by {
            assert forall|i: int| 0 <= i < rest.len() && #[trigger] rest[i]
                == CARRIAGE_RETURN implies i + 1 < rest.len() && rest[i + 1] != LINE_FEED by {
                assert(content[e + 1 + i] == CARRIAGE_RETURN);
            }
        }
        lemma_join_content_lines(rest);
        let lines = content_lines(content);
        assert(lines =~= seq![first] + content_lines(rest));
        assert(lines.drop_first() =~= content_lines(rest));
        assert(lines.len() >= 2);
        assert(join_lines(lines) =~= first + seq![LINE_FEED] + rest);
        assert(first + seq![LINE_FEED] + rest =~= content);
    }
}

/// Terminating lines one after the other is terminating the first ones
/// and then the others.
pub proof fn lemma_terminate_lines_append(first: Seq<Seq<u8>>, second: Seq<Seq<u8>>)
    ensures
        terminate_lines(first + second) == terminate_lines(first) + terminate_lines(second),
    decreases first.len(),
{
    if first.len() == 0 {
        assert(first + second =~= second);
        assert(terminate_lines(first) + terminate_lines(second) =~= terminate_lines(second));
    } else {
        let all = first + second;
        assert(all[0] == first[0]);
        assert(all.drop_first() =~= first.drop_first() + second);
        lemma_terminate_lines_append(first.drop_first(), second);
        assert(terminate_lines(all) =~= terminate_lines(first) + terminate_lines(second));
    }
}

/// Lines with a line feed after each are the lines with a line feed
/// between them, and one more line feed.
pub proof fn lemma_terminate_is_join(lines: Seq<Seq<u8>>)
    requires
        lines.len() > 0,
    ensures
        terminate_lines(lines) == join_lines(lines) + seq![LINE_FEED],
    decreases lines.len(),
{
    if lines.len() == 1 {
        assert(lines.drop_first() =~= Seq::<Seq<u8>>::empty());
        assert(terminate_lines(lines.drop_first()) =~= Seq::<u8>::empty());
        assert(terminate_lines(lines) =~= lines[0] + seq![LINE_FEED]);
    } else {
        lemma_terminate_is_join(lines.drop_first());
        assert(terminate_lines(lines) =~= join_lines(lines) + seq![LINE_FEED]);
    }
}

/// The lines as they stand of a text that ends with a line feed, followed
/// by another text, are the lines of the one and then the lines of the
/// other.
pub proof fn lemma_raw_lines_append(a: Seq<u8>, b: Seq<u8>)
    requires
        ends_lines(a),
    ensures
        raw_lines(a + b) == raw_lines(a) + raw_lines(b),
    decreases a.len(),
{
    if a.len() == 0 {
        assert(a + b =~= b);
        assert(raw_lines(a) + raw_lines(b) =~= raw_lines(b));
    } else {
        lemma_first_index(a, LINE_FEED);
        let e = line_end(a) as int;
        if e == a.len() {
            assert(a.take(e)[a.len() - 1] == a[a.len() - 1]);
        }
        lemma_line_end_append(a, b);
        assert((a + b).take(e) =~= a.take(e));
        assert((a + b).skip(e + 1) =~= a.skip(e + 1) + b);
        let rest = a.skip(e + 1);
        if rest.len() > 0 {
            assert(rest.last() == a.last());
        }
        lemma_raw_lines_append(rest, b);
        assert(raw_lines(a + b) =~= raw_lines(a) + raw_lines(b));
    }
}

/// Lines without a line feed that are written with a line feed after each
/// are read back as they stand.
pub proof fn lemma_raw_lines_of_terminated(lines: Seq<Seq<u8>>)
    requires
        forall|i: int| 0 <= i < lines.len() ==> has_no_line_feed(#[trigger] lines[i]),
    ensures
        raw_lines(terminate_lines(lines)) == lines,
        ends_lines(terminate_lines(lines)),
    decreases lines.len(),
{
    if lines.len() > 0 {
        let rest = lines.drop_first();
        assert forall|i: int| 0 <= i < rest.len() implies has_no_line_feed(#[trigger] rest[i]) by {
            assert(rest[i] == lines[i + 1]);
        }
        lemma_raw_lines_of_terminated(rest);
        let line = lines[0];
        let first = line + seq![LINE_FEED];
        assert(first.take(line.len() as int) =~= line);
        lemma_first_index_is(first, LINE_FEED, line.len() as int);
        assert(first.skip(line.len() as int + 1) =~= Seq::<u8>::empty());
        assert(raw_lines(first.skip(line.len() as int + 1)) =~= Seq::<Seq<u8>>::empty());
        assert(raw_lines(first) =~= seq![line] + Seq::<Seq<u8>>::empty());
        assert(first.last() == LINE_FEED);
        lemma_raw_lines_append(first, terminate_lines(rest));
        assert(seq![line] + rest =~= lines);
        let text = terminate_lines(lines);
        if terminate_lines(rest).len() == 0 {
            assert(text.last() == LINE_FEED);
        } else {
            assert(text.last() == terminate_lines(rest).last());
        }
    }
}

/// No line of a text as it stands holds a line feed.
pub proof fn lemma_raw_lines_hold_no_line_feed(s: Seq<u8>)
    ensures
        forall|i: int| 0 <= i < raw_lines(s).len() ==> has_no_line_feed(#[trigger] raw_lines(s)[i]),
    decreases s.len(),
{
    if s.len() > 0 {
        lemma_first_index(s, LINE_FEED);
        let e = line_end(s) as int;
        if e < s.len() {
            lemma_raw_lines_hold_no_line_feed(s.skip(e + 1));
            assert(raw_lines(s) == seq![s.take(e)] + raw_lines(s.skip(e + 1)));
            assert forall|i: int| 0 <= i < raw_lines(s).len() implies has_no_line_feed(
                #[trigger] raw_lines(s)[i],
            ) by {
                if i > 0 {
                    assert(raw_lines(s)[i] == raw_lines(s.skip(e + 1))[i - 1]);
                } else {
                    assert(raw_lines(s)[0] == s.take(e));
                }
            }
        } else {
            assert(s.take(e) =~= s);
            assert(raw_lines(s) == seq![s]);
        }
    }
}

/// Splits `bytes` into its lines as they stand.
pub fn split_into_raw_lines(bytes: &[u8]) -> (lines: Vec<Vec<u8>>)
    ensures
        views(lines@) == raw_lines(bytes@),
{
    let mut lines: Vec<Vec<u8>> = Vec::new();
    let mut start: usize = 0;
    assert(bytes@.skip(0) =~= bytes@);
    assert(views(lines@) =~= Seq::<Seq<u8>>::empty());
    while start < bytes.len()
        invariant
            start <= bytes@.len(),
            views(lines@) + raw_lines(bytes@.skip(start as int)) == raw_lines(bytes@),
        decreases bytes@.len() - start,
    {
        let end = find_byte(bytes, start, LINE_FEED);
        let ghost rest = bytes@.skip(start as int);
        let line = slice_to_vec(slice_subrange(bytes, start, end));
        proof {
            assert(rest.take(end - start) =~= line@);
            if end < bytes@.len() {
                assert(rest.skip(end - start + 1) =~= bytes@.skip(end + 1));
            } else {
                assert(rest.take(end - start) =~= rest);
                assert(raw_lines(bytes@.skip(end as int)) =~= Seq::<Seq<u8>>::empty());
            }
        }
        let ghost before = views(lines@);
        lines.push(line);
        proof {
            assert(views(lines@) =~= before.push(line@));
            if end < bytes@.len() {
                let tail = raw_lines(bytes@.skip(end + 1));
                assert(before.push(line@) + tail =~= before + (seq![line@] + tail));
            } else {
                assert(before.push(line@) + raw_lines(bytes@.skip(end as int)) =~= before
                    + seq![line@]);
            }
        }
        start = if end < bytes.len() {
            end + 1
        } else {
            end
        };
    }
    assert(views(lines@) + Seq::<Seq<u8>>::empty() =~= views(lines@));
    lines
}

/// A line as it was read up to and with its line feed, without that line
/// feed.
pub fn without_line_feed(chunk: &[u8]) -> (line: &[u8])
    ensures
        line@ == if chunk@.len() > 0 && chunk@.last() == LINE_FEED {
            chunk@.drop_last()
        } else {
            chunk@
        },
{
    let len = chunk.len();
    if len > 0 && chunk[len - 1] == LINE_FEED {
        slice_subrange(chunk, 0, len - 1)
    } else {
        chunk
    }
}

/// Splits `bytes` into its lines.
pub fn split_into_lines(bytes: &[u8]) -> (lines: Vec<Vec<u8>>)
    ensures
        views(lines@) == split_lines(bytes@),
{
    let mut lines: Vec<Vec<u8>> = Vec::new();
    let mut start: usize = 0;
    assert(bytes@.skip(0) =~= bytes@);
    assert(views(lines@) =~= Seq::<Seq<u8>>::empty());
    while start < bytes.len()
        invariant
            start <= bytes@.len(),
            views(lines@) + split_lines(bytes@.skip(start as int)) == split_lines(bytes@),
        decreases bytes@.len() - start,
    {
        let end = find_byte(bytes, start, LINE_FEED);
        let ghost rest = bytes@.skip(start as int);
        let mut stop = end;
        if end < bytes.len() && stop > start && bytes[stop - 1] == CARRIAGE_RETURN {
            stop = stop - 1;
        }
        let line = slice_to_vec(slice_subrange(bytes, start, stop));
        proof {
            assert(rest.take(end - start) =~= bytes@.subrange(start as int, end as int));
            if end < bytes@.len() {
                assert(line@ =~= strip_carriage_return(rest.take(end - start)));
                assert(rest.skip(end - start + 1) =~= bytes@.skip(end + 1));
            } else {
                assert(line@ =~= rest);
                assert(rest.take(end - start) =~= rest);
                assert(split_lines(bytes@.skip(end as int)) =~= Seq::<Seq<u8>>::empty());
            }
        }
        let ghost before = views(lines@);
        lines.push(line);
        proof {
            assert(views(lines@) =~= before.push(line@));
            if end < bytes@.len() {
                let tail = split_lines(bytes@.skip(end + 1));
                assert(before.push(line@) + tail =~= before + (seq![line@] + tail));
            } else {
                assert(before.push(line@) + split_lines(bytes@.skip(end as int)) =~= before
                    + seq![line@]);
            }
        }
        start = if end < bytes.len() {
            end + 1
        } else {
            end
        };
    }
    assert(views(lines@) + Seq::<Seq<u8>>::empty() =~= views(lines@));
    lines
}

/// Joins lines with a line feed between each two of them.
pub fn join_with_line_feeds(lines: &Vec<Vec<u8>>) -> (text: Vec<u8>)
    ensures
        text@ == join_lines(views(lines@)),
{
    join_with(lines.as_slice(), LINE_FEED)
}

} // verus!
