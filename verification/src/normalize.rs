//! Collapsing runs of blank lines in a finished archive.
//!
//! The lines are taken as they stand, with their carriage returns: a line
//! that is not blank is written as it was read, byte for byte.

use vstd::prelude::*;
use crate::bytes::{blank, is_blank, optional_view, views};
use crate::lines::{
    has_no_line_feed, lemma_raw_lines_hold_no_line_feed, lemma_raw_lines_of_terminated,
    lemma_terminate_lines_push, raw_lines, split_into_raw_lines, terminate_lines, LINE_FEED,
};

verus! {

/// The greatest number of blank lines that the archive writer leaves in a
/// row.
pub const MAX_BLANK_LINES: usize = 2;

/// What becomes of one line: the length of the run of blank lines that now
/// ends here, capped at `max`, and the line that is written, if any. A
/// blank line is written as an empty line, and only while the run is not
/// longer than `max`. Any other line is written as it is.
pub open spec fn filter_line(run: nat, max: nat, line: Seq<u8>) -> (nat, Option<Seq<u8>>) {
    if is_blank(line) {
        if run < max {
            (run + 1, Some(Seq::empty()))
        } else {
            (run, None)
        }
    } else {
        (0, Some(line))
    }
}

/// The lines that are written for `lines` when a run of `run` blank lines
/// stands before them.
pub open spec fn collapse_after(lines: Seq<Seq<u8>>, max: nat, run: nat) -> Seq<Seq<u8>>
    decreases lines.len(),
{
    if lines.len() == 0 {
        Seq::empty()
    } else {
        let (next, written) = filter_line(run, max, lines[0]);
        let rest = collapse_after(lines.drop_first(), max, next);
        match written {
            Some(line) => seq![line] + rest,
            None => rest,
        }
    }
}

/// `lines` with every run of blank lines cut down to at most `max` empty
/// lines.
pub open spec fn collapse_blank_lines(lines: Seq<Seq<u8>>, max: nat) -> Seq<Seq<u8>> {
    collapse_after(lines, max, 0)
}

/// The text with every run of blank lines cut down to at most `max` empty
/// lines, and a line feed after every line.
pub open spec fn normalized(text: Seq<u8>, max: nat) -> Seq<u8> {
    terminate_lines(collapse_blank_lines(raw_lines(text), max))
}

/// Collapsing what was collapsed changes nothing, whatever run of blank
/// lines stands before.
pub proof fn lemma_collapse_after_idempotent(lines: Seq<Seq<u8>>, max: nat, run: nat)
    requires
        run <= max,
    ensures
        collapse_after(collapse_after(lines, max, run), max, run) == collapse_after(
            lines,
            max,
            run,
        ),
    decreases lines.len(),
{
    if lines.len() > 0 {
        let (next, written) = filter_line(run, max, lines[0]);
        let rest = collapse_after(lines.drop_first(), max, next);
        lemma_collapse_after_idempotent(lines.drop_first(), max, next);
        match written {
            Some(line) => {
                let once = seq![line] + rest;
                assert(once.drop_first() =~= rest);
                assert(once[0] == line);
                assert(is_blank(Seq::<u8>::empty()));
                assert(filter_line(run, max, line) == (next, Some(line)));
            },
            None => {},
        }
    }
}

/// Applying the blank-line collapse twice equals applying it once.
pub proof fn lemma_collapse_idempotent(lines: Seq<Seq<u8>>, max: nat)
    ensures
        collapse_blank_lines(collapse_blank_lines(lines, max), max) == collapse_blank_lines(
            lines,
            max,
        ),
{
    lemma_collapse_after_idempotent(lines, max, 0);
}

/// What is written for lines without a line feed are lines without a line
/// feed.
pub proof fn lemma_collapse_writes_lines(lines: Seq<Seq<u8>>, max: nat, run: nat)
    requires
        forall|i: int| 0 <= i < lines.len() ==> has_no_line_feed(#[trigger] lines[i]),
    ensures
        forall|i: int|
            0 <= i < collapse_after(lines, max, run).len() ==> has_no_line_feed(
                #[trigger] collapse_after(lines, max, run)[i],
            ),
    decreases lines.len(),
{
    if lines.len() > 0 {
        let (next, written) = filter_line(run, max, lines[0]);
        let tail = lines.drop_first();
        assert forall|i: int| 0 <= i < tail.len() implies has_no_line_feed(#[trigger] tail[i]) by {
            assert(tail[i] == lines[i + 1]);
        }
        lemma_collapse_writes_lines(tail, max, next);
        let rest = collapse_after(tail, max, next);
        let all = collapse_after(lines, max, run);
        assert(has_no_line_feed(Seq::<u8>::empty()));
        assert(has_no_line_feed(lines[0]));
        assert forall|i: int| 0 <= i < all.len() implies has_no_line_feed(#[trigger] all[i]) by {
            match written {
                Some(line) => {
                    assert(all == seq![line] + rest);
                    if i > 0 {
                        assert(all[i] == rest[i - 1]);
                    }
                },
                None => {},
            }
        }
    }
}

/// Normalizing a text twice gives what normalizing it once gives.
pub proof fn lemma_normalized_idempotent(text: Seq<u8>, max: nat)
    ensures
        normalized(normalized(text, max), max) == normalized(text, max),
{
    let lines = raw_lines(text);
    lemma_raw_lines_hold_no_line_feed(text);
    let once = collapse_blank_lines(lines, max);
    lemma_collapse_writes_lines(lines, max, 0);
    lemma_raw_lines_of_terminated(once);
    lemma_collapse_idempotent(lines, max);
}

/// Whether lines are left as they are when a run of `run` blank lines
/// stands before them: every blank line is empty, and no run of blank
/// lines is longer than `max`.
pub open spec fn is_tidy_after(lines: Seq<Seq<u8>>, max: nat, run: nat) -> bool
    decreases lines.len(),
{
    if lines.len() == 0 {
        true
    } else if is_blank(lines[0]) {
        lines[0].len() == 0 && run < max && is_tidy_after(lines.drop_first(), max, run + 1)
    } else {
        is_tidy_after(lines.drop_first(), max, 0)
    }
}

/// Whether lines are left as they are: every blank line is empty, and no
/// run of blank lines is longer than `max`.
pub open spec fn is_tidy(lines: Seq<Seq<u8>>, max: nat) -> bool {
    is_tidy_after(lines, max, 0)
}

/// Tidy lines are written as they are.
pub proof fn lemma_collapse_of_tidy(lines: Seq<Seq<u8>>, max: nat, run: nat)
    requires
        is_tidy_after(lines, max, run),
    ensures
        collapse_after(lines, max, run) == lines,
    decreases lines.len(),
{
    if lines.len() > 0 {
        let (next, written) = filter_line(run, max, lines[0]);
        lemma_collapse_of_tidy(lines.drop_first(), max, next);
        assert(seq![lines[0]] + lines.drop_first() =~= lines);
        if is_blank(lines[0]) {
            assert(lines[0] =~= Seq::<u8>::empty());
        }
    }
}

/// Lines that begin with a line that is not blank are tidy or not whatever
/// stands before them.
pub proof fn lemma_tidy_from_a_line(lines: Seq<Seq<u8>>, max: nat, run: nat)
    requires
        lines.len() > 0,
        !is_blank(lines[0]),
    ensures
        is_tidy_after(lines, max, run) == is_tidy(lines, max),
{
}

/// Tidy lines followed by tidy lines that begin with a line that is not
/// blank are tidy.
pub proof fn lemma_tidy_append(first: Seq<Seq<u8>>, second: Seq<Seq<u8>>, max: nat, run: nat)
    requires
        is_tidy_after(first, max, run),
        is_tidy(second, max),
        second.len() > 0 ==> !is_blank(second[0]),
    ensures
        is_tidy_after(first + second, max, run),
    decreases first.len(),
{
    if first.len() == 0 {
        assert(first + second =~= second);
        if second.len() > 0 {
            lemma_tidy_from_a_line(second, max, run);
        }
    } else {
        let all = first + second;
        assert(all[0] == first[0]);
        assert(all.drop_first() =~= first.drop_first() + second);
        if is_blank(first[0]) {
            lemma_tidy_append(first.drop_first(), second, max, run + 1);
        } else {
            lemma_tidy_append(first.drop_first(), second, max, 0);
        }
    }
}

/// The state of a pass over the lines of an archive: how many blank lines
/// in a row were seen last, counted up to the limit.
pub struct BlankLineFilter {
    max: usize,
    run: usize,
}

impl BlankLineFilter {
    /// The greatest number of blank lines that are let through in a row.
    pub closed spec fn max(&self) -> nat {
        self.max as nat
    }

    /// Length of the run of blank lines that ends at the last line seen,
    /// counted up to `max`.
    pub closed spec fn run(&self) -> nat {
        self.run as nat
    }

    #[verifier::type_invariant]
    closed spec fn run_within_limit(&self) -> bool {
        self.run <= self.max
    }

    /// A filter at the start of a text.
    pub fn new(max: usize) -> (filter: BlankLineFilter)
        ensures
            filter.max() == max,
            filter.run() == 0,
    {
        BlankLineFilter { max, run: 0 }
    }

    /// Takes the next line and returns what is to be written for it, if
    /// anything.
    pub fn feed(&mut self, line: &[u8]) -> (written: Option<Vec<u8>>)
        ensures
            final(self).max() == old(self).max(),
            final(self).run() <= final(self).max(),
            old(self).run() <= old(self).max(),
            (final(self).run(), optional_view(written)) == filter_line(
                old(self).run(),
                old(self).max(),
                line@,
            ),
    {
        proof {
            use_type_invariant(&*self);
        }
        if blank(line) {
            if self.run < self.max {
                self.run = self.run + 1;
                Some(Vec::new())
            } else {
                None
            }
        } else {
            self.run = 0;
            Some(vstd::slice::slice_to_vec(line))
        }
    }
}

/// Collapses every run of blank lines in `text` to at most `max` empty
/// lines. Every line of the result ends with a line feed, and lines that
/// are not blank are kept as they are.
pub fn clean_up_text(text: &[u8], max: usize) -> (cleaned: Vec<u8>)
    ensures
        cleaned@ == normalized(text@, max as nat),
{
    let lines = split_into_raw_lines(text);
    let mut filter = BlankLineFilter::new(max);
    let mut cleaned: Vec<u8> = Vec::new();
    let ghost mut written_lines: Seq<Seq<u8>> = Seq::empty();
    let ghost all = views(lines@);
    let mut i: usize = 0;
    assert(all.skip(0) =~= all);
    while i < lines.len()
        invariant
            i <= lines@.len(),
            all == views(lines@),
            all == raw_lines(text@),
            filter.max() == max,
            filter.run() <= filter.max(),
            cleaned@ == terminate_lines(written_lines),
            written_lines + collapse_after(all.skip(i as int), max as nat, filter.run())
                == collapse_blank_lines(all, max as nat),
        decreases lines@.len() - i,
    {
        let ghost run = filter.run();
        let ghost next = filter_line(run, max as nat, all[i as int]).0;
        let ghost rest = collapse_after(all.skip(i + 1), max as nat, next);
        proof {
            assert(all.skip(i as int).drop_first() =~= all.skip(i + 1));
            assert(all.skip(i as int)[0] == lines@[i as int]@);
        }
        match filter.feed(lines[i].as_slice()) {
            Some(line) => {
                proof {
                    lemma_terminate_lines_push(written_lines, line@);
                    assert(written_lines.push(line@) + rest =~= written_lines + (seq![line@]
                        + rest));
                    written_lines = written_lines.push(line@);
                }
                cleaned.extend_from_slice(line.as_slice());
                cleaned.push(LINE_FEED);
                assert(cleaned@ =~= terminate_lines(written_lines));
            },
            None => {},
        }
        i = i + 1;
    }
    proof {
        assert(all.skip(i as int) =~= Seq::<Seq<u8>>::empty());
        assert(written_lines + Seq::<Seq<u8>>::empty() =~= written_lines);
    }
    cleaned
}

} // verus!
