//! What is read back from an archive that this library wrote.
//!
//! Files that are packed are unpacked as they were, under the same paths
//! and in the same order: text with its content, and a line feed after it
//! if it had none at its end; binary content as an empty file. This holds
//! of every file whose path and content the format can carry: a path that
//! its header line gives back, and text that the reader takes for content
//! line by line. `lemma_round_trip` states it for an archive without
//! signatures, `lemma_signed_round_trip` for one with signatures, and
//! `lemma_tidy_archive_is_finished` adds that the blank-line collapse
//! leaves an archive as it is if it leaves the text of every file as it is.

use vstd::prelude::*;
use vstd::utf8::valid_utf8;
use crate::bytes::is_blank;
use crate::classify::is_binary;
use crate::extract::{
    absorb, advance, empty_extraction, extracted, note_refused_key, unglobbed, ExtractError,
    ExtractedFileView, ExtractionView, SignatureStatus, UnglobErrorView, UnglobOptionsView,
};
use crate::format::{
    header_line, is_bracket_text, is_header_line, is_key_record_header, is_recordable_path,
    key_record_header, lemma_parse_signed_header, lemma_parse_unsigned_header,
    lemma_plain_lines, lemma_read_key_record_header, FileHeaderView, BINARY_SENTINEL,
    HEADER_MARKER, KEY_RECORD_OPEN, TERMINATOR,
};
use crate::lines::{
    content_lines, ends_lines, has_plain_line_ends, lemma_join_content_lines,
    lemma_raw_lines_of_terminated, lemma_split_lines_append,
    lemma_split_lines_hold_no_line_feed, lemma_split_one_line, lemma_terminate_is_join,
    lemma_terminate_lines_append, split_lines, terminate_lines, LINE_FEED,
};
use crate::normalize::{
    is_tidy, is_tidy_after, lemma_collapse_of_tidy, lemma_tidy_append, normalized,
    MAX_BLANK_LINES,
};
use crate::paths::{destination, is_contained};
use crate::reader::{
    binary_entry, closing, initial_state, step, OpenEntryView, ParsedEntryView, ParserView,
};
use crate::signature::{
    base64_text, key_text_outcome, signature_text, KeyError, KeyPair,
};
use crate::writer::{
    archive_of, entries_for, entry_for, entry_record, entry_records, is_sound_signature,
    key_record, optional_key_text, optional_secret, preamble, signs_soundly, ArchiveEntryView,
    SourceFileView,
};

verus! {

/// Whether a line inside an entry is taken for content: it does not begin
/// with the header marker, and is neither the terminator nor the sentinel
/// for binary content.
pub open spec fn is_content_line(line: Seq<u8>) -> bool {
    !is_header_line(line) && line != TERMINATOR@ && line != BINARY_SENTINEL@
}

/// Whether a content is written as it is and read back line by line: it is
/// UTF-8, no carriage return stands at the end of a line, and no line is
/// taken for anything but content.
pub open spec fn is_portable_text(content: Seq<u8>) -> bool {
    &&& valid_utf8(content)
    &&& has_plain_line_ends(content)
    &&& forall|i: int|
        0 <= i < content_lines(content).len() ==> is_content_line(
            #[trigger] content_lines(content)[i],
        )
}

/// Whether a file is written and read back, in an archive that is signed
/// or not: its path can stand in its header and stays inside the
/// destination, and its content, unless it counts as binary and is left
/// out, is portable text. The header is signed if the archive is and the
/// content is text.
pub open spec fn is_portable_file(
    file: SourceFileView,
    input_root: Seq<u8>,
    signed: bool,
) -> bool {
    &&& is_recordable_path(file.path, signed && !is_binary(file.content))
    &&& is_contained(input_root, file.path)
    &&& !is_binary(file.content) ==> is_portable_text(file.content)
}

/// The content with a line feed at its end: itself if it ends with one.
pub open spec fn with_final_line_feed(content: Seq<u8>) -> Seq<u8> {
    if content.len() > 0 && content.last() == LINE_FEED {
        content
    } else {
        content + seq![LINE_FEED]
    }
}

/// The file that is read back for a file that was packed. A text file
/// comes back under its path with its content and a line feed at the end
/// of it; its signature is verified where the archive is signed and
/// signatures are checked. A binary file comes back empty, and is found to
/// have no signature.
pub open spec fn restored_file(
    file: SourceFileView,
    options: UnglobOptionsView,
    signed: bool,
) -> ExtractedFileView {
    let checked = signed && options.verify_signatures;
    let binary = is_binary(file.content);
    ExtractedFileView {
        recorded_path: file.path,
        path: destination(options.destination_root, options.input_root, file.path),
        content: if binary {
            Seq::empty()
        } else {
            with_final_line_feed(file.content)
        },
        is_binary: binary,
        signature: if !checked {
            SignatureStatus::NotChecked
        } else if binary {
            SignatureStatus::Missing
        } else {
            SignatureStatus::Verified
        },
    }
}

/// What is read back for the files that were packed: every file, in the
/// same order, and no failure.
pub open spec fn restored(
    files: Seq<SourceFileView>,
    options: UnglobOptionsView,
    signed: bool,
) -> ExtractionView {
    ExtractionView {
        files: Seq::new(files.len(), |i: int| restored_file(files[i], options, signed)),
        failures: Seq::empty(),
        refused_keys: Seq::empty(),
    }
}

/// The header of a key record begins with the header marker.
proof fn lemma_key_record_is_header(line: Seq<u8>)
    requires
        is_key_record_header(line),
    ensures
        is_header_line(line),
{
    let head = line.subrange(0, 27);
    assert(head =~= KEY_RECORD_OPEN@);
    assert forall|k: int| 0 <= k < 7 implies line.subrange(0, 7)[k] == HEADER_MARKER@[k] by {
        assert(head[k] == line[k]);
        assert(KEY_RECORD_OPEN@[k] == HEADER_MARKER@[k]);
    }
    assert(line.subrange(0, 7) =~= HEADER_MARKER@);
}

/// Reading lines one after the other is reading the first ones and then
/// the others.
proof fn lemma_advance_append(
    state: ParserView,
    first: Seq<Seq<u8>>,
    second: Seq<Seq<u8>>,
    report: ExtractionView,
    options: UnglobOptionsView,
)
    ensures
        advance(state, first + second, report, options) == match advance(
            state,
            first,
            report,
            options,
        ) {
            Err(e) => Err(e),
            Ok((s, r)) => advance(s, second, r, options),
        },
    decreases first.len(),
{
    if first.len() == 0 {
        assert(first + second =~= second);
    } else {
        let all = first + second;
        assert(all[0] == first[0]);
        assert(all.drop_first() =~= first.drop_first() + second);
        let (next, outcome) = step(state, first[0]);
        match absorb(report, outcome.finished, state.key, options) {
            Err(e) => {},
            Ok(absorbed) => match outcome.error {
                Some(e) => {},
                None => {
                    lemma_advance_append(
                        next,
                        first.drop_first(),
                        second,
                        note_refused_key(absorbed, outcome.refused_key),
                        options,
                    );
                },
            },
        }
    }
}

/// Lines of content are collected by the entry that is open.
proof fn lemma_advance_content(
    state: ParserView,
    entry: OpenEntryView,
    lines: Seq<Seq<u8>>,
    report: ExtractionView,
    options: UnglobOptionsView,
)
    requires
        state.entry == Some(entry),
        !entry.complete,
        !state.terminator_due,
        forall|i: int| 0 <= i < lines.len() ==> is_content_line(#[trigger] lines[i]),
    ensures
        advance(state, lines, report, options) == Ok::<
            (ParserView, ExtractionView),
            UnglobErrorView,
        >(
            (
                ParserView {
                    entry: Some(OpenEntryView { lines: entry.lines + lines, ..entry }),
                    ..state
                },
                report,
            ),
        ),
    decreases lines.len(),
{
    if lines.len() == 0 {
        assert(entry.lines + lines =~= entry.lines);
    } else {
        let line = lines[0];
        assert(is_content_line(line));
        if is_key_record_header(line) {
            lemma_key_record_is_header(line);
        }
        let grown = OpenEntryView { lines: entry.lines.push(line), ..entry };
        let next = ParserView { entry: Some(grown), ..state };
        assert(step(state, line).0 == next);
        let rest = lines.drop_first();
        assert forall|i: int| 0 <= i < rest.len() implies is_content_line(#[trigger] rest[i]) by {
            assert(rest[i] == lines[i + 1]);
        }
        lemma_advance_content(next, grown, rest, report, options);
        assert(entry.lines.push(line) + rest =~= entry.lines + lines);
    }
}

/// What the reader makes of an entry that was written.
pub open spec fn read_back(entry: ArchiveEntryView) -> ParsedEntryView {
    ParsedEntryView {
        path: entry.path,
        lines: if entry.is_binary {
            Seq::empty()
        } else {
            content_lines(entry.content)
        },
        is_binary: entry.is_binary,
        signature: entry.signature,
    }
}

/// Whether an entry is written so that the reader finds it again: its path
/// can stand in a header, and so can its signature, if it has one; and its
/// content, unless it is left out as binary, is portable text.
#[verifier::opaque]
pub open spec fn is_readable_entry(entry: ArchiveEntryView) -> bool {
    &&& is_recordable_path(entry.path, entry.signature is Some)
    &&& !entry.is_binary ==> is_portable_text(entry.content)
    &&& entry.signature matches Some(s) ==> is_bracket_text(s)
}

/// The lines of the record of an entry: the header, and then the sentinel
/// for a binary entry, or the lines of the content, the terminator and an
/// empty line for a text entry.
pub open spec fn record_lines(entry: ArchiveEntryView) -> Seq<Seq<u8>> {
    let header = header_line(FileHeaderView { path: entry.path, signature: entry.signature });
    if entry.is_binary {
        seq![header, BINARY_SENTINEL@]
    } else {
        seq![header] + content_lines(entry.content) + seq![TERMINATOR@, Seq::<u8>::empty()]
    }
}

/// The state outside any entry.
spec fn scanning(key: Option<Seq<u8>>) -> ParserView {
    ParserView { entry: None, key, terminator_due: false }
}

/// The state after the record of a text entry: the entry is open and
/// complete.
spec fn holding(entry: ArchiveEntryView, key: Option<Seq<u8>>) -> ParserView {
    ParserView {
        entry: Some(
            OpenEntryView {
                path: entry.path,
                lines: content_lines(entry.content),
                signature: entry.signature,
                complete: true,
            },
        ),
        key,
        terminator_due: false,
    }
}

/// The state after the record of an entry. A binary entry is closed by its
/// sentinel; a text entry is still open.
spec fn state_behind(entry: ArchiveEntryView, key: Option<Seq<u8>>) -> ParserView {
    if entry.is_binary {
        scanning(key)
    } else {
        holding(entry, key)
    }
}

/// The state after the records of entries.
spec fn state_after(entries: Seq<ArchiveEntryView>, key: Option<Seq<u8>>) -> ParserView {
    if entries.len() == 0 {
        scanning(key)
    } else {
        state_behind(entries.last(), key)
    }
}

/// The files that the first `count` entries become.
spec fn files_read(
    entries: Seq<ArchiveEntryView>,
    key: Option<Seq<u8>>,
    options: UnglobOptionsView,
    count: nat,
) -> Seq<ExtractedFileView> {
    Seq::new(count, |i: int| extracted(read_back(entries[i]), key, options)->Ok_0)
}

/// How many of the entries are closed after their records: all of them,
/// but for a text entry at the end, which is still open.
spec fn closed_count(entries: Seq<ArchiveEntryView>) -> nat {
    if entries.len() == 0 || entries.last().is_binary {
        entries.len()
    } else {
        (entries.len() - 1) as nat
    }
}

/// A result that holds files only.
spec fn files_only(files: Seq<ExtractedFileView>) -> ExtractionView {
    ExtractionView { files, failures: Seq::empty(), refused_keys: Seq::empty() }
}

/// The record of an entry has these lines: one header, and then the
/// sentinel, or the lines of the content, one terminator and one empty
/// line.
pub proof fn lemma_record_lines(entry: ArchiveEntryView)
    requires
        is_readable_entry(entry),
    ensures
        split_lines(entry_record(entry)) == record_lines(entry),
        ends_lines(entry_record(entry)),
        entry_record(entry).len() > 0,
{
    reveal(is_readable_entry);
    let header = header_line(FileHeaderView { path: entry.path, signature: entry.signature });
    match entry.signature {
        Some(s) => lemma_parse_signed_header(entry.path, s),
        None => lemma_parse_unsigned_header(entry.path),
    }
    lemma_plain_lines();
    let feed = seq![LINE_FEED];
    let a = header + feed;
    assert(a.last() == LINE_FEED);
    lemma_split_one_line(header);
    if entry.is_binary {
        let b = BINARY_SENTINEL@ + feed;
        assert(entry_record(entry) =~= a + b);
        assert((a + b).last() == LINE_FEED);
        lemma_split_lines_append(a, b);
        lemma_split_one_line(BINARY_SENTINEL@);
        assert(split_lines(entry_record(entry)) =~= seq![header, BINARY_SENTINEL@]);
    } else {
        let b = entry.content + feed;
        let c = TERMINATOR@ + feed;
        let d = Seq::<u8>::empty() + feed;
        assert(entry_record(entry) =~= a + (b + (c + d)));
        assert(b.last() == LINE_FEED);
        assert(c.last() == LINE_FEED);
        assert((a + (b + (c + d))).last() == LINE_FEED);
        lemma_split_lines_append(a, b + (c + d));
        lemma_split_lines_append(b, c + d);
        lemma_split_lines_append(c, d);
        lemma_split_one_line(TERMINATOR@);
        lemma_split_one_line(Seq::<u8>::empty());
        assert(split_lines(entry_record(entry)) =~= seq![header] + content_lines(entry.content)
            + seq![TERMINATOR@, Seq::<u8>::empty()]);
    }
}

/// The entry that the header of an entry opens.
spec fn opened(entry: ArchiveEntryView) -> OpenEntryView {
    OpenEntryView {
        path: entry.path,
        lines: Seq::empty(),
        signature: entry.signature,
        complete: false,
    }
}

/// Reading the header of an entry closes the entry that was open before
/// and opens the new one.
proof fn lemma_read_header(
    state: ParserView,
    entry: ArchiveEntryView,
    report: ExtractionView,
    closed: ExtractionView,
    options: UnglobOptionsView,
)
    requires
        !state.terminator_due,
        absorb(report, closing(state), state.key, options) == Ok::<
            ExtractionView,
            UnglobErrorView,
        >(closed),
        is_readable_entry(entry),
    ensures
        advance(
            state,
            seq![header_line(FileHeaderView { path: entry.path, signature: entry.signature })],
            report,
            options,
        ) == Ok::<(ParserView, ExtractionView), UnglobErrorView>(
            (ParserView { entry: Some(opened(entry)), ..state }, closed),
        ),
{
    reveal(is_readable_entry);
    let header = header_line(FileHeaderView { path: entry.path, signature: entry.signature });
    match entry.signature {
        Some(s) => lemma_parse_signed_header(entry.path, s),
        None => lemma_parse_unsigned_header(entry.path),
    }
    reveal_with_fuel(advance, 3);
    assert(seq![header][0] == header);
    assert(seq![header].drop_first() =~= Seq::<Seq<u8>>::empty());
    assert(step(state, header).0 == (ParserView { entry: Some(opened(entry)), ..state }));
}

/// Reading the terminator and the empty line after the content of an
/// entry leaves the entry open and complete.
proof fn lemma_read_terminator(
    state: ParserView,
    open: OpenEntryView,
    report: ExtractionView,
    options: UnglobOptionsView,
)
    requires
        !state.terminator_due,
        state.entry == Some(open),
        !open.complete,
    ensures
        advance(state, seq![TERMINATOR@, Seq::<u8>::empty()], report, options) == Ok::<
            (ParserView, ExtractionView),
            UnglobErrorView,
        >((ParserView { entry: Some(OpenEntryView { complete: true, ..open }), ..state }, report)),
{
    lemma_plain_lines();
    let tail = seq![TERMINATOR@, Seq::<u8>::empty()];
    reveal_with_fuel(advance, 4);
    assert(tail[0] == TERMINATOR@);
    assert(tail.drop_first() =~= seq![Seq::<u8>::empty()]);
    assert(tail.drop_first()[0] == Seq::<u8>::empty());
    assert(tail.drop_first().drop_first() =~= Seq::<Seq<u8>>::empty());
    let complete = ParserView { entry: Some(OpenEntryView { complete: true, ..open }), ..state };
    assert(step(state, TERMINATOR@).0 == complete);
    assert(step(complete, Seq::<u8>::empty()).0 == complete);
}

/// Reading the sentinel closes the entry that is open as a binary one.
proof fn lemma_read_sentinel(
    state: ParserView,
    open: OpenEntryView,
    report: ExtractionView,
    finished: ExtractionView,
    options: UnglobOptionsView,
)
    requires
        !state.terminator_due,
        state.entry == Some(open),
        !open.complete,
        absorb(report, Some(binary_entry(open)), state.key, options) == Ok::<
            ExtractionView,
            UnglobErrorView,
        >(finished),
    ensures
        advance(state, seq![BINARY_SENTINEL@], report, options) == Ok::<
            (ParserView, ExtractionView),
            UnglobErrorView,
        >((ParserView { entry: None, ..state }, finished)),
{
    lemma_plain_lines();
    let lines = seq![BINARY_SENTINEL@];
    reveal_with_fuel(advance, 3);
    assert(lines[0] == BINARY_SENTINEL@);
    assert(lines.drop_first() =~= Seq::<Seq<u8>>::empty());
    assert(step(state, BINARY_SENTINEL@).0 == (ParserView { entry: None, ..state }));
}

/// Reading the record of an entry closes the entry that was open before.
/// A binary entry is closed as well; a text entry is left open and
/// complete.
proof fn lemma_read_record(
    state: ParserView,
    entry: ArchiveEntryView,
    report: ExtractionView,
    closed: ExtractionView,
    finished: ExtractionView,
    options: UnglobOptionsView,
)
    requires
        !state.terminator_due,
        absorb(report, closing(state), state.key, options) == Ok::<
            ExtractionView,
            UnglobErrorView,
        >(closed),
        is_readable_entry(entry),
        entry.is_binary ==> absorb(closed, Some(read_back(entry)), state.key, options) == Ok::<
            ExtractionView,
            UnglobErrorView,
        >(finished),
        !entry.is_binary ==> finished == closed,
    ensures
        advance(state, split_lines(entry_record(entry)), report, options) == Ok::<
            (ParserView, ExtractionView),
            UnglobErrorView,
        >((state_behind(entry, state.key), finished)),
{
    reveal(is_readable_entry);
    let header = header_line(FileHeaderView { path: entry.path, signature: entry.signature });
    lemma_record_lines(entry);
    let inside = ParserView { entry: Some(opened(entry)), ..state };
    lemma_read_header(state, entry, report, closed, options);
    if entry.is_binary {
        let tail = seq![BINARY_SENTINEL@];
        assert(binary_entry(opened(entry)) == read_back(entry));
        lemma_read_sentinel(inside, opened(entry), closed, finished, options);
        lemma_advance_append(state, seq![header], tail, report, options);
        assert(seq![header] + tail =~= record_lines(entry));
    } else {
        let body = content_lines(entry.content);
        let tail = seq![TERMINATOR@, Seq::<u8>::empty()];
        let filled = OpenEntryView { lines: body, ..opened(entry) };
        let full = ParserView { entry: Some(filled), ..state };
        lemma_advance_content(inside, opened(entry), body, closed, options);
        assert(opened(entry).lines + body =~= body);
        lemma_read_terminator(full, filled, closed, options);
        lemma_advance_append(inside, body, tail, closed, options);
        lemma_advance_append(state, seq![header], body + tail, report, options);
        assert(seq![header] + (body + tail) =~= record_lines(entry));
    }
}

/// Closing the entry that is open after the records of all entries but
/// the last gives the files of all entries but the last.
proof fn lemma_close_previous(
    entries: Seq<ArchiveEntryView>,
    key: Option<Seq<u8>>,
    options: UnglobOptionsView,
)
    requires
        entries.len() > 0,
        forall|i: int|
            0 <= i < entries.len() ==> (#[trigger] extracted(
                read_back(entries[i]),
                key,
                options,
            )) is Ok,
    ensures
        absorb(
            files_only(
                files_read(entries.drop_last(), key, options, closed_count(entries.drop_last())),
            ),
            closing(state_after(entries.drop_last(), key)),
            key,
            options,
        ) == Ok::<ExtractionView, UnglobErrorView>(
            files_only(files_read(entries, key, options, (entries.len() - 1) as nat)),
        ),
{
    let before = entries.drop_last();
    let n = entries.len() as int;
    let state = state_after(before, key);
    if before.len() == 0 || before.last().is_binary {
        assert(files_read(before, key, options, closed_count(before)) =~= files_read(
            entries,
            key,
            options,
            (n - 1) as nat,
        ));
    } else {
        let previous = before.last();
        assert(previous == entries[n - 2]);
        assert(closing(state) == Some(read_back(previous)));
        assert(extracted(read_back(entries[n - 2]), key, options) is Ok);
        let file = extracted(read_back(previous), key, options)->Ok_0;
        assert(files_read(before, key, options, closed_count(before)).push(file) =~= files_read(
            entries,
            key,
            options,
            (n - 1) as nat,
        ));
    }
}

/// Closing the last entry after all others gives the files of all
/// entries.
proof fn lemma_close_last(
    entries: Seq<ArchiveEntryView>,
    key: Option<Seq<u8>>,
    options: UnglobOptionsView,
)
    requires
        entries.len() > 0,
        extracted(read_back(entries.last()), key, options) is Ok,
    ensures
        absorb(
            files_only(files_read(entries, key, options, (entries.len() - 1) as nat)),
            Some(read_back(entries.last())),
            key,
            options,
        ) == Ok::<ExtractionView, UnglobErrorView>(
            files_only(files_read(entries, key, options, entries.len())),
        ),
{
    let n = entries.len() as int;
    let file = extracted(read_back(entries.last()), key, options)->Ok_0;
    assert(files_read(entries, key, options, (n - 1) as nat).push(file) =~= files_read(
        entries,
        key,
        options,
        entries.len(),
    ));
}

/// Reading the records of entries extracts every entry, but for a text
/// entry at the end, which is left open and complete.
proof fn lemma_read_records(
    entries: Seq<ArchiveEntryView>,
    key: Option<Seq<u8>>,
    options: UnglobOptionsView,
)
    requires
        forall|i: int| 0 <= i < entries.len() ==> is_readable_entry(#[trigger] entries[i]),
        forall|i: int|
            0 <= i < entries.len() ==> (#[trigger] extracted(
                read_back(entries[i]),
                key,
                options,
            )) is Ok,
    ensures
        advance(scanning(key), split_lines(entry_records(entries)), empty_extraction(), options)
            == Ok::<(ParserView, ExtractionView), UnglobErrorView>(
            (
                state_after(entries, key),
                files_only(files_read(entries, key, options, closed_count(entries))),
            ),
        ),
        ends_lines(entry_records(entries)),
    decreases entries.len(),
{
    if entries.len() == 0 {
        assert(files_read(entries, key, options, 0) =~= Seq::<ExtractedFileView>::empty());
        assert(split_lines(entry_records(entries)) =~= Seq::<Seq<u8>>::empty());
    } else {
        let before = entries.drop_last();
        let last = entries.last();
        let n = entries.len() as int;
        assert forall|i: int| 0 <= i < before.len() implies is_readable_entry(
            #[trigger] before[i],
        ) by {
            assert(before[i] == entries[i]);
        }
        assert forall|i: int| 0 <= i < before.len() implies (#[trigger] extracted(
            read_back(before[i]),
            key,
            options,
        )) is Ok by {
            assert(before[i] == entries[i]);
            assert(extracted(read_back(entries[i]), key, options) is Ok);
        }
        lemma_read_records(before, key, options);
        lemma_record_lines(last);
        lemma_split_lines_append(entry_records(before), entry_record(last));
        let state = state_after(before, key);
        let report = files_only(files_read(before, key, options, closed_count(before)));
        let closed = files_only(files_read(entries, key, options, (n - 1) as nat));
        let finished = files_only(files_read(entries, key, options, closed_count(entries)));
        lemma_close_previous(entries, key, options);
        assert(extracted(read_back(entries[n - 1]), key, options) is Ok);
        if last.is_binary {
            lemma_close_last(entries, key, options);
        }
        lemma_read_record(state, last, report, closed, finished, options);
        lemma_advance_append(
            scanning(key),
            split_lines(entry_records(before)),
            split_lines(entry_record(last)),
            empty_extraction(),
            options,
        );
        assert(entry_records(entries).last() == entry_record(last).last());
    }
}

/// The key record has three lines: its header, the terminator and an
/// empty line.
pub proof fn lemma_key_record_lines(text: Seq<u8>)
    requires
        is_bracket_text(text),
    ensures
        split_lines(key_record(text)) == seq![
            key_record_header(text),
            TERMINATOR@,
            Seq::<u8>::empty(),
        ],
        ends_lines(key_record(text)),
{
    let header = key_record_header(text);
    lemma_read_key_record_header(text);
    lemma_plain_lines();
    let feed = seq![LINE_FEED];
    let a = header + feed;
    let b = TERMINATOR@ + feed;
    let c = Seq::<u8>::empty() + feed;
    assert(key_record(text) =~= a + (b + c));
    assert(a.last() == LINE_FEED);
    assert(b.last() == LINE_FEED);
    assert((a + (b + c)).last() == LINE_FEED);
    lemma_split_lines_append(a, b + c);
    lemma_split_lines_append(b, c);
    lemma_split_one_line(header);
    lemma_split_one_line(TERMINATOR@);
    lemma_split_one_line(Seq::<u8>::empty());
    assert(split_lines(key_record(text)) =~= seq![header, TERMINATOR@, Seq::<u8>::empty()]);
}

/// Reading the lines of the key record leaves the parser outside any
/// entry, with the key.
proof fn lemma_read_key_record(text: Seq<u8>, key: Seq<u8>, options: UnglobOptionsView)
    requires
        is_bracket_text(text),
        key_text_outcome(text) == Ok::<Seq<u8>, KeyError>(key),
    ensures
        advance(
            initial_state(),
            seq![key_record_header(text), TERMINATOR@, Seq::<u8>::empty()],
            empty_extraction(),
            options,
        ) == Ok::<(ParserView, ExtractionView), UnglobErrorView>(
            (scanning(Some(key)), empty_extraction()),
        ),
{
    let header = key_record_header(text);
    lemma_read_key_record_header(text);
    lemma_plain_lines();
    let lines = seq![header, TERMINATOR@, Seq::<u8>::empty()];
    reveal_with_fuel(advance, 5);
    assert(lines[0] == header);
    assert(lines.drop_first() =~= seq![TERMINATOR@, Seq::<u8>::empty()]);
    assert(lines.drop_first()[0] == TERMINATOR@);
    assert(lines.drop_first().drop_first() =~= seq![Seq::<u8>::empty()]);
    assert(lines.drop_first().drop_first()[0] == Seq::<u8>::empty());
    assert(lines.drop_first().drop_first().drop_first() =~= Seq::<Seq<u8>>::empty());
    let found = ParserView { entry: None, key: Some(key), terminator_due: true };
    assert(step(initial_state(), header).0 == found);
    assert(step(found, TERMINATOR@).0 == scanning(Some(key)));
    assert(step(scanning(Some(key)), Seq::<u8>::empty()).0 == scanning(Some(key)));
}

/// Reading what stands before the first entry leaves the parser outside
/// any entry, with the key if there is a key record.
proof fn lemma_read_preamble(
    key_text: Option<Seq<u8>>,
    key: Option<Seq<u8>>,
    options: UnglobOptionsView,
)
    requires
        match key_text {
            Some(text) => is_bracket_text(text) && key is Some && key_text_outcome(text) == Ok::<
                Seq<u8>,
                KeyError,
            >(key->Some_0),
            None => key is None,
        },
    ensures
        advance(initial_state(), split_lines(preamble(key_text)), empty_extraction(), options)
            == Ok::<(ParserView, ExtractionView), UnglobErrorView>(
            (scanning(key), empty_extraction()),
        ),
        ends_lines(preamble(key_text)),
{
    match key_text {
        None => {
            assert(split_lines(preamble(key_text)) =~= Seq::<Seq<u8>>::empty());
        },
        Some(text) => {
            lemma_key_record_lines(text);
            lemma_read_key_record(text, key->Some_0, options);
        },
    }
}

/// Reading an archive that this library wrote extracts every entry.
proof fn lemma_unglob_written(
    entries: Seq<ArchiveEntryView>,
    key_text: Option<Seq<u8>>,
    key: Option<Seq<u8>>,
    options: UnglobOptionsView,
)
    requires
        entries.len() > 0,
        match key_text {
            Some(text) => is_bracket_text(text) && key is Some && key_text_outcome(text) == Ok::<
                Seq<u8>,
                KeyError,
            >(key->Some_0),
            None => key is None,
        },
        forall|i: int| 0 <= i < entries.len() ==> is_readable_entry(#[trigger] entries[i]),
        forall|i: int|
            0 <= i < entries.len() ==> (#[trigger] extracted(
                read_back(entries[i]),
                key,
                options,
            )) is Ok,
    ensures
        unglobbed(preamble(key_text) + entry_records(entries), options) == Ok::<
            ExtractionView,
            UnglobErrorView,
        >(files_only(files_read(entries, key, options, entries.len()))),
{
    lemma_read_preamble(key_text, key, options);
    lemma_read_records(entries, key, options);
    lemma_split_lines_append(preamble(key_text), entry_records(entries));
    lemma_advance_append(
        initial_state(),
        split_lines(preamble(key_text)),
        split_lines(entry_records(entries)),
        empty_extraction(),
        options,
    );
    let state = state_after(entries, key);
    let last = entries.last();
    if !last.is_binary {
        assert(closing(state) == Some(read_back(last)));
        assert(extracted(read_back(entries[entries.len() - 1]), key, options) is Ok);
        lemma_close_last(entries, key, options);
    }
}

/// The file that a portable file becomes when its entry is read back.
proof fn lemma_extracted_portable(
    file: SourceFileView,
    secret: Option<Seq<u8>>,
    key: Option<Seq<u8>>,
    options: UnglobOptionsView,
)
    requires
        is_portable_file(file, options.input_root, secret is Some),
        secret is Some <==> key is Some,
        secret matches Some(s) ==> (!is_binary(file.content) ==> is_sound_signature(
            key->Some_0,
            file.content,
            signature_text(s, file.content),
        )),
    ensures
        is_readable_entry(entry_for(file.path, file.content, is_binary(file.content), secret)),
        extracted(
            read_back(entry_for(file.path, file.content, is_binary(file.content), secret)),
            key,
            options,
        ) == Ok::<ExtractedFileView, ExtractError>(restored_file(file, options, key is Some)),
{
    reveal(is_readable_entry);
    if !is_binary(file.content) {
        lemma_join_content_lines(file.content);
    } else {
        let entry = entry_for(file.path, file.content, true, secret);
        assert(read_back(entry).lines.len() == 0);
    }
}

/// Files that are packed without signatures are read back as they were:
/// under the same paths and in the same order. A text file has the same
/// content, which then ends with a line feed: one is added to a content
/// that did not end with one. A binary file is empty.
pub proof fn lemma_round_trip(files: Seq<SourceFileView>, options: UnglobOptionsView)
    requires
        files.len() > 0,
        forall|i: int|
            0 <= i < files.len() ==> is_portable_file(
                #[trigger] files[i],
                options.input_root,
                false,
            ),
    ensures
        unglobbed(archive_of(files, None), options) == Ok::<ExtractionView, UnglobErrorView>(
            restored(files, options, false),
        ),
{
    let entries = entries_for(files, None);
    assert forall|i: int| 0 <= i < entries.len() implies is_readable_entry(
        #[trigger] entries[i],
    ) && extracted(read_back(entries[i]), None, options) == Ok::<
        ExtractedFileView,
        ExtractError,
    >(restored_file(files[i], options, false)) by {
        assert(is_portable_file(files[i], options.input_root, false));
        lemma_extracted_portable(files[i], None, None, options);
    }
    lemma_unglob_written(entries, None, None, options);
    assert(files_read(entries, None, options, entries.len()) =~= restored(
        files,
        options,
        false,
    ).files);
}

/// Files that are packed with signatures are read back as they were, and
/// the signature of every text file is found to belong to its content
/// where signatures are checked.
pub proof fn lemma_signed_round_trip(
    files: Seq<SourceFileView>,
    keypair: KeyPair,
    options: UnglobOptionsView,
)
    requires
        files.len() > 0,
        forall|i: int|
            0 <= i < files.len() ==> is_portable_file(
                #[trigger] files[i],
                options.input_root,
                true,
            ),
        signs_soundly(files, keypair),
    ensures
        unglobbed(archive_of(files, Some(&keypair)), options) == Ok::<
            ExtractionView,
            UnglobErrorView,
        >(restored(files, options, true)),
{
    let secret = Some(keypair.secret());
    let key = Some(keypair.public());
    let key_text = Some(base64_text(keypair.public()));
    let entries = entries_for(files, secret);
    assert forall|i: int| 0 <= i < entries.len() implies is_readable_entry(
        #[trigger] entries[i],
    ) && extracted(read_back(entries[i]), key, options) == Ok::<ExtractedFileView, ExtractError>(
        restored_file(files[i], options, true),
    ) by {
        assert(is_portable_file(files[i], options.input_root, true));
        lemma_extracted_portable(files[i], secret, key, options);
    }
    lemma_unglob_written(entries, key_text, key, options);
    assert(files_read(entries, key, options, entries.len()) =~= restored(
        files,
        options,
        true,
    ).files);
}

/// Whether the blank-line collapse leaves a content as it is: every blank
/// line of it is empty, and it has no more than `MAX_BLANK_LINES` of them
/// in a row, its end included.
pub open spec fn is_tidy_text(content: Seq<u8>) -> bool {
    is_tidy(content_lines(content), MAX_BLANK_LINES as nat)
}

/// The record of an entry whose content is tidy is made of tidy lines,
/// begins with a line that is not blank, and is those lines with a line
/// feed after each.
proof fn lemma_record_is_tidy(entry: ArchiveEntryView)
    requires
        is_readable_entry(entry),
        !entry.is_binary ==> is_tidy_text(entry.content),
    ensures
        is_tidy(split_lines(entry_record(entry)), MAX_BLANK_LINES as nat),
        split_lines(entry_record(entry)).len() > 0,
        !is_blank(split_lines(entry_record(entry))[0]),
        terminate_lines(split_lines(entry_record(entry))) == entry_record(entry),
{
    reveal(is_readable_entry);
    let header = header_line(FileHeaderView { path: entry.path, signature: entry.signature });
    match entry.signature {
        Some(s) => lemma_parse_signed_header(entry.path, s),
        None => lemma_parse_unsigned_header(entry.path),
    }
    lemma_plain_lines();
    lemma_record_lines(entry);
    let max = MAX_BLANK_LINES as nat;
    let lines = record_lines(entry);
    assert(lines[0] == header);
    assert(terminate_lines(seq![header]) =~= header + seq![LINE_FEED]) by {
        reveal_with_fuel(terminate_lines, 2);
        assert(seq![header].drop_first() =~= Seq::<Seq<u8>>::empty());
    }
    if entry.is_binary {
        let tail = seq![BINARY_SENTINEL@];
        assert(is_tidy(tail, max)) by {
            reveal_with_fuel(is_tidy_after, 2);
            assert(tail[0] == BINARY_SENTINEL@);
            assert(tail.drop_first() =~= Seq::<Seq<u8>>::empty());
        }
        assert(lines.drop_first() =~= tail);
        assert(terminate_lines(tail) =~= BINARY_SENTINEL@ + seq![LINE_FEED]) by {
            reveal_with_fuel(terminate_lines, 2);
            assert(tail[0] == BINARY_SENTINEL@);
            assert(tail.drop_first() =~= Seq::<Seq<u8>>::empty());
        }
        lemma_terminate_lines_append(seq![header], tail);
        assert(seq![header] + tail =~= lines);
        assert(terminate_lines(lines) =~= entry_record(entry));
    } else {
        let body = content_lines(entry.content);
        let tail = seq![TERMINATOR@, Seq::<u8>::empty()];
        assert(is_tidy(tail, max)) by {
            reveal_with_fuel(is_tidy_after, 3);
            assert(tail[0] == TERMINATOR@);
            assert(tail.drop_first() =~= seq![Seq::<u8>::empty()]);
            assert(tail.drop_first()[0] == Seq::<u8>::empty());
            assert(tail.drop_first().drop_first() =~= Seq::<Seq<u8>>::empty());
        }
        assert(tail[0] == TERMINATOR@);
        lemma_tidy_append(body, tail, max, 0);
        assert(lines.drop_first() =~= body + tail);
        lemma_join_content_lines(entry.content);
        lemma_terminate_is_join(body);
        lemma_terminate_lines_append(seq![header], body + tail);
        lemma_terminate_lines_append(body, tail);
        assert(terminate_lines(tail) =~= TERMINATOR@ + seq![LINE_FEED, LINE_FEED]) by {
            reveal_with_fuel(terminate_lines, 3);
            assert(tail.drop_first() =~= seq![Seq::<u8>::empty()]);
            assert(tail.drop_first()[0] == Seq::<u8>::empty());
            assert(tail.drop_first().drop_first() =~= Seq::<Seq<u8>>::empty());
        }
        assert(seq![header] + (body + tail) =~= lines);
        assert(terminate_lines(lines) =~= entry_record(entry));
    }
}

/// The records of entries whose contents are tidy are made of tidy lines,
/// begin with a line that is not blank, and are those lines with a line
/// feed after each.
proof fn lemma_records_are_tidy(entries: Seq<ArchiveEntryView>)
    requires
        forall|i: int|
            0 <= i < entries.len() ==> is_readable_entry(#[trigger] entries[i]) && (
            !entries[i].is_binary ==> is_tidy_text(entries[i].content)),
    ensures
        is_tidy(split_lines(entry_records(entries)), MAX_BLANK_LINES as nat),
        entries.len() > 0 ==> split_lines(entry_records(entries)).len() > 0 && !is_blank(
            split_lines(entry_records(entries))[0],
        ),
        terminate_lines(split_lines(entry_records(entries))) == entry_records(entries),
        ends_lines(entry_records(entries)),
    decreases entries.len(),
{
    if entries.len() == 0 {
        assert(split_lines(entry_records(entries)) =~= Seq::<Seq<u8>>::empty());
    } else {
        let before = entries.drop_last();
        let last = entries.last();
        assert forall|i: int| 0 <= i < before.len() implies is_readable_entry(
            #[trigger] before[i],
        ) && (!before[i].is_binary ==> is_tidy_text(before[i].content)) by {
            assert(before[i] == entries[i]);
        }
        lemma_records_are_tidy(before);
        lemma_record_is_tidy(last);
        lemma_record_lines(last);
        lemma_split_lines_append(entry_records(before), entry_record(last));
        let first = split_lines(entry_records(before));
        let second = split_lines(entry_record(last));
        lemma_tidy_append(first, second, MAX_BLANK_LINES as nat, 0);
        lemma_terminate_lines_append(first, second);
        if before.len() > 0 {
            assert((first + second)[0] == first[0]);
        } else {
            assert(first + second =~= second);
        }
        assert(entry_records(entries).last() == entry_record(last).last());
    }
}

/// What stands before the first entry is made of tidy lines, and is those
/// lines with a line feed after each.
proof fn lemma_preamble_is_tidy(key_text: Option<Seq<u8>>)
    requires
        key_text matches Some(text) ==> is_bracket_text(text),
    ensures
        is_tidy(split_lines(preamble(key_text)), MAX_BLANK_LINES as nat),
        terminate_lines(split_lines(preamble(key_text))) == preamble(key_text),
        ends_lines(preamble(key_text)),
{
    match key_text {
        None => {
            assert(split_lines(preamble(key_text)) =~= Seq::<Seq<u8>>::empty());
        },
        Some(text) => {
            lemma_key_record_lines(text);
            lemma_read_key_record_header(text);
            lemma_plain_lines();
            reveal_with_fuel(is_tidy_after, 4);
            reveal_with_fuel(terminate_lines, 4);
            let lines = seq![key_record_header(text), TERMINATOR@, Seq::<u8>::empty()];
            assert(lines[0] == key_record_header(text));
            assert(lines.drop_first() =~= seq![TERMINATOR@, Seq::<u8>::empty()]);
            assert(lines.drop_first()[0] == TERMINATOR@);
            assert(lines.drop_first().drop_first() =~= seq![Seq::<u8>::empty()]);
            assert(lines.drop_first().drop_first()[0] == Seq::<u8>::empty());
            assert(lines.drop_first().drop_first().drop_first() =~= Seq::<Seq<u8>>::empty());
            assert(terminate_lines(lines) =~= key_record(text));
        },
    }
}

/// An archive of files whose path can stand in a header and whose text is
/// portable and tidy is left as it is by the blank-line collapse: the
/// finished archive is the archive.
pub proof fn lemma_tidy_archive_is_finished(files: Seq<SourceFileView>, keypair: Option<&KeyPair>)
    requires
        forall|i: int|
            0 <= i < files.len() ==> is_recordable_path(
                (#[trigger] files[i]).path,
                keypair is Some && !is_binary(files[i].content),
            ) && (!is_binary(files[i].content) ==> is_portable_text(files[i].content)
                && is_tidy_text(files[i].content)),
        keypair matches Some(pair) ==> signs_soundly(files, *pair),
    ensures
        normalized(archive_of(files, keypair), MAX_BLANK_LINES as nat) == archive_of(
            files,
            keypair,
        ),
{
    reveal(is_readable_entry);
    let max = MAX_BLANK_LINES as nat;
    let entries = entries_for(files, optional_secret(keypair));
    assert forall|i: int| 0 <= i < entries.len() implies is_readable_entry(
        #[trigger] entries[i],
    ) && (!entries[i].is_binary ==> is_tidy_text(entries[i].content)) by {
        assert(is_recordable_path(
            files[i].path,
            keypair is Some && !is_binary(files[i].content),
        ));
    }
    lemma_records_are_tidy(entries);
    let head = preamble(optional_key_text(keypair));
    lemma_preamble_is_tidy(optional_key_text(keypair));
    let head_lines = split_lines(head);
    let body_lines = split_lines(entry_records(entries));
    lemma_split_lines_append(head, entry_records(entries));
    lemma_tidy_append(head_lines, body_lines, max, 0);
    lemma_terminate_lines_append(head_lines, body_lines);
    lemma_collapse_of_tidy(head_lines + body_lines, max, 0);
    let whole = archive_of(files, keypair);
    lemma_split_lines_hold_no_line_feed(whole);
    lemma_raw_lines_of_terminated(split_lines(whole));
}

} // verus!
