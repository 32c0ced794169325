//! Reading an archive line by line.
//!
//! The parser is outside any entry or inside one. A file header opens an
//! entry and closes the one that was open before. Inside an entry, lines
//! are collected until the terminator; the sentinel line closes the entry
//! at once as a binary one. A key record is read wherever it stands, and
//! the line after a valid key must be a terminator.

use vstd::prelude::*;
use vstd::slice::slice_to_vec;
use crate::bytes::{equal, optional_view, views};
use crate::format::{
    begins_header, is_header_line, is_key_record_header, key_record_text, key_text_of,
    parse_file_header, parse_header, HeaderError, BINARY_SENTINEL, TERMINATOR,
};
use crate::signature::{key_text_outcome, KeyError, PublicKey};

verus! {

/// An entry as it was read from an archive: the recorded path, the lines of
/// the content, whether the sentinel for binary content was found, and the
/// signature from the header, if there was one.
#[derive(Debug, PartialEq, Eq)]
pub struct ParsedEntry {
    pub path: Vec<u8>,
    pub lines: Vec<Vec<u8>>,
    pub is_binary: bool,
    pub signature: Option<Vec<u8>>,
}

/// The mathematical view of a `ParsedEntry`.
pub struct ParsedEntryView {
    pub path: Seq<u8>,
    pub lines: Seq<Seq<u8>>,
    pub is_binary: bool,
    pub signature: Option<Seq<u8>>,
}

impl View for ParsedEntry {
    type V = ParsedEntryView;

    open spec fn view(&self) -> ParsedEntryView {
        ParsedEntryView {
            path: self.path@,
            lines: views(self.lines@),
            is_binary: self.is_binary,
            signature: optional_view(self.signature),
        }
    }
}

/// The view of an optional entry.
pub open spec fn optional_entry_view(entry: Option<ParsedEntry>) -> Option<ParsedEntryView> {
    match entry {
        Some(e) => Some(e@),
        None => None,
    }
}

/// The entry that is being read: what its header said, the lines collected
/// so far, and whether the terminator was seen.
pub struct OpenEntry {
    path: Vec<u8>,
    lines: Vec<Vec<u8>>,
    signature: Option<Vec<u8>>,
    complete: bool,
}

/// The mathematical view of an `OpenEntry`.
pub struct OpenEntryView {
    pub path: Seq<u8>,
    pub lines: Seq<Seq<u8>>,
    pub signature: Option<Seq<u8>>,
    pub complete: bool,
}

impl View for OpenEntry {
    type V = OpenEntryView;

    closed spec fn view(&self) -> OpenEntryView {
        OpenEntryView {
            path: self.path@,
            lines: views(self.lines@),
            signature: optional_view(self.signature),
            complete: self.complete,
        }
    }
}

/// Where the parser stands: outside any entry, or inside one.
pub enum Phase {
    Scanning,
    InEntry(OpenEntry),
}

/// The state of the parser.
pub struct Parser {
    phase: Phase,
    public_key: Option<PublicKey>,
    terminator_due: bool,
}

/// The mathematical view of a `Parser`: the open entry, if the parser is
/// inside one; the key that was found, if any; and whether the next line
/// must be the terminator of the key record.
pub struct ParserView {
    pub entry: Option<OpenEntryView>,
    pub key: Option<Seq<u8>>,
    pub terminator_due: bool,
}

impl View for Parser {
    type V = ParserView;

    closed spec fn view(&self) -> ParserView {
        ParserView {
            entry: match self.phase {
                Phase::Scanning => None,
                Phase::InEntry(entry) => Some(entry@),
            },
            key: match self.public_key {
                Some(key) => Some(key@),
                None => None,
            },
            terminator_due: self.terminator_due,
        }
    }
}

/// Why the reading of an archive stops at a line.
#[derive(Clone, Copy, Debug, PartialEq, Eq, Structural)]
pub enum ParseError {
    /// A line begins like a header and is none.
    MalformedHeader(HeaderError),
    /// The line after a key record is not the terminator.
    UnterminatedKeyRecord,
}

/// What a line brings about, beside the next state: the entry that it
/// closes, if any; the key text that was refused, with the reason, if the
/// line is a key record with a bad key; and the error at which reading
/// stops, if any. A closed entry is handed out even where the line itself
/// is in error.
pub struct Step {
    pub finished: Option<ParsedEntry>,
    pub refused_key: Option<KeyError>,
    pub error: Option<ParseError>,
}

/// The mathematical view of a `Step`.
pub struct StepView {
    pub finished: Option<ParsedEntryView>,
    pub refused_key: Option<KeyError>,
    pub error: Option<ParseError>,
}

impl View for Step {
    type V = StepView;

    open spec fn view(&self) -> StepView {
        StepView {
            finished: optional_entry_view(self.finished),
            refused_key: self.refused_key,
            error: self.error,
        }
    }
}

/// The state before the first line.
pub open spec fn initial_state() -> ParserView {
    ParserView { entry: None, key: None, terminator_due: false }
}

/// A step that brings nothing about.
pub open spec fn quiet_step() -> StepView {
    StepView { finished: None, refused_key: None, error: None }
}

/// The entry that an open entry becomes when it is closed.
pub open spec fn closed_entry(entry: OpenEntryView) -> ParsedEntryView {
    ParsedEntryView {
        path: entry.path,
        lines: entry.lines,
        is_binary: false,
        signature: entry.signature,
    }
}

/// The entry that an open entry becomes at the sentinel line: a binary one
/// without content.
pub open spec fn binary_entry(entry: OpenEntryView) -> ParsedEntryView {
    ParsedEntryView {
        path: entry.path,
        lines: Seq::empty(),
        is_binary: true,
        signature: entry.signature,
    }
}

/// The entry that is closed when a file header is read or the archive
/// ends.
pub open spec fn closing(state: ParserView) -> Option<ParsedEntryView> {
    match state.entry {
        Some(entry) => Some(closed_entry(entry)),
        None => None,
    }
}

/// What a line that begins with the header marker brings about, when it is
/// no key record. The open entry is closed, and the header opens the next
/// one, or reading stops because the line is no header.
pub open spec fn header_step(state: ParserView, line: Seq<u8>) -> (ParserView, StepView) {
    match parse_header(line) {
        Ok(header) => (
            ParserView {
                entry: Some(
                    OpenEntryView {
                        path: header.path,
                        lines: Seq::empty(),
                        signature: header.signature,
                        complete: false,
                    },
                ),
                ..state
            },
            StepView { finished: closing(state), refused_key: None, error: None },
        ),
        Err(e) => (
            ParserView { entry: None, ..state },
            StepView {
                finished: closing(state),
                refused_key: None,
                error: Some(ParseError::MalformedHeader(e)),
            },
        ),
    }
}

/// What a line of content brings about inside an entry that is not yet
/// complete.
pub open spec fn content_step(state: ParserView, entry: OpenEntryView, line: Seq<u8>) -> (
    ParserView,
    StepView,
) {
    if line == TERMINATOR@ {
        (
            ParserView { entry: Some(OpenEntryView { complete: true, ..entry }), ..state },
            quiet_step(),
        )
    } else if line == BINARY_SENTINEL@ {
        (
            ParserView { entry: None, ..state },
            StepView { finished: Some(binary_entry(entry)), refused_key: None, error: None },
        )
    } else {
        (
            ParserView {
                entry: Some(OpenEntryView { lines: entry.lines.push(line), ..entry }),
                ..state
            },
            quiet_step(),
        )
    }
}

/// What one line brings about: the next state and the step.
pub open spec fn step(state: ParserView, line: Seq<u8>) -> (ParserView, StepView) {
    if state.terminator_due {
        if line == TERMINATOR@ {
            (ParserView { terminator_due: false, ..state }, quiet_step())
        } else {
            (
                ParserView { terminator_due: false, ..state },
                StepView {
                    finished: None,
                    refused_key: None,
                    error: Some(ParseError::UnterminatedKeyRecord),
                },
            )
        }
    } else if is_key_record_header(line) {
        match key_text_outcome(key_record_text(line)) {
            Ok(key) => (ParserView { key: Some(key), terminator_due: true, ..state }, quiet_step()),
            Err(e) => (state, StepView { finished: None, refused_key: Some(e), error: None }),
        }
    } else if is_header_line(line) {
        header_step(state, line)
    } else {
        match state.entry {
            Some(entry) => if entry.complete {
                (state, quiet_step())
            } else {
                content_step(state, entry, line)
            },
            None => (state, quiet_step()),
        }
    }
}

impl Parser {
    /// A parser before the first line.
    pub fn new() -> (parser: Parser)
        ensures
            parser@ == initial_state(),
    {
        Parser { phase: Phase::Scanning, public_key: None, terminator_due: false }
    }

    /// The key that was found in the archive so far.
    pub fn public_key(&self) -> (key: Option<PublicKey>)
        ensures
            key is Some <==> self@.key is Some,
            key matches Some(k) ==> self@.key == Some(k@),
    {
        self.public_key
    }

    /// Takes the open entry out of the parser and closes it.
    fn close(&mut self) -> (entry: Option<ParsedEntry>)
        ensures
            optional_entry_view(entry) == closing(old(self)@),
            final(self)@ == (ParserView { entry: None, ..old(self)@ }),
    {
        let mut phase = Phase::Scanning;
        core::mem::swap(&mut self.phase, &mut phase);
        match phase {
            Phase::Scanning => None,
            Phase::InEntry(open) => Some(
                ParsedEntry {
                    path: open.path,
                    lines: open.lines,
                    is_binary: false,
                    signature: open.signature,
                },
            ),
        }
    }

    /// Takes the next line of the archive.
    pub fn feed_line(&mut self, line: &[u8]) -> (outcome: Step)
        ensures
            (final(self)@, outcome@) == step(old(self)@, line@),
    {
        if self.terminator_due {
            self.terminator_due = false;
            if equal(line, TERMINATOR.as_slice()) {
                return Step { finished: None, refused_key: None, error: None };
            }
            return Step {
                finished: None,
                refused_key: None,
                error: Some(ParseError::UnterminatedKeyRecord),
            };
        }
        if let Some(text) = key_text_of(line) {
            match PublicKey::from_text(text) {
                Ok(key) => {
                    self.public_key = Some(key);
                    self.terminator_due = true;
                    return Step { finished: None, refused_key: None, error: None };
                },
                Err(e) => {
                    return Step { finished: None, refused_key: Some(e), error: None };
                },
            }
        }
        if begins_header(line) {
            let finished = self.close();
            match parse_file_header(line) {
                Ok(header) => {
                    self.phase = Phase::InEntry(
                        OpenEntry {
                            path: header.path,
                            lines: Vec::new(),
                            signature: header.signature,
                            complete: false,
                        },
                    );
                    assert(views(Seq::<Vec<u8>>::empty()) =~= Seq::<Seq<u8>>::empty());
                    return Step { finished, refused_key: None, error: None };
                },
                Err(e) => {
                    return Step {
                        finished,
                        refused_key: None,
                        error: Some(ParseError::MalformedHeader(e)),
                    };
                },
            }
        }
        let mut phase = Phase::Scanning;
        core::mem::swap(&mut self.phase, &mut phase);
        match phase {
            Phase::Scanning => Step { finished: None, refused_key: None, error: None },
            Phase::InEntry(mut open) => {
                if open.complete {
                    self.phase = Phase::InEntry(open);
                    Step { finished: None, refused_key: None, error: None }
                } else if equal(line, TERMINATOR.as_slice()) {
                    open.complete = true;
                    self.phase = Phase::InEntry(open);
                    Step { finished: None, refused_key: None, error: None }
                } else if equal(line, BINARY_SENTINEL.as_slice()) {
                    assert(views(Seq::<Vec<u8>>::empty()) =~= Seq::<Seq<u8>>::empty());
                    Step {
                        finished: Some(
                            ParsedEntry {
                                path: open.path,
                                lines: Vec::new(),
                                is_binary: true,
                                signature: open.signature,
                            },
                        ),
                        refused_key: None,
                        error: None,
                    }
                } else {
                    let ghost before = views(open.lines@);
                    open.lines.push(slice_to_vec(line));
                    assert(views(open.lines@) =~= before.push(line@));
                    self.phase = Phase::InEntry(open);
                    Step { finished: None, refused_key: None, error: None }
                }
            },
        }
    }

    /// Ends the reading and hands out the entry that was still open.
    pub fn finish(self) -> (entry: Option<ParsedEntry>)
        ensures
            optional_entry_view(entry) == closing(self@),
    {
        match self.phase {
            Phase::Scanning => None,
            Phase::InEntry(open) => Some(
                ParsedEntry {
                    path: open.path,
                    lines: open.lines,
                    is_binary: false,
                    signature: open.signature,
                },
            ),
        }
    }
}

} // verus!
