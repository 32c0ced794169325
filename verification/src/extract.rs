//! Turning the entries of an archive back into files.
//!
//! Nothing is written here: for every entry the library computes the path
//! below the destination directory and the bytes of the file, and checks
//! the signature where that is asked for.

use vstd::prelude::*;
use crate::bytes::views;
use crate::lines::{join_lines, join_with_line_feeds, split_into_lines, split_lines, LINE_FEED};
use crate::paths::{destination, is_contained, resolve_destination};
use crate::reader::{
    closing, initial_state, optional_entry_view, step, ParseError, ParsedEntry, ParsedEntryView,
    Parser, ParserView, Step,
};
use crate::signature::{
    signature_outcome, verify_signature, KeyError, PublicKey, VerificationError,
};

verus! {

/// The directory that recorded paths lose unless another is named:
/// `test_files`.
pub const DEFAULT_INPUT_ROOT: [u8; 10] = [
    0x74, 0x65, 0x73, 0x74, 0x5f, 0x66, 0x69, 0x6c, 0x65, 0x73,
];

/// How an archive is unpacked.
#[derive(Clone, Debug, PartialEq, Eq)]
pub struct UnglobOptions {
    /// The directory below which the files are written.
    pub destination_root: Vec<u8>,
    /// The directory that recorded paths lose where they begin with it.
    pub input_root: Vec<u8>,
    /// Whether signatures are checked where the archive holds a key.
    pub verify_signatures: bool,
    /// Whether the first entry that fails ends the run.
    pub strict: bool,
}

/// The mathematical view of `UnglobOptions`.
pub struct UnglobOptionsView {
    pub destination_root: Seq<u8>,
    pub input_root: Seq<u8>,
    pub verify_signatures: bool,
    pub strict: bool,
}

impl View for UnglobOptions {
    type V = UnglobOptionsView;

    open spec fn view(&self) -> UnglobOptionsView {
        UnglobOptionsView {
            destination_root: self.destination_root@,
            input_root: self.input_root@,
            verify_signatures: self.verify_signatures,
            strict: self.strict,
        }
    }
}

/// What was found out about the signature of an extracted entry.
#[derive(Clone, Copy, Debug, PartialEq, Eq, Structural)]
pub enum SignatureStatus {
    /// Signatures were not checked, or the archive holds no key.
    NotChecked,
    /// The signature belongs to the content.
    Verified,
    /// Signatures were checked and the entry has none.
    Missing,
}

/// Why an entry was not extracted.
#[derive(Clone, Copy, Debug, PartialEq, Eq, Structural)]
pub enum ExtractError {
    /// The recorded path leads out of the destination directory.
    ContainmentViolation,
    /// The signature was not accepted.
    Signature(VerificationError),
}

/// A file that is to be written.
#[derive(Debug, PartialEq, Eq)]
pub struct ExtractedFile {
    /// The path as the archive records it.
    pub recorded_path: Vec<u8>,
    /// The path at which the file is written.
    pub path: Vec<u8>,
    /// The bytes of the file.
    pub content: Vec<u8>,
    /// Whether the archive left the content out as binary.
    pub is_binary: bool,
    /// What was found out about the signature.
    pub signature: SignatureStatus,
}

/// The mathematical view of an `ExtractedFile`.
pub struct ExtractedFileView {
    pub recorded_path: Seq<u8>,
    pub path: Seq<u8>,
    pub content: Seq<u8>,
    pub is_binary: bool,
    pub signature: SignatureStatus,
}

impl View for ExtractedFile {
    type V = ExtractedFileView;

    open spec fn view(&self) -> ExtractedFileView {
        ExtractedFileView {
            recorded_path: self.recorded_path@,
            path: self.path@,
            content: self.content@,
            is_binary: self.is_binary,
            signature: self.signature,
        }
    }
}

/// An entry that was not extracted, and why.
#[derive(Debug, PartialEq, Eq)]
pub struct EntryFailure {
    pub path: Vec<u8>,
    pub error: ExtractError,
}

/// The mathematical view of an `EntryFailure`.
pub struct EntryFailureView {
    pub path: Seq<u8>,
    pub error: ExtractError,
}

impl View for EntryFailure {
    type V = EntryFailureView;

    open spec fn view(&self) -> EntryFailureView {
        EntryFailureView { path: self.path@, error: self.error }
    }
}

/// What unpacking an archive gave: the files to write, in the order of the
/// archive; the entries that failed, where a failure does not end the run;
/// and the reasons for which key records were passed over.
#[derive(Debug, PartialEq, Eq)]
pub struct Extraction {
    pub files: Vec<ExtractedFile>,
    pub failures: Vec<EntryFailure>,
    pub refused_keys: Vec<KeyError>,
}

/// The mathematical view of an `Extraction`.
pub struct ExtractionView {
    pub files: Seq<ExtractedFileView>,
    pub failures: Seq<EntryFailureView>,
    pub refused_keys: Seq<KeyError>,
}

impl View for Extraction {
    type V = ExtractionView;

    open spec fn view(&self) -> ExtractionView {
        ExtractionView {
            files: Seq::new(self.files@.len(), |i: int| self.files@[i]@),
            failures: Seq::new(self.failures@.len(), |i: int| self.failures@[i]@),
            refused_keys: self.refused_keys@,
        }
    }
}

/// Why unpacking an archive ended without a result.
#[derive(Debug, PartialEq, Eq)]
pub enum UnglobError {
    /// A line of the archive could not be read as what it begins like.
    Parse(ParseError),
    /// An entry failed and the run is strict.
    EntryFailed(EntryFailure),
    /// The archive holds no entry.
    NoFilesExtracted,
}

/// The mathematical view of an `UnglobError`.
pub enum UnglobErrorView {
    Parse(ParseError),
    EntryFailed(EntryFailureView),
    NoFilesExtracted,
}

impl View for UnglobError {
    type V = UnglobErrorView;

    open spec fn view(&self) -> UnglobErrorView {
        match self {
            UnglobError::Parse(e) => UnglobErrorView::Parse(*e),
            UnglobError::EntryFailed(f) => UnglobErrorView::EntryFailed(f@),
            UnglobError::NoFilesExtracted => UnglobErrorView::NoFilesExtracted,
        }
    }
}

/// The bytes of the file that holds the given lines. Without lines the
/// file is empty. Otherwise it holds the lines with a line feed between
/// each two of them, and ends with a line feed: one is added unless the
/// last line is empty and stands after another.
pub open spec fn file_bytes(lines: Seq<Seq<u8>>) -> Seq<u8> {
    if lines.len() == 0 {
        Seq::empty()
    } else {
        let joined = join_lines(lines);
        if joined.len() > 0 && joined.last() == LINE_FEED {
            joined
        } else {
            joined + seq![LINE_FEED]
        }
    }
}

/// What the check of an entry's signature gives. A signature is checked
/// only if that is asked for and a key was found; it is checked against
/// the lines joined by line feeds, with nothing added.
pub open spec fn signature_check(
    entry: ParsedEntryView,
    key: Option<Seq<u8>>,
    verify: bool,
) -> Result<SignatureStatus, VerificationError> {
    match key {
        Some(public) => if verify {
            match entry.signature {
                Some(signature) => match signature_outcome(
                    public,
                    join_lines(entry.lines),
                    signature,
                ) {
                    Ok(_) => Ok(SignatureStatus::Verified),
                    Err(e) => Err(e),
                },
                None => Ok(SignatureStatus::Missing),
            }
        } else {
            Ok(SignatureStatus::NotChecked)
        },
        None => Ok(SignatureStatus::NotChecked),
    }
}

/// The file that an entry becomes, or why it is not extracted. The path is
/// checked first, then the signature.
pub open spec fn extracted(
    entry: ParsedEntryView,
    key: Option<Seq<u8>>,
    options: UnglobOptionsView,
) -> Result<ExtractedFileView, ExtractError> {
    if !is_contained(options.input_root, entry.path) {
        Err(ExtractError::ContainmentViolation)
    } else {
        match signature_check(entry, key, options.verify_signatures) {
            Err(e) => Err(ExtractError::Signature(e)),
            Ok(status) => Ok(
                ExtractedFileView {
                    recorded_path: entry.path,
                    path: destination(options.destination_root, options.input_root, entry.path),
                    content: file_bytes(entry.lines),
                    is_binary: entry.is_binary,
                    signature: status,
                },
            ),
        }
    }
}

/// The result before the first line.
pub open spec fn empty_extraction() -> ExtractionView {
    ExtractionView { files: Seq::empty(), failures: Seq::empty(), refused_keys: Seq::empty() }
}

/// The result after an entry was closed, if one was. A failed entry ends a
/// strict run and is noted in any other.
pub open spec fn absorb(
    report: ExtractionView,
    entry: Option<ParsedEntryView>,
    key: Option<Seq<u8>>,
    options: UnglobOptionsView,
) -> Result<ExtractionView, UnglobErrorView> {
    match entry {
        None => Ok(report),
        Some(e) => match extracted(e, key, options) {
            Ok(file) => Ok(ExtractionView { files: report.files.push(file), ..report }),
            Err(error) => {
                let failure = EntryFailureView { path: e.path, error };
                if options.strict {
                    Err(UnglobErrorView::EntryFailed(failure))
                } else {
                    Ok(ExtractionView { failures: report.failures.push(failure), ..report })
                }
            },
        },
    }
}

/// The result with the reason for which a key record was passed over, if
/// one was.
pub open spec fn note_refused_key(
    report: ExtractionView,
    refused: Option<KeyError>,
) -> ExtractionView {
    match refused {
        Some(e) => ExtractionView { refused_keys: report.refused_keys.push(e), ..report },
        None => report,
    }
}

/// The state and the result after the given lines, or the error at which
/// the run ends. An entry that a line closes is dealt with before an error
/// of that line counts.
pub open spec fn advance(
    state: ParserView,
    lines: Seq<Seq<u8>>,
    report: ExtractionView,
    options: UnglobOptionsView,
) -> Result<(ParserView, ExtractionView), UnglobErrorView>
    decreases lines.len(),
{
    if lines.len() == 0 {
        Ok((state, report))
    } else {
        let (next, outcome) = step(state, lines[0]);
        match absorb(report, outcome.finished, state.key, options) {
            Err(e) => Err(e),
            Ok(absorbed) => match outcome.error {
                Some(e) => Err(UnglobErrorView::Parse(e)),
                None => advance(
                    next,
                    lines.drop_first(),
                    note_refused_key(absorbed, outcome.refused_key),
                    options,
                ),
            },
        }
    }
}

/// What the end of the archive makes of a state and a result: the entry
/// that is still open is closed, and a run without any entry is an error.
pub open spec fn ended(
    state: ParserView,
    report: ExtractionView,
    options: UnglobOptionsView,
) -> Result<ExtractionView, UnglobErrorView> {
    match absorb(report, closing(state), state.key, options) {
        Err(e) => Err(e),
        Ok(last) => if last.files.len() + last.failures.len() == 0 {
            Err(UnglobErrorView::NoFilesExtracted)
        } else {
            Ok(last)
        },
    }
}

/// What unpacking an archive gives.
pub open spec fn unglobbed(archive: Seq<u8>, options: UnglobOptionsView) -> Result<
    ExtractionView,
    UnglobErrorView,
> {
    match advance(initial_state(), split_lines(archive), empty_extraction(), options) {
        Err(e) => Err(e),
        Ok((state, report)) => ended(state, report, options),
    }
}

/// Computes the bytes of the file that holds the given lines.
pub fn write_extracted_file(lines: &Vec<Vec<u8>>) -> (content: Vec<u8>)
    ensures
        content@ == file_bytes(views(lines@)),
{
    if lines.len() == 0 {
        return Vec::new();
    }
    let mut content = join_with_line_feeds(lines);
    if content.len() == 0 || content[content.len() - 1] != LINE_FEED {
        content.push(LINE_FEED);
    }
    content
}

/// Turns an entry into the file that is to be written.
///
/// Fails with `ContainmentViolation` if the recorded path leads out of the
/// destination directory. If signatures are checked and a key is given, a
/// signature that is present must belong to the lines of the entry joined
/// by line feeds; an entry without a signature is extracted and marked so.
pub fn process_extracted_file(
    entry: &ParsedEntry,
    key: Option<&PublicKey>,
    options: &UnglobOptions,
) -> (file: Result<ExtractedFile, ExtractError>)
    ensures
        file matches Ok(f) ==> extracted(
            entry@,
            match key {
                Some(k) => Some(k@),
                None => None,
            },
            options@,
        ) == Ok::<ExtractedFileView, ExtractError>(f@),
        file matches Err(e) ==> extracted(
            entry@,
            match key {
                Some(k) => Some(k@),
                None => None,
            },
            options@,
        ) == Err::<ExtractedFileView, ExtractError>(e),
{
    let path = match resolve_destination(
        options.destination_root.as_slice(),
        options.input_root.as_slice(),
        entry.path.as_slice(),
    ) {
        Ok(path) => path,
        Err(_) => {
            return Err(ExtractError::ContainmentViolation);
        },
    };
    let mut status = SignatureStatus::NotChecked;
    if options.verify_signatures {
        if let Some(public) = key {
            match &entry.signature {
                Some(signature) => {
                    let signed = join_with_line_feeds(&entry.lines);
                    match verify_signature(public, signed.as_slice(), signature.as_slice()) {
                        Ok(_) => {
                            status = SignatureStatus::Verified;
                        },
                        Err(e) => {
                            return Err(ExtractError::Signature(e));
                        },
                    }
                },
                None => {
                    status = SignatureStatus::Missing;
                },
            }
        }
    }
    let content = write_extracted_file(&entry.lines);
    Ok(
        ExtractedFile {
            recorded_path: entry.path.clone(),
            path,
            content,
            is_binary: entry.is_binary,
            signature: status,
        },
    )
}

/// What a line of the archive, or its end, asks of the caller: the file
/// to write, if an entry was closed and extracted; the failure to note, if
/// an entry was closed and failed in a run that goes on; the reason for
/// which a key record was passed over; and the error at which the run
/// stops, if it does. A file is to be written even where the run stops
/// after it.
#[derive(Debug, PartialEq, Eq)]
pub struct Progress {
    pub file: Option<ExtractedFile>,
    pub failure: Option<EntryFailure>,
    pub refused_key: Option<KeyError>,
    pub stop: Option<UnglobError>,
}

/// The mathematical view of a `Progress`.
pub struct ProgressView {
    pub file: Option<ExtractedFileView>,
    pub failure: Option<EntryFailureView>,
    pub refused_key: Option<KeyError>,
    pub stop: Option<UnglobErrorView>,
}

impl View for Progress {
    type V = ProgressView;

    open spec fn view(&self) -> ProgressView {
        ProgressView {
            file: match self.file {
                Some(f) => Some(f@),
                None => None,
            },
            failure: match self.failure {
                Some(f) => Some(f@),
                None => None,
            },
            refused_key: self.refused_key,
            stop: match self.stop {
                Some(e) => Some(e@),
                None => None,
            },
        }
    }
}

/// What closing an entry, if there is one, asks of the caller.
pub open spec fn closed_progress(
    entry: Option<ParsedEntryView>,
    key: Option<Seq<u8>>,
    options: UnglobOptionsView,
) -> ProgressView {
    let quiet = ProgressView { file: None, failure: None, refused_key: None, stop: None };
    match entry {
        None => quiet,
        Some(e) => match extracted(e, key, options) {
            Ok(file) => ProgressView { file: Some(file), ..quiet },
            Err(error) => {
                let failure = EntryFailureView { path: e.path, error };
                if options.strict {
                    ProgressView { stop: Some(UnglobErrorView::EntryFailed(failure)), ..quiet }
                } else {
                    ProgressView { failure: Some(failure), ..quiet }
                }
            },
        },
    }
}

/// What a line asks of the caller. The entry that the line closes is dealt
/// with first; if that does not stop the run, an error of the line does.
pub open spec fn line_progress(
    state: ParserView,
    line: Seq<u8>,
    options: UnglobOptionsView,
) -> ProgressView {
    let outcome = step(state, line).1;
    let closed = closed_progress(outcome.finished, state.key, options);
    if closed.stop is Some {
        closed
    } else {
        ProgressView {
            refused_key: outcome.refused_key,
            stop: match outcome.error {
                Some(e) => Some(UnglobErrorView::Parse(e)),
                None => None,
            },
            ..closed
        }
    }
}

/// What the end of the archive asks of the caller. The entry that is
/// still open is closed; a run without any entry stops with
/// `NoFilesExtracted`.
pub open spec fn end_progress(
    state: ParserView,
    report: ExtractionView,
    options: UnglobOptionsView,
) -> ProgressView {
    let closed = closed_progress(closing(state), state.key, options);
    if closed.stop is None && closed.file is None && closed.failure is None && report.files.len()
        + report.failures.len() == 0 {
        ProgressView { stop: Some(UnglobErrorView::NoFilesExtracted), ..closed }
    } else {
        closed
    }
}

/// The result with what a step added to it.
pub open spec fn with_progress(report: ExtractionView, progress: ProgressView) -> ExtractionView {
    ExtractionView {
        files: match progress.file {
            Some(f) => report.files.push(f),
            None => report.files,
        },
        failures: match progress.failure {
            Some(f) => report.failures.push(f),
            None => report.failures,
        },
        refused_keys: match progress.refused_key {
            Some(e) => report.refused_keys.push(e),
            None => report.refused_keys,
        },
    }
}

/// The state and the result after one line, or the error at which the run
/// ends.
pub open spec fn feed(
    state: ParserView,
    line: Seq<u8>,
    report: ExtractionView,
    options: UnglobOptionsView,
) -> Result<(ParserView, ExtractionView), UnglobErrorView> {
    let (next, outcome) = step(state, line);
    match absorb(report, outcome.finished, state.key, options) {
        Err(e) => Err(e),
        Ok(absorbed) => match outcome.error {
            Some(e) => Err(UnglobErrorView::Parse(e)),
            None => Ok((next, note_refused_key(absorbed, outcome.refused_key))),
        },
    }
}

/// Whether any entry was closed so far, with the result that says so.
struct Tally {
    any_entry: bool,
    report: Ghost<ExtractionView>,
}

impl Tally {
    #[verifier::type_invariant]
    closed spec fn counted(&self) -> bool {
        self.any_entry == (self.report@.files.len() + self.report@.failures.len() > 0)
    }
}

/// The unpacking of one archive, line by line. It says after every line
/// what is to be done, and the caller does it.
pub struct Unglobber {
    parser: Parser,
    options: UnglobOptions,
    tally: Tally,
}

/// Turns an entry that was closed, if one was, into what the caller is to
/// do.
fn close_entry(
    entry: Option<ParsedEntry>,
    key: Option<&PublicKey>,
    options: &UnglobOptions,
) -> (progress: Progress)
    ensures
        progress@ == closed_progress(
            optional_entry_view(entry),
            match key {
                Some(k) => Some(k@),
                None => None,
            },
            options@,
        ),
{
    match entry {
        None => Progress { file: None, failure: None, refused_key: None, stop: None },
        Some(e) => match process_extracted_file(&e, key, options) {
            Ok(file) => Progress { file: Some(file), failure: None, refused_key: None, stop: None },
            Err(error) => {
                let failure = EntryFailure { path: e.path, error };
                if options.strict {
                    Progress {
                        file: None,
                        failure: None,
                        refused_key: None,
                        stop: Some(UnglobError::EntryFailed(failure)),
                    }
                } else {
                    Progress { file: None, failure: Some(failure), refused_key: None, stop: None }
                }
            },
        },
    }
}

impl Unglobber {
    /// The state of the parser.
    pub closed spec fn state(&self) -> ParserView {
        self.parser@
    }

    /// How the archive is unpacked.
    pub closed spec fn options(&self) -> UnglobOptionsView {
        self.options@
    }

    /// The result so far.
    pub closed spec fn report(&self) -> ExtractionView {
        self.tally.report@
    }

    /// Begins the unpacking of an archive.
    pub fn new(options: UnglobOptions) -> (session: Unglobber)
        ensures
            session.state() == initial_state(),
            session.options() == options@,
            session.report() == empty_extraction(),
    {
        Unglobber {
            parser: Parser::new(),
            options,
            tally: Tally { any_entry: false, report: Ghost(empty_extraction()) },
        }
    }

    /// Takes the next line of the archive and says what is to be done.
    ///
    /// Where the run does not stop, the state and the result are those
    /// after the line; where it stops, it stops with the error with which
    /// unpacking the whole archive ends.
    pub fn feed_line(&mut self, line: &[u8]) -> (progress: Progress)
        ensures
            progress@ == line_progress(old(self).state(), line@, old(self).options()),
            final(self).state() == step(old(self).state(), line@).0,
            final(self).options() == old(self).options(),
            final(self).report() == with_progress(old(self).report(), progress@),
            feed(old(self).state(), line@, old(self).report(), old(self).options())
                == match progress@.stop {
                Some(e) => Err::<(ParserView, ExtractionView), UnglobErrorView>(e),
                None => Ok::<(ParserView, ExtractionView), UnglobErrorView>(
                    (final(self).state(), final(self).report()),
                ),
            },
    {
        proof {
            use_type_invariant(&self.tally);
        }
        let ghost before = self.tally.report@;
        let key = self.parser.public_key();
        let Step { finished, refused_key, error } = self.parser.feed_line(line);
        let closed = close_entry(finished, key.as_ref(), &self.options);
        let progress = if closed.stop.is_some() {
            closed
        } else {
            Progress {
                file: closed.file,
                failure: closed.failure,
                refused_key,
                stop: match error {
                    Some(e) => Some(UnglobError::Parse(e)),
                    None => None,
                },
            }
        };
        let any_entry = self.tally.any_entry || progress.file.is_some()
            || progress.failure.is_some();
        self.tally = Tally { any_entry, report: Ghost(with_progress(before, progress@)) };
        progress
    }

    /// Ends the unpacking and says what is to be done at last.
    ///
    /// Where the run does not stop, the result with what this step adds is
    /// the result of unpacking the whole archive; where it stops, it stops
    /// with the error with which unpacking the whole archive ends.
    pub fn finish(self) -> (progress: Progress)
        ensures
            progress@ == end_progress(self.state(), self.report(), self.options()),
            ended(self.state(), self.report(), self.options()) == match progress@.stop {
                Some(e) => Err::<ExtractionView, UnglobErrorView>(e),
                None => Ok::<ExtractionView, UnglobErrorView>(
                    with_progress(self.report(), progress@),
                ),
            },
    {
        proof {
            use_type_invariant(&self.tally);
        }
        let Unglobber { parser, options, tally } = self;
        let key = parser.public_key();
        let closed = close_entry(parser.finish(), key.as_ref(), &options);
        if closed.stop.is_none() && closed.file.is_none() && closed.failure.is_none()
            && !tally.any_entry {
            Progress {
                file: None,
                failure: None,
                refused_key: None,
                stop: Some(UnglobError::NoFilesExtracted),
            }
        } else {
            closed
        }
    }
}

/// Adds what a step asks for to the result, and hands back the error at
/// which the run stops, if it does.
fn collect(report: &mut Extraction, progress: Progress) -> (stop: Option<UnglobError>)
    ensures
        final(report)@ == with_progress(old(report)@, progress@),
        match stop {
            Some(e) => progress@.stop == Some(e@),
            None => progress@.stop is None,
        },
{
    let ghost before = report@;
    let Progress { file, failure, refused_key, stop } = progress;
    if let Some(f) = file {
        report.files.push(f);
    }
    if let Some(f) = failure {
        report.failures.push(f);
    }
    if let Some(e) = refused_key {
        report.refused_keys.push(e);
    }
    proof {
        let after = with_progress(before, progress@);
        assert(report@.files =~= after.files);
        assert(report@.failures =~= after.failures);
        assert(report@.refused_keys =~= after.refused_keys);
    }
    stop
}

/// Unpacks an archive.
///
/// The archive is read line by line. Every entry becomes a file to write,
/// or a failure. In a strict run the first failure ends the run; otherwise
/// failures are collected and the other entries are extracted. A line that
/// begins like a header and is none ends every run. An archive without any
/// entry gives `NoFilesExtracted`.
pub fn unglob_file(archive: &[u8], options: &UnglobOptions) -> (outcome: Result<
    Extraction,
    UnglobError,
>)
    ensures
        outcome matches Ok(report) ==> unglobbed(archive@, options@) == Ok::<
            ExtractionView,
            UnglobErrorView,
        >(report@),
        outcome matches Err(e) ==> unglobbed(archive@, options@) == Err::<
            ExtractionView,
            UnglobErrorView,
        >(e@),
{
    let lines = split_into_lines(archive);
    let mut session = Unglobber::new(
        UnglobOptions {
            destination_root: options.destination_root.clone(),
            input_root: options.input_root.clone(),
            verify_signatures: options.verify_signatures,
            strict: options.strict,
        },
    );
    let mut report =
        Extraction { files: Vec::new(), failures: Vec::new(), refused_keys: Vec::new() };
    let ghost all = views(lines@);
    let mut i: usize = 0;
    proof {
        assert(all.skip(0) =~= all);
        assert(report@.files =~= Seq::<ExtractedFileView>::empty());
        assert(report@.failures =~= Seq::<EntryFailureView>::empty());
    }
    while i < lines.len()
        invariant
            i <= lines@.len(),
            all == views(lines@),
            all == split_lines(archive@),
            session.options() == options@,
            session.report() == report@,
            advance(session.state(), all.skip(i as int), report@, options@) == advance(
                initial_state(),
                all,
                empty_extraction(),
                options@,
            ),
        decreases lines@.len() - i,
    {
        proof {
            assert(all.skip(i as int).drop_first() =~= all.skip(i + 1));
            assert(all.skip(i as int)[0] == lines@[i as int]@);
        }
        let progress = session.feed_line(lines[i].as_slice());
        if let Some(e) = collect(&mut report, progress) {
            return Err(e);
        }
        i = i + 1;
    }
    proof {
        assert(all.skip(i as int) =~= Seq::<Seq<u8>>::empty());
    }
    let progress = session.finish();
    if let Some(e) = collect(&mut report, progress) {
        return Err(e);
    }
    Ok(report)
}

} // verus!
