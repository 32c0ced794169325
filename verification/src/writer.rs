//! Writing an archive: one record per file, after the key record if the
//! entries are signed.

use vstd::prelude::*;
use vstd::slice::slice_to_vec;
use vstd::utf8::valid_utf8;
use crate::bytes::optional_view;
use crate::classify::{is_binary, is_binary_data};
use crate::extract::{unglobbed, ExtractionView, UnglobErrorView, UnglobOptionsView};
use crate::format::{
    format_header, format_key_record, header_line, key_record_header, FileHeaderView,
    BINARY_SENTINEL, NON_UTF8_PLACEHOLDER, TERMINATOR,
};
use crate::lines::LINE_FEED;
use crate::normalize::{clean_up_text, normalized, MAX_BLANK_LINES};
use crate::roundtrip::{
    is_portable_file, is_tidy_text, lemma_round_trip, lemma_signed_round_trip,
    lemma_tidy_archive_is_finished, restored,
};
use crate::signature::{
    base64_bytes, base64_text, is_base64_symbol, sign_data, signature_outcome, signature_text,
    KeyPair, VerificationError,
};

verus! {

/// Tells with `std::str::from_utf8` whether bytes are valid UTF-8. The
/// contract states the answer over the definition of UTF-8 that `vstd`
/// gives.
#[verifier::external_body]
fn is_utf8(data: &[u8]) -> (valid: bool)
    ensures
        valid == valid_utf8(data@),
{
    std::str::from_utf8(data).is_ok()
}

/// A file that is to be packed: its path and its content.
#[derive(Clone, Debug, PartialEq, Eq)]
pub struct SourceFile {
    pub path: Vec<u8>,
    pub content: Vec<u8>,
}

/// The mathematical view of a `SourceFile`.
pub struct SourceFileView {
    pub path: Seq<u8>,
    pub content: Seq<u8>,
}

impl View for SourceFile {
    type V = SourceFileView;

    open spec fn view(&self) -> SourceFileView {
        SourceFileView { path: self.path@, content: self.content@ }
    }
}

/// The views of the files that a vector holds.
pub open spec fn file_views(files: Seq<SourceFile>) -> Seq<SourceFileView> {
    Seq::new(files.len(), |i: int| files[i]@)
}

/// One entry of an archive: the path of a file, its content, whether the
/// content counts as binary, and the signature of the content, if it is
/// signed.
#[derive(Clone, Debug, PartialEq, Eq)]
pub struct ArchiveEntry {
    pub path: Vec<u8>,
    pub content: Vec<u8>,
    pub is_binary: bool,
    pub signature: Option<Vec<u8>>,
}

/// The mathematical view of an `ArchiveEntry`.
pub struct ArchiveEntryView {
    pub path: Seq<u8>,
    pub content: Seq<u8>,
    pub is_binary: bool,
    pub signature: Option<Seq<u8>>,
}

impl View for ArchiveEntry {
    type V = ArchiveEntryView;

    open spec fn view(&self) -> ArchiveEntryView {
        ArchiveEntryView {
            path: self.path@,
            content: self.content@,
            is_binary: self.is_binary,
            signature: optional_view(self.signature),
        }
    }
}

/// Why no archive was produced.
#[derive(Clone, Copy, Debug, PartialEq, Eq, Structural)]
pub enum EncodeError {
    /// No file was selected.
    NoInputMatched,
    /// Files were selected, and none of them could be written.
    IoFailure,
}

/// How many files went into an archive and how many could not be written.
#[derive(Clone, Copy, Debug, PartialEq, Eq, Structural)]
pub struct WriteSummary {
    pub processed: usize,
    pub failed: usize,
}

impl WriteSummary {
    /// Whether the archive was produced though some files failed.
    pub open spec fn is_partial_failure(&self) -> bool {
        self.failed > 0
    }

    /// Whether the archive was produced though some files failed.
    pub fn partial_failure(&self) -> (partial: bool)
        ensures
            partial == self.is_partial_failure(),
    {
        self.failed > 0
    }
}

/// The entry that stands for a file with the given classification. Text is
/// signed where there is a key; binary content never is. The signature
/// covers the content as it was given.
pub open spec fn entry_for(
    path: Seq<u8>,
    content: Seq<u8>,
    binary: bool,
    secret: Option<Seq<u8>>,
) -> ArchiveEntryView {
    ArchiveEntryView {
        path,
        content,
        is_binary: binary,
        signature: match secret {
            Some(key) => if binary {
                None
            } else {
                Some(signature_text(key, content))
            },
            None => None,
        },
    }
}

/// The bytes that are written for the content of a text entry: the content
/// itself, or the placeholder where the content is not UTF-8.
pub open spec fn stored_content(content: Seq<u8>) -> Seq<u8> {
    if valid_utf8(content) {
        content
    } else {
        NON_UTF8_PLACEHOLDER@
    }
}

/// What follows the header line of an entry. For a binary entry this is the
/// sentinel line. For a text entry it is the stored content, a line feed,
/// the terminator line and one empty line.
pub open spec fn entry_body(entry: ArchiveEntryView) -> Seq<u8> {
    if entry.is_binary {
        BINARY_SENTINEL@ + seq![LINE_FEED]
    } else {
        stored_content(entry.content) + seq![LINE_FEED] + TERMINATOR@ + seq![LINE_FEED, LINE_FEED]
    }
}

/// The record of an entry: its header line and what follows it.
pub open spec fn entry_record(entry: ArchiveEntryView) -> Seq<u8> {
    header_line(FileHeaderView { path: entry.path, signature: entry.signature }) + seq![LINE_FEED]
        + entry_body(entry)
}

/// The key record: its header line, the terminator line and one empty line.
pub open spec fn key_record(key_text: Seq<u8>) -> Seq<u8> {
    key_record_header(key_text) + seq![LINE_FEED] + TERMINATOR@ + seq![LINE_FEED, LINE_FEED]
}

/// The records of the entries, one after the other.
pub open spec fn entry_records(entries: Seq<ArchiveEntryView>) -> Seq<u8>
    decreases entries.len(),
{
    if entries.len() == 0 {
        Seq::empty()
    } else {
        entry_records(entries.drop_last()) + entry_record(entries.last())
    }
}

/// The entries that stand for the files, each classified by its content.
pub open spec fn entries_for(files: Seq<SourceFileView>, secret: Option<Seq<u8>>) -> Seq<
    ArchiveEntryView,
> {
    Seq::new(
        files.len(),
        |i: int| entry_for(files[i].path, files[i].content, is_binary(files[i].content), secret),
    )
}

/// What stands before the first entry: the key record if the entries are
/// signed, and nothing otherwise.
pub open spec fn preamble(key_text: Option<Seq<u8>>) -> Seq<u8> {
    match key_text {
        Some(text) => key_record(text),
        None => Seq::empty(),
    }
}

/// The secret half of an optional key pair.
pub open spec fn optional_secret(keypair: Option<&KeyPair>) -> Option<Seq<u8>> {
    match keypair {
        Some(pair) => Some(pair.secret()),
        None => None,
    }
}

/// The base64 text of the public half of an optional key pair.
pub open spec fn optional_key_text(keypair: Option<&KeyPair>) -> Option<Seq<u8>> {
    match keypair {
        Some(pair) => Some(base64_text(pair.public())),
        None => None,
    }
}

/// The archive of the files: the preamble and the records of their entries.
pub open spec fn archive_of(files: Seq<SourceFileView>, keypair: Option<&KeyPair>) -> Seq<u8> {
    preamble(optional_key_text(keypair)) + entry_records(
        entries_for(files, optional_secret(keypair)),
    )
}

/// Whether a signature is one that the reader accepts for `content` under
/// `public`, and that can stand in a header line.
pub open spec fn is_sound_signature(public: Seq<u8>, content: Seq<u8>, signature: Seq<u8>) -> bool {
    &&& signature_outcome(public, content, signature) == Ok::<(), VerificationError>(())
    &&& forall|i: int| 0 <= i < signature.len() ==> is_base64_symbol(#[trigger] signature[i])
}

/// Whether the base64 text of a public key is one that the reader takes
/// for that key, and that can stand in the key record.
pub open spec fn is_sound_key_text(public: Seq<u8>) -> bool {
    &&& base64_bytes(base64_text(public)) == Some(public)
    &&& forall|i: int|
        0 <= i < base64_text(public).len() ==> is_base64_symbol(#[trigger] base64_text(public)[i])
}

/// Whether the signatures of the files under a key pair, and the text of
/// its public key, are sound. The signature engine promises this of every
/// key pair that it hands out and of every content that it signs.
pub open spec fn signs_soundly(files: Seq<SourceFileView>, keypair: KeyPair) -> bool {
    &&& keypair.wf()
    &&& is_sound_key_text(keypair.public())
    &&& forall|i: int|
        0 <= i < files.len() && !is_binary((#[trigger] files[i]).content) ==> is_sound_signature(
            keypair.public(),
            files[i].content,
            signature_text(keypair.secret(), files[i].content),
        )
}

/// Makes the entry of a file with the given classification, and signs it
/// where that is asked for and the content is text.
pub fn make_entry(
    path: &[u8],
    content: &[u8],
    binary: bool,
    keypair: Option<&KeyPair>,
) -> (entry: ArchiveEntry)
    ensures
        entry@ == entry_for(path@, content@, binary, optional_secret(keypair)),
        keypair matches Some(pair) ==> (entry@.signature matches Some(s) ==> is_sound_signature(
            pair.public(),
            content@,
            s,
        )),
{
    let signature = match keypair {
        Some(pair) => if binary {
            None
        } else {
            Some(sign_data(pair, content))
        },
        None => None,
    };
    ArchiveEntry {
        path: slice_to_vec(path),
        content: slice_to_vec(content),
        is_binary: binary,
        signature,
    }
}

/// Writes the record of an entry.
pub fn write_entry(entry: &ArchiveEntry) -> (record: Vec<u8>)
    ensures
        record@ == entry_record(entry@),
{
    let mut record = match &entry.signature {
        Some(s) => format_header(entry.path.as_slice(), Some(s.as_slice())),
        None => format_header(entry.path.as_slice(), None),
    };
    record.push(LINE_FEED);
    if entry.is_binary {
        record.extend_from_slice(BINARY_SENTINEL.as_slice());
        record.push(LINE_FEED);
    } else {
        if is_utf8(entry.content.as_slice()) {
            record.extend_from_slice(entry.content.as_slice());
        } else {
            record.extend_from_slice(NON_UTF8_PLACEHOLDER.as_slice());
        }
        record.push(LINE_FEED);
        record.extend_from_slice(TERMINATOR.as_slice());
        record.push(LINE_FEED);
        record.push(LINE_FEED);
    }
    assert(record@ =~= entry_record(entry@));
    record
}

/// Writes the record of a file whose classification is known.
///
/// The header carries a signature if a key pair is given and the content
/// is text; the signature covers `data` as it is. Binary content is left
/// out and the sentinel line stands in its place. Text that is not UTF-8 is
/// replaced as a whole by the placeholder.
pub fn write_file_content(
    path: &[u8],
    data: &[u8],
    binary: bool,
    keypair: Option<&KeyPair>,
) -> (record: Vec<u8>)
    ensures
        record@ == entry_record(entry_for(path@, data@, binary, optional_secret(keypair))),
        keypair matches Some(pair) ==> (!binary ==> is_sound_signature(
            pair.public(),
            data@,
            signature_text(pair.secret(), data@),
        )),
{
    let entry = make_entry(path, data, binary, keypair);
    write_entry(&entry)
}

/// Classifies the content of a file and writes its record.
pub fn process_file(path: &[u8], data: &[u8], keypair: Option<&KeyPair>) -> (record: Vec<u8>)
    ensures
        record@ == entry_record(
            entry_for(path@, data@, is_binary(data@), optional_secret(keypair)),
        ),
        keypair matches Some(pair) ==> (!is_binary(data@) ==> is_sound_signature(
            pair.public(),
            data@,
            signature_text(pair.secret(), data@),
        )),
{
    let binary = is_binary_data(data);
    write_file_content(path, data, binary, keypair)
}

/// Writes what stands before the first entry.
pub fn write_preamble(keypair: Option<&KeyPair>) -> (bytes: Vec<u8>)
    ensures
        bytes@ == preamble(optional_key_text(keypair)),
        keypair matches Some(pair) ==> pair.wf() && is_sound_key_text(pair.public()),
{
    match keypair {
        Some(pair) => {
            let text = pair.public_key().to_text();
            let mut bytes = format_key_record(text.as_slice());
            bytes.push(LINE_FEED);
            bytes.extend_from_slice(TERMINATOR.as_slice());
            bytes.push(LINE_FEED);
            bytes.push(LINE_FEED);
            assert(bytes@ =~= key_record(text@));
            bytes
        },
        None => Vec::new(),
    }
}

/// Decides how a run ended in which `selected` files were chosen,
/// `processed` of them were written and `failed` were not.
///
/// No selected file is `NoInputMatched`. Selected files of which none was
/// written are an `IoFailure`. Otherwise the archive stands, and the
/// summary says how many files failed.
pub fn conclude(selected: usize, processed: usize, failed: usize) -> (outcome: Result<
    WriteSummary,
    EncodeError,
>)
    ensures
        outcome == if selected == 0 {
            Err::<WriteSummary, EncodeError>(EncodeError::NoInputMatched)
        } else if processed == 0 {
            Err::<WriteSummary, EncodeError>(EncodeError::IoFailure)
        } else {
            Ok::<WriteSummary, EncodeError>(WriteSummary { processed, failed })
        },
{
    if selected == 0 {
        Err(EncodeError::NoInputMatched)
    } else if processed == 0 {
        Err(EncodeError::IoFailure)
    } else {
        Ok(WriteSummary { processed, failed })
    }
}

/// Whether every file is written and read back under the given input
/// root, in an archive that is signed or not.
pub open spec fn all_portable(
    files: Seq<SourceFileView>,
    input_root: Seq<u8>,
    signed: bool,
) -> bool {
    forall|i: int|
        0 <= i < files.len() ==> is_portable_file(#[trigger] files[i], input_root, signed)
}

/// Packs files into an archive, in the order given.
///
/// Fails with `NoInputMatched` if there is no file. With a key pair, the
/// archive begins with the key record and every text entry is signed.
///
/// Unpacking the archive gives the files back where all of them are
/// portable text: every file under its path, in the same order, with its
/// content and a line feed at the end of it, and every signature verified
/// where signatures are checked.
pub fn encode_archive(files: &[SourceFile], keypair: Option<&KeyPair>) -> (archive: Result<
    Vec<u8>,
    EncodeError,
>)
    ensures
        files@.len() == 0 ==> archive == Err::<Vec<u8>, EncodeError>(EncodeError::NoInputMatched),
        files@.len() > 0 ==> (archive matches Ok(bytes) && bytes@ == archive_of(
            file_views(files@),
            keypair,
        )),
        files@.len() > 0 ==> (keypair matches Some(pair) ==> signs_soundly(
            file_views(files@),
            *pair,
        )),
        forall|options: UnglobOptionsView|
            files@.len() > 0 && all_portable(
                file_views(files@),
                options.input_root,
                keypair is Some,
            ) ==> (#[trigger] unglobbed(archive_of(file_views(files@), keypair), options)) == Ok::<
                ExtractionView,
                UnglobErrorView,
            >(restored(file_views(files@), options, keypair is Some)),
{
    if files.len() == 0 {
        return Err(EncodeError::NoInputMatched);
    }
    let mut bytes = write_preamble(keypair);
    let ghost all = entries_for(file_views(files@), optional_secret(keypair));
    let mut i: usize = 0;
    assert(all.take(0) =~= Seq::<ArchiveEntryView>::empty());
    while i < files.len()
        invariant
            i <= files@.len(),
            all == entries_for(file_views(files@), optional_secret(keypair)),
            bytes@ == preamble(optional_key_text(keypair)) + entry_records(all.take(i as int)),
            keypair matches Some(pair) ==> forall|j: int|
                0 <= j < i && !is_binary((#[trigger] file_views(files@)[j]).content)
                    ==> is_sound_signature(
                    pair.public(),
                    file_views(files@)[j].content,
                    signature_text(pair.secret(), file_views(files@)[j].content),
                ),
        decreases files@.len() - i,
    {
        let file = &files[i];
        let record = process_file(file.path.as_slice(), file.content.as_slice(), keypair);
        proof {
            assert(all.take(i + 1).drop_last() =~= all.take(i as int));
            assert(all.take(i + 1).last() == all[i as int]);
            assert(record@ == entry_record(all[i as int]));
        }
        let ghost before = bytes@;
        bytes.extend_from_slice(record.as_slice());
        assert(bytes@ =~= before + record@);
        assert(bytes@ =~= preamble(optional_key_text(keypair)) + entry_records(all.take(i + 1)));
        i = i + 1;
    }
    assert(all.take(i as int) =~= all);
    proof {
        let packed = file_views(files@);
        assert forall|options: UnglobOptionsView|
            all_portable(packed, options.input_root, keypair is Some) implies (#[trigger] unglobbed(
            archive_of(packed, keypair),
            options,
        )) == Ok::<ExtractionView, UnglobErrorView>(
            restored(packed, options, keypair is Some),
        ) by {
            match keypair {
                Some(pair) => {
                    lemma_signed_round_trip(packed, *pair, options);
                },
                None => {
                    lemma_round_trip(packed, options);
                },
            }
        }
    }
    Ok(bytes)
}

/// A writer that hands out an archive piece by piece: first what stands
/// before the entries, then one record for every file. It keeps the key
/// pair, if the entries are signed, and counts the files that were written
/// and those that failed.
pub struct ArchiveWriter {
    keypair: Option<KeyPair>,
    processed: usize,
    failed: usize,
    files: Ghost<Seq<SourceFileView>>,
}

impl ArchiveWriter {
    /// The files for which records were handed out, in that order.
    pub closed spec fn files(&self) -> Seq<SourceFileView> {
        self.files@
    }

    /// The secret half of the key pair, if the entries are signed.
    pub closed spec fn secret(&self) -> Option<Seq<u8>> {
        match self.keypair {
            Some(pair) => Some(pair.secret()),
            None => None,
        }
    }

    /// The base64 text of the public key, if the entries are signed.
    pub closed spec fn key_text(&self) -> Option<Seq<u8>> {
        match self.keypair {
            Some(pair) => Some(base64_text(pair.public())),
            None => None,
        }
    }

    /// How many files were reported as written.
    pub closed spec fn processed(&self) -> nat {
        self.processed as nat
    }

    /// How many files were reported as failed.
    pub closed spec fn failed(&self) -> nat {
        self.failed as nat
    }

    /// All that was handed out so far: what stands before the entries, and
    /// then the records of the files.
    pub open spec fn output(&self) -> Seq<u8> {
        preamble(self.key_text()) + entry_records(entries_for(self.files(), self.secret()))
    }

    /// Opens a writer and hands out what stands before the first entry: the
    /// key record if a key pair is given, and nothing otherwise.
    pub fn open(keypair: Option<KeyPair>) -> (opened: (ArchiveWriter, Vec<u8>))
        ensures
            opened.0.files() == Seq::<SourceFileView>::empty(),
            opened.0.processed() == 0,
            opened.0.failed() == 0,
            opened.0.secret() == match keypair {
                Some(pair) => Some(pair.secret()),
                None => None,
            },
            opened.0.key_text() == match keypair {
                Some(pair) => Some(base64_text(pair.public())),
                None => None,
            },
            opened.1@ == opened.0.output(),
    {
        let bytes = write_preamble(keypair.as_ref());
        let writer = ArchiveWriter { keypair, processed: 0, failed: 0, files: Ghost(Seq::empty()) };
        proof {
            assert(entries_for(writer.files(), writer.secret()) =~= Seq::<
                ArchiveEntryView,
            >::empty());
            assert(bytes@ =~= writer.output());
        }
        (writer, bytes)
    }

    /// Hands out the record of the next file. What was handed out before,
    /// followed by this record, is all that was handed out.
    pub fn write_entry(&mut self, path: &[u8], content: &[u8]) -> (record: Vec<u8>)
        ensures
            final(self).files() == old(self).files().push(
                SourceFileView { path: path@, content: content@ },
            ),
            final(self).output() == old(self).output() + record@,
            record@ == entry_record(
                entry_for(path@, content@, is_binary(content@), old(self).secret()),
            ),
            final(self).secret() == old(self).secret(),
            final(self).key_text() == old(self).key_text(),
            final(self).processed() == old(self).processed(),
            final(self).failed() == old(self).failed(),
    {
        let record = process_file(path, content, self.keypair.as_ref());
        let ghost before = self.files@;
        let ghost file = SourceFileView { path: path@, content: content@ };
        proof {
            self.files@ = before.push(file);
            let entries = entries_for(before.push(file), self.secret());
            assert(entries.drop_last() =~= entries_for(before, self.secret()));
            assert(entries.last() == entry_for(
                path@,
                content@,
                is_binary(content@),
                self.secret(),
            ));
            assert(preamble(self.key_text()) + entry_records(entries) =~= preamble(
                self.key_text(),
            ) + entry_records(entries.drop_last()) + record@);
        }
        record
    }

    /// Notes that the record of a file was written.
    pub fn entry_written(&mut self)
        ensures
            final(self).processed() == if old(self).processed() < usize::MAX {
                old(self).processed() + 1
            } else {
                old(self).processed()
            },
            final(self).failed() == old(self).failed(),
            final(self).files() == old(self).files(),
            final(self).secret() == old(self).secret(),
            final(self).key_text() == old(self).key_text(),
    {
        if self.processed < usize::MAX {
            self.processed = self.processed + 1;
        }
    }

    /// Notes that the record of a file could not be written.
    pub fn entry_failed(&mut self)
        ensures
            final(self).failed() == if old(self).failed() < usize::MAX {
                old(self).failed() + 1
            } else {
                old(self).failed()
            },
            final(self).processed() == old(self).processed(),
            final(self).files() == old(self).files(),
            final(self).secret() == old(self).secret(),
            final(self).key_text() == old(self).key_text(),
    {
        if self.failed < usize::MAX {
            self.failed = self.failed + 1;
        }
    }

    /// Closes the writer and says how the run ended: `NoInputMatched` if no
    /// file was reported at all, `IoFailure` if every file failed, and
    /// otherwise the counts.
    pub fn close(self) -> (outcome: Result<WriteSummary, EncodeError>)
        ensures
            outcome == if self.processed() == 0 && self.failed() == 0 {
                Err::<WriteSummary, EncodeError>(EncodeError::NoInputMatched)
            } else if self.processed() == 0 {
                Err::<WriteSummary, EncodeError>(EncodeError::IoFailure)
            } else {
                Ok::<WriteSummary, EncodeError>(
                    WriteSummary {
                        processed: self.processed() as usize,
                        failed: self.failed() as usize,
                    },
                )
            },
    {
        let selected = if self.processed > 0 || self.failed > 0 {
            1
        } else {
            0
        };
        conclude(selected, self.processed, self.failed)
    }
}

/// Whether the blank-line collapse leaves the content of every text file
/// as it is.
pub open spec fn all_tidy(files: Seq<SourceFileView>) -> bool {
    forall|i: int|
        0 <= i < files.len() && !is_binary((#[trigger] files[i]).content) ==> is_tidy_text(
            files[i].content,
        )
}

/// Packs files into a finished archive: the archive of the files with its
/// runs of blank lines collapsed.
///
/// Unpacking the finished archive gives the files back where all of them
/// are portable text that the collapse leaves as it is.
pub fn run_scraper(files: &[SourceFile], keypair: Option<&KeyPair>) -> (archive: Result<
    Vec<u8>,
    EncodeError,
>)
    ensures
        files@.len() == 0 ==> archive == Err::<Vec<u8>, EncodeError>(EncodeError::NoInputMatched),
        files@.len() > 0 ==> (archive matches Ok(bytes) && bytes@ == normalized(
            archive_of(file_views(files@), keypair),
            MAX_BLANK_LINES as nat,
        )),
        forall|options: UnglobOptionsView|
            files@.len() > 0 && all_portable(
                file_views(files@),
                options.input_root,
                keypair is Some,
            ) && all_tidy(file_views(files@)) ==> (#[trigger] unglobbed(
                normalized(archive_of(file_views(files@), keypair), MAX_BLANK_LINES as nat),
                options,
            )) == Ok::<ExtractionView, UnglobErrorView>(
                restored(file_views(files@), options, keypair is Some),
            ),
{
    match encode_archive(files, keypair) {
        Ok(bytes) => {
            proof {
                let packed = file_views(files@);
                assert forall|options: UnglobOptionsView|
                    all_portable(packed, options.input_root, keypair is Some) && all_tidy(
                        packed,
                    ) implies (#[trigger] unglobbed(
                    normalized(archive_of(packed, keypair), MAX_BLANK_LINES as nat),
                    options,
                )) == Ok::<ExtractionView, UnglobErrorView>(
                    restored(packed, options, keypair is Some),
                ) by {
                    lemma_tidy_archive_is_finished(packed, keypair);
                    assert(unglobbed(archive_of(packed, keypair), options) == Ok::<
                        ExtractionView,
                        UnglobErrorView,
                    >(restored(packed, options, keypair is Some)));
                }
            }
            Ok(clean_up_text(bytes.as_slice(), MAX_BLANK_LINES))
        },
        Err(e) => Err(e),
    }
}

} // verus!
