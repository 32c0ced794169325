//! Which files go into an archive: the rules on hidden files, size, name
//! and type, and what is read from the names of files and repositories.

use vstd::prelude::*;
use vstd::slice::slice_subrange;
use vstd::slice::slice_to_vec;
use crate::bytes::{
    ends_with, equal, find_byte, find_last, has_no, last_occurrence, lemma_first_index,
    lemma_last_occurrence, occurs_at, optional_view, split, split_on, starts_with, trim,
    trimmed, views,
};
use crate::paths::{components, current_dir, parent_dir, split_components, DOT, SEPARATOR};

verus! {

/// The greatest number of files that one archive takes.
pub const MAX_FILES: usize = 100000;

/// The size above which a file is left out unless another limit is set:
/// one gibibyte.
pub const DEFAULT_MAX_FILE_SIZE: u64 = 1073741824;

/// The size from which a file is read through a memory map: one mebibyte.
pub const MEMORY_MAP_THRESHOLD: u64 = 1048576;

/// The byte `,` that separates file types in a list.
pub const COMMA: u8 = 0x2c;

/// The byte `:`.
pub const COLON: u8 = 0x3a;

/// What the name of a repository loses at its end: `.git`.
pub const GIT_SUFFIX: [u8; 4] = [0x2e, 0x67, 0x69, 0x74];

/// What the address of a repository over SSH begins with: `git@`.
pub const GIT_AT: [u8; 4] = [0x67, 0x69, 0x74, 0x40];

/// `http://`
pub const SCHEME_HTTP: [u8; 7] = [0x68, 0x74, 0x74, 0x70, 0x3a, 0x2f, 0x2f];

/// `https://`
pub const SCHEME_HTTPS: [u8; 8] = [0x68, 0x74, 0x74, 0x70, 0x73, 0x3a, 0x2f, 0x2f];

/// `git://`
pub const SCHEME_GIT: [u8; 6] = [0x67, 0x69, 0x74, 0x3a, 0x2f, 0x2f];

/// `ssh://`
pub const SCHEME_SSH: [u8; 6] = [0x73, 0x73, 0x68, 0x3a, 0x2f, 0x2f];

/// What the name of a directory holds into which a repository was cloned:
/// `llm_globber_clone_`.
pub const CLONE_MARK: [u8; 18] = [
    0x6c, 0x6c, 0x6d, 0x5f, 0x67, 0x6c, 0x6f, 0x62, 0x62, 0x65, 0x72, 0x5f, 0x63, 0x6c, 0x6f, 0x6e,
    0x65, 0x5f,
];

/// Whether a name matches a shell pattern, or `None` where the pattern
/// cannot be used.
pub uninterp spec fn glob_verdict(pattern: Seq<u8>, name: Seq<u8>) -> Option<bool>;

/// Matches a name against a shell pattern with `glob::Pattern::new` and
/// `Pattern::matches`. Returns `None` where the pattern does not compile or
/// one of the two is not UTF-8. The contract names the answer.
#[verifier::external_body]
fn glob_match(pattern: &[u8], name: &[u8]) -> (matched: Option<bool>)
    ensures
        matched == glob_verdict(pattern@, name@),
{
    let pattern = std::str::from_utf8(pattern).ok()?;
    let name = std::str::from_utf8(name).ok()?;
    match glob::Pattern::new(pattern) {
        Ok(compiled) => Some(compiled.matches(name)),
        Err(_) => None,
    }
}

/// A set of file types, each with its dot. Nothing occurs in it twice.
#[derive(Debug, PartialEq, Eq)]
pub struct FileTypes {
    types: Vec<Vec<u8>>,
}

impl View for FileTypes {
    type V = Seq<Seq<u8>>;

    closed spec fn view(&self) -> Seq<Seq<u8>> {
        views(self.types@)
    }
}

impl FileTypes {
    #[verifier::type_invariant]
    closed spec fn distinct(&self) -> bool {
        views(self.types@).no_duplicates()
    }

    /// The set without any type.
    pub fn new() -> (types: FileTypes)
        ensures
            types@ == Seq::<Seq<u8>>::empty(),
    {
        let types = FileTypes { types: Vec::new() };
        assert(types@ =~= Seq::<Seq<u8>>::empty());
        types
    }

    /// How many types the set holds. Nothing occurs in it twice.
    pub fn len(&self) -> (n: usize)
        ensures
            n == self@.len(),
            self@.no_duplicates(),
    {
        proof {
            use_type_invariant(self);
        }
        self.types.len()
    }

    /// Whether the set holds `wanted`.
    pub fn holds(&self, wanted: &[u8]) -> (found: bool)
        ensures
            found == self@.contains(wanted@),
    {
        let mut i: usize = 0;
        while i < self.types.len()
            invariant
                i <= self.types@.len(),
                forall|j: int| 0 <= j < i ==> views(self.types@)[j] != wanted@,
            decreases self.types@.len() - i,
        {
            if equal(self.types[i].as_slice(), wanted) {
                assert(views(self.types@)[i as int] == wanted@);
                return true;
            }
            i = i + 1;
        }
        false
    }

    /// Adds a type, unless the set holds it already.
    pub fn insert(&mut self, added: Vec<u8>)
        ensures
            final(self)@ == with_type(old(self)@, added@),
    {
        proof {
            use_type_invariant(&*self);
        }
        if !self.holds(added.as_slice()) {
            let ghost before = views(self.types@);
            proof {
                let after = before.push(added@);
                assert forall|i: int, j: int|
                    0 <= i < after.len() && 0 <= j < after.len() && i != j implies after[i]
                    != after[j] by {
                    if i < before.len() && j < before.len() {
                    } else if i < before.len() {
                        assert(before[i] != added@);
                    } else {
                        assert(before[j] != added@);
                    }
                }
            }
            let mut types: Vec<Vec<u8>> = Vec::new();
            core::mem::swap(&mut self.types, &mut types);
            types.push(added);
            assert(views(types@) =~= before.push(added@));
            self.types = types;
        }
    }

    /// The types of the set, in the order in which they were added.
    pub fn to_vec(&self) -> (types: Vec<Vec<u8>>)
        ensures
            views(types@) == self@,
    {
        let mut types: Vec<Vec<u8>> = Vec::new();
        let mut i: usize = 0;
        while i < self.types.len()
            invariant
                i <= self.types@.len(),
                views(types@) == views(self.types@).take(i as int),
            decreases self.types@.len() - i,
        {
            let ghost before = views(types@);
            types.push(slice_to_vec(self.types[i].as_slice()));
            assert(views(types@) =~= before.push(self.types@[i as int]@));
            assert(views(self.types@).take(i + 1) =~= views(self.types@).take(i as int).push(
                self.types@[i as int]@,
            ));
            i = i + 1;
        }
        assert(views(self.types@).take(i as int) =~= views(self.types@));
        types
    }
}

/// The rules by which files are chosen.
#[derive(Debug, PartialEq, Eq)]
pub struct FileFilter {
    /// The file types that are let through.
    pub file_types: FileTypes,
    /// Whether files are chosen by type at all.
    pub filter_files: bool,
    /// Whether files whose name begins with a dot are left out.
    pub no_dot_files: bool,
    /// The size in bytes above which a file is left out.
    pub max_file_size: u64,
    /// The shell pattern that the name of a file must match, or nothing.
    pub name_pattern: Vec<u8>,
}

/// The mathematical view of a `FileFilter`.
pub struct FileFilterView {
    pub file_types: Seq<Seq<u8>>,
    pub filter_files: bool,
    pub no_dot_files: bool,
    pub max_file_size: u64,
    pub name_pattern: Seq<u8>,
}

impl View for FileFilter {
    type V = FileFilterView;

    open spec fn view(&self) -> FileFilterView {
        FileFilterView {
            file_types: self.file_types@,
            filter_files: self.filter_files,
            no_dot_files: self.no_dot_files,
            max_file_size: self.max_file_size,
            name_pattern: self.name_pattern@,
        }
    }
}

impl Default for FileFilter {
    /// The rules that hold unless others are asked for: files are chosen by
    /// type once types are named, hidden files are left out, and so are
    /// files above `DEFAULT_MAX_FILE_SIZE`.
    fn default() -> (filter: FileFilter)
        ensures
            filter@ == (FileFilterView {
                file_types: Seq::empty(),
                filter_files: true,
                no_dot_files: true,
                max_file_size: DEFAULT_MAX_FILE_SIZE,
                name_pattern: Seq::empty(),
            }),
    {
        FileFilter {
            file_types: FileTypes::new(),
            filter_files: true,
            no_dot_files: true,
            max_file_size: DEFAULT_MAX_FILE_SIZE,
            name_pattern: Vec::new(),
        }
    }
}

/// The name of the file that a path leads to: its last component, unless
/// that is `.` or `..`.
pub open spec fn file_name(path: Seq<u8>) -> Option<Seq<u8>> {
    let parts = components(path);
    if parts.len() == 0 || parts.last() == current_dir() || parts.last() == parent_dir() {
        None
    } else {
        Some(parts.last())
    }
}

/// The extension of the file that a path leads to: what follows the last
/// dot of its name, unless the name has no dot or only begins with one.
pub open spec fn extension(path: Seq<u8>) -> Option<Seq<u8>> {
    match file_name(path) {
        None => None,
        Some(name) => match last_occurrence(name, seq![DOT]) {
            None => None,
            Some(at) => if at == 0 {
                None
            } else {
                Some(name.skip(at + 1))
            },
        },
    }
}

/// Whether the name of the file that a path leads to begins with a dot.
pub open spec fn is_hidden(path: Seq<u8>) -> bool {
    match file_name(path) {
        Some(name) => name.len() > 0 && name[0] == DOT,
        None => false,
    }
}

/// Whether the type of a file is let through: files are not chosen by
/// type, or no type is named, or the extension with its dot is among the
/// types.
pub open spec fn is_allowed_type(filter: FileFilterView, path: Seq<u8>) -> bool {
    !filter.filter_files || filter.file_types.len() == 0 || match extension(path) {
        Some(ext) => filter.file_types.contains(seq![DOT] + ext),
        None => false,
    }
}

/// Whether a file passes the rules, given whether its name matches the
/// pattern. A file of unknown size does not pass.
pub open spec fn passes(
    filter: FileFilterView,
    path: Seq<u8>,
    base_name: Seq<u8>,
    size: Option<u64>,
    matched: bool,
) -> bool {
    &&& !(filter.no_dot_files && base_name.len() > 0 && base_name[0] == DOT)
    &&& size matches Some(bytes) && bytes <= filter.max_file_size
    &&& matched
    &&& is_allowed_type(filter, path)
}

/// Whether a name matches the pattern of the rules: there is no pattern,
/// or the pattern can be used and the name matches it.
pub open spec fn pattern_matches(pattern: Seq<u8>, name: Seq<u8>) -> bool {
    pattern.len() == 0 || glob_verdict(pattern, name) == Some(true)
}

/// Whether a file goes into the archive: it passes the rules, and its name
/// matches the pattern.
pub open spec fn is_chosen(
    filter: FileFilterView,
    path: Seq<u8>,
    base_name: Seq<u8>,
    size: Option<u64>,
) -> bool {
    passes(filter, path, base_name, size, pattern_matches(filter.name_pattern, base_name))
}

/// What is done with a file that was found.
#[derive(Clone, Copy, Debug, PartialEq, Eq, Structural)]
pub enum FilePlan {
    /// The file is left out.
    Skip,
    /// The file is read into a buffer.
    ReadBuffered,
    /// The file is read through a memory map.
    ReadMapped,
}

/// What is done with a file that was found. A file that is no regular file
/// or does not go into the archive is left out. How a file is read depends
/// on its size alone, and changes nothing of what is written for it.
pub open spec fn planned(
    filter: FileFilterView,
    path: Seq<u8>,
    base_name: Seq<u8>,
    regular: bool,
    size: Option<u64>,
) -> FilePlan {
    if !regular || !is_chosen(filter, path, base_name, size) {
        FilePlan::Skip
    } else if size matches Some(bytes) && bytes >= MEMORY_MAP_THRESHOLD {
        FilePlan::ReadMapped
    } else {
        FilePlan::ReadBuffered
    }
}

/// The file type that an item of a list names: the item without white
/// space at its ends, with a dot before it if it has none. An item of
/// white space names nothing.
pub open spec fn file_type_of(item: Seq<u8>) -> Option<Seq<u8>> {
    let name = trim(item);
    if name.len() == 0 {
        None
    } else if name[0] == DOT {
        Some(name)
    } else {
        Some(seq![DOT] + name)
    }
}

/// The types with one more, unless it is among them already.
pub open spec fn with_type(types: Seq<Seq<u8>>, added: Seq<u8>) -> Seq<Seq<u8>> {
    if types.contains(added) {
        types
    } else {
        types.push(added)
    }
}

/// The types with those that the items name.
pub open spec fn with_types(types: Seq<Seq<u8>>, items: Seq<Seq<u8>>) -> Seq<Seq<u8>>
    decreases items.len(),
{
    if items.len() == 0 {
        types
    } else {
        with_types(
            match file_type_of(items[0]) {
                Some(added) => with_type(types, added),
                None => types,
            },
            items.drop_first(),
        )
    }
}

/// `s` without every `.git` at its end.
pub open spec fn without_git_suffix(s: Seq<u8>) -> Seq<u8>
    decreases s.len(),
{
    if GIT_SUFFIX@.is_suffix_of(s) {
        without_git_suffix(s.take(s.len() - 4))
    } else {
        s
    }
}

/// Whether an address names a repository to clone.
pub open spec fn names_git_url(url: Seq<u8>) -> bool {
    ||| SCHEME_HTTP@.is_prefix_of(url)
    ||| SCHEME_HTTPS@.is_prefix_of(url)
    ||| SCHEME_GIT@.is_prefix_of(url)
    ||| SCHEME_SSH@.is_prefix_of(url)
    ||| GIT_AT@.is_prefix_of(url)
}

/// The name of the repository at an address. For `git@host:path` it is
/// what follows the last `/` of the path, where the path ends at a second
/// colon; for any other address it is what follows the last `/`. A `.git`
/// at the end does not belong to the name.
pub open spec fn repo_name(url: Seq<u8>) -> Seq<u8> {
    if GIT_AT@.is_prefix_of(url) && split(url.skip(4), COLON).len() >= 2 {
        without_git_suffix(split(split(url.skip(4), COLON)[1], SEPARATOR).last())
    } else {
        without_git_suffix(split(url, SEPARATOR).last())
    }
}

/// Why the text of a path is not taken.
#[derive(Clone, Copy, Debug, PartialEq, Eq, Structural)]
pub enum PathTextError {
    /// The text is empty or white space.
    Empty,
    /// The text holds a NUL byte.
    HoldsNul,
}

/// Adds the file types that a list names: items separated by commas, with
/// or without a dot, with or without white space around them. A type that
/// is there already is not added again.
pub fn parse_file_types(types: &mut FileTypes, list: &[u8])
    ensures
        final(types)@ == with_types(old(types)@, split(list@, COMMA)),
{
    let items = split_on(list, COMMA);
    let ghost all = views(items@);
    let mut i: usize = 0;
    assert(all.skip(0) =~= all);
    while i < items.len()
        invariant
            i <= items@.len(),
            all == views(items@),
            with_types(types@, all.skip(i as int)) == with_types(old(types)@, all),
        decreases items@.len() - i,
    {
        proof {
            assert(all.skip(i as int).drop_first() =~= all.skip(i + 1));
            assert(all.skip(i as int)[0] == items@[i as int]@);
        }
        let name = trimmed(items[i].as_slice());
        if name.len() > 0 {
            let mut added: Vec<u8> = Vec::new();
            if name[0] != DOT {
                added.push(DOT);
            }
            added.extend_from_slice(name);
            assert(Some(added@) =~= file_type_of(items@[i as int]@)) by {
                if name@[0] == DOT {
                    assert(added@ =~= name@);
                } else {
                    assert(added@ =~= seq![DOT] + name@);
                }
            }
            types.insert(added);
        }
        i = i + 1;
    }
    assert(all.skip(i as int) =~= Seq::<Seq<u8>>::empty());
}

/// The name of the file that a path leads to.
pub fn base_name(path: &[u8]) -> (name: Option<Vec<u8>>)
    ensures
        optional_view(name) == file_name(path@),
{
    let mut parts = split_components(path);
    let ghost all = views(parts@);
    match parts.pop() {
        None => None,
        Some(last) => {
            assert(last@ == all.last());
            let is_parent = last.len() == 2 && last[0] == DOT && last[1] == DOT;
            let is_current = last.len() == 1 && last[0] == DOT;
            assert(is_parent == (last@ =~= parent_dir()));
            assert(is_current == (last@ =~= current_dir()));
            if is_parent || is_current {
                None
            } else {
                Some(last)
            }
        },
    }
}

/// The extension of the file that a path leads to.
pub fn file_extension(path: &[u8]) -> (ext: Option<Vec<u8>>)
    ensures
        optional_view(ext) == extension(path@),
{
    let name = match base_name(path) {
        Some(name) => name,
        None => {
            return None;
        },
    };
    let dot: [u8; 1] = [DOT];
    assert(dot@ =~= seq![DOT]);
    match find_last(name.as_slice(), dot.as_slice()) {
        None => None,
        Some(at) => {
            let len = name.len();
            if at == 0 {
                None
            } else {
                Some(slice_to_vec(slice_subrange(name.as_slice(), at + 1, len)))
            }
        },
    }
}

/// Whether the name of the file that a path leads to begins with a dot.
pub fn is_dot_file(path: &[u8]) -> (hidden: bool)
    ensures
        hidden == is_hidden(path@),
{
    match base_name(path) {
        Some(name) => name.len() > 0 && name[0] == DOT,
        None => false,
    }
}

/// Whether the type of a file is let through.
pub fn is_allowed_file_type(filter: &FileFilter, path: &[u8]) -> (allowed: bool)
    ensures
        allowed == is_allowed_type(filter@, path@),
{
    if !filter.filter_files || filter.file_types.len() == 0 {
        return true;
    }
    match file_extension(path) {
        Some(ext) => {
            let mut wanted: Vec<u8> = Vec::new();
            wanted.push(DOT);
            wanted.extend_from_slice(ext.as_slice());
            assert(wanted@ =~= seq![DOT] + ext@);
            filter.file_types.holds(wanted.as_slice())
        },
        None => false,
    }
}

/// Whether a file passes the rules, given whether its name matches the
/// pattern.
pub fn passes_filters(
    filter: &FileFilter,
    path: &[u8],
    base_name: &[u8],
    size: Option<u64>,
    matched: bool,
) -> (chosen: bool)
    ensures
        chosen == passes(filter@, path@, base_name@, size, matched),
{
    if filter.no_dot_files && base_name.len() > 0 && base_name[0] == DOT {
        return false;
    }
    match size {
        Some(bytes) => {
            if bytes > filter.max_file_size {
                return false;
            }
        },
        None => {
            return false;
        },
    }
    if !matched {
        return false;
    }
    is_allowed_file_type(filter, path)
}

/// Whether a file goes into the archive.
///
/// Without a pattern the answer is that of the other rules. With a pattern
/// the name must match it as well; a pattern that cannot be used lets no
/// file through.
pub fn should_process_file(
    filter: &FileFilter,
    path: &[u8],
    base_name: &[u8],
    size: Option<u64>,
) -> (chosen: bool)
    ensures
        chosen == is_chosen(filter@, path@, base_name@, size),
{
    let matched = if filter.name_pattern.len() == 0 {
        true
    } else {
        match glob_match(filter.name_pattern.as_slice(), base_name) {
            Some(verdict) => verdict,
            None => false,
        }
    };
    passes_filters(filter, path, base_name, size, matched)
}

/// Adds a file to those that go into the archive, unless there are
/// `MAX_FILES` of them already. Says whether the file was added.
pub fn add_file_entry(entries: &mut Vec<Vec<u8>>, path: &[u8]) -> (added: bool)
    ensures
        added == (old(entries)@.len() < MAX_FILES),
        added ==> views(final(entries)@) == views(old(entries)@).push(path@),
        !added ==> final(entries)@ == old(entries)@,
{
    if entries.len() >= MAX_FILES {
        return false;
    }
    let ghost before = views(entries@);
    entries.push(slice_to_vec(path));
    assert(views(entries@) =~= before.push(path@));
    true
}

/// Decides what is done with a file that was found, from whether it is a
/// regular file and from its size, if that is known.
pub fn plan_file(
    filter: &FileFilter,
    path: &[u8],
    base_name: &[u8],
    regular: bool,
    size: Option<u64>,
) -> (plan: FilePlan)
    ensures
        plan == planned(filter@, path@, base_name@, regular, size),
{
    if !regular || !should_process_file(filter, path, base_name, size) {
        return FilePlan::Skip;
    }
    match size {
        Some(bytes) => if bytes >= MEMORY_MAP_THRESHOLD {
            FilePlan::ReadMapped
        } else {
            FilePlan::ReadBuffered
        },
        None => FilePlan::ReadBuffered,
    }
}

/// The size in bytes of a limit given in mebibytes, or `None` if it does
/// not fit.
pub fn megabytes_to_bytes(megabytes: u64) -> (bytes: Option<u64>)
    ensures
        bytes == if megabytes * 1048576 <= u64::MAX {
            Some((megabytes * 1048576) as u64)
        } else {
            None
        },
{
    megabytes.checked_mul(1048576)
}

/// Checks the text of a path before it is looked up: it must hold more
/// than white space, and no NUL byte.
pub fn check_path_text(path: &[u8]) -> (outcome: Result<(), PathTextError>)
    ensures
        outcome == if trim(path@).len() == 0 {
            Err::<(), PathTextError>(PathTextError::Empty)
        } else if !has_no(path@, 0u8) {
            Err::<(), PathTextError>(PathTextError::HoldsNul)
        } else {
            Ok::<(), PathTextError>(())
        },
{
    if trimmed(path).len() == 0 {
        return Err(PathTextError::Empty);
    }
    let at = find_byte(path, 0, 0u8);
    proof {
        lemma_first_index(path@, 0u8);
        assert(path@.skip(0) =~= path@);
        if at == path@.len() {
            assert(path@.take(at as int) =~= path@);
        }
    }
    if at < path.len() {
        Err(PathTextError::HoldsNul)
    } else {
        Ok(())
    }
}

/// Whether a directory is one into which a repository was cloned, and may
/// be removed after the run: its path holds `CLONE_MARK`.
pub fn is_clone_directory(path: &[u8]) -> (marked: bool)
    ensures
        marked == exists|i: int| occurs_at(path@, CLONE_MARK@, i),
{
    proof {
        lemma_last_occurrence(path@, CLONE_MARK@);
    }
    match find_last(path, CLONE_MARK.as_slice()) {
        Some(at) => {
            assert(occurs_at(path@, CLONE_MARK@, at as int));
            true
        },
        None => false,
    }
}

/// Whether an address names a repository to clone.
pub fn is_git_url(url: &[u8]) -> (named: bool)
    ensures
        named == names_git_url(url@),
{
    starts_with(url, SCHEME_HTTP.as_slice()) || starts_with(url, SCHEME_HTTPS.as_slice())
        || starts_with(url, SCHEME_GIT.as_slice()) || starts_with(url, SCHEME_SSH.as_slice())
        || starts_with(url, GIT_AT.as_slice())
}

/// `name` without every `.git` at its end.
fn strip_git_suffix(name: &[u8]) -> (stripped: Vec<u8>)
    ensures
        stripped@ == without_git_suffix(name@),
{
    let mut rest = name;
    while ends_with(rest, GIT_SUFFIX.as_slice())
        invariant
            without_git_suffix(rest@) == without_git_suffix(name@),
        decreases rest@.len(),
    {
        rest = slice_subrange(rest, 0, rest.len() - 4);
    }
    slice_to_vec(rest)
}

/// What follows the last `/` of `s`, without every `.git` at its end.
fn last_segment_name(s: &[u8]) -> (name: Vec<u8>)
    ensures
        name@ == without_git_suffix(split(s@, SEPARATOR).last()),
{
    let mut parts = split_on(s, SEPARATOR);
    let ghost all = views(parts@);
    proof {
        lemma_first_index(s@, SEPARATOR);
        assert(all.len() >= 1);
    }
    match parts.pop() {
        Some(last) => {
            assert(last@ == all.last());
            strip_git_suffix(last.as_slice())
        },
        None => Vec::new(),
    }
}

/// The name of the repository at an address.
pub fn get_repo_name_from_url(url: &[u8]) -> (name: Vec<u8>)
    ensures
        name@ == repo_name(url@),
{
    if starts_with(url, GIT_AT.as_slice()) {
        let parts = split_on(slice_subrange(url, 4, url.len()), COLON);
        if parts.len() >= 2 {
            return last_segment_name(parts[1].as_slice());
        }
    }
    last_segment_name(url)
}

} // verus!
