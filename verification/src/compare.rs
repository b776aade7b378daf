//! The matcher: which entries a run reports.

use crate::cli::FileType;
use crate::entry::EntryKind;
use crate::pattern::{pattern_accepts, Pattern};
use vstd::prelude::*;

verus! {

/// Whether an entry of kind `kind` passes the type filter `ftype`.
pub open spec fn kind_passes(ftype: FileType, kind: EntryKind) -> bool {
    match ftype {
        FileType::All => true,
        FileType::File => kind == EntryKind::File,
        FileType::Dir => kind == EntryKind::Dir,
        FileType::Link => kind == EntryKind::Link,
        FileType::Socket => kind == EntryKind::Socket,
        FileType::CharDevice => kind == EntryKind::CharDevice,
    }
}

/// Whether an entry is reported: its kind is known and passes the type
/// filter, and its name satisfies the pattern.
pub open spec fn entry_matches(
    pattern: Seq<char>,
    ftype: FileType,
    kind: Option<EntryKind>,
    name: Seq<char>,
) -> bool {
    match kind {
        Some(kind) => kind_passes(ftype, kind) && pattern_accepts(pattern, name),
        None => false,
    }
}

/// A rule that says of each entry whether it is reported.
pub trait Matcher {
    /// What the rule says of an entry of kind `kind` named `name`.
    spec fn accepts(&self, kind: Option<EntryKind>, name: Seq<char>) -> bool;

    /// Applies the rule to one entry.
    fn matches(&self, kind: Option<EntryKind>, name: &String) -> (accepted: bool)
        ensures
            accepted == self.accepts(kind, name@),
    ;
}

/// The rule of a run: a type filter and a pattern on names.
pub struct NameFilter<'a> {
    regex: &'a Pattern,
    ftype: FileType,
}

impl<'a> NameFilter<'a> {
    /// The text of the pattern.
    pub closed spec fn pattern(&self) -> Seq<char> {
        self.regex@
    }

    /// The type filter.
    pub closed spec fn file_type(&self) -> FileType {
        self.ftype
    }
}

/// Whether an entry of kind `kind` passes the type filter `ftype`.
pub fn type_passes(ftype: FileType, kind: EntryKind) -> (passes: bool)
    ensures
        passes == kind_passes(ftype, kind),
{
    match ftype {
        FileType::All => true,
        FileType::File => kind == EntryKind::File,
        FileType::Dir => kind == EntryKind::Dir,
        FileType::Link => kind == EntryKind::Link,
        FileType::Socket => kind == EntryKind::Socket,
        FileType::CharDevice => kind == EntryKind::CharDevice,
    }
}

impl<'a> Matcher for NameFilter<'a> {
    open spec fn accepts(&self, kind: Option<EntryKind>, name: Seq<char>) -> bool {
        entry_matches(self.pattern(), self.file_type(), kind, name)
    }

    fn matches(&self, kind: Option<EntryKind>, name: &String) -> (accepted: bool) {
        let kind = match kind {
            Some(kind) => kind,
            None => {
                return false;
            },
        };
        if !type_passes(self.ftype, kind) {
            return false;
        }
        if !self.regex.is_match(name.as_str()) {
            return false;
        }
        true
    }
}

/// The rule that reports the entries that pass `ftype` and whose names
/// satisfy `regex`.
pub fn compare_func<'a>(regex: &'a Pattern, ftype: FileType) -> (filter: NameFilter<'a>)
    ensures
        filter.pattern() == regex@,
        filter.file_type() == ftype,
        forall|kind: Option<EntryKind>, name: Seq<char>| #[trigger]
            filter.accepts(kind, name) == entry_matches(regex@, ftype, kind, name),
{
    NameFilter { regex, ftype }
}

/// The empty pattern matches every name.
///
/// Whatever the type filter, a run with the empty pattern turns no entry
/// down for its name: the kind of the entry alone decides.
pub proof fn empty_pattern_matches_every_name(
    ftype: FileType,
    kind: Option<EntryKind>,
    name: Seq<char>,
)
    ensures
        pattern_accepts(Seq::empty(), name),
        entry_matches(Seq::empty(), ftype, kind, name) <==> (kind matches Some(kind)
            && kind_passes(ftype, kind)),
        entry_matches(Seq::empty(), FileType::All, kind, name) <==> kind is Some,
{
}

/// The filters for directories and for regular files part the entries.
///
/// The filter for directories accepts the directories whose names satisfy
/// the pattern and nothing else, the filter for regular files the regular
/// files whose names do and nothing else, and no entry is accepted by both.
pub proof fn dir_and_file_filters_part(
    dirs: Seq<char>,
    files: Seq<char>,
    kind: Option<EntryKind>,
    name: Seq<char>,
)
    ensures
        entry_matches(dirs, FileType::Dir, kind, name) <==> kind == Some(EntryKind::Dir)
            && pattern_accepts(dirs, name),
        entry_matches(files, FileType::File, kind, name) <==> kind == Some(EntryKind::File)
            && pattern_accepts(files, name),
        !(entry_matches(dirs, FileType::Dir, kind, name) && entry_matches(
            files,
            FileType::File,
            kind,
            name,
        )),
{
}

} // verus!
