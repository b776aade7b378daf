//! What a directory listing yields.

use vstd::prelude::*;

verus! {

/// What an entry of a directory is.
#[derive(Debug, Clone, Copy, PartialEq, Eq, Structural)]
pub enum EntryKind {
    /// A regular file.
    File,
    /// A directory.
    Dir,
    /// A symbolic link.
    Link,
    /// A socket.
    Socket,
    /// A character device.
    CharDevice,
    /// Anything else.
    Other,
}

/// One entry of a directory listing. `P` is whatever the caller names
/// directories by; the library only hands such values on.
#[derive(Debug, Clone)]
pub struct Entry<P> {
    /// Where the entry is: what to list, should it be a directory.
    pub path: P,
    /// The entry's name within its directory, if it has one.
    pub name: Option<String>,
    /// What the entry is, if that could be found out.
    pub kind: Option<EntryKind>,
}

/// An entry as contracts see it.
pub struct EntryView<P> {
    pub path: P,
    pub name: Option<Seq<char>>,
    pub kind: Option<EntryKind>,
}

impl<P> View for Entry<P> {
    type V = EntryView<P>;

    open spec fn view(&self) -> EntryView<P> {
        EntryView {
            path: self.path,
            name: match self.name {
                Some(name) => Some(name@),
                None => None,
            },
            kind: self.kind,
        }
    }
}

} // verus!
