//! What a directory listing reports of each entry.

use vstd::prelude::*;

verus! {

/// The kind of a filesystem entry, as found without following a symbolic
/// link.
#[derive(Clone, Copy, Debug, PartialEq, Eq, Structural)]
pub enum EntryKind {
    /// A regular file.
    File,
    /// A directory.
    Directory,
    /// A symbolic link, wherever it points.
    Symlink,
    /// Anything else: a socket, a device, a pipe.
    Other,
}

/// One entry of a directory listing: the entry's name and its kind.
#[derive(Debug)]
pub struct DirEntry {
    pub name: String,
    pub kind: EntryKind,
}

/// A directory entry in specifications.
pub struct DirEntryModel {
    pub name: Seq<char>,
    pub kind: EntryKind,
}

impl View for DirEntry {
    type V = DirEntryModel;

    open spec fn view(&self) -> DirEntryModel {
        DirEntryModel { name: self.name@, kind: self.kind }
    }
}

/// The views of the entries of a listing.
pub open spec fn entry_models(entries: Seq<DirEntry>) -> Seq<DirEntryModel> {
    Seq::new(entries.len(), |i: int| entries[i]@)
}

} // verus!
