//! What a directory listing says of one entry.

use vstd::prelude::*;

verus! {

/// What an entry's path leads to, links followed.
#[derive(Clone, Copy, Debug, PartialEq, Eq, Structural)]
pub enum EntryKind {
    /// A directory.
    Directory,
    /// A regular file.
    File,
    /// Anything else, a dangling link included.
    Other,
}

/// One entry of a directory listing.
#[derive(Clone, Debug)]
pub struct DirEntry {
    /// The entry's full path.
    pub path: String,
    /// What the path leads to, links followed.
    pub kind: EntryKind,
    /// Whether the entry itself is a symbolic link.
    pub is_symlink: bool,
}

/// An entry as mathematics.
pub struct Entry {
    pub path: Seq<char>,
    pub kind: EntryKind,
    pub is_symlink: bool,
}

impl View for DirEntry {
    type V = Entry;

    open spec fn view(&self) -> Entry {
        Entry { path: self.path@, kind: self.kind, is_symlink: self.is_symlink }
    }
}

/// The entries of a listing as mathematics.
pub open spec fn entries_view(entries: Seq<DirEntry>) -> Seq<Entry> {
    Seq::new(entries.len(), |i: int| entries[i]@)
}

/// A node of the file tree: a path, whether it is a file, and the bytes it
/// holds or that lie beneath it.
#[derive(Clone, Debug)]
pub struct FileTreeNode {
    pub path: String,
    pub is_file: bool,
    pub len: u64,
}

impl FileTreeNode {
    /// A node for `path`.
    pub fn new(path: String, is_file: bool, len: u64) -> (node: FileTreeNode)
        ensures
            node.path == path,
            node.is_file == is_file,
            node.len == len,
    {
        FileTreeNode { path, is_file, len }
    }
}

} // verus!
