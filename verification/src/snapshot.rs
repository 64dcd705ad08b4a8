//! What the caller found on the file system, as plain values.
//!
//! The library decides and computes; its caller reads directories and files
//! and reports them in these types.

use vstd::prelude::*;

verus! {

/// What a path turned out to be.
#[derive(Clone, Copy, Debug, PartialEq, Eq, Structural)]
pub enum PathKind {
    /// Nothing exists at the path.
    Missing,
    /// Something exists there that is no directory.
    File,
    /// A directory exists there.
    Directory,
}

/// What reading a file gave.
#[derive(Debug)]
pub enum FileContent {
    /// No file exists at the path.
    Missing,
    /// The file exists but could not be read, for the given reason.
    Unreadable(String),
    /// The text of the file.
    Text(String),
}

/// What reading a directory gave.
#[derive(Debug)]
pub enum DirListing {
    /// The directory was not read.
    Unvisited,
    /// Reading the directory failed, for the given reason.
    Unreadable(String),
    /// The entries of the directory, in the order they were enumerated.
    Entries(Vec<DirEntry>),
}

/// What stands at a path: nothing, a file, or a directory with its listing.
#[derive(Debug)]
pub enum FsNode {
    Missing,
    File,
    Directory(DirListing),
}

/// One entry of a directory: its file name and what it is.
#[derive(Debug)]
pub struct DirEntry {
    pub name: String,
    pub node: FsNode,
}

impl FsNode {
    /// Whether this node is a directory.
    pub fn is_dir(&self) -> (r: bool)
        ensures
            r == (self is Directory),
    {
        match self {
            FsNode::Directory(_) => true,
            _ => false,
        }
    }
}

impl DirEntry {
    /// An entry that is a plain file.
    pub fn file(name: &str) -> (e: DirEntry)
        ensures
            e.name@ == name@,
            e.node is File,
    {
        DirEntry { name: name.to_owned(), node: FsNode::File }
    }

    /// An entry that is a directory with the given entries.
    pub fn dir(name: &str, entries: Vec<DirEntry>) -> (e: DirEntry)
        ensures
            e.name@ == name@,
            e.node == FsNode::Directory(DirListing::Entries(entries)),
    {
        DirEntry { name: name.to_owned(), node: FsNode::Directory(DirListing::Entries(entries)) }
    }

    /// An entry that is a directory whose contents were not read.
    pub fn unvisited_dir(name: &str) -> (e: DirEntry)
        ensures
            e.name@ == name@,
            e.node == FsNode::Directory(DirListing::Unvisited),
    {
        DirEntry { name: name.to_owned(), node: FsNode::Directory(DirListing::Unvisited) }
    }
}

} // verus!
