//! Filesystem-independent file metadata, as used by the archive-backed
//! read-only filesystem.

use vstd::prelude::*;

verus! {

/// An id that uniquely identifies a file.
pub type FileId = u64;

/// The type of a file.
#[derive(Debug, Copy, Clone, PartialEq, Eq, Structural)]
pub enum FileType {
    Regular,
    Directory,
    Link,
}

/// Filesystem-independent file metadata.
#[derive(Debug, Copy, Clone, PartialEq, Eq, Structural)]
pub struct Metadata {
    pub file_type: FileType,
    pub mode: u32,
    pub uid: u64,
    pub gid: u64,
    pub mtime: u64,
}

/// Errors of the read-only filesystem.
#[derive(Debug, Copy, Clone, PartialEq, Eq, Structural)]
pub enum FileError {
    /// No file carries the requested id or path.
    NotFound,
    /// Reading the backing archive failed.
    Io,
}

/// One file of the index.
#[derive(Debug, PartialEq, Eq)]
pub struct File {
    pub parent: Option<FileId>,
    pub attributes: Metadata,
    pub link_name: Option<String>,
    pub path: String,
}

/// The mathematical model of a [`File`].
pub struct FileView {
    pub parent: Option<FileId>,
    pub attributes: Metadata,
    pub link_name: Option<Seq<char>>,
    pub path: Seq<char>,
}

impl View for File {
    type V = FileView;

    open spec fn view(&self) -> FileView {
        FileView {
            parent: self.parent,
            attributes: self.attributes,
            link_name: match &self.link_name {
                Some(l) => Some(l@),
                None => None,
            },
            path: self.path@,
        }
    }
}

impl DeepView for File {
    type V = FileView;

    open spec fn deep_view(&self) -> FileView {
        self.view()
    }
}

impl Clone for File {
    fn clone(&self) -> (res: Self)
        ensures
            res@ == self@,
    {
        File {
            parent: self.parent,
            attributes: self.attributes,
            link_name: match &self.link_name {
                Some(l) => Some(l.clone()),
                None => None,
            },
            path: self.path.clone(),
        }
    }
}

} // verus!
