//! Read-only filesystem index over the entries of an archive.
//!
//! The index assigns sequential ids, the root directory first; each
//! archive entry is added in turn, its parent resolved by its path.  The
//! caller streams the archive's entries and file contents; the index
//! itself is plain data.

use vstd::prelude::*;

use crate::fs;
use crate::fs::{FileView, Metadata};

verus! {

/// The id of the root directory: ids are sequential from 1.
pub const ROOT_ID: fs::FileId = 1u64;

/// The root directory's index record.
pub open spec fn spec_root_file() -> FileView {
    FileView {
        parent: None,
        attributes: Metadata {
            file_type: fs::FileType::Directory,
            mode: 0o755,
            uid: 0,
            gid: 0,
            mtime: 0,
        },
        link_name: None,
        path: "/"@,
    }
}

/// Utility function to make a filesystem entry for the root node.
pub fn make_root() -> (r: fs::File)
    ensures
        r@ == spec_root_file(),
{
    fs::File {
        parent: None,
        attributes: fs::Metadata {
            file_type: fs::FileType::Directory,
            mode: 0o755,
            uid: 0,
            gid: 0,
            mtime: 0,
        },
        link_name: None,
        path: String::from_str("/"),
    }
}

// ------------------------------------------------------------------
// Path parents
// ------------------------------------------------------------------

/// The length of `s`'s prefix of `j` characters once trailing slashes
/// are removed.
pub open spec fn strip_slashes_end(s: Seq<char>, j: int) -> int
    decreases j,
{
    if 0 < j <= s.len() && s[j - 1] == '/' {
        strip_slashes_end(s, j - 1)
    } else {
        j
    }
}

/// The end of `s`'s prefix of `j` characters once its last path
/// component and the slash before it are removed.
pub open spec fn drop_component_end(s: Seq<char>, j: int) -> int
    decreases j,
{
    if 0 < j <= s.len() {
        if s[j - 1] == '/' {
            j - 1
        } else {
            drop_component_end(s, j - 1)
        }
    } else {
        if j > 0 {
            j
        } else {
            0
        }
    }
}

/// The parent of a path: trailing slashes dropped, then the last
/// component and its slash.  The empty result stands for the root.
pub open spec fn parent_path(s: Seq<char>) -> Seq<char> {
    s.subrange(0, drop_component_end(s, strip_slashes_end(s, s.len() as int)))
}

/// The parent of this path's textual form.
fn parent_of(path: &str) -> (r: String)
    ensures
        r@ == parent_path(path@),
{
    let cs = crate::parser::chars_of(path);
    let mut j = cs.len();
    while j > 0 && cs[j - 1] == '/'
        invariant
            j <= cs.len(),
            cs@ == path@,
            strip_slashes_end(cs@, cs.len() as int) == strip_slashes_end(cs@, j as int),
        decreases j,
    {
        j = j - 1;
    }
    proof {
        assert(strip_slashes_end(cs@, j as int) == j as int);
    }
    let stripped = j;
    while j > 0 && cs[j - 1] != '/'
        invariant
            j <= stripped <= cs.len(),
            cs@ == path@,
            drop_component_end(cs@, stripped as int) == drop_component_end(cs@, j as int),
        decreases j,
    {
        j = j - 1;
    }
    let end = if j > 0 {
        j - 1
    } else {
        0
    };
    proof {
        assert(drop_component_end(cs@, j as int) == end as int);
    }
    path.substring_char(0, end).to_owned()
}

// ------------------------------------------------------------------
// The index
// ------------------------------------------------------------------

/// The first position at or after `j` whose file carries this path, or
/// the index's length where none does.
pub open spec fn find_path_from(files: Seq<FileView>, p: Seq<char>, j: int) -> int
    decreases files.len() - j,
{
    if 0 <= j < files.len() {
        if files[j].path == p {
            j
        } else {
            find_path_from(files, p, j + 1)
        }
    } else {
        j
    }
}

/// The id of the parent that a new entry with this path receives: the
/// root where the parent path is empty, else the first indexed file that
/// carries the parent path; `None` where no such file exists.
pub open spec fn spec_find_parent(files: Seq<FileView>, path: Seq<char>) -> Option<fs::FileId> {
    let pp = parent_path(path);
    if pp.len() == 0 || pp == "/"@ {
        Some(ROOT_ID)
    } else {
        let j = find_path_from(files, pp, 0);
        if j < files.len() {
            Some((j + 1) as fs::FileId)
        } else {
            None
        }
    }
}

/// The files whose parent is `id`, in index order.
pub open spec fn children_of(files: Seq<FileView>, id: fs::FileId) -> Seq<FileView>
    decreases files.len(),
{
    if files.len() == 0 {
        Seq::empty()
    } else {
        children_of(files.drop_last(), id) + (if files.last().parent == Some(id) {
            seq![files.last()]
        } else {
            Seq::empty()
        })
    }
}

/// A read-only filesystem index: files under sequential ids, the root
/// directory under id 1 (at position 0), the file with id `i` at
/// position `i - 1`.
#[derive(Debug)]
pub struct ReadOnlyFilesystem {
    files: Vec<fs::File>,
}

impl View for ReadOnlyFilesystem {
    type V = Seq<FileView>;

    closed spec fn view(&self) -> Seq<FileView> {
        self.files.deep_view()
    }
}

impl ReadOnlyFilesystem {
    /// A fresh index holding only the root directory.
    pub fn new() -> (r: Self)
        ensures
            r@ == seq![spec_root_file()],
    {
        let mut files: Vec<fs::File> = Vec::new();
        files.push(make_root());
        proof {
            assert(files.deep_view() =~= seq![spec_root_file()]);
        }
        ReadOnlyFilesystem { files }
    }

    /// The root directory's id.
    pub fn root_id(&self) -> (r: fs::FileId)
        ensures
            r == ROOT_ID,
    {
        ROOT_ID
    }

    /// The number of indexed files.
    pub fn len(&self) -> (r: usize)
        ensures
            r == self@.len(),
    {
        self.files.len()
    }

    /// Add one archive entry to the index under the next id, its parent
    /// resolved by its path.  Fails, adding nothing, where the parent
    /// path is not indexed yet.
    pub fn add_entry(
        &mut self,
        path: String,
        attributes: fs::Metadata,
        link_name: Option<String>,
    ) -> (r: Result<fs::FileId, fs::FileError>)
        requires
            old(self)@.len() < u64::MAX,
        ensures
            match spec_find_parent(old(self)@, path@) {
                Some(pid) => {
                    &&& r == Ok::<fs::FileId, fs::FileError>((old(self)@.len() + 1) as fs::FileId)
                    &&& final(self)@ == old(self)@.push(
                        FileView {
                            parent: Some(pid),
                            attributes,
                            link_name: match link_name {
                                Some(l) => Some(l@),
                                None => None,
                            },
                            path: path@,
                        },
                    )
                },
                None => r == Err::<fs::FileId, fs::FileError>(fs::FileError::NotFound)
                    && final(self)@ == old(self)@,
            },
    {
        let parent = match self.find_parent_id(path.as_str()) {
            Some(pid) => pid,
            None => {
                return Err(fs::FileError::NotFound);
            },
        };
        let ghost prev = self.files.deep_view();
        let id = self.files.len() as u64 + 1;
        self.files.push(fs::File { parent: Some(parent), attributes, link_name, path });
        proof {
            assert(self.files.deep_view() =~= prev.push(self.files@.last()@));
        }
        Ok(id)
    }

    /// Identify the id of the parent of a file with the provided path.
    pub fn find_parent_id(&self, path: &str) -> (r: Option<fs::FileId>)
        ensures
            r == spec_find_parent(self@, path@),
    {
        proof {
            reveal_strlit("/");
        }
        let pp = parent_of(path);
        if pp.as_str().is_empty() {
            return Some(ROOT_ID);
        }
        let root_path = String::from_str("/");
        if pp.eq(&root_path) {
            return Some(ROOT_ID);
        }
        let mut j: usize = 0;
        while j < self.files.len()
            invariant
                j <= self.files.len(),
                pp@ == parent_path(path@),
                pp@.len() != 0,
                pp@ != "/"@,
                find_path_from(self@, pp@, 0) == find_path_from(self@, pp@, j as int),
                self@ == self.files.deep_view(),
            decreases self.files.len() - j,
        {
            if self.files[j].path.eq(&pp) {
                proof {
                    assert(self@[j as int].path == pp@);
                    assert(find_path_from(self@, pp@, j as int) == j as int);
                }
                return Some((j + 1) as fs::FileId);
            }
            proof {
                assert(self@[j as int].path != pp@);
            }
            j = j + 1;
        }
        proof {
            assert(find_path_from(self@, pp@, self@.len() as int) == self@.len() as int);
        }
        None
    }

    /// The metadata of the file with this id.
    pub fn getattr(&self, id: &fs::FileId) -> (r: Result<&fs::Metadata, fs::FileError>)
        ensures
            match r {
                Ok(m) => 1 <= *id <= self@.len() && *m == self@[*id - 1].attributes,
                Err(e) => e == fs::FileError::NotFound && !(1 <= *id <= self@.len()),
            },
    {
        if *id >= 1 && *id <= self.files.len() as u64 {
            let idx = (*id - 1) as usize;
            Ok(&self.files[idx].attributes)
        } else {
            Err(fs::FileError::NotFound)
        }
    }

    /// The path of the file with this id, by which the backing archive
    /// is searched when the file is read.
    pub fn path_of(&self, id: &fs::FileId) -> (r: Result<&String, fs::FileError>)
        ensures
            match r {
                Ok(p) => 1 <= *id <= self@.len() && p@ == self@[*id - 1].path,
                Err(e) => e == fs::FileError::NotFound && !(1 <= *id <= self@.len()),
            },
    {
        if *id >= 1 && *id <= self.files.len() as u64 {
            let idx = (*id - 1) as usize;
            Ok(&self.files[idx].path)
        } else {
            Err(fs::FileError::NotFound)
        }
    }

    /// The files whose parent is `id`, in index order.  An id that is
    /// not indexed, or not a directory, has no children.
    pub fn readdir(&self, id: &fs::FileId) -> (r: Vec<fs::File>)
        ensures
            r.deep_view() == children_of(self@, *id),
    {
        let mut out: Vec<fs::File> = Vec::new();
        let mut j: usize = 0;
        while j < self.files.len()
            invariant
                j <= self.files.len(),
                self@ == self.files.deep_view(),
                out.deep_view() == children_of(self@.take(j as int), *id),
            decreases self.files.len() - j,
        {
            let ghost prev = out.deep_view();
            proof {
                assert(self@.take(j + 1).drop_last() =~= self@.take(j as int));
                assert(self@.take(j + 1).last() == self@[j as int]);
            }
            let is_child = match &self.files[j].parent {
                Some(p) => *p == *id,
                None => false,
            };
            if is_child {
                out.push(self.files[j].clone());
            }
            proof {
                assert(out.deep_view() =~= children_of(self@.take(j + 1), *id));
            }
            j = j + 1;
        }
        proof {
            assert(self@.take(self.files.len() as int) =~= self@);
        }
        out
    }

    /// The link target of the file with this id, where it is a link.
    pub fn readlink(&self, id: &fs::FileId) -> (r: Result<Option<&String>, fs::FileError>)
        ensures
            match r {
                Ok(l) => 1 <= *id <= self@.len() && (match l {
                    Some(t) => self@[*id - 1].link_name == Some(t@),
                    None => self@[*id - 1].link_name is None,
                }),
                Err(e) => e == fs::FileError::NotFound && !(1 <= *id <= self@.len()),
            },
    {
        if *id >= 1 && *id <= self.files.len() as u64 {
            let idx = (*id - 1) as usize;
            Ok(self.files[idx].link_name.as_ref())
        } else {
            Err(fs::FileError::NotFound)
        }
    }
}

/// The moment the reference archives were stamped with.
pub const MIDNIGHT: u64 = 1262304000;

/// The root listing of an archive holding one regular file, `foo.txt`:
/// the reference value tests hold [`ReadOnlyFilesystem::readdir`] against.
pub fn make_files_1(root_id: fs::FileId) -> (r: Vec<fs::File>)
    ensures
        r.deep_view() == seq![
            FileView {
                parent: Some(root_id),
                attributes: Metadata {
                    file_type: fs::FileType::Regular,
                    mode: 0o644,
                    uid: 0,
                    gid: 0,
                    mtime: MIDNIGHT,
                },
                link_name: None,
                path: "foo.txt"@,
            },
        ],
{
    let mut r: Vec<fs::File> = Vec::new();
    r.push(
        fs::File {
            parent: Some(root_id),
            attributes: fs::Metadata {
                file_type: fs::FileType::Regular,
                mode: 0o644,
                uid: 0,
                gid: 0,
                mtime: MIDNIGHT,
            },
            link_name: None,
            path: String::from_str("foo.txt"),
        },
    );
    proof {
        assert(r.deep_view() =~= seq![
            FileView {
                parent: Some(root_id),
                attributes: Metadata {
                    file_type: fs::FileType::Regular,
                    mode: 0o644,
                    uid: 0,
                    gid: 0,
                    mtime: MIDNIGHT,
                },
                link_name: None,
                path: "foo.txt"@,
            },
        ]);
    }
    r
}

} // verus!
