//! The entries of a walked tree.
//!
//! A walk produces a flat list of [`Entry`] values describing a tree relative
//! to its root, sorted by relative path so that every parent directory
//! precedes its children. Symlinks are recorded as symlinks: their target is
//! read but never followed.

use vstd::prelude::*;

use crate::meta::{FileTypeKind, MinMeta, Mtime};
use crate::paths::path_before;
use crate::plan::compare_paths;

verus! {

/// What a walked entry is.
#[derive(Debug, Clone, PartialEq, Eq)]
pub enum EntryKind {
    /// A directory.
    Dir,
    /// A regular file.
    File,
    /// A symbolic link with the given target (recorded verbatim, never followed).
    Symlink(String),
}

/// One entry in a walked tree.
#[derive(Debug, Clone)]
pub struct Entry {
    /// Path relative to the walk root (never contains `..`).
    pub rel: String,
    /// What kind of entry this is.
    pub kind: EntryKind,
    /// Byte length (0 for directories and symlinks).
    pub len: u64,
    /// Modification time (of the link itself for symlinks).
    pub mtime: Mtime,
    /// Unix permission and type bits (0 on platforms without them).
    pub mode: u32,
    /// Inode number (for hardlink detection and the index).
    pub ino: u64,
    /// Device id.
    pub dev: u64,
    /// User id.
    pub uid: u32,
    /// Group id.
    pub gid: u32,
}

impl Entry {
    /// Whether this entry is a regular file.
    pub fn is_file(&self) -> (r: bool)
        ensures
            r == (self.kind is File),
    {
        match self.kind {
            EntryKind::File => true,
            _ => false,
        }
    }

    /// Whether this entry is a directory.
    pub fn is_dir(&self) -> (r: bool)
        ensures
            r == (self.kind is Dir),
    {
        match self.kind {
            EntryKind::Dir => true,
            _ => false,
        }
    }

    /// An identical copy of this entry.
    pub fn duplicate(&self) -> (r: Entry)
        ensures
            r == *self,
    {
        Entry {
            rel: self.rel.clone(),
            kind: match &self.kind {
                EntryKind::Dir => EntryKind::Dir,
                EntryKind::File => EntryKind::File,
                EntryKind::Symlink(t) => EntryKind::Symlink(t.clone()),
            },
            len: self.len,
            mtime: self.mtime,
            mode: self.mode,
            ino: self.ino,
            dev: self.dev,
            uid: self.uid,
            gid: self.gid,
        }
    }
}

/// The relative paths of `entries`, in order.
pub fn rels_of(entries: &Vec<Entry>) -> (v: Vec<String>)
    ensures
        v@.len() == entries@.len(),
        forall|i: int| 0 <= i < entries@.len() ==> #[trigger] v@[i] == entries@[i].rel,
{
    let mut v: Vec<String> = Vec::new();
    let mut i: usize = 0;
    while i < entries.len()
        invariant
            i <= entries@.len(),
            v@.len() == i,
            forall|t: int| 0 <= t < i ==> #[trigger] v@[t] == entries@[t].rel,
        decreases entries@.len() - i,
    {
        v.push(entries[i].rel.clone());
        i += 1;
    }
    v
}

/// The entry a walk records for a path with metadata `meta`: directories,
/// regular files (with their length) and symlinks (with `link_target`, the
/// target read from the link; other kinds ignore it) are recorded; other
/// file types (sockets, FIFOs, devices) are not.
pub fn entry_of(rel: String, meta: &MinMeta, link_target: String) -> (e: Option<Entry>)
    ensures
        meta.kind == FileTypeKind::Other ==> e is None,
        meta.kind != FileTypeKind::Other ==> (e matches Some(x) && {
            &&& x.rel == rel
            &&& x.kind == match meta.kind {
                FileTypeKind::File => EntryKind::File,
                FileTypeKind::Dir => EntryKind::Dir,
                _ => EntryKind::Symlink(link_target),
            }
            &&& x.len == (if meta.kind == FileTypeKind::File {
                meta.len
            } else {
                0
            })
            &&& x.mtime == meta.mtime
            &&& x.mode == meta.mode
            &&& x.ino == meta.ino
            &&& x.dev == meta.dev
            &&& x.uid == meta.uid
            &&& x.gid == meta.gid
        }),
{
    let kind = match meta.kind {
        FileTypeKind::File => EntryKind::File,
        FileTypeKind::Dir => EntryKind::Dir,
        FileTypeKind::Symlink => EntryKind::Symlink(link_target),
        FileTypeKind::Other => {
            return None;
        },
    };
    let len = match kind {
        EntryKind::File => meta.len,
        _ => 0,
    };
    Some(
        Entry {
            rel,
            kind,
            len,
            mtime: meta.mtime,
            mode: meta.mode,
            ino: meta.ino,
            dev: meta.dev,
            uid: meta.uid,
            gid: meta.gid,
        },
    )
}

/// Sorts walked entries by path with rayon's `par_sort_unstable_by`,
/// comparing paths with [`compare_paths`]. Claims what the crate documents
/// for a total order (which [`crate::paths::lemma_path_order`] shows this
/// is): the result is a permutation of the input in which no entry precedes
/// one whose path sorts before its own.
#[verifier::external_body]
fn par_sort_by_path(v: &mut Vec<Entry>)
    ensures
        final(v)@.to_multiset() == old(v)@.to_multiset(),
        forall|i: int, j: int|
            0 <= i < j < final(v)@.len() ==> !path_before(
                #[trigger] final(v)@[j].rel@,
                #[trigger] final(v)@[i].rel@,
            ),
{
    rayon::slice::ParallelSliceMut::par_sort_unstable_by(
        v.as_mut_slice(),
        |a, b| compare_paths(a.rel.as_str(), b.rel.as_str()),
    );
}

/// A walk's entries in path order, so every parent directory precedes its
/// children: a permutation of `entries` in which no entry precedes one whose
/// path sorts before its own.
pub fn sort_walk(entries: Vec<Entry>) -> (r: Vec<Entry>)
    ensures
        r@.to_multiset() == entries@.to_multiset(),
        forall|i: int, j: int|
            0 <= i < j < r@.len() ==> !path_before(#[trigger] r@[j].rel@, #[trigger] r@[i].rel@),
{
    let mut v = entries;
    par_sort_by_path(&mut v);
    v
}

} // verus!
