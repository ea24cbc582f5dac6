//! Entry metadata and the destination-containment rules.
//!
//! Containment defends against symlink path traversal: before anything is
//! written, created or deleted, the real parent directory of the target must
//! lie inside the destination root, and relative paths taken from a walk must
//! never climb out of their root.

use vstd::prelude::*;

use crate::error::Error;
use crate::paths::{components, components_of, join, parent_component, path_join, path_starts_with, root_component};
use crate::text::chars_of;

verus! {

/// The kind of a stat-ed entry.
#[derive(Debug, Clone, Copy, PartialEq, Eq, Structural)]
pub enum FileTypeKind {
    /// Regular file.
    File,
    /// Directory.
    Dir,
    /// Symbolic link.
    Symlink,
    /// Anything else (socket, FIFO, device): unsupported.
    Other,
}

/// A modification time: whole seconds since the Unix epoch and the
/// nanosecond part.
#[derive(Debug, Clone, Copy, PartialEq, Eq, Structural)]
pub struct Mtime {
    /// Whole seconds since the Unix epoch (negative before 1970).
    pub seconds: i64,
    /// Nanoseconds past `seconds`.
    pub nanos: u32,
}

/// Minimal metadata needed per entry: type, size, mtime, mode, and
/// inode/device (for hardlink detection and the persistent index).
#[derive(Debug, Clone, Copy, PartialEq, Eq, Structural)]
pub struct MinMeta {
    /// Entry kind.
    pub kind: FileTypeKind,
    /// Byte length (files only).
    pub len: u64,
    /// Modification time of the entry itself (links not followed).
    pub mtime: Mtime,
    /// Unix permission and type bits.
    pub mode: u32,
    /// Inode number.
    pub ino: u64,
    /// Device id.
    pub dev: u64,
    /// User id.
    pub uid: u32,
    /// Group id.
    pub gid: u32,
}

/// The file-type field of a Unix mode.
pub const S_IFMT: u32 = 0o170000;

/// File type of a regular file.
pub const S_IFREG: u32 = 0o100000;

/// File type of a directory.
pub const S_IFDIR: u32 = 0o040000;

/// File type of a symbolic link.
pub const S_IFLNK: u32 = 0o120000;

/// The kind that the file-type bits of `mode` denote.
pub open spec fn kind_of_mode(mode: u32) -> FileTypeKind {
    let t = mode & S_IFMT;
    if t == S_IFREG {
        FileTypeKind::File
    } else if t == S_IFDIR {
        FileTypeKind::Dir
    } else if t == S_IFLNK {
        FileTypeKind::Symlink
    } else {
        FileTypeKind::Other
    }
}

/// Decodes the entry kind from the file-type bits of a Unix `mode`.
pub fn kind_from_mode(mode: u32) -> (k: FileTypeKind)
    ensures
        k == kind_of_mode(mode),
{
    let t = mode & S_IFMT;
    if t == S_IFREG {
        FileTypeKind::File
    } else if t == S_IFDIR {
        FileTypeKind::Dir
    } else if t == S_IFLNK {
        FileTypeKind::Symlink
    } else {
        FileTypeKind::Other
    }
}

/// The permission bits that are applied to a written entry: the low twelve
/// mode bits without setuid and setgid (propagating those from a remote sender
/// would be a security risk). The sticky bit is kept.
pub open spec fn applied_mode(mode: u32) -> u32 {
    mode & 0o1777
}

/// The permission bits to apply for a source `mode`: `mode & !0o6000 & 0o7777`.
pub fn permission_bits(mode: u32) -> (m: u32)
    ensures
        m == applied_mode(mode),
        m & 0o6000 == 0,
        m <= 0o7777,
{
    let m = mode & !0o6000u32 & 0o7777u32;
    assert(mode & !0o6000u32 & 0o7777u32 == mode & 0o1777u32) by (bit_vector);
    assert(mode & 0o1777u32 & 0o6000u32 == 0) by (bit_vector);
    assert(mode & 0o1777u32 <= 0o7777u32) by (bit_vector);
    m
}

/// A relative path escapes its root when one of its components is `..` or the
/// root itself.
pub open spec fn escapes_root(rel: Seq<char>) -> bool {
    exists|i: int|
        0 <= i < components(rel).len() && (#[trigger] components(rel)[i] == parent_component()
            || components(rel)[i] == root_component())
}

fn is_escape_component(c: &Vec<char>) -> (r: bool)
    ensures
        r == (c@ == parent_component() || c@ == root_component()),
{
    let r = (c.len() == 2 && c[0] == '.' && c[1] == '.') || (c.len() == 1 && c[0] == '/');
    proof {
        if c@.len() == 2 && c@[0] == '.' && c@[1] == '.' {
            assert(c@ =~= parent_component());
        }
        if c@.len() == 1 && c@[0] == '/' {
            assert(c@ =~= root_component());
        }
    }
    r
}

/// Rejects a relative path that tries to escape its root via `..` or an
/// absolute component. Walk-relative paths never contain these; this is a
/// belt-and-braces check before any join.
///
/// Fails with [`Error::Containment`] naming `rel` exactly when [`escapes_root`].
pub fn check_relative(rel: &str) -> (r: Result<(), Error>)
    ensures
        !escapes_root(rel@) ==> r is Ok,
        escapes_root(rel@) ==> (r matches Err(Error::Containment(p)) && p@ == rel@),
{
    let comps = components_of(chars_of(rel).as_slice());
    let mut i: usize = 0;
    while i < comps.len()
        invariant
            i <= comps@.len(),
            comps@.len() == components(rel@).len(),
            forall|j: int| 0 <= j < comps@.len() ==> comps@[j]@ == components(rel@)[j],
            forall|j: int|
                0 <= j < i ==> !(components(rel@)[j] == parent_component() || components(rel@)[j]
                    == root_component()),
        decreases comps@.len() - i,
    {
        if is_escape_component(&comps[i]) {
            assert(components(rel@)[i as int] == comps@[i as int]@);
            return Err(Error::Containment(rel.to_owned()));
        }
        i += 1;
    }
    Ok(())
}

/// Where a write lands once its real parent directory is known:
/// `parent_canon/name` when `parent_canon` lies within `root_canon`
/// (component-wise), else a containment error naming `target`.
pub open spec fn confined(
    root_canon: Seq<char>,
    parent_canon: Seq<char>,
    name: Seq<char>,
) -> Option<Seq<char>> {
    if components(root_canon).is_prefix_of(components(parent_canon)) {
        Some(path_join(parent_canon, name))
    } else {
        None
    }
}

/// The containment decision for writing `target`: its parent directory,
/// canonicalized (symlinks followed) to `parent_canon`, must lie inside the
/// canonical root. On success returns the concrete path `parent_canon/name`
/// to write; otherwise fails with [`Error::Containment`] naming `target`.
pub fn confine_target(root_canon: &str, parent_canon: &str, name: &str, target: &str) -> (r: Result<
    String,
    Error,
>)
    ensures
        match confined(root_canon@, parent_canon@, name@) {
            Some(p) => r matches Ok(s) && s@ == p,
            None => r matches Err(Error::Containment(p)) && p@ == target@,
        },
{
    if !path_starts_with(parent_canon, root_canon) {
        return Err(Error::Containment(target.to_owned()));
    }
    Ok(join(parent_canon, name))
}

} // verus!
