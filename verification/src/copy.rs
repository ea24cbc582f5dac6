//! The regular-file copy ladder: reflink (copy-on-write clone), then a sparse
//! copy when asked for, then a kernel-side copy, then a buffered copy. Each
//! strategy writes into the caller's temporary path so that the atomic rename
//! that follows is preserved.
//!
//! The copies themselves are I/O and run outside; which strategy comes next,
//! and when to give up, is decided here.

use vstd::prelude::*;

verus! {

/// How aggressively to attempt reflink (copy-on-write) clones.
#[derive(Debug, Clone, Copy, PartialEq, Eq, Structural)]
pub enum ReflinkMode {
    /// Try reflink, silently fall back when unsupported or cross-filesystem.
    Auto,
    /// Require reflink; fail if it cannot be done.
    Always,
    /// Never attempt reflink.
    Never,
}

impl Default for ReflinkMode {
    fn default() -> (m: Self)
        ensures
            m == ReflinkMode::Auto,
    {
        ReflinkMode::Auto
    }
}

/// When to `fsync` file data before the rename.
#[derive(Debug, Clone, Copy, PartialEq, Eq, Structural)]
pub enum FsyncMode {
    /// Skip per-file fsync; touched directories are fsynced once.
    Auto,
    /// Fsync every file before rename.
    Always,
    /// Skip all fsync, including directories.
    Never,
}

impl Default for FsyncMode {
    fn default() -> (m: Self)
        ensures
            m == FsyncMode::Auto,
    {
        FsyncMode::Auto
    }
}

/// The file-copy backend.
#[derive(Debug, Clone, Copy, PartialEq, Eq, Structural)]
pub enum Backend {
    /// Portable-first automatic selection.
    Auto,
    /// Force the `io_uring` backend.
    Uring,
    /// Force the portable backend.
    Portable,
}

/// Default buffer size for the buffered copy (1 MiB).
pub const DEFAULT_BUF: usize = 1048576;

/// One way of copying a regular file.
#[derive(Debug, Clone, Copy, PartialEq, Eq, Structural)]
pub enum CopyStrategy {
    /// A copy-on-write clone.
    Reflink,
    /// Copy only the allocated extents, preserving holes.
    Sparse,
    /// A kernel-side copy (`copy_file_range`, `fcopyfile`).
    Kernel,
    /// A read/write loop through a buffer.
    Buffered,
}

/// The strategies to try, in order: reflink unless it is off, the sparse copy
/// when asked for, the kernel-side copy where the platform has one, and the
/// buffered copy last.
pub open spec fn ladder_spec(reflink: ReflinkMode, sparse: bool, kernel_copy: bool) -> Seq<
    CopyStrategy,
> {
    (if reflink != ReflinkMode::Never {
        seq![CopyStrategy::Reflink]
    } else {
        seq![]
    }) + (if sparse {
        seq![CopyStrategy::Sparse]
    } else {
        seq![]
    }) + (if kernel_copy {
        seq![CopyStrategy::Kernel]
    } else {
        seq![]
    }) + seq![CopyStrategy::Buffered]
}

/// The copy ladder for these options (`kernel_copy`: the platform offers a
/// kernel-side copy).
pub fn copy_ladder(reflink: ReflinkMode, sparse: bool, kernel_copy: bool) -> (v: Vec<CopyStrategy>)
    ensures
        v@ == ladder_spec(reflink, sparse, kernel_copy),
{
    let mut v: Vec<CopyStrategy> = Vec::new();
    if reflink != ReflinkMode::Never {
        v.push(CopyStrategy::Reflink);
    }
    if sparse {
        v.push(CopyStrategy::Sparse);
    }
    if kernel_copy {
        v.push(CopyStrategy::Kernel);
    }
    v.push(CopyStrategy::Buffered);
    proof {
        assert(v@ =~= ladder_spec(reflink, sparse, kernel_copy));
    }
    v
}

/// Whether a failure of `strategy` ends the copy with that failure rather
/// than falling through to the next strategy: only a refused clone when a
/// clone is required, and the last resort.
pub fn failure_is_final(strategy: CopyStrategy, reflink: ReflinkMode) -> (r: bool)
    ensures
        r == ((strategy == CopyStrategy::Reflink && reflink == ReflinkMode::Always) || strategy
            == CopyStrategy::Buffered),
{
    match strategy {
        CopyStrategy::Reflink => reflink == ReflinkMode::Always,
        CopyStrategy::Buffered => true,
        _ => false,
    }
}

/// Every ladder ends with the buffered copy, and tries reflink first exactly
/// when reflink is not off.
pub proof fn lemma_ladder_shape(reflink: ReflinkMode, sparse: bool, kernel_copy: bool)
    ensures
        ladder_spec(reflink, sparse, kernel_copy).len() >= 1,
        ladder_spec(reflink, sparse, kernel_copy).last() == CopyStrategy::Buffered,
        (ladder_spec(reflink, sparse, kernel_copy)[0] == CopyStrategy::Reflink) == (reflink
            != ReflinkMode::Never),
{
}

/// Size of the next `copy_file_range` chunk: what remains, at most 1 GiB.
pub fn range_chunk(remaining: u64) -> (n: u64)
    ensures
        n == if remaining < 1073741824 {
            remaining
        } else {
            1073741824
        },
{
    if remaining < 1073741824 {
        remaining
    } else {
        1073741824
    }
}

} // verus!
