//! The sync plan: every source entry classified as copy, update or skip, and,
//! when deletions are mirrored, the destination entries to remove.
//!
//! Reading the trees and hashing file contents is I/O and happens outside;
//! the decisions taken on what was read are here.

use std::cmp::Ordering;
use std::collections::HashMap;

use vstd::prelude::*;

use crate::error::Error;
use crate::index::RIPSYNC_DIR;
use crate::paths::{components, path_before, path_less, path_starts_with, same_path};
use crate::pathset::{last_with_path, match_paths};
use crate::text::same_bytes;
use crate::walk::{Entry, EntryKind};

verus! {

broadcast use vstd::std_specs::hash::group_hash_axioms;

/// What to do with a single entry.
#[derive(Debug, Clone, Copy, PartialEq, Eq, Structural)]
pub enum Action {
    /// Entry is missing in the destination: create it.
    Copy,
    /// Entry exists but differs: overwrite it.
    Update,
    /// Entry is already up to date: do nothing.
    Skip,
}

/// A source entry paired with the action chosen for it.
#[derive(Debug, Clone)]
pub struct PlannedAction {
    /// The source entry.
    pub entry: Entry,
    /// What to do with it.
    pub action: Action,
}

/// A destination entry slated for deletion.
#[derive(Debug, Clone)]
pub struct Deletion {
    /// Path relative to the destination root.
    pub rel: String,
    /// Whether the entry is a directory.
    pub is_dir: bool,
}

/// Knobs controlling how the plan is built.
#[derive(Debug, Clone, Copy)]
pub struct PlanOptions {
    /// Compare by content hash rather than size and mtime.
    pub checksum: bool,
    /// Mirror deletions (entries in the destination but not the source).
    pub delete: bool,
    /// Worker threads for the walk (0 means the default).
    pub threads: usize,
    /// Use the persistent index for fast incremental re-syncs.
    pub index: bool,
    /// Preserve source hardlink groups.
    pub hard_links: bool,
}

impl Default for PlanOptions {
    fn default() -> (o: Self)
        ensures
            !o.checksum && !o.delete && o.threads == 0 && !o.index && !o.hard_links,
    {
        PlanOptions { checksum: false, delete: false, threads: 0, index: false, hard_links: false }
    }
}

/// The full plan: per-entry actions plus pending deletions.
#[derive(Debug, Clone)]
pub struct SyncPlan {
    /// Source-side actions, ordered so parents precede children.
    pub actions: Vec<PlannedAction>,
    /// Destination entries to delete (deepest first), only when deleting.
    pub deletions: Vec<Deletion>,
}

impl Default for SyncPlan {
    fn default() -> (p: Self)
        ensures
            p.actions@.len() == 0,
            p.deletions@.len() == 0,
    {
        SyncPlan { actions: Vec::new(), deletions: Vec::new() }
    }
}

/// How many of `actions` are `action`.
pub open spec fn count_of(actions: Seq<PlannedAction>, action: Action) -> nat
    decreases actions.len(),
{
    if actions.len() == 0 {
        0
    } else {
        count_of(actions.drop_last(), action) + if actions.last().action == action {
            1nat
        } else {
            0nat
        }
    }
}

/// Bytes that `actions` move: the lengths of the files copied or updated.
pub open spec fn transfer_total(actions: Seq<PlannedAction>) -> nat
    decreases actions.len(),
{
    if actions.len() == 0 {
        0
    } else {
        transfer_total(actions.drop_last()) + if actions.last().action != Action::Skip
            && actions.last().entry.kind is File {
            actions.last().entry.len as nat
        } else {
            0nat
        }
    }
}

proof fn lemma_transfer_total_monotone(actions: Seq<PlannedAction>, i: int)
    requires
        0 <= i <= actions.len(),
    ensures
        transfer_total(actions.take(i)) <= transfer_total(actions),
    decreases actions.len() - i,
{
    if i < actions.len() {
        lemma_transfer_total_monotone(actions, i + 1);
        assert(actions.take(i + 1).drop_last() =~= actions.take(i));
    } else {
        assert(actions.take(i) =~= actions);
    }
}

impl SyncPlan {
    /// Count of actions equal to `action`.
    pub fn count(&self, action: Action) -> (n: usize)
        ensures
            n == count_of(self.actions@, action),
    {
        let mut n: usize = 0;
        let mut i: usize = 0;
        while i < self.actions.len()
            invariant
                i <= self.actions@.len(),
                n == count_of(self.actions@.take(i as int), action),
                n <= i,
            decreases self.actions@.len() - i,
        {
            proof {
                assert(self.actions@.take(i + 1).drop_last() =~= self.actions@.take(i as int));
            }
            if self.actions[i].action == action {
                n += 1;
            }
            i += 1;
        }
        proof {
            assert(self.actions@.take(i as int) =~= self.actions@);
        }
        n
    }

    /// Total bytes to transfer (see [`SyncPlan::bytes_to_transfer`]), or
    /// `None` when the total does not fit in a `u64`.
    pub fn checked_bytes_to_transfer(&self) -> (total: Option<u64>)
        ensures
            transfer_total(self.actions@) <= u64::MAX ==> total == Some(
                transfer_total(self.actions@) as u64,
            ),
            transfer_total(self.actions@) > u64::MAX ==> total is None,
    {
        let mut total: u64 = 0;
        let mut i: usize = 0;
        while i < self.actions.len()
            invariant
                i <= self.actions@.len(),
                total == transfer_total(self.actions@.take(i as int)),
            decreases self.actions@.len() - i,
        {
            proof {
                assert(self.actions@.take(i + 1).drop_last() =~= self.actions@.take(i as int));
            }
            let planned = &self.actions[i];
            if planned.action != Action::Skip && planned.entry.is_file() {
                if planned.entry.len > u64::MAX - total {
                    proof {
                        lemma_transfer_total_monotone(self.actions@, i + 1);
                    }
                    return None;
                }
                total = total + planned.entry.len;
            }
            i += 1;
        }
        proof {
            assert(self.actions@.take(i as int) =~= self.actions@);
        }
        Some(total)
    }

    /// Total bytes to transfer: the sum of the lengths of files being copied or
    /// updated.
    pub fn bytes_to_transfer(&self) -> (total: u64)
        requires
            transfer_total(self.actions@) <= u64::MAX,
        ensures
            total == transfer_total(self.actions@),
    {
        let mut total: u64 = 0;
        let mut i: usize = 0;
        while i < self.actions.len()
            invariant
                i <= self.actions@.len(),
                total == transfer_total(self.actions@.take(i as int)),
                transfer_total(self.actions@) <= u64::MAX,
            decreases self.actions@.len() - i,
        {
            proof {
                assert(self.actions@.take(i + 1).drop_last() =~= self.actions@.take(i as int));
                lemma_transfer_total_monotone(self.actions@, i + 1);
            }
            let planned = &self.actions[i];
            if planned.action != Action::Skip && planned.entry.is_file() {
                total = total + planned.entry.len;
            }
            i += 1;
        }
        proof {
            assert(self.actions@.take(i as int) =~= self.actions@);
        }
        total
    }
}

/// Permission bits and whole-second mtimes differ between two entries.
pub open spec fn metadata_differs(entry: Entry, dst: Entry) -> bool {
    entry.mode & 0o7777 != dst.mode & 0o7777 || entry.mtime.seconds != dst.mtime.seconds
}

/// Whether a source file and its destination counterpart differ. In checksum
/// mode the BLAKE3 digests of both files decide (a file that could not be
/// hashed counts as different); otherwise size and whole-second mtime do.
/// Permission bits always count.
pub open spec fn files_differ_spec(
    entry: Entry,
    dst: Entry,
    checksum: bool,
    src_hash: Option<[u8; 32]>,
    dst_hash: Option<[u8; 32]>,
) -> bool {
    if checksum {
        match (src_hash, dst_hash) {
            (Some(a), Some(b)) => metadata_differs(entry, dst) || a@ != b@,
            _ => true,
        }
    } else {
        entry.len != dst.len || metadata_differs(entry, dst)
    }
}

/// Decides whether a source and destination file differ, given the digests
/// of both files in checksum mode (`None` where a file could not be read).
pub fn files_differ(
    entry: &Entry,
    dst: &Entry,
    checksum: bool,
    src_hash: Option<[u8; 32]>,
    dst_hash: Option<[u8; 32]>,
) -> (r: bool)
    ensures
        r == files_differ_spec(*entry, *dst, checksum, src_hash, dst_hash),
{
    let meta_differs = entry.mode & 0o7777 != dst.mode & 0o7777 || entry.mtime.seconds
        != dst.mtime.seconds;
    if checksum {
        match (src_hash, dst_hash) {
            (Some(a), Some(b)) => meta_differs || !same_bytes(&a, &b),
            _ => true,
        }
    } else {
        entry.len != dst.len || meta_differs
    }
}

/// The action for a source entry whose path also exists in the destination.
/// Directories compare permission bits and whole-second mtime; symlinks
/// compare their targets (as paths) and whole-second mtime; files go by
/// [`files_differ_spec`]; a changed kind is replaced.
pub open spec fn classify_existing_spec(
    entry: Entry,
    dst: Entry,
    checksum: bool,
    src_hash: Option<[u8; 32]>,
    dst_hash: Option<[u8; 32]>,
) -> Action {
    match (entry.kind, dst.kind) {
        (EntryKind::Dir, EntryKind::Dir) => if entry.mode & 0o7777 == dst.mode & 0o7777
            && entry.mtime.seconds == dst.mtime.seconds {
            Action::Skip
        } else {
            Action::Update
        },
        (EntryKind::Symlink(a), EntryKind::Symlink(b)) => if components(a@) == components(b@)
            && entry.mtime.seconds == dst.mtime.seconds {
            Action::Skip
        } else {
            Action::Update
        },
        (EntryKind::File, EntryKind::File) => if files_differ_spec(
            entry,
            dst,
            checksum,
            src_hash,
            dst_hash,
        ) {
            Action::Update
        } else {
            Action::Skip
        },
        _ => Action::Update,
    }
}

/// What classifying an existing destination entry must get right, stated on
/// the entries themselves: an entry that exists is never copied afresh; a
/// changed kind is replaced; two directories are skipped exactly when their
/// permission bits and whole-second mtimes agree; a skipped symlink keeps its
/// target (as a path) and whole-second mtime; a skipped file keeps its
/// permission bits and whole-second mtime, and its size (by metadata) or its
/// digest (in checksum mode, both files hashed and equal).
pub open spec fn existing_classification_law(
    entry: Entry,
    dst: Entry,
    checksum: bool,
    src_hash: Option<[u8; 32]>,
    dst_hash: Option<[u8; 32]>,
    a: Action,
) -> bool {
    &&& a != Action::Copy
    &&& !((entry.kind is Dir && dst.kind is Dir) || (entry.kind is File && dst.kind is File) || (
        entry.kind is Symlink && dst.kind is Symlink)) ==> a == Action::Update
    &&& (entry.kind is Dir && dst.kind is Dir) ==> (a == Action::Skip <==> (entry.mode & 0o7777
        == dst.mode & 0o7777 && entry.mtime.seconds == dst.mtime.seconds))
    &&& (entry.kind is Symlink && dst.kind is Symlink && a == Action::Skip) ==> (components(
        entry.kind->Symlink_0@,
    ) == components(dst.kind->Symlink_0@) && entry.mtime.seconds == dst.mtime.seconds)
    &&& (entry.kind is File && dst.kind is File && a == Action::Skip) ==> {
        &&& entry.mode & 0o7777 == dst.mode & 0o7777
        &&& entry.mtime.seconds == dst.mtime.seconds
        &&& !checksum ==> entry.len == dst.len
        &&& checksum ==> (src_hash is Some && dst_hash is Some && src_hash->Some_0@
            == dst_hash->Some_0@)
    }
    &&& (entry.kind is File && dst.kind is File && entry.mode & 0o7777 == dst.mode & 0o7777
        && entry.mtime.seconds == dst.mtime.seconds && !checksum && entry.len == dst.len) ==> a
        == Action::Skip
}

/// The classification of an existing entry obeys
/// [`existing_classification_law`]: in particular a permission change on a
/// directory, or a changed mtime, is never skipped.
pub proof fn lemma_classify_existing_law(
    entry: Entry,
    dst: Entry,
    checksum: bool,
    src_hash: Option<[u8; 32]>,
    dst_hash: Option<[u8; 32]>,
)
    ensures
        existing_classification_law(
            entry,
            dst,
            checksum,
            src_hash,
            dst_hash,
            classify_existing_spec(entry, dst, checksum, src_hash, dst_hash),
        ),
{
}

/// Classifies a source entry whose path also exists in the destination (see
/// [`classify_existing_spec`]).
pub fn classify_existing(
    entry: &Entry,
    dst: &Entry,
    checksum: bool,
    src_hash: Option<[u8; 32]>,
    dst_hash: Option<[u8; 32]>,
) -> (a: Action)
    ensures
        a == classify_existing_spec(*entry, *dst, checksum, src_hash, dst_hash),
        existing_classification_law(*entry, *dst, checksum, src_hash, dst_hash, a),
{
    proof {
        lemma_classify_existing_law(*entry, *dst, checksum, src_hash, dst_hash);
    }
    match (&entry.kind, &dst.kind) {
        (EntryKind::Dir, EntryKind::Dir) => {
            if entry.mode & 0o7777 == dst.mode & 0o7777 && entry.mtime.seconds
                == dst.mtime.seconds {
                Action::Skip
            } else {
                Action::Update
            }
        },
        (EntryKind::Symlink(a), EntryKind::Symlink(b)) => {
            if same_path(a.as_str(), b.as_str()) && entry.mtime.seconds == dst.mtime.seconds {
                Action::Skip
            } else {
                Action::Update
            }
        },
        (EntryKind::File, EntryKind::File) => {
            if files_differ(entry, dst, checksum, src_hash, dst_hash) {
                Action::Update
            } else {
                Action::Skip
            }
        },
        _ => Action::Update,
    }
}

// ---------------------------------------------------------------------------
// Hardlink groups
// ---------------------------------------------------------------------------

/// The identity of a file: its (device, inode) pair.
pub open spec fn file_id(e: Entry) -> (u64, u64) {
    (e.dev, e.ino)
}

/// A single integer standing for an identity, for use as a map key.
pub open spec fn id_key(id: (u64, u64)) -> u128 {
    (id.0 as int * 18446744073709551616 + id.1 as int) as u128
}

pub proof fn lemma_id_key_injective(a: (u64, u64), b: (u64, u64))
    ensures
        id_key(a) == id_key(b) ==> a == b,
{
    let m: int = 18446744073709551616;
    let x = a.0 as int * m + a.1 as int;
    let y = b.0 as int * m + b.1 as int;
    assert(0 <= x < m * m && 0 <= y < m * m) by (nonlinear_arith)
        requires
            x == a.0 as int * m + a.1 as int,
            y == b.0 as int * m + b.1 as int,
            m == 18446744073709551616,
            0 <= a.0 < m,
            0 <= a.1 < m,
            0 <= b.0 < m,
            0 <= b.1 < m,
    ;
    if x == y {
        assert(a.0 == b.0 && a.1 == b.1) by (nonlinear_arith)
            requires
                x == a.0 as int * m + a.1 as int,
                y == b.0 as int * m + b.1 as int,
                x == y,
                m == 18446744073709551616,
                0 <= a.1 < m,
                0 <= b.1 < m,
                0 <= a.0,
                0 <= b.0,
        ;
    }
}

pub fn key_of(dev: u64, ino: u64) -> (k: u128)
    ensures
        k == id_key((dev, ino)),
{
    let ghost m: int = 18446744073709551616;
    assert(dev as int * m + ino as int <= u128::MAX) by (nonlinear_arith)
        requires
            m == 18446744073709551616,
            0 <= dev < m,
            0 <= ino < m,
    ;
    assert((dev as u128) * 18446744073709551616u128 == dev as int * m) by (nonlinear_arith)
        requires
            m == 18446744073709551616,
            0 <= dev < m,
    ;
    (dev as u128) * 18446744073709551616u128 + (ino as u128)
}

/// `actions[j]` is the first file of its hardlink group: no earlier file has
/// the same identity.
pub open spec fn first_of_group(actions: Seq<PlannedAction>, j: int) -> bool {
    &&& actions[j].entry.kind is File
    &&& forall|t: int|
        0 <= t < j && (#[trigger] actions[t]).entry.kind is File ==> file_id(actions[t].entry)
            != file_id(actions[j].entry)
}

/// A duplicate source inode must point at the same destination inode as the
/// first member of its group: `actions[i]` is a file whose group's first
/// member comes earlier and has another destination identity.
pub open spec fn hardlink_forced(
    actions: Seq<PlannedAction>,
    dest_ids: Seq<Option<(u64, u64)>>,
    i: int,
) -> bool {
    &&& actions[i].entry.kind is File
    &&& exists|j: int|
        0 <= j < i && first_of_group(actions, j) && file_id(#[trigger] actions[j].entry) == file_id(
            actions[i].entry,
        ) && dest_ids[j] != dest_ids[i]
}

/// Forces an update wherever the destination does not repeat the source's
/// hardlink topology (see [`hardlink_forced`]). `dest_ids[i]` is the
/// destination identity of `actions[i]`'s path (`None` where it has none).
pub fn enforce_hardlink_actions(
    actions: &mut Vec<PlannedAction>,
    dest_ids: &Vec<Option<(u64, u64)>>,
)
    requires
        dest_ids@.len() == old(actions)@.len(),
    ensures
        final(actions)@.len() == old(actions)@.len(),
        forall|i: int|
            0 <= i < old(actions)@.len() ==> (#[trigger] final(actions)@[i]).entry == old(
                actions,
            )@[i].entry && final(actions)@[i].action == if hardlink_forced(
                old(actions)@,
                dest_ids@,
                i,
            ) {
                Action::Update
            } else {
                old(actions)@[i].action
            },
{
    let ghost orig = actions@;
    let mut first: HashMap<u128, Option<(u64, u64)>> = HashMap::new();
    let mut i: usize = 0;
    while i < actions.len()
        invariant
            actions@.len() == orig.len(),
            dest_ids@.len() == orig.len(),
            i <= orig.len(),
            forall|t: int| 0 <= t < orig.len() ==> (#[trigger] actions@[t]).entry == orig[t].entry,
            forall|t: int| i <= t < orig.len() ==> (#[trigger] actions@[t]).action == orig[t].action,
            forall|t: int|
                0 <= t < i ==> (#[trigger] actions@[t]).action == if hardlink_forced(
                    orig,
                    dest_ids@,
                    t,
                ) {
                    Action::Update
                } else {
                    orig[t].action
                },
            forall|t: int|
                0 <= t < i && (#[trigger] orig[t]).entry.kind is File ==> first@.contains_key(
                    id_key(file_id(orig[t].entry)),
                ),
            forall|k: u128|
                #[trigger] first@.contains_key(k) ==> exists|j: int|
                    0 <= j < i && first_of_group(orig, j) && id_key(file_id(orig[j].entry)) == k
                        && first@[k] == dest_ids@[j],
        decreases orig.len() - i,
    {
        let is_file = actions[i].entry.is_file();
        if is_file {
            let key = key_of(actions[i].entry.dev, actions[i].entry.ino);
            let found = match first.get(&key) {
                Some(c) => Some(*c),
                None => None,
            };
            match found {
                Some(canonical) => {
                    let ghost j = choose|j: int|
                        0 <= j < i && first_of_group(orig, j) && id_key(file_id(orig[j].entry))
                            == key && first@[key] == dest_ids@[j];
                    proof {
                        lemma_id_key_injective(file_id(orig[j].entry), file_id(orig[i as int].entry));
                        assert(file_id(orig[j].entry) == file_id(orig[i as int].entry));
                    }
                    if dest_ids[i] != canonical {
                        actions[i].action = Action::Update;
                        proof {
                            assert(hardlink_forced(orig, dest_ids@, i as int));
                        }
                    } else {
                        proof {
                            assert forall|j2: int|
                                0 <= j2 < i && first_of_group(orig, j2) && file_id(
                                    #[trigger] orig[j2].entry,
                                ) == file_id(orig[i as int].entry) implies dest_ids@[j2]
                                == dest_ids@[i as int] by {
                                if j2 < j {
                                    assert(orig[j2].entry.kind is File);
                                } else if j < j2 {
                                    assert(orig[j].entry.kind is File);
                                }
                            }
                        }
                    }
                },
                None => {
                    proof {
                        assert forall|j2: int|
                            0 <= j2 < i && first_of_group(orig, j2) && file_id(
                                #[trigger] orig[j2].entry,
                            ) == file_id(orig[i as int].entry) implies false by {
                            assert(orig[j2].entry.kind is File);
                            assert(first@.contains_key(id_key(file_id(orig[j2].entry))));
                        }
                        assert(first_of_group(orig, i as int)) by {
                            assert forall|t: int|
                                0 <= t < i && (#[trigger] orig[t]).entry.kind is File implies file_id(
                                    orig[t].entry,
                                ) != file_id(orig[i as int].entry) by {
                                assert(first@.contains_key(id_key(file_id(orig[t].entry))));
                            }
                        }
                    }
                    first.insert(key, dest_ids[i]);
                    proof {
                        assert forall|k: u128| #[trigger] first@.contains_key(k) implies exists|
                            j: int,
                        |
                            0 <= j < i + 1 && first_of_group(orig, j) && id_key(
                                file_id(orig[j].entry),
                            ) == k && first@[k] == dest_ids@[j] by {
                            if k == key {
                                assert(first_of_group(orig, i as int) && id_key(
                                    file_id(orig[i as int].entry),
                                ) == k && first@[k] == dest_ids@[i as int]);
                            }
                        }
                    }
                },
            }
        } else {
            proof {
                assert(!hardlink_forced(orig, dest_ids@, i as int));
            }
        }
        i += 1;
    }
}

// ---------------------------------------------------------------------------
// Building a plan from two walks
// ---------------------------------------------------------------------------

/// `rel` lies in the index directory at the root, which is never synced or
/// deleted.
pub open spec fn in_index_dir_spec(rel: Seq<char>) -> bool {
    components(RIPSYNC_DIR@).is_prefix_of(components(rel))
}

/// Whether `rel` lies in the index directory (see [`in_index_dir_spec`]).
pub fn in_index_dir(rel: &str) -> (r: bool)
    ensures
        r == in_index_dir_spec(rel@),
{
    path_starts_with(rel, RIPSYNC_DIR)
}

/// The entries of a walk outside the index directory, in order.
pub open spec fn outside_index(entries: Seq<Entry>) -> Seq<Entry>
    decreases entries.len(),
{
    if entries.len() == 0 {
        seq![]
    } else if in_index_dir_spec(entries.last().rel@) {
        outside_index(entries.drop_last())
    } else {
        outside_index(entries.drop_last()).push(entries.last())
    }
}

/// Drops the entries that lie in the index directory.
pub fn without_index_dir(entries: Vec<Entry>) -> (r: Vec<Entry>)
    ensures
        r@ == outside_index(entries@),
{
    let ghost all = entries@;
    let mut out: Vec<Entry> = Vec::new();
    proof {
        assert(all.take(0) =~= Seq::<Entry>::empty());
    }
    for e in it: entries
        invariant
            it.seq() == all,
            it.index() <= all.len(),
            out@ == outside_index(all.take(it.index() as int)),
    {
        proof {
            let k = it.index() as int;
            assert(all.take(k + 1).drop_last() =~= all.take(k));
            assert(all.take(k + 1).last() == all[k]);
        }
        if !in_index_dir(e.rel.as_str()) {
            out.push(e);
        }
    }
    proof {
        assert(all.take(all.len() as int) =~= all);
    }
    out
}

/// The empty-source guard: mirroring deletions from a source with no entries
/// would wipe the destination, so it is refused with [`Error::EmptySource`]
/// naming the source.
pub fn check_source(delete: bool, source_entries: usize, src: &str) -> (r: Result<(), Error>)
    ensures
        delete && source_entries == 0 ==> (r matches Err(Error::EmptySource(p)) && p@ == src@),
        !(delete && source_entries == 0) ==> r is Ok,
{
    if delete && source_entries == 0 {
        return Err(Error::EmptySource(src.to_owned()));
    }
    Ok(())
}

/// Whether a plan may come from the index instead of a destination walk:
/// only with the index on and without deletions (which need a live walk to
/// see entries created outside this program).
pub fn plans_from_index(opts: &PlanOptions) -> (r: bool)
    ensures
        r == (opts.index && !opts.delete),
{
    opts.index && !opts.delete
}

/// The action for each source entry: a copy when the destination walk has no
/// entry at its path, else the verdict of [`classify_existing_spec`].
/// `matches[i]` is the destination position with `src[i]`'s path and
/// `hashes[i]` the digests of the pair in checksum mode.
pub fn plan_actions(
    src: &Vec<Entry>,
    dst: &Vec<Entry>,
    matches: &Vec<Option<usize>>,
    hashes: &Vec<(Option<[u8; 32]>, Option<[u8; 32]>)>,
    checksum: bool,
) -> (r: Vec<PlannedAction>)
    requires
        matches@.len() == src@.len(),
        hashes@.len() == src@.len(),
        forall|i: int| 0 <= i < matches@.len() ==> (#[trigger] matches@[i] matches Some(j) ==> (j as int) < dst@.len()),
    ensures
        r@.len() == src@.len(),
        forall|i: int|
            0 <= i < src@.len() ==> (#[trigger] r@[i]).entry == src@[i] && r@[i].action == match matches@[i] {
                None => Action::Copy,
                Some(j) => classify_existing_spec(
                    src@[i],
                    dst@[j as int],
                    checksum,
                    hashes@[i].0,
                    hashes@[i].1,
                ),
            },
{
    let mut out: Vec<PlannedAction> = Vec::new();
    let mut i: usize = 0;
    while i < src.len()
        invariant
            matches@.len() == src@.len(),
            hashes@.len() == src@.len(),
            forall|t: int| 0 <= t < matches@.len() ==> (#[trigger] matches@[t] matches Some(j) ==> (j as int) < dst@.len()),
            i <= src@.len(),
            out@.len() == i,
            forall|t: int|
                0 <= t < i ==> (#[trigger] out@[t]).entry == src@[t] && out@[t].action == match matches@[t] {
                    None => Action::Copy,
                    Some(j) => classify_existing_spec(
                        src@[t],
                        dst@[j as int],
                        checksum,
                        hashes@[t].0,
                        hashes@[t].1,
                    ),
                },
        decreases src@.len() - i,
    {
        let action = match matches[i] {
            None => Action::Copy,
            Some(j) => {
                proof {
                    assert(matches@[i as int] matches Some(jj) ==> (jj as int) < dst@.len());
                }
                classify_existing(&src[i], &dst[j], checksum, hashes[i].0, hashes[i].1)
            },
        };
        out.push(PlannedAction { entry: src[i].duplicate(), action });
        i += 1;
    }
    out
}

/// The destination identity of each planned entry's path, from the
/// destination walk (`None` where the destination has no entry there).
pub fn destination_ids(dst: &Vec<Entry>, matches: &Vec<Option<usize>>) -> (ids: Vec<Option<(u64, u64)>>)
    requires
        forall|i: int| 0 <= i < matches@.len() ==> (#[trigger] matches@[i] matches Some(j) ==> (j as int) < dst@.len()),
    ensures
        ids@.len() == matches@.len(),
        forall|i: int|
            0 <= i < matches@.len() ==> #[trigger] ids@[i] == match matches@[i] {
                None => None,
                Some(j) => Some(file_id(dst@[j as int])),
            },
{
    let mut ids: Vec<Option<(u64, u64)>> = Vec::new();
    let mut i: usize = 0;
    while i < matches.len()
        invariant
            forall|t: int| 0 <= t < matches@.len() ==> (#[trigger] matches@[t] matches Some(j) ==> (j as int) < dst@.len()),
            i <= matches@.len(),
            ids@.len() == i,
            forall|t: int|
                0 <= t < i ==> #[trigger] ids@[t] == match matches@[t] {
                    None => None,
                    Some(j) => Some(file_id(dst@[j as int])),
                },
        decreases matches@.len() - i,
    {
        let id = match matches[i] {
            None => None,
            Some(j) => {
                proof {
                    assert(matches@[i as int] matches Some(jj) ==> (jj as int) < dst@.len());
                }
                Some((dst[j].dev, dst[j].ino))
            },
        };
        ids.push(id);
        i += 1;
    }
    ids
}

/// The standard ordering of two paths (see [`path_before`]).
pub fn compare_paths(a: &str, b: &str) -> (o: Ordering)
    ensures
        (o == Ordering::Less) == path_before(a@, b@),
        (o == Ordering::Greater) == path_before(b@, a@),
        (o == Ordering::Equal) == (components(a@) == components(b@)),
{
    proof {
        crate::paths::lemma_path_order(a@, b@, b@);
    }
    if path_less(a, b) {
        Ordering::Less
    } else if path_less(b, a) {
        Ordering::Greater
    } else {
        Ordering::Equal
    }
}

/// Sorts deletions deepest first with the standard library's stable
/// `sort_by`, comparing paths with [`compare_paths`] in reverse. Claims what
/// the standard library documents for a total order (which
/// [`crate::paths::lemma_path_order`] shows this is): the result is a
/// permutation of the input in which no deletion precedes one whose path
/// sorts after its own.
#[verifier::external_body]
pub(crate) fn sort_deepest_first(v: &mut Vec<Deletion>)
    ensures
        final(v)@.to_multiset() == old(v)@.to_multiset(),
        forall|i: int, j: int|
            0 <= i < j < final(v)@.len() ==> !path_before(
                #[trigger] final(v)@[i].rel@,
                #[trigger] final(v)@[j].rel@,
            ),
{
    v.sort_by(|a, b| compare_paths(b.rel.as_str(), a.rel.as_str()));
}

/// The destination entries that the source does not have, in walk order,
/// as deletions.
pub open spec fn deletions_spec(src_rels: Seq<String>, dst: Seq<Entry>) -> Seq<Deletion>
    decreases dst.len(),
{
    if dst.len() == 0 {
        seq![]
    } else {
        let prev = deletions_spec(src_rels, dst.drop_last());
        let e = dst.last();
        if last_with_path(src_rels, e.rel@, src_rels.len() as int) is None {
            prev.push(Deletion { rel: e.rel, is_dir: e.kind is Dir })
        } else {
            prev
        }
    }
}

/// The deletions that mirror the source: every destination entry whose path
/// the source lacks, deepest first.
pub fn plan_deletions(src_rels: &Vec<String>, dst: &Vec<Entry>) -> (r: Vec<Deletion>)
    ensures
        r@.to_multiset() == deletions_spec(src_rels@, dst@).to_multiset(),
        forall|i: int, j: int|
            0 <= i < j < r@.len() ==> !path_before(#[trigger] r@[i].rel@, #[trigger] r@[j].rel@),
{
    let dst_rels = crate::walk::rels_of(dst);
    let found = match_paths(src_rels, &dst_rels);
    let mut out: Vec<Deletion> = Vec::new();
    let mut i: usize = 0;
    proof {
        assert(dst@.take(0) =~= Seq::<Entry>::empty());
    }
    while i < dst.len()
        invariant
            found@.len() == dst@.len(),
            dst_rels@.len() == dst@.len(),
            forall|t: int| 0 <= t < dst@.len() ==> #[trigger] dst_rels@[t] == dst@[t].rel,
            forall|t: int|
                0 <= t < dst@.len() ==> match #[trigger] found@[t] {
                    Some(j) => last_with_path(src_rels@, dst_rels@[t]@, src_rels@.len() as int)
                        == Some(j as int),
                    None => last_with_path(src_rels@, dst_rels@[t]@, src_rels@.len() as int) is None,
                },
            i <= dst@.len(),
            out@ == deletions_spec(src_rels@, dst@.take(i as int)),
        decreases dst@.len() - i,
    {
        proof {
            let t = dst@.take(i + 1);
            assert(t.drop_last() =~= dst@.take(i as int));
            assert(t.last() == dst@[i as int]);
            assert(dst_rels@[i as int] == dst@[i as int].rel);
        }
        let missing = match found[i] {
            None => true,
            Some(_) => false,
        };
        if missing {
            out.push(Deletion { rel: dst[i].rel.clone(), is_dir: dst[i].is_dir() });
        }
        i += 1;
    }
    proof {
        assert(dst@.take(i as int) =~= dst@);
    }
    sort_deepest_first(&mut out);
    out
}

} // verus!
