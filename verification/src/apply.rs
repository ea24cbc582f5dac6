//! Executing a plan: atomic file copies, metadata preservation, contained
//! symlinks, and guarded deletes.
//!
//! Files are written to a temporary name in the destination directory, given
//! the source's mode and mtime, then atomically renamed over the target, so a
//! crash mid-copy never leaves a half-written file in place. The filesystem
//! work runs outside; the bookkeeping and the order of the work are here.

use std::collections::HashMap;

use vstd::prelude::*;

use crate::copy::{Backend, FsyncMode, ReflinkMode};
use crate::error::Error;
use crate::meta::{check_relative, escapes_root};
use crate::plan::{
    count_of, file_id, id_key, key_of, lemma_id_key_injective, transfer_total, Action, PlannedAction, SyncPlan,
};
use crate::report::Stats;
use crate::verify::MetadataOptions;
use crate::walk::EntryKind;

verus! {

/// Knobs controlling how a plan is applied.
#[derive(Debug, Clone, Copy, PartialEq, Eq, Structural)]
pub struct ApplyOptions {
    /// Plan only: emit events, change nothing on disk.
    pub dry_run: bool,
    /// Confirm destructive actions (required for deletions to happen).
    pub yes: bool,
    /// Whether deletions were requested (they only run with `yes` too).
    pub delete: bool,
    /// Worker threads for the parallel copy phase (0 means the default).
    pub threads: usize,
    /// Copy-on-write reflink strategy.
    pub reflink: ReflinkMode,
    /// Per-file fsync strategy.
    pub fsync: FsyncMode,
    /// File-copy backend.
    pub backend: Backend,
    /// Which metadata to preserve.
    pub metadata: MetadataOptions,
}

/// Deletions run only when requested and confirmed.
pub fn deletions_allowed(opts: &ApplyOptions) -> (r: bool)
    ensures
        r == (opts.delete && opts.yes),
{
    opts.delete && opts.yes
}

/// The action a directory creation counts as: an update when something was
/// already at its path, else a copy.
pub fn action_for_existing(exists: bool) -> (a: Action)
    ensures
        a == (if exists {
            Action::Update
        } else {
            Action::Copy
        }),
{
    if exists {
        Action::Update
    } else {
        Action::Copy
    }
}

/// How many of `actions` are files that will be copied or updated.
pub open spec fn files_to_transfer(actions: Seq<PlannedAction>) -> nat
    decreases actions.len(),
{
    if actions.len() == 0 {
        0
    } else {
        files_to_transfer(actions.drop_last()) + if actions.last().action != Action::Skip
            && actions.last().entry.kind is File {
            1nat
        } else {
            0nat
        }
    }
}

/// The number of files a plan copies or updates (announced before work
/// starts).
pub fn planned_files(plan: &SyncPlan) -> (n: usize)
    ensures
        n == files_to_transfer(plan.actions@),
{
    let mut n: usize = 0;
    let mut i: usize = 0;
    while i < plan.actions.len()
        invariant
            i <= plan.actions@.len(),
            n == files_to_transfer(plan.actions@.take(i as int)),
            n <= i,
        decreases plan.actions@.len() - i,
    {
        proof {
            assert(plan.actions@.take(i + 1).drop_last() =~= plan.actions@.take(i as int));
        }
        let pa = &plan.actions[i];
        if pa.action != Action::Skip && pa.entry.is_file() {
            n += 1;
        }
        i += 1;
    }
    proof {
        assert(plan.actions@.take(i as int) =~= plan.actions@);
    }
    n
}

impl Stats {
    /// Counts one entry under its action.
    pub fn bump_action(&mut self, action: Action)
        requires
            old(self).copied < u64::MAX,
            old(self).updated < u64::MAX,
            old(self).skipped < u64::MAX,
        ensures
            *final(self) == (match action {
                Action::Copy => Stats { copied: (old(self).copied + 1) as u64, ..*old(self) },
                Action::Update => Stats { updated: (old(self).updated + 1) as u64, ..*old(self) },
                Action::Skip => Stats { skipped: (old(self).skipped + 1) as u64, ..*old(self) },
            }),
    {
        match action {
            Action::Copy => self.copied = self.copied + 1,
            Action::Update => self.updated = self.updated + 1,
            Action::Skip => self.skipped = self.skipped + 1,
        }
    }
}

/// The tally of a dry run: every action counted under its kind, every
/// deletion counted, and the bytes of the files that would be transferred.
pub open spec fn dry_run_spec(plan: SyncPlan) -> Stats {
    Stats {
        copied: count_of(plan.actions@, Action::Copy) as u64,
        updated: count_of(plan.actions@, Action::Update) as u64,
        skipped: count_of(plan.actions@, Action::Skip) as u64,
        deleted: plan.deletions@.len() as u64,
        errors: 0,
        bytes: transfer_total(plan.actions@) as u64,
    }
}

proof fn lemma_counts_bounded(actions: Seq<PlannedAction>, a: Action)
    ensures
        count_of(actions, a) <= actions.len(),
    decreases actions.len(),
{
    if actions.len() > 0 {
        lemma_counts_bounded(actions.drop_last(), a);
    }
}

proof fn lemma_transfer_prefix(actions: Seq<PlannedAction>, i: int)
    requires
        0 <= i <= actions.len(),
    ensures
        transfer_total(actions.take(i)) <= transfer_total(actions),
    decreases actions.len() - i,
{
    if i < actions.len() {
        lemma_transfer_prefix(actions, i + 1);
        assert(actions.take(i + 1).drop_last() =~= actions.take(i));
    } else {
        assert(actions.take(i) =~= actions);
    }
}

/// The bookkeeping of a dry run: what applying the plan would count (see
/// [`dry_run_spec`]); nothing on disk changes.
pub fn dry_run_stats(plan: &SyncPlan) -> (s: Stats)
    requires
        transfer_total(plan.actions@) <= u64::MAX,
    ensures
        s == dry_run_spec(*plan),
{
    let mut s = Stats { copied: 0, updated: 0, skipped: 0, deleted: 0, errors: 0, bytes: 0 };
    let mut i: usize = 0;
    while i < plan.actions.len()
        invariant
            i <= plan.actions@.len(),
            transfer_total(plan.actions@) <= u64::MAX,
            s.copied == count_of(plan.actions@.take(i as int), Action::Copy),
            s.updated == count_of(plan.actions@.take(i as int), Action::Update),
            s.skipped == count_of(plan.actions@.take(i as int), Action::Skip),
            s.bytes == transfer_total(plan.actions@.take(i as int)),
            s.deleted == 0,
            s.errors == 0,
        decreases plan.actions@.len() - i,
    {
        let pa = &plan.actions[i];
        proof {
            let t = plan.actions@.take(i + 1);
            assert(t.drop_last() =~= plan.actions@.take(i as int));
            assert(t.last() == plan.actions@[i as int]);
            lemma_counts_bounded(plan.actions@.take(i as int), Action::Copy);
            lemma_counts_bounded(plan.actions@.take(i as int), Action::Update);
            lemma_counts_bounded(plan.actions@.take(i as int), Action::Skip);
            lemma_transfer_prefix(plan.actions@, i + 1);
        }
        s.bump_action(pa.action);
        if pa.action != Action::Skip && pa.entry.is_file() {
            s.bytes = s.bytes + pa.entry.len;
        }
        i += 1;
    }
    proof {
        assert(plan.actions@.take(i as int) =~= plan.actions@);
    }
    s.deleted = plan.deletions.len() as u64;
    s
}

/// The positions of a plan's actions grouped as they are applied: skipped
/// entries, directories, files and symlinks, each in plan order.
#[derive(Debug, Clone)]
pub struct Partition {
    /// Entries that are already up to date.
    pub skipped: Vec<usize>,
    /// Directories to create, parents first.
    pub dirs: Vec<usize>,
    /// Files to copy or update.
    pub files: Vec<usize>,
    /// Symlinks to create or replace.
    pub symlinks: Vec<usize>,
}

/// The grouping of `actions` (see [`Partition`]).
pub open spec fn partition_spec(actions: Seq<PlannedAction>) -> (
    Seq<usize>,
    Seq<usize>,
    Seq<usize>,
    Seq<usize>,
)
    decreases actions.len(),
{
    if actions.len() == 0 {
        (seq![], seq![], seq![], seq![])
    } else {
        let (s, d, f, l) = partition_spec(actions.drop_last());
        let i = (actions.len() - 1) as usize;
        let pa = actions.last();
        if pa.action == Action::Skip {
            (s.push(i), d, f, l)
        } else {
            match pa.entry.kind {
                EntryKind::Dir => (s, d.push(i), f, l),
                EntryKind::File => (s, d, f.push(i), l),
                EntryKind::Symlink(_) => (s, d, f, l.push(i)),
            }
        }
    }
}

/// The first entry to be written whose path would escape the destination.
pub open spec fn first_escape(actions: Seq<PlannedAction>) -> Option<int>
    decreases actions.len(),
{
    if actions.len() == 0 {
        None
    } else {
        match first_escape(actions.drop_last()) {
            Some(i) => Some(i),
            None => if actions.last().action != Action::Skip && escapes_root(
                actions.last().entry.rel@,
            ) {
                Some(actions.len() - 1)
            } else {
                None
            },
        }
    }
}

/// Groups a plan's actions for applying (see [`partition_spec`]); before any
/// work, every entry to be written is checked to stay inside the destination,
/// and the first that would escape fails the apply with
/// [`Error::Containment`] naming it.
pub fn partition(plan: &SyncPlan) -> (r: Result<Partition, Error>)
    requires
        plan.actions@.len() <= usize::MAX,
    ensures
        match first_escape(plan.actions@) {
            None => r matches Ok(p) && {
                let (s, d, f, l) = partition_spec(plan.actions@);
                p.skipped@ == s && p.dirs@ == d && p.files@ == f && p.symlinks@ == l
            },
            Some(i) => r matches Err(Error::Containment(q)) && q@ == plan.actions@[i].entry.rel@,
        },
{
    let mut skipped: Vec<usize> = Vec::new();
    let mut dirs: Vec<usize> = Vec::new();
    let mut files: Vec<usize> = Vec::new();
    let mut symlinks: Vec<usize> = Vec::new();
    let mut i: usize = 0;
    proof {
        assert(plan.actions@.take(0) =~= Seq::<PlannedAction>::empty());
    }
    while i < plan.actions.len()
        invariant
            i <= plan.actions@.len(),
            first_escape(plan.actions@.take(i as int)) is None,
            ({
                let (s, d, f, l) = partition_spec(plan.actions@.take(i as int));
                skipped@ == s && dirs@ == d && files@ == f && symlinks@ == l
            }),
        decreases plan.actions@.len() - i,
    {
        let pa = &plan.actions[i];
        proof {
            let t = plan.actions@.take(i + 1);
            assert(t.drop_last() =~= plan.actions@.take(i as int));
            assert(t.last() == plan.actions@[i as int]);
        }
        if pa.action == Action::Skip {
            skipped.push(i);
        } else {
            match check_relative(pa.entry.rel.as_str()) {
                Err(e) => {
                    proof {
                        lemma_first_escape_prefix(plan.actions@, i + 1);
                    }
                    return Err(e);
                },
                Ok(()) => {},
            }
            match &pa.entry.kind {
                EntryKind::Dir => dirs.push(i),
                EntryKind::File => files.push(i),
                EntryKind::Symlink(_) => symlinks.push(i),
            }
        }
        i += 1;
    }
    proof {
        assert(plan.actions@.take(i as int) =~= plan.actions@);
    }
    Ok(Partition { skipped, dirs, files, symlinks })
}

proof fn lemma_first_escape_prefix(actions: Seq<PlannedAction>, k: int)
    requires
        0 <= k <= actions.len(),
        first_escape(actions.take(k)) is Some,
    ensures
        first_escape(actions) == first_escape(actions.take(k)),
    decreases actions.len() - k,
{
    if k < actions.len() {
        assert(actions.take(k + 1).drop_last() =~= actions.take(k));
        lemma_first_escape_prefix(actions, k + 1);
    } else {
        assert(actions.take(k) =~= actions);
    }
}

/// The source identity of the file `actions[i]` copies.
pub open spec fn source_id(actions: Seq<PlannedAction>, i: usize) -> (u64, u64) {
    file_id(actions[i as int].entry)
}

/// The first of the first `n` files (positions into `files`) with source
/// identity `id`, if any.
pub open spec fn first_with_id(
    actions: Seq<PlannedAction>,
    files: Seq<usize>,
    id: (u64, u64),
    n: int,
) -> Option<int>
    decreases n,
{
    if n <= 0 {
        None
    } else {
        match first_with_id(actions, files, id, n - 1) {
            Some(p) => Some(p),
            None => if source_id(actions, files[n - 1]) == id {
                Some(n - 1)
            } else {
                None
            },
        }
    }
}

/// How the first `n` files are copied: with hard links preserved, the first
/// file of each source inode (its group's leader) is copied and each later
/// one is linked to it, as `(file, leader)`; otherwise every file is copied.
pub open spec fn link_split(
    actions: Seq<PlannedAction>,
    files: Seq<usize>,
    hard_links: bool,
    n: int,
) -> (Seq<usize>, Seq<(usize, usize)>)
    decreases n,
{
    if n <= 0 {
        (Seq::empty(), Seq::empty())
    } else {
        let (leaders, followers) = link_split(actions, files, hard_links, n - 1);
        let i = files[n - 1];
        match first_with_id(actions, files, source_id(actions, i), n - 1) {
            Some(p) => if hard_links {
                (leaders, followers.push((i, files[p])))
            } else {
                (leaders.push(i), followers)
            },
            None => (leaders.push(i), followers),
        }
    }
}

/// Splits the files of a plan (positions into `actions`, in order) into
/// those to copy and those to hard-link to an earlier copy of the same
/// source inode (see [`link_split`]).
pub fn hardlink_groups(actions: &Vec<PlannedAction>, files: &Vec<usize>, hard_links: bool) -> (r: (
    Vec<usize>,
    Vec<(usize, usize)>,
))
    requires
        forall|k: int| 0 <= k < files@.len() ==> #[trigger] files@[k] < actions@.len(),
    ensures
        (r.0@, r.1@) == link_split(actions@, files@, hard_links, files@.len() as int),
{
    let ghost acts = actions@;
    let ghost fs = files@;
    let mut leaders: Vec<usize> = Vec::new();
    let mut followers: Vec<(usize, usize)> = Vec::new();
    let mut first: HashMap<u128, usize> = HashMap::new();
    let mut j: usize = 0;
    while j < files.len()
        invariant
            acts == actions@,
            fs == files@,
            j <= fs.len(),
            forall|k: int| 0 <= k < fs.len() ==> #[trigger] fs[k] < acts.len(),
            (leaders@, followers@) == link_split(acts, fs, hard_links, j as int),
            forall|key: u128|
                #[trigger] first@.contains_key(key) ==> exists|p: int|
                    0 <= p < j && id_key(source_id(acts, fs[p])) == key && first_with_id(
                        acts,
                        fs,
                        source_id(acts, fs[p]),
                        j as int,
                    ) == Some(p) && first@[key] == fs[p],
            hard_links ==> forall|p: int|
                0 <= p < j ==> first@.contains_key(#[trigger] id_key(source_id(acts, fs[p]))),
        decreases fs.len() - j,
    {
        let i = files[j];
        let key = key_of(actions[i].entry.dev, actions[i].entry.ino);
        let ghost id = source_id(acts, i);
        let found = if hard_links {
            match first.get(&key) {
                Some(l) => Some(*l),
                None => None,
            }
        } else {
            None
        };
        proof {
            assert(key == id_key(id));
        }
        match found {
            Some(leader) => {
                let ghost p = choose|p: int|
                    0 <= p < j && id_key(source_id(acts, fs[p])) == key && first_with_id(
                        acts,
                        fs,
                        source_id(acts, fs[p]),
                        j as int,
                    ) == Some(p) && first@[key] == fs[p];
                proof {
                    lemma_id_key_injective(source_id(acts, fs[p]), id);
                    assert(first_with_id(acts, fs, id, j as int) == Some(p));
                }
                followers.push((i, leader));
            },
            None => {
                proof {
                    if first_with_id(acts, fs, id, j as int) is Some {
                        lemma_first_with_id_found(acts, fs, id, j as int);
                        let p = first_with_id(acts, fs, id, j as int)->Some_0;
                        if hard_links {
                            assert(first@.contains_key(id_key(source_id(acts, fs[p]))));
                        }
                    }
                }
                leaders.push(i);
            },
        }
        let ghost before = first@;
        if hard_links && found.is_none() {
            first.insert(key, i);
        }
        proof {
            assert forall|key2: u128| #[trigger] first@.contains_key(key2) implies exists|p: int|
                0 <= p < j + 1 && id_key(source_id(acts, fs[p])) == key2 && first_with_id(
                    acts,
                    fs,
                    source_id(acts, fs[p]),
                    j + 1,
                ) == Some(p) && first@[key2] == fs[p] by {
                if before.contains_key(key2) {
                    let p = choose|p: int|
                        0 <= p < j && id_key(source_id(acts, fs[p])) == key2 && first_with_id(
                            acts,
                            fs,
                            source_id(acts, fs[p]),
                            j as int,
                        ) == Some(p) && before[key2] == fs[p];
                    assert(first_with_id(acts, fs, source_id(acts, fs[p]), j + 1) == Some(p));
                } else {
                    assert(key2 == key);
                    assert(first_with_id(acts, fs, id, j + 1) == Some(j as int));
                }
            }
            if hard_links {
                assert forall|p: int| 0 <= p < j + 1 implies first@.contains_key(
                    #[trigger] id_key(source_id(acts, fs[p])),
                ) by {
                    if p < j {
                        assert(before.contains_key(id_key(source_id(acts, fs[p]))));
                    }
                }
            }
        }
        j += 1;
    }
    proof {
        assert(fs.len() == j);
    }
    (leaders, followers)
}

proof fn lemma_first_with_id_found(
    actions: Seq<PlannedAction>,
    files: Seq<usize>,
    id: (u64, u64),
    n: int,
)
    requires
        first_with_id(actions, files, id, n) is Some,
    ensures
        0 <= first_with_id(actions, files, id, n)->Some_0 < n,
        source_id(actions, files[first_with_id(actions, files, id, n)->Some_0]) == id,
    decreases n,
{
    if n > 0 && first_with_id(actions, files, id, n - 1) is Some {
        lemma_first_with_id_found(actions, files, id, n - 1);
    }
}

} // verus!
