//! Optional post-apply verification: each selected source entry is compared
//! with its destination counterpart, and what differs is reported.
//!
//! Reading metadata, hashing contents and listing extended attributes happen
//! outside; the comparison of what was read is here.

use std::collections::HashMap;

use vstd::prelude::*;

use crate::paths::{components, same_path};
use crate::plan::{file_id, id_key, key_of, lemma_id_key_injective};
use crate::walk::{Entry, EntryKind};

verus! {

broadcast use vstd::std_specs::hash::group_hash_axioms;

/// Verification scope.
#[derive(Debug, Clone, Copy, PartialEq, Eq, Structural)]
pub enum VerifyMode {
    /// Do not verify.
    Off,
    /// Verify entries changed by this run.
    Changed,
    /// Verify the complete source and destination trees.
    All,
}

impl Default for VerifyMode {
    fn default() -> (m: Self)
        ensures
            m == VerifyMode::Off,
    {
        VerifyMode::Off
    }
}

/// Which metadata the run preserves (and verification therefore checks).
#[derive(Debug, Clone, Copy, PartialEq, Eq, Structural)]
pub struct MetadataOptions {
    /// Preserve hardlink groups.
    pub hard_links: bool,
    /// Preserve sparse-file holes.
    pub sparse: bool,
    /// Preserve non-ACL extended attributes.
    pub xattrs: bool,
    /// Preserve POSIX ACL attributes.
    pub acls: bool,
    /// Preserve the numeric owner.
    pub owner: bool,
    /// Preserve the numeric group.
    pub group: bool,
}

/// One source/destination mismatch.
#[derive(Debug, Clone, PartialEq, Eq)]
pub struct VerificationMismatch {
    /// Relative path.
    pub rel: String,
    /// Human-readable mismatch category.
    pub detail: String,
}

/// Verification summary.
#[derive(Debug, Clone, PartialEq, Eq)]
pub struct VerificationSummary {
    /// Number of entries checked.
    pub checked: usize,
    /// Mismatch details.
    pub mismatches: Vec<VerificationMismatch>,
}

impl Default for VerificationSummary {
    fn default() -> (s: Self)
        ensures
            s.checked == 0,
            s.mismatches@.len() == 0,
    {
        VerificationSummary { checked: 0, mismatches: Vec::new() }
    }
}

/// The categories of mismatch, in the order they are checked.
#[derive(Debug, Clone, Copy, PartialEq, Eq, Structural)]
pub enum MismatchKind {
    /// The destination has no such entry.
    Missing,
    /// The entries are of different kinds.
    Kind,
    /// The permission bits differ.
    Mode,
    /// The modification times differ.
    Mtime,
    /// The owners differ (when preserved).
    Uid,
    /// The groups differ (when preserved).
    Gid,
    /// The file contents differ.
    Content,
    /// The sparse allocation differs (when preserved).
    Sparse,
    /// The symlink targets differ.
    SymlinkTarget,
    /// The selected extended attributes differ.
    Xattrs,
    /// A hardlinked file's destination is not linked with its group.
    HardlinkIdentity,
    /// The destination holds an entry the source does not.
    Extra,
}

/// The words that describe each mismatch category.
pub open spec fn detail_text(k: MismatchKind) -> Seq<char> {
    match k {
        MismatchKind::Missing => "missing from destination"@,
        MismatchKind::Kind => "file kind differs"@,
        MismatchKind::Mode => "mode differs"@,
        MismatchKind::Mtime => "mtime differs"@,
        MismatchKind::Uid => "uid differs"@,
        MismatchKind::Gid => "gid differs"@,
        MismatchKind::Content => "content differs"@,
        MismatchKind::Sparse => "sparse allocation differs"@,
        MismatchKind::SymlinkTarget => "symlink target differs"@,
        MismatchKind::Xattrs => "extended attributes differ"@,
        MismatchKind::HardlinkIdentity => "hardlink identity differs"@,
        MismatchKind::Extra => "extra destination entry"@,
    }
}

impl MismatchKind {
    /// The words that describe this mismatch.
    pub fn detail(self) -> (s: &'static str)
        ensures
            s@ == detail_text(self),
    {
        match self {
            MismatchKind::Missing => "missing from destination",
            MismatchKind::Kind => "file kind differs",
            MismatchKind::Mode => "mode differs",
            MismatchKind::Mtime => "mtime differs",
            MismatchKind::Uid => "uid differs",
            MismatchKind::Gid => "gid differs",
            MismatchKind::Content => "content differs",
            MismatchKind::Sparse => "sparse allocation differs",
            MismatchKind::SymlinkTarget => "symlink target differs",
            MismatchKind::Xattrs => "extended attributes differ",
            MismatchKind::HardlinkIdentity => "hardlink identity differs",
            MismatchKind::Extra => "extra destination entry",
        }
    }
}

/// A mismatch record for `rel`.
pub fn mismatch(rel: &str, kind: MismatchKind) -> (m: VerificationMismatch)
    ensures
        m.rel@ == rel@,
        m.detail@ == detail_text(kind),
{
    VerificationMismatch { rel: rel.to_owned(), detail: kind.detail().to_owned() }
}

/// What reading the two files showed, for the checks that need their
/// contents: the digests agree, the allocated block counts agree, and the
/// selected extended attributes agree.
#[derive(Debug, Clone, Copy, PartialEq, Eq, Structural)]
pub struct ContentProbe {
    /// The BLAKE3 digests of source and destination are equal.
    pub content_same: bool,
    /// The allocated block counts are equal.
    pub sparse_same: bool,
    /// The selected extended attributes are equal.
    pub xattrs_same: bool,
}

/// Both kinds are the same variant.
pub open spec fn same_kind(a: EntryKind, b: EntryKind) -> bool {
    ||| a is Dir && b is Dir
    ||| a is File && b is File
    ||| a is Symlink && b is Symlink
}

/// The first mismatch between a source entry and its destination, checked in
/// this order: missing, kind, permission bits, mtime, owner and group (when
/// preserved), then for files the length and content and (when preserved)
/// the sparse allocation, for symlinks the target, and last the extended
/// attributes (when preserved).
pub open spec fn compare_spec(
    source: Entry,
    destination: Option<Entry>,
    metadata: MetadataOptions,
    probe: ContentProbe,
) -> Option<MismatchKind> {
    match destination {
        None => Some(MismatchKind::Missing),
        Some(d) => if !same_kind(source.kind, d.kind) {
            Some(MismatchKind::Kind)
        } else if source.mode & 0o7777 != d.mode & 0o7777 {
            Some(MismatchKind::Mode)
        } else if source.mtime != d.mtime {
            Some(MismatchKind::Mtime)
        } else if metadata.owner && source.uid != d.uid {
            Some(MismatchKind::Uid)
        } else if metadata.group && source.gid != d.gid {
            Some(MismatchKind::Gid)
        } else if source.kind is File && (source.len != d.len || !probe.content_same) {
            Some(MismatchKind::Content)
        } else if source.kind is File && metadata.sparse && !probe.sparse_same {
            Some(MismatchKind::Sparse)
        } else if (source.kind matches EntryKind::Symlink(a) && d.kind matches EntryKind::Symlink(b)
            && components(a@) != components(b@)) {
            Some(MismatchKind::SymlinkTarget)
        } else if (metadata.xattrs || metadata.acls) && !probe.xattrs_same {
            Some(MismatchKind::Xattrs)
        } else {
            None
        },
    }
}

/// What verifying one entry must get right, stated on the two entries: a
/// missing destination is reported as such and only then; an entry passes
/// only when the destination has the same kind, permission bits and mtime
/// (seconds and nanoseconds), the preserved owner and group, for a file the
/// same length and content (and allocation, when sparse files are kept), for
/// a symlink the same target, and the preserved extended attributes; of two
/// entries of one kind with equal permission bits, a differing mtime is
/// reported as an mtime mismatch; and an entry equal in every respect passes.
pub open spec fn verification_law(
    source: Entry,
    destination: Option<Entry>,
    metadata: MetadataOptions,
    probe: ContentProbe,
    r: Option<MismatchKind>,
) -> bool {
    &&& (r == Some(MismatchKind::Missing) <==> destination is None)
    &&& r is None ==> {
        let d = destination->Some_0;
        &&& destination is Some
        &&& ((source.kind is Dir && d.kind is Dir) || (source.kind is File && d.kind is File) || (
            source.kind is Symlink && d.kind is Symlink))
        &&& source.mode & 0o7777 == d.mode & 0o7777
        &&& source.mtime.seconds == d.mtime.seconds
        &&& source.mtime.nanos == d.mtime.nanos
        &&& (metadata.owner ==> source.uid == d.uid)
        &&& (metadata.group ==> source.gid == d.gid)
        &&& (source.kind is File ==> source.len == d.len && probe.content_same)
        &&& (source.kind is File && metadata.sparse ==> probe.sparse_same)
        &&& (source.kind is Symlink ==> components(source.kind->Symlink_0@) == components(
            d.kind->Symlink_0@))
        &&& ((metadata.xattrs || metadata.acls) ==> probe.xattrs_same)
    }
    &&& (destination is Some && ((source.kind is Dir && destination->Some_0.kind is Dir) || (
        source.kind is File && destination->Some_0.kind is File) || (source.kind is Symlink
        && destination->Some_0.kind is Symlink)) && source.mode & 0o7777
        == destination->Some_0.mode & 0o7777 && (source.mtime.seconds
        != destination->Some_0.mtime.seconds || source.mtime.nanos
        != destination->Some_0.mtime.nanos)) ==> r == Some(MismatchKind::Mtime)
    &&& (destination is Some && destination->Some_0 == source && probe.content_same
        && probe.sparse_same && probe.xattrs_same) ==> r is None
}

/// Comparing two entries obeys [`verification_law`]: in particular a
/// destination whose mtime is off, even by whole seconds, never passes.
pub proof fn lemma_compare_law(
    source: Entry,
    destination: Option<Entry>,
    metadata: MetadataOptions,
    probe: ContentProbe,
)
    ensures
        verification_law(
            source,
            destination,
            metadata,
            probe,
            compare_spec(source, destination, metadata, probe),
        ),
{
}

/// Compares a source entry with its destination counterpart (see
/// [`compare_spec`]).
pub fn compare_entry(
    source: &Entry,
    destination: Option<&Entry>,
    metadata: &MetadataOptions,
    probe: &ContentProbe,
) -> (r: Option<MismatchKind>)
    ensures
        r == compare_spec(
            *source,
            match destination {
                Some(d) => Some(*d),
                None => None,
            },
            *metadata,
            *probe,
        ),
        verification_law(
            *source,
            match destination {
                Some(d) => Some(*d),
                None => None,
            },
            *metadata,
            *probe,
            r,
        ),
{
    proof {
        lemma_compare_law(
            *source,
            match destination {
                Some(d) => Some(*d),
                None => None,
            },
            *metadata,
            *probe,
        );
    }
    let d = match destination {
        None => {
            return Some(MismatchKind::Missing);
        },
        Some(d) => d,
    };
    let kinds_match = match (&source.kind, &d.kind) {
        (EntryKind::Dir, EntryKind::Dir) => true,
        (EntryKind::File, EntryKind::File) => true,
        (EntryKind::Symlink(_), EntryKind::Symlink(_)) => true,
        _ => false,
    };
    if !kinds_match {
        return Some(MismatchKind::Kind);
    }
    if source.mode & 0o7777 != d.mode & 0o7777 {
        return Some(MismatchKind::Mode);
    }
    if source.mtime.seconds != d.mtime.seconds || source.mtime.nanos != d.mtime.nanos {
        return Some(MismatchKind::Mtime);
    }
    if metadata.owner && source.uid != d.uid {
        return Some(MismatchKind::Uid);
    }
    if metadata.group && source.gid != d.gid {
        return Some(MismatchKind::Gid);
    }
    match (&source.kind, &d.kind) {
        (EntryKind::File, EntryKind::File) => {
            if source.len != d.len || !probe.content_same {
                return Some(MismatchKind::Content);
            }
            if metadata.sparse && !probe.sparse_same {
                return Some(MismatchKind::Sparse);
            }
        },
        (EntryKind::Symlink(a), EntryKind::Symlink(b)) => {
            if !same_path(a.as_str(), b.as_str()) {
                return Some(MismatchKind::SymlinkTarget);
            }
        },
        _ => {},
    }
    if (metadata.xattrs || metadata.acls) && !probe.xattrs_same {
        return Some(MismatchKind::Xattrs);
    }
    None
}

/// Which entries a verification of `mode` selects from the plan: changed
/// entries in `Changed` mode; in `All` mode the whole source walk is selected
/// instead and nothing from the plan.
pub fn selects_planned(mode: VerifyMode, action: crate::plan::Action) -> (r: bool)
    ensures
        r == (mode == VerifyMode::Changed && action != crate::plan::Action::Skip),
{
    match mode {
        VerifyMode::Changed => action != crate::plan::Action::Skip,
        _ => false,
    }
}

/// A source file whose destination exists takes part in the hardlink check.
pub open spec fn in_link_check(entries: Seq<Entry>, dest_ids: Seq<Option<(u64, u64)>>, i: int) -> bool {
    entries[i].kind is File && dest_ids[i] is Some
}

/// `entries[j]` is the first checked file of its source hardlink group.
pub open spec fn first_checked(entries: Seq<Entry>, dest_ids: Seq<Option<(u64, u64)>>, j: int) -> bool {
    &&& in_link_check(entries, dest_ids, j)
    &&& forall|t: int|
        0 <= t < j && #[trigger] in_link_check(entries, dest_ids, t) ==> file_id(entries[t])
            != file_id(entries[j])
}

/// Files that share a source identity must share a destination identity: the
/// checked file `entries[i]` is reported when the first checked member of its
/// group came earlier and landed on another destination identity.
pub open spec fn link_broken(entries: Seq<Entry>, dest_ids: Seq<Option<(u64, u64)>>, i: int) -> bool {
    &&& in_link_check(entries, dest_ids, i)
    &&& exists|j: int|
        0 <= j < i && first_checked(entries, dest_ids, j) && file_id(#[trigger] entries[j])
            == file_id(entries[i]) && dest_ids[j] != dest_ids[i]
}

/// The positions of the entries whose destination breaks their source
/// hardlink group (see [`link_broken`]), in order. `dest_ids[i]` is the
/// destination identity of `entries[i]` (`None` when the destination lacks it).
pub fn hardlink_mismatches(entries: &Vec<Entry>, dest_ids: &Vec<Option<(u64, u64)>>) -> (r: Vec<usize>)
    requires
        dest_ids@.len() == entries@.len(),
    ensures
        forall|k: int| 0 <= k < r@.len() ==> (r@[k] as int) < entries@.len(),
        forall|k1: int, k2: int| 0 <= k1 < k2 < r@.len() ==> r@[k1] < r@[k2],
        forall|i: int|
            0 <= i < entries@.len() ==> (link_broken(entries@, dest_ids@, i) <==> exists|k: int|
                0 <= k < r@.len() && r@[k] == i),
{
    let mut groups: HashMap<u128, Option<(u64, u64)>> = HashMap::new();
    let mut out: Vec<usize> = Vec::new();
    let mut i: usize = 0;
    while i < entries.len()
        invariant
            dest_ids@.len() == entries@.len(),
            i <= entries@.len(),
            forall|k: int| 0 <= k < out@.len() ==> (out@[k] as int) < i,
            forall|k1: int, k2: int| 0 <= k1 < k2 < out@.len() ==> out@[k1] < out@[k2],
            forall|t: int|
                0 <= t < i ==> (link_broken(entries@, dest_ids@, t) <==> exists|k: int|
                    0 <= k < out@.len() && out@[k] == t),
            forall|t: int|
                0 <= t < i && #[trigger] in_link_check(entries@, dest_ids@, t)
                    ==> groups@.contains_key(id_key(file_id(entries@[t]))),
            forall|key: u128|
                #[trigger] groups@.contains_key(key) ==> exists|j: int|
                    0 <= j < i && first_checked(entries@, dest_ids@, j) && id_key(
                        file_id(entries@[j]),
                    ) == key && groups@[key] == dest_ids@[j],
        decreases entries@.len() - i,
    {
        let e = &entries[i];
        let active = e.is_file() && dest_ids[i].is_some();
        let ghost before = out@;
        if active {
            let key = key_of(e.dev, e.ino);
            let found = match groups.get(&key) {
                Some(c) => Some(*c),
                None => None,
            };
            match found {
                Some(expected) => {
                    let ghost j = choose|j: int|
                        0 <= j < i && first_checked(entries@, dest_ids@, j) && id_key(
                            file_id(entries@[j]),
                        ) == key && groups@[key] == dest_ids@[j];
                    proof {
                        lemma_id_key_injective(file_id(entries@[j]), file_id(entries@[i as int]));
                    }
                    if dest_ids[i] != expected {
                        out.push(i);
                        proof {
                            assert(link_broken(entries@, dest_ids@, i as int));
                            assert(out@[out@.len() - 1] == i);
                        }
                    } else {
                        proof {
                            assert forall|j2: int|
                                0 <= j2 < i && first_checked(entries@, dest_ids@, j2) && file_id(
                                    #[trigger] entries@[j2],
                                ) == file_id(entries@[i as int]) implies dest_ids@[j2]
                                == dest_ids@[i as int] by {
                                if j2 < j {
                                    assert(in_link_check(entries@, dest_ids@, j2));
                                } else if j < j2 {
                                    assert(in_link_check(entries@, dest_ids@, j));
                                }
                            }
                            assert(!link_broken(entries@, dest_ids@, i as int));
                        }
                    }
                },
                None => {
                    proof {
                        assert(first_checked(entries@, dest_ids@, i as int)) by {
                            assert forall|t: int|
                                0 <= t < i && #[trigger] in_link_check(entries@, dest_ids@, t) implies file_id(
                                    entries@[t],
                                ) != file_id(entries@[i as int]) by {
                                assert(groups@.contains_key(id_key(file_id(entries@[t]))));
                            }
                        }
                        assert forall|j2: int|
                            0 <= j2 < i && first_checked(entries@, dest_ids@, j2) && file_id(
                                #[trigger] entries@[j2],
                            ) == file_id(entries@[i as int]) implies false by {
                            assert(in_link_check(entries@, dest_ids@, j2));
                            assert(groups@.contains_key(id_key(file_id(entries@[j2]))));
                        }
                        assert(!link_broken(entries@, dest_ids@, i as int));
                    }
                    groups.insert(key, dest_ids[i]);
                    proof {
                        assert forall|k: u128| #[trigger] groups@.contains_key(k) implies exists|
                            j: int,
                        |
                            0 <= j < i + 1 && first_checked(entries@, dest_ids@, j) && id_key(
                                file_id(entries@[j]),
                            ) == k && groups@[k] == dest_ids@[j] by {
                            if k == key {
                                assert(first_checked(entries@, dest_ids@, i as int) && id_key(
                                    file_id(entries@[i as int]),
                                ) == k && groups@[k] == dest_ids@[i as int]);
                            }
                        }
                    }
                },
            }
        } else {
            proof {
                assert(!link_broken(entries@, dest_ids@, i as int));
            }
        }
        proof {
            assert forall|t: int|
                0 <= t < i + 1 implies (link_broken(entries@, dest_ids@, t) <==> exists|k: int|
                    0 <= k < out@.len() && out@[k] == t) by {
                if t < i {
                    if exists|k: int| 0 <= k < before.len() && before[k] == t {
                        let k = choose|k: int| 0 <= k < before.len() && before[k] == t;
                        assert(out@[k] == t);
                    }
                    if exists|k: int| 0 <= k < out@.len() && out@[k] == t {
                        let k = choose|k: int| 0 <= k < out@.len() && out@[k] == t;
                        if k < before.len() {
                            assert(before[k] == t);
                        }
                    }
                } else {
                    if exists|k: int| 0 <= k < before.len() && before[k] == t {
                        let k = choose|k: int| 0 <= k < before.len() && before[k] == t;
                        assert(before[k] < i);
                    }
                    if out@.len() > before.len() {
                        assert(out@[before.len() as int] == i);
                    }
                }
            }
        }
        i += 1;
    }
    out
}

/// `t` is one of the positions in `s`.
pub open spec fn lists(s: Seq<usize>, t: int) -> bool {
    exists|k: int| 0 <= k < s.len() && s[k] == t
}

pub(crate) proof fn lemma_lists_push(s: Seq<usize>, i: usize)
    ensures
        forall|t: int| #[trigger] lists(s.push(i), t) <==> (lists(s, t) || t == i),
{
    assert forall|t: int| #[trigger] lists(s.push(i), t) <==> (lists(s, t) || t == i) by {
        if lists(s, t) {
            let k = choose|k: int| 0 <= k < s.len() && s[k] == t;
            assert(s.push(i)[k] == t);
        }
        if t == i {
            assert(s.push(i)[s.len() as int] == t);
        }
        if lists(s.push(i), t) {
            let k = choose|k: int| 0 <= k < s.push(i).len() && s.push(i)[k] == t;
            if k < s.len() {
                assert(s[k] == t);
            }
        }
    }
}

/// The positions of the planned actions a verification of `mode` checks (see
/// [`selects_planned`]), in plan order.
pub fn planned_selection(mode: VerifyMode, actions: &Vec<crate::plan::PlannedAction>) -> (r: Vec<usize>)
    ensures
        forall|k: int| 0 <= k < r@.len() ==> (r@[k] as int) < actions@.len(),
        forall|k1: int, k2: int| 0 <= k1 < k2 < r@.len() ==> r@[k1] < r@[k2],
        forall|i: int|
            0 <= i < actions@.len() ==> ((mode == VerifyMode::Changed && actions@[i].action
                != crate::plan::Action::Skip) <==> lists(r@, i)),
{
    let mut out: Vec<usize> = Vec::new();
    let mut i: usize = 0;
    while i < actions.len()
        invariant
            i <= actions@.len(),
            forall|k: int| 0 <= k < out@.len() ==> (out@[k] as int) < i,
            forall|k1: int, k2: int| 0 <= k1 < k2 < out@.len() ==> out@[k1] < out@[k2],
            forall|t: int|
                0 <= t < i ==> ((mode == VerifyMode::Changed && actions@[t].action
                    != crate::plan::Action::Skip) <==> #[trigger] lists(out@, t)),
        decreases actions@.len() - i,
    {
        proof {
            lemma_lists_push(out@, i);
            assert(!lists(out@, i as int));
        }
        if selects_planned(mode, actions[i].action) {
            out.push(i);
        }
        i += 1;
    }
    out
}

/// The positions of the destination entries the source lacks (`in_source[i]`
/// is where destination entry `i` lies in the source walk): each is reported
/// as an extra entry by a full verification.
pub fn extra_positions(in_source: &Vec<Option<usize>>) -> (r: Vec<usize>)
    ensures
        forall|k: int| 0 <= k < r@.len() ==> (r@[k] as int) < in_source@.len(),
        forall|k1: int, k2: int| 0 <= k1 < k2 < r@.len() ==> r@[k1] < r@[k2],
        forall|i: int| 0 <= i < in_source@.len() ==> (in_source@[i] is None <==> lists(r@, i)),
{
    let mut out: Vec<usize> = Vec::new();
    let mut i: usize = 0;
    while i < in_source.len()
        invariant
            i <= in_source@.len(),
            forall|k: int| 0 <= k < out@.len() ==> (out@[k] as int) < i,
            forall|k1: int, k2: int| 0 <= k1 < k2 < out@.len() ==> out@[k1] < out@[k2],
            forall|t: int| 0 <= t < i ==> (in_source@[t] is None <==> #[trigger] lists(out@, t)),
        decreases in_source@.len() - i,
    {
        proof {
            lemma_lists_push(out@, i);
            assert(!lists(out@, i as int));
        }
        if in_source[i].is_none() {
            out.push(i);
        }
        i += 1;
    }
    out
}

impl VerificationSummary {
    /// Counts one checked entry, recording its mismatch if it has one.
    pub fn note_checked(&mut self, rel: &str, found: Option<MismatchKind>)
        requires
            old(self).checked < usize::MAX,
        ensures
            final(self).checked == old(self).checked + 1,
            match found {
                Some(kind) => final(self).mismatches@.len() == old(self).mismatches@.len() + 1
                    && final(self).mismatches@.drop_last() == old(self).mismatches@
                    && final(self).mismatches@.last().rel@ == rel@
                    && final(self).mismatches@.last().detail@ == detail_text(kind),
                None => final(self).mismatches@ == old(self).mismatches@,
            },
    {
        self.checked = self.checked + 1;
        if let Some(kind) = found {
            self.note(rel, kind);
        }
    }

    /// Records a mismatch found outside the per-entry checks (a broken
    /// hardlink group, an extra destination entry).
    pub fn note(&mut self, rel: &str, kind: MismatchKind)
        ensures
            final(self).checked == old(self).checked,
            final(self).mismatches@.len() == old(self).mismatches@.len() + 1,
            final(self).mismatches@.drop_last() == old(self).mismatches@,
            final(self).mismatches@.last().rel@ == rel@,
            final(self).mismatches@.last().detail@ == detail_text(kind),
    {
        let m = mismatch(rel, kind);
        self.mismatches.push(m);
        proof {
            assert(self.mismatches@.drop_last() =~= old(self).mismatches@);
        }
    }
}

} // verus!
