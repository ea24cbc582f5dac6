//! The persistent destination index: a snapshot of recorded entries plus an
//! append-only journal of changes.
//!
//! A journal is a sequence of records, each
//!
//! ```text
//! length (u32, little endian) | BLAKE3 digest of the payload (32 bytes) | payload
//! ```
//!
//! Replay stops at the first record that is incomplete or whose digest does
//! not match, so a torn tail left by a crash is ignored rather than trusted.

use std::collections::HashMap;

use vstd::bytes::{
    lemma_auto_spec_u32_to_from_le_bytes, spec_u32_from_le_bytes, spec_u32_to_le_bytes,
    u32_from_le_bytes, u32_to_le_bytes,
};
use vstd::prelude::*;
use vstd::slice::{slice_subrange, slice_to_vec};

use crate::checksum::{blake3_digest, blake3_hash};
use crate::error::Error;
use crate::meta::{FileTypeKind, MinMeta};
use crate::paths::{components, join, path_join, same_path};
use crate::pathset::{hash_path, path_hash};
use crate::plan::Action;
use crate::verify::{lemma_lists_push, lists};
use crate::text::same_bytes;
use crate::walk::{Entry, EntryKind};

verus! {

/// Directory under the destination root that holds the index.
pub const RIPSYNC_DIR: &'static str = ".ripsync";

/// Snapshot file name within [`RIPSYNC_DIR`].
pub const MANIFEST_FILE: &'static str = "manifest.bin";

/// Journal file name within [`RIPSYNC_DIR`].
pub const JOURNAL_FILE: &'static str = "manifest.journal";

/// The snapshot format version this library reads and writes.
pub const FORMAT_VERSION: u32 = 3;

/// A journal larger than this (64 MiB) is folded into a new snapshot.
pub const COMPACT_BYTES: u64 = 67108864;

/// Length of a journal record's header: the length field and the digest.
pub const RECORD_HEADER: usize = 36;

/// Path of the snapshot under `dst`.
pub fn manifest_path(dst: &str) -> (p: String)
    ensures
        p@ == path_join(path_join(dst@, RIPSYNC_DIR@), MANIFEST_FILE@),
{
    let dir = join(dst, RIPSYNC_DIR);
    join(dir.as_str(), MANIFEST_FILE)
}

/// Path of the append-only journal under `dst`.
pub fn journal_path(dst: &str) -> (p: String)
    ensures
        p@ == path_join(path_join(dst@, RIPSYNC_DIR@), JOURNAL_FILE@),
{
    let dir = join(dst, RIPSYNC_DIR);
    join(dir.as_str(), JOURNAL_FILE)
}

/// Whether a snapshot of `version` can be used (older formats are rebuilt).
pub fn accepts_version(version: u32) -> (r: bool)
    ensures
        r == (version == FORMAT_VERSION),
{
    version == FORMAT_VERSION
}

/// Whether the journal should be folded into a fresh snapshot: when it
/// exceeds [`COMPACT_BYTES`], or a tenth of a non-empty snapshot.
pub fn needs_compaction(journal_len: u64, snapshot_len: u64) -> (r: bool)
    ensures
        r == (journal_len > COMPACT_BYTES || (snapshot_len > 0 && journal_len > snapshot_len / 10)),
{
    journal_len > COMPACT_BYTES || (snapshot_len > 0 && journal_len > snapshot_len / 10)
}

// ---------------------------------------------------------------------------
// Journal records
// ---------------------------------------------------------------------------

/// The bytes of one journal record carrying `payload`.
pub open spec fn record_bytes(payload: Seq<u8>) -> Seq<u8> {
    spec_u32_to_le_bytes(payload.len() as u32) + blake3_digest(payload)@ + payload
}

/// The bytes of a journal holding `payloads`, in order.
pub open spec fn journal_bytes(payloads: Seq<Seq<u8>>) -> Seq<u8>
    decreases payloads.len(),
{
    if payloads.len() == 0 {
        seq![]
    } else {
        record_bytes(payloads[0]) + journal_bytes(payloads.drop_first())
    }
}

/// The payloads of the complete, intact records at the start of `journal`:
/// reading stops at the first record that is cut short or whose digest does
/// not match its payload.
pub open spec fn journal_payloads(journal: Seq<u8>) -> Seq<Seq<u8>>
    decreases journal.len(),
{
    if journal.len() < 36 {
        seq![]
    } else {
        let n = spec_u32_from_le_bytes(journal.take(4)) as int;
        if journal.len() - 36 < n {
            seq![]
        } else {
            let payload = journal.subrange(36, 36 + n);
            if journal.subrange(4, 36) != blake3_digest(payload)@ {
                seq![]
            } else {
                seq![payload] + journal_payloads(journal.skip(36 + n))
            }
        }
    }
}

/// Every payload fits the record's 32-bit length field.
pub open spec fn payloads_fit(payloads: Seq<Seq<u8>>) -> bool {
    forall|i: int| 0 <= i < payloads.len() ==> #[trigger] payloads[i].len() <= u32::MAX
}

/// The byte views of a list of payload vectors.
pub open spec fn payload_views(v: Seq<Vec<u8>>) -> Seq<Seq<u8>> {
    v.map_values(|p: Vec<u8>| p@)
}

/// Encodes one journal record. Fails with [`Error::Pattern`] when the payload
/// does not fit the 32-bit length field.
pub fn encode_record(payload: &[u8]) -> (r: Result<Vec<u8>, Error>)
    ensures
        payload@.len() <= u32::MAX ==> (r matches Ok(b) && b@ == record_bytes(payload@)),
        payload@.len() > u32::MAX ==> r matches Err(Error::Pattern(_)),
{
    if payload.len() > 0xffff_ffffusize {
        return Err(Error::Pattern("manifest journal record too large".to_owned()));
    }
    let n = payload.len() as u32;
    let mut out = u32_to_le_bytes(n);
    let digest = blake3_hash(payload);
    let mut d = slice_to_vec(&digest);
    let mut p = slice_to_vec(payload);
    out.append(&mut d);
    out.append(&mut p);
    proof {
        assert(out@ =~= record_bytes(payload@));
    }
    Ok(out)
}

/// Reading a journal made of whole records followed by any `tail` gives the
/// records' payloads and then whatever `tail` itself holds.
pub proof fn lemma_journal_prefix(payloads: Seq<Seq<u8>>, tail: Seq<u8>)
    requires
        payloads_fit(payloads),
    ensures
        journal_payloads(journal_bytes(payloads) + tail) == payloads + journal_payloads(tail),
    decreases payloads.len(),
{
    if payloads.len() == 0 {
        assert(journal_bytes(payloads) + tail =~= tail);
        assert(payloads + journal_payloads(tail) =~= journal_payloads(tail));
    } else {
        let p = payloads[0];
        let rest = payloads.drop_first();
        assert(payloads_fit(rest)) by {
            assert forall|i: int| 0 <= i < rest.len() implies #[trigger] rest[i].len()
                <= u32::MAX by {
                assert(rest[i] == payloads[i + 1]);
            }
        }
        lemma_journal_prefix(rest, tail);
        lemma_auto_spec_u32_to_from_le_bytes();
        let b = journal_bytes(payloads) + tail;
        let len_bytes = spec_u32_to_le_bytes(p.len() as u32);
        assert(len_bytes.len() == 4);
        assert(b =~= len_bytes + blake3_digest(p)@ + p + (journal_bytes(rest) + tail));
        assert(b.take(4) =~= len_bytes);
        assert(spec_u32_from_le_bytes(b.take(4)) == p.len() as u32);
        let n = p.len() as int;
        assert(b.subrange(36, 36 + n) =~= p);
        assert(b.subrange(4, 36) =~= blake3_digest(p)@);
        assert(b.skip(36 + n) =~= journal_bytes(rest) + tail);
        assert(seq![p] + (rest + journal_payloads(tail)) =~= payloads + journal_payloads(tail));
    }
}

/// A journal written as whole records reads back as exactly those payloads.
pub proof fn lemma_journal_roundtrip(payloads: Seq<Seq<u8>>)
    requires
        payloads_fit(payloads),
    ensures
        journal_payloads(journal_bytes(payloads)) == payloads,
{
    lemma_journal_prefix(payloads, seq![]);
    assert(journal_bytes(payloads) + seq![] =~= journal_bytes(payloads));
    assert(payloads + journal_payloads(seq![]) =~= payloads);
}

/// An incomplete record at the end of a journal (a torn write) is ignored:
/// the records before it still read back in full.
pub proof fn lemma_torn_tail_ignored(payloads: Seq<Seq<u8>>, tail: Seq<u8>)
    requires
        payloads_fit(payloads),
        tail.len() < 36 || tail.len() - 36 < spec_u32_from_le_bytes(tail.take(4)),
    ensures
        journal_payloads(journal_bytes(payloads) + tail) == payloads,
{
    lemma_journal_prefix(payloads, tail);
    assert(journal_payloads(tail) =~= Seq::<Seq<u8>>::empty());
    assert(payloads + journal_payloads(tail) =~= payloads);
}

/// Splits a journal into the payloads of its complete, intact records (see
/// [`journal_payloads`]).
pub fn parse_journal(journal: &[u8]) -> (payloads: Vec<Vec<u8>>)
    ensures
        payload_views(payloads@) == journal_payloads(journal@),
{
    let mut out: Vec<Vec<u8>> = Vec::new();
    let mut pos: usize = 0;
    let len = journal.len();
    proof {
        assert(journal@.skip(0) =~= journal@);
        assert(payload_views(out@) =~= Seq::<Seq<u8>>::empty());
        assert(payload_views(out@) + journal_payloads(journal@) =~= journal_payloads(journal@));
    }
    loop
        invariant
            len == journal@.len(),
            pos <= len,
            payload_views(out@) + journal_payloads(journal@.skip(pos as int)) == journal_payloads(
                journal@,
            ),
        ensures
            payload_views(out@) == journal_payloads(journal@),
        decreases len - pos,
    {
        let ghost rest = journal@.skip(pos as int);
        if len - pos < RECORD_HEADER {
            proof {
                assert(journal_payloads(rest) =~= Seq::<Seq<u8>>::empty());
                assert(payload_views(out@) + journal_payloads(rest) =~= payload_views(out@));
            }
            break;
        }
        let n = u32_from_le_bytes(slice_subrange(journal, pos, pos + 4)) as usize;
        proof {
            assert(journal@.subrange(pos as int, pos + 4) =~= rest.take(4));
        }
        if len - pos - RECORD_HEADER < n {
            proof {
                assert(journal_payloads(rest) =~= Seq::<Seq<u8>>::empty());
                assert(payload_views(out@) + journal_payloads(rest) =~= payload_views(out@));
            }
            break;
        }
        let start = pos + RECORD_HEADER;
        let payload = slice_subrange(journal, start, start + n);
        let digest = blake3_hash(payload);
        let expected = slice_subrange(journal, pos + 4, start);
        proof {
            assert(payload@ =~= rest.subrange(36, 36 + n));
            assert(expected@ =~= rest.subrange(4, 36));
        }
        if !same_bytes(&digest, expected) {
            proof {
                assert(journal_payloads(rest) =~= Seq::<Seq<u8>>::empty());
                assert(payload_views(out@) + journal_payloads(rest) =~= payload_views(out@));
            }
            break;
        }
        let ghost before = payload_views(out@);
        out.push(slice_to_vec(payload));
        proof {
            assert(rest.skip(36 + n) =~= journal@.skip(start + n));
            assert(payload_views(out@) =~= before.push(payload@));
            assert(journal_payloads(rest) == seq![payload@] + journal_payloads(rest.skip(36 + n)));
            assert(payload_views(out@) + journal_payloads(journal@.skip(start + n)) =~= before
                + journal_payloads(rest));
        }
        pos = start + n;
    }
    out
}

// ---------------------------------------------------------------------------
// Recorded entries
// ---------------------------------------------------------------------------

/// Recorded entry kind.
#[derive(Debug, Clone, Copy, PartialEq, Eq, Structural)]
pub enum Kind {
    /// Regular file.
    File,
    /// Directory.
    Dir,
    /// Symbolic link.
    Symlink,
}

/// One recorded destination entry.
#[derive(Debug, Clone, PartialEq, Eq)]
pub struct ManifestEntry {
    /// Entry kind.
    pub kind: Kind,
    /// File length in bytes.
    pub size: u64,
    /// Modification time, whole seconds.
    pub mtime_s: i64,
    /// Modification time, nanosecond part.
    pub mtime_ns: u32,
    /// Destination inode number.
    pub ino: u64,
    /// Destination device id.
    pub dev: u64,
    /// Permission and type bits.
    pub mode: u32,
    /// BLAKE3 digest of the content, when recorded in checksum mode.
    pub hash: Option<[u8; 32]>,
    /// Symlink target.
    pub target: Option<String>,
}

/// One change recorded in the journal.
#[derive(Debug, Clone)]
pub enum ManifestDelta {
    /// The entry at this path was created or changed.
    Upsert(String, ManifestEntry),
    /// The entry at this path was removed.
    Delete(String),
}

/// The index's key for a relative path: its components, so that paths that
/// the standard library considers equal share one record.
pub open spec fn path_key(rel: Seq<char>) -> Seq<Seq<char>> {
    components(rel)
}

/// The map that a list of records describes (a later record for a key
/// replaces an earlier one).
pub open spec fn records_map(s: Seq<(String, ManifestEntry)>) -> Map<Seq<Seq<char>>, ManifestEntry>
    decreases s.len(),
{
    if s.len() == 0 {
        Map::empty()
    } else {
        records_map(s.drop_last()).insert(path_key(s.last().0@), s.last().1)
    }
}

/// No two records share a key.
pub open spec fn keys_unique(s: Seq<(String, ManifestEntry)>) -> bool {
    forall|i: int, j: int|
        0 <= i < j < s.len() ==> path_key(#[trigger] s[i].0@) != path_key(#[trigger] s[j].0@)
}

/// The value of `m` at `k`, if any.
pub open spec fn lookup<K, V>(m: Map<K, V>, k: K) -> Option<V> {
    if m.dom().contains(k) {
        Some(m[k])
    } else {
        None
    }
}

proof fn lemma_records_dom(s: Seq<(String, ManifestEntry)>, k: Seq<Seq<char>>)
    ensures
        records_map(s).dom().contains(k) <==> exists|i: int|
            0 <= i < s.len() && path_key(#[trigger] s[i].0@) == k,
    decreases s.len(),
{
    if s.len() > 0 {
        lemma_records_dom(s.drop_last(), k);
        if records_map(s).dom().contains(k) && path_key(s.last().0@) != k {
            let i = choose|i: int| 0 <= i < s.len() - 1 && path_key(#[trigger] s.drop_last()[i].0@) == k;
            assert(s[i] == s.drop_last()[i]);
        }
        if exists|i: int| 0 <= i < s.len() && path_key(#[trigger] s[i].0@) == k {
            let i = choose|i: int| 0 <= i < s.len() && path_key(#[trigger] s[i].0@) == k;
            if i < s.len() - 1 {
                assert(s.drop_last()[i] == s[i]);
            }
        }
    }
}

proof fn lemma_records_at(s: Seq<(String, ManifestEntry)>, i: int)
    requires
        keys_unique(s),
        0 <= i < s.len(),
    ensures
        records_map(s).dom().contains(path_key(s[i].0@)),
        records_map(s)[path_key(s[i].0@)] == s[i].1,
    decreases s.len(),
{
    if i < s.len() - 1 {
        let p = s.drop_last();
        assert(p[i] == s[i]);
        assert(keys_unique(p)) by {
            assert forall|a: int, b: int| 0 <= a < b < p.len() implies path_key(#[trigger] p[a].0@)
                != path_key(#[trigger] p[b].0@) by {
                assert(p[a] == s[a] && p[b] == s[b]);
            }
        }
        lemma_records_at(p, i);
        assert(path_key(s[i].0@) != path_key(s[s.len() - 1].0@));
    }
}

proof fn lemma_records_remove(s: Seq<(String, ManifestEntry)>, i: int)
    requires
        keys_unique(s),
        0 <= i < s.len(),
    ensures
        records_map(s.remove(i)) == records_map(s).remove(path_key(s[i].0@)),
        keys_unique(s.remove(i)),
    decreases s.len(),
{
    let k = path_key(s[i].0@);
    let r = s.remove(i);
    assert(keys_unique(r)) by {
        assert forall|a: int, b: int| 0 <= a < b < r.len() implies path_key(#[trigger] r[a].0@)
            != path_key(#[trigger] r[b].0@) by {
            let sa = if a < i { a } else { a + 1 };
            let sb = if b < i { b } else { b + 1 };
            assert(r[a] == s[sa] && r[b] == s[sb]);
        }
    }
    let p = s.drop_last();
    assert(keys_unique(p)) by {
        assert forall|a: int, b: int| 0 <= a < b < p.len() implies path_key(#[trigger] p[a].0@)
            != path_key(#[trigger] p[b].0@) by {
            assert(p[a] == s[a] && p[b] == s[b]);
        }
    }
    if i == s.len() - 1 {
        assert(r =~= p);
        if records_map(p).dom().contains(k) {
            lemma_records_dom(p, k);
            let j = choose|j: int| 0 <= j < p.len() && path_key(#[trigger] p[j].0@) == k;
            assert(p[j] == s[j]);
        }
        assert(records_map(s).remove(k) =~= records_map(p));
    } else {
        lemma_records_remove(p, i);
        assert(p[i] == s[i]);
        assert(r.drop_last() =~= p.remove(i));
        assert(r.last() == s.last());
        let kl = path_key(s.last().0@);
        assert(kl != k);
        assert(records_map(r) =~= records_map(p).remove(k).insert(kl, s.last().1));
        assert(records_map(s).remove(k) =~= records_map(p).insert(kl, s.last().1).remove(k));
    }
}

/// Takes the bucket of `key` out of `slots` (it is known to be there).
fn take_bucket(slots: &mut HashMap<u64, Vec<usize>>, key: u64) -> (b: Vec<usize>)
    requires
        old(slots)@.dom().contains(key),
    ensures
        b == old(slots)@[key],
        final(slots)@ == old(slots)@.remove(key),
{
    match slots.remove(&key) {
        Some(b) => b,
        None => Vec::new(),
    }
}

/// Takes the bucket of `key` out of `slots`, or an empty one.
fn take_bucket_or_empty(slots: &mut HashMap<u64, Vec<usize>>, key: u64) -> (b: Vec<usize>)
    ensures
        old(slots)@.dom().contains(key) ==> b == old(slots)@[key],
        !old(slots)@.dom().contains(key) ==> b@ == Seq::<usize>::empty(),
        final(slots)@ == old(slots)@.remove(key),
{
    match slots.remove(&key) {
        Some(b) => b,
        None => Vec::new(),
    }
}

/// The bucket without position `x`.
fn without(v: &Vec<usize>, x: usize) -> (r: Vec<usize>)
    ensures
        forall|y: int| #[trigger] lists(r@, y) <==> (lists(v@, y) && y != x),
{
    let mut out: Vec<usize> = Vec::new();
    let mut t: usize = 0;
    while t < v.len()
        invariant
            t <= v@.len(),
            forall|y: int| #[trigger] lists(out@, y) <==> (lists(v@.take(t as int), y) && y != x),
        decreases v@.len() - t,
    {
        proof {
            lemma_lists_push(out@, v@[t as int]);
            lemma_lists_push(v@.take(t as int), v@[t as int]);
            assert(v@.take(t + 1) =~= v@.take(t as int).push(v@[t as int]));
        }
        if v[t] != x {
            out.push(v[t]);
        }
        t += 1;
    }
    proof {
        assert(v@.take(t as int) =~= v@);
    }
    out
}

/// The bucket with position `from` renamed `to`.
fn replaced(v: &Vec<usize>, from: usize, to: usize) -> (r: Vec<usize>)
    ensures
        forall|y: int| #[trigger] lists(r@, y) <==> ((lists(v@, y) && y != from) || (y == to && lists(v@, from as int))),
{
    let mut out: Vec<usize> = Vec::new();
    let mut t: usize = 0;
    while t < v.len()
        invariant
            t <= v@.len(),
            forall|y: int| #[trigger] lists(out@, y) <==> ((lists(v@.take(t as int), y) && y != from) || (y == to && lists(v@.take(t as int), from as int))),
        decreases v@.len() - t,
    {
        let y = if v[t] == from { to } else { v[t] };
        proof {
            lemma_lists_push(out@, y);
            lemma_lists_push(v@.take(t as int), v@[t as int]);
            assert(v@.take(t + 1) =~= v@.take(t as int).push(v@[t as int]));
        }
        out.push(y);
        t += 1;
    }
    proof {
        assert(v@.take(t as int) =~= v@);
    }
    out
}

/// Replacing record `i` by the last one and dropping the last keeps the
/// keys unique and removes exactly `i`'s key from the map.
proof fn lemma_swap_remove_records(s: Seq<(String, ManifestEntry)>, i: int)
    requires
        keys_unique(s),
        0 <= i < s.len(),
    ensures
        keys_unique(s.update(i, s.last()).drop_last()),
        records_map(s.update(i, s.last()).drop_last()) == records_map(s).remove(path_key(s[i].0@)),
{
    let r = s.update(i, s.last()).drop_last();
    let n = s.len() - 1;
    assert forall|a: int| 0 <= a < r.len() implies #[trigger] r[a] == (if a == i { s[n] } else { s[a] }) by {}
    assert(keys_unique(r)) by {
        assert forall|a: int, b: int| 0 <= a < b < r.len() implies path_key(#[trigger] r[a].0@)
            != path_key(#[trigger] r[b].0@) by {
            let a2 = if a == i { n } else { a };
            let b2 = if b == i { n } else { b };
            assert(r[a] == s[a2] && r[b] == s[b2]);
            assert(a2 != b2);
            if a2 < b2 {
                assert(path_key(s[a2].0@) != path_key(s[b2].0@));
            } else {
                assert(path_key(s[b2].0@) != path_key(s[a2].0@));
            }
        }
    }
    let k = path_key(s[i].0@);
    let m1 = records_map(r);
    let m2 = records_map(s).remove(k);
    assert forall|key: Seq<Seq<char>>| #[trigger] m1.dom().contains(key) <==> m2.dom().contains(key) by {
        lemma_records_dom(r, key);
        lemma_records_dom(s, key);
        if m1.dom().contains(key) {
            let a = choose|a: int| 0 <= a < r.len() && path_key(#[trigger] r[a].0@) == key;
            let a2 = if a == i { n } else { a };
            assert(r[a] == s[a2]);
            if a2 != i {
                assert(path_key(s[a2].0@) != path_key(s[i].0@)) by {
                    if a2 < i {
                    } else {
                    }
                }
            }
        }
        if m2.dom().contains(key) {
            let a = choose|a: int| 0 <= a < s.len() && path_key(#[trigger] s[a].0@) == key;
            assert(a != i);
            let a2 = if a == n { i } else { a };
            assert(r[a2] == s[a]);
        }
    }
    assert forall|key: Seq<Seq<char>>| m1.dom().contains(key) implies #[trigger] m1[key] == m2[key] by {
        lemma_records_dom(r, key);
        let a = choose|a: int| 0 <= a < r.len() && path_key(#[trigger] r[a].0@) == key;
        lemma_records_at(r, a);
        let a2 = if a == i { n } else { a };
        assert(r[a] == s[a2]);
        lemma_records_at(s, a2);
    }
    assert(m1 =~= m2);
}

/// `slots` locates every record by the hash of its path: position `j` is in
/// the bucket of key `k` exactly when record `j` exists and its path hashes
/// to `k`.
pub open spec fn slots_ok(entries: Seq<(String, ManifestEntry)>, slots: Map<u64, Vec<usize>>) -> bool {
    forall|k: u64, j: int|
        #![trigger slot_has(slots, k, j)]
        slot_has(slots, k, j) <==> (0 <= j < entries.len() && path_hash(entries[j].0@) == k)
}

/// Position `j` is in the bucket of key `k`.
pub open spec fn slot_has(slots: Map<u64, Vec<usize>>, k: u64, j: int) -> bool {
    slots.dom().contains(k) && lists(slots[k]@, j)
}

/// The loaded index: recorded entries keyed by destination-relative path,
/// with a hash index over their paths so that a lookup reads one bucket.
#[derive(Debug)]
pub struct Manifest {
    /// On-disk format version.
    version: u32,
    /// Recorded entries with their relative paths; no two share a key (see
    /// [`Manifest::wf`]).
    entries: Vec<(String, ManifestEntry)>,
    /// Positions of the entries, bucketed by the hash of their paths.
    slots: HashMap<u64, Vec<usize>>,
}

impl Manifest {
    /// The recorded entries, keyed by path components.
    pub closed spec fn entries_map(&self) -> Map<Seq<Seq<char>>, ManifestEntry> {
        records_map(self.entries@)
    }

    /// The records in storage order.
    pub closed spec fn stored(&self) -> Seq<(String, ManifestEntry)> {
        self.entries@
    }

    /// The on-disk format version.
    pub closed spec fn version_of(&self) -> u32 {
        self.version
    }

    /// The on-disk format version.
    pub fn version(&self) -> (v: u32)
        ensures
            v == self.version_of(),
    {
        self.version
    }

    /// The records are well formed: no two share a key, and the hash index
    /// locates each of them.
    pub closed spec fn wf(&self) -> bool {
        keys_unique(self.entries@) && slots_ok(self.entries@, self.slots@)
    }

    /// An index of format `version` with no entries.
    pub fn new(version: u32) -> (m: Manifest)
        ensures
            m.wf(),
            m.version_of() == version,
            m.entries_map() == Map::<Seq<Seq<char>>, ManifestEntry>::empty(),
    {
        let m = Manifest { version, entries: Vec::new(), slots: HashMap::new() };
        proof {
            assert forall|k: u64, j: int| #[trigger] slot_has(m.slots@, k, j) <==> (0 <= j
                < m.entries@.len() && path_hash(m.entries@[j].0@) == k) by {}
        }
        m
    }

    /// Number of recorded entries.
    pub fn len(&self) -> (n: usize)
        requires
            self.wf(),
        ensures
            n == self.entries_map().len(),
    {
        proof {
            self.lemma_len();
        }
        self.entries.len()
    }

    proof fn lemma_len(&self)
        requires
            self.wf(),
        ensures
            self.entries_map().len() == self.entries@.len(),
            self.entries_map().dom().finite(),
    {
        lemma_records_len(self.entries@);
    }

    /// The recorded entries, in storage order (for writing a snapshot).
    pub fn records(&self) -> (r: &[(String, ManifestEntry)])
        ensures
            r@ == self.stored(),
            records_map(r@) == self.entries_map(),
    {
        self.entries.as_slice()
    }

    fn find(&self, rel: &str) -> (r: Option<usize>)
        requires
            slots_ok(self.entries@, self.slots@),
        ensures
            match r {
                Some(i) => i < self.entries@.len() && path_key(self.entries@[i as int].0@)
                    == path_key(rel@),
                None => forall|i: int|
                    0 <= i < self.entries@.len() ==> path_key(#[trigger] self.entries@[i].0@)
                        != path_key(rel@),
            },
    {
        let key = hash_path(rel);
        match self.slots.get(&key) {
            None => {
                proof {
                    assert forall|i: int| 0 <= i < self.entries@.len() implies path_key(
                        #[trigger] self.entries@[i].0@,
                    ) != path_key(rel@) by {
                        if path_key(self.entries@[i].0@) == path_key(rel@) {
                            assert(path_hash(self.entries@[i].0@) == key);
                            assert(slot_has(self.slots@, key, i));
                        }
                    }
                }
                None
            },
            Some(bucket) => {
                let mut t: usize = 0;
                while t < bucket.len()
                    invariant
                        slots_ok(self.entries@, self.slots@),
                        self.slots@.dom().contains(key),
                        self.slots@[key] == *bucket,
                        key == path_hash(rel@),
                        t <= bucket@.len(),
                        forall|u: int|
                            0 <= u < t ==> path_key(self.entries@[#[trigger] bucket@[u] as int].0@)
                                != path_key(rel@),
                    decreases bucket@.len() - t,
                {
                    let p = bucket[t];
                    proof {
                        assert(lists(bucket@, p as int));
                        assert(slot_has(self.slots@, key, p as int));
                    }
                    if same_path(self.entries[p].0.as_str(), rel) {
                        return Some(p);
                    }
                    t += 1;
                }
                proof {
                    assert forall|i: int| 0 <= i < self.entries@.len() implies path_key(
                        #[trigger] self.entries@[i].0@,
                    ) != path_key(rel@) by {
                        if path_key(self.entries@[i].0@) == path_key(rel@) {
                            assert(path_hash(self.entries@[i].0@) == key);
                            assert(slot_has(self.slots@, key, i));
                            let u = choose|u: int| 0 <= u < bucket@.len() && bucket@[u] == i;
                            assert(path_key(self.entries@[bucket@[u] as int].0@) != path_key(rel@));
                        }
                    }
                }
                None
            },
        }
    }

    /// The record for `rel`, if any.
    pub fn get(&self, rel: &str) -> (r: Option<&ManifestEntry>)
        requires
            self.wf(),
        ensures
            r matches Some(e) ==> lookup(self.entries_map(), path_key(rel@)) == Some(*e),
            r is None ==> lookup(self.entries_map(), path_key(rel@)) is None,
    {
        match self.find(rel) {
            Some(i) => {
                proof {
                    lemma_records_at(self.entries@, i as int);
                }
                Some(&self.entries[i].1)
            },
            None => {
                proof {
                    lemma_records_dom(self.entries@, path_key(rel@));
                }
                None
            },
        }
    }

    /// Whether `rel` has a record.
    pub fn contains_key(&self, rel: &str) -> (r: bool)
        requires
            self.wf(),
        ensures
            r == self.entries_map().dom().contains(path_key(rel@)),
    {
        let found = self.find(rel);
        proof {
            lemma_records_dom(self.entries@, path_key(rel@));
        }
        found.is_some()
    }

    /// Removes the record for `rel`, returning it.
    pub fn remove(&mut self, rel: &str) -> (r: Option<ManifestEntry>)
        requires
            old(self).wf(),
        ensures
            final(self).wf(),
            final(self).version_of() == old(self).version_of(),
            r == lookup(old(self).entries_map(), path_key(rel@)),
            final(self).entries_map() == old(self).entries_map().remove(path_key(rel@)),
    {
        match self.find(rel) {
            Some(i) => {
                let ghost s = self.entries@;
                let ghost slots0 = self.slots@;
                proof {
                    lemma_records_at(s, i as int);
                    lemma_swap_remove_records(s, i as int);
                }
                let key_i = hash_path(self.entries[i].0.as_str());
                let last = self.entries.len() - 1;
                let key_m = hash_path(self.entries[last].0.as_str());
                let (_, e) = self.entries.swap_remove(i);
                // Drop position `i` from its bucket.
                proof {
                    assert(slot_has(slots0, key_i, i as int));
                }
                let b1 = take_bucket(&mut self.slots, key_i);
                let nb1 = without(&b1, i);
                self.slots.insert(key_i, nb1);
                let ghost slots1 = self.slots@;
                proof {
                    assert forall|k: u64, j: int| #[trigger] slot_has(slots1, k, j) <==> (slot_has(
                        slots0,
                        k,
                        j,
                    ) && !(k == key_i && j == i)) by {
                        if k == key_i {
                            assert(slots1[k] == nb1);
                        } else {
                            assert(slots1.dom().contains(k) == slots0.dom().contains(k));
                            if slots0.dom().contains(k) {
                                assert(slots1[k] == slots0[k]);
                            }
                        }
                    }
                }
                // The last record moved to `i`.
                if i < last {
                    proof {
                        assert(slot_has(slots0, key_m, last as int));
                        assert(slot_has(slots1, key_m, last as int));
                    }
                    let b2 = take_bucket(&mut self.slots, key_m);
                    proof {
                        assert(b2 == slots1[key_m]);
                        assert(lists(b2@, last as int));
                    }
                    let nb2 = replaced(&b2, last, i);
                    self.slots.insert(key_m, nb2);
                    proof {
                        let slots2 = self.slots@;
                        assert forall|k: u64, j: int| #[trigger] slot_has(slots2, k, j) <==> (slot_has(
                            slots1,
                            k,
                            j,
                        ) && j != last) || (k == key_m && j == i) by {
                            if k == key_m {
                                assert(slots2[k] == nb2);
                                assert(lists(nb2@, j) <==> ((lists(b2@, j) && j != last) || (j == i
                                    && lists(b2@, last as int))));
                                assert(slot_has(slots1, k, j) <==> lists(b2@, j));
                            } else {
                                assert(slot_has(slots0, k, last as int) <==> (0 <= last < s.len()
                                    && path_hash(s[last as int].0@) == k));
                                assert(!slot_has(slots1, k, last as int));
                                assert(slots2.dom().contains(k) == slots1.dom().contains(k));
                                if slots1.dom().contains(k) {
                                    assert(slots2[k] == slots1[k]);
                                }
                            }
                        }
                    }
                }
                proof {
                    let s2 = self.entries@;
                    let slots2 = self.slots@;
                    assert forall|k: u64, j: int| #[trigger] slot_has(slots2, k, j) <==> (0 <= j
                        < s2.len() && path_hash(s2[j].0@) == k) by {
                        if 0 <= j < s2.len() && j != i {
                            assert(s2[j] == s[j]);
                        }
                        if i < last && j == i {
                            assert(s2[j] == s[last as int]);
                        }
                        assert(slot_has(slots0, k, j) <==> (0 <= j < s.len() && path_hash(s[j].0@)
                            == k));
                        assert(slot_has(slots1, k, j) <==> (slot_has(slots0, k, j) && !(k == key_i
                            && j == i)));
                    }
                }
                Some(e)
            },
            None => {
                proof {
                    lemma_records_dom(self.entries@, path_key(rel@));
                    assert(self.entries_map().remove(path_key(rel@)) =~= self.entries_map());
                }
                None
            },
        }
    }

    /// Records `entry` for `rel`, replacing any earlier record for that path.
    pub fn insert(&mut self, rel: String, entry: ManifestEntry)
        requires
            old(self).wf(),
        ensures
            final(self).wf(),
            final(self).version_of() == old(self).version_of(),
            final(self).entries_map() == old(self).entries_map().insert(path_key(rel@), entry),
    {
        let _ = self.remove(rel.as_str());
        let ghost before = self.entries@;
        proof {
            lemma_records_dom(before, path_key(rel@));
        }
        let key = hash_path(rel.as_str());
        let ghost slots0 = self.slots@;
        let n = self.entries.len();
        self.entries.push((rel, entry));
        let mut bucket = take_bucket_or_empty(&mut self.slots, key);
        let ghost b0 = bucket@;
        bucket.push(n);
        proof {
            lemma_lists_push(b0, n);
        }
        self.slots.insert(key, bucket);
        proof {
            let s = self.entries@;
            let slots2 = self.slots@;
            assert forall|k: u64, j: int| #[trigger] slot_has(slots2, k, j) <==> (0 <= j < s.len()
                && path_hash(s[j].0@) == k) by {
                assert(slot_has(slots0, k, j) <==> (0 <= j < before.len() && path_hash(before[j].0@)
                    == k));
                if 0 <= j < before.len() {
                    assert(s[j] == before[j]);
                }
                if k == key {
                    assert(slots2[k]@ == b0.push(n));
                    assert(lists(b0, j) <==> slot_has(slots0, k, j));
                } else {
                    assert(slots2.dom().contains(k) == slots0.dom().contains(k));
                    if slots0.dom().contains(k) {
                        assert(slots2[k] == slots0[k]);
                    }
                }
            }
            assert(s.drop_last() =~= before);
            assert(keys_unique(s)) by {
                assert forall|a: int, b: int| 0 <= a < b < s.len() implies path_key(
                    #[trigger] s[a].0@,
                ) != path_key(#[trigger] s[b].0@) by {
                    if b == s.len() - 1 {
                        assert(s[a] == before[a]);
                    } else {
                        assert(s[a] == before[a] && s[b] == before[b]);
                    }
                }
            }
        }
    }
}

proof fn lemma_records_len(s: Seq<(String, ManifestEntry)>)
    requires
        keys_unique(s),
    ensures
        records_map(s).len() == s.len(),
        records_map(s).dom().finite(),
    decreases s.len(),
{
    if s.len() > 0 {
        let shorter = s.drop_last();
        assert(keys_unique(shorter)) by {
            assert forall|a: int, b: int| 0 <= a < b < shorter.len() implies path_key(
                #[trigger] shorter[a].0@,
            ) != path_key(#[trigger] shorter[b].0@) by {
                assert(shorter[a] == s[a] && shorter[b] == s[b]);
            }
        }
        lemma_records_len(shorter);
        let k = path_key(s.last().0@);
        if records_map(shorter).dom().contains(k) {
            lemma_records_dom(shorter, k);
            let j = choose|j: int| 0 <= j < shorter.len() && path_key(#[trigger] shorter[j].0@) == k;
            assert(shorter[j] == s[j]);
        }
    }
}

/// One journal change applied to the recorded entries.
pub open spec fn apply_delta_spec(
    m: Map<Seq<Seq<char>>, ManifestEntry>,
    d: ManifestDelta,
) -> Map<Seq<Seq<char>>, ManifestEntry> {
    match d {
        ManifestDelta::Upsert(p, e) => m.insert(path_key(p@), e),
        ManifestDelta::Delete(p) => m.remove(path_key(p@)),
    }
}

/// Journal changes applied in order, up to the first record that could not be
/// decoded (`None`); nothing after it is applied.
pub open spec fn replay_spec(
    m: Map<Seq<Seq<char>>, ManifestEntry>,
    ds: Seq<Option<ManifestDelta>>,
) -> Map<Seq<Seq<char>>, ManifestEntry>
    decreases ds.len(),
{
    if ds.len() == 0 {
        m
    } else {
        match ds[0] {
            None => m,
            Some(d) => replay_spec(apply_delta_spec(m, d), ds.drop_first()),
        }
    }
}

impl Manifest {
    /// Applies one journal change.
    pub fn apply_delta(&mut self, d: ManifestDelta)
        requires
            old(self).wf(),
        ensures
            final(self).wf(),
            final(self).version_of() == old(self).version_of(),
            final(self).entries_map() == apply_delta_spec(old(self).entries_map(), d),
    {
        match d {
            ManifestDelta::Upsert(p, e) => self.insert(p, e),
            ManifestDelta::Delete(p) => {
                let _ = self.remove(p.as_str());
            },
        }
    }

    /// Replays decoded journal records in order, stopping at the first record
    /// that could not be decoded (`None`).
    pub fn replay(&mut self, records: Vec<Option<ManifestDelta>>)
        requires
            old(self).wf(),
        ensures
            final(self).wf(),
            final(self).version_of() == old(self).version_of(),
            final(self).entries_map() == replay_spec(old(self).entries_map(), records@),
    {
        let ghost all = records@;
        let ghost start = self.entries_map();
        let mut stopped = false;
        proof {
            assert(all.skip(0) =~= all);
        }
        for d in it: records
            invariant
                self.wf(),
                self.version_of() == old(self).version_of(),
                it.seq() == all,
                it.index() <= all.len(),
                stopped ==> self.entries_map() == replay_spec(start, all),
                !stopped ==> replay_spec(self.entries_map(), all.skip(it.index() as int)) == replay_spec(
                    start,
                    all,
                ),
        {
            proof {
                let k = it.index() as int;
                let rest = all.skip(k);
                assert(rest[0] == all[k]);
                assert(rest.drop_first() =~= all.skip(k + 1));
            }
            if !stopped {
                match d {
                    None => {
                        stopped = true;
                    },
                    Some(delta) => {
                        self.apply_delta(delta);
                    },
                }
            }
        }
        proof {
            if !stopped {
                assert(all.skip(all.len() as int) =~= Seq::<Option<ManifestDelta>>::empty());
            }
        }
    }
}

// ---------------------------------------------------------------------------
// Classification against the index
// ---------------------------------------------------------------------------

/// The source entry still has the size, mtime (to the nanosecond) and
/// permission bits that were recorded.
pub open spec fn metadata_matches_spec(entry: Entry, rec: ManifestEntry) -> bool {
    &&& entry.len == rec.size
    &&& entry.mtime.seconds == rec.mtime_s
    &&& entry.mtime.nanos == rec.mtime_ns
    &&& entry.mode & 0o7777 == rec.mode & 0o7777
}

/// Whether a source entry still matches its record.
pub fn metadata_matches(entry: &Entry, rec: &ManifestEntry) -> (r: bool)
    ensures
        r == metadata_matches_spec(*entry, *rec),
        r ==> entry.len == rec.size && entry.mtime.seconds == rec.mtime_s && entry.mtime.nanos
            == rec.mtime_ns && entry.mode & 0o7777 == rec.mode & 0o7777,
        (entry.len != rec.size || entry.mtime.seconds != rec.mtime_s || entry.mtime.nanos
            != rec.mtime_ns || entry.mode & 0o7777 != rec.mode & 0o7777) ==> !r,
{
    entry.len == rec.size && entry.mtime.seconds == rec.mtime_s && entry.mtime.nanos
        == rec.mtime_ns && entry.mode & 0o7777 == rec.mode & 0o7777
}

/// A recorded kind and a live file type agree.
pub open spec fn kinds_agree(k: Kind, f: FileTypeKind) -> bool {
    ||| k == Kind::File && f == FileTypeKind::File
    ||| k == Kind::Dir && f == FileTypeKind::Dir
    ||| k == Kind::Symlink && f == FileTypeKind::Symlink
}

/// The live destination entry is still the one recorded: same kind, inode and
/// device, size (files), mtime and permission bits, and, for a symlink, the
/// expected target. A destination that could not be stat-ed (`live` is
/// `None`) or a link that could not be read (`live_target` is `None`) does
/// not match.
pub open spec fn destination_matches_spec(
    rec: ManifestEntry,
    live: Option<MinMeta>,
    expected_target: Option<String>,
    live_target: Option<String>,
) -> bool {
    match live {
        None => false,
        Some(m) => {
            &&& kinds_agree(rec.kind, m.kind)
            &&& m.ino == rec.ino
            &&& m.dev == rec.dev
            &&& !(rec.kind == Kind::File && m.len != rec.size)
            &&& m.mtime.seconds == rec.mtime_s
            &&& m.mtime.nanos == rec.mtime_ns
            &&& m.mode & 0o7777 == rec.mode & 0o7777
            &&& match expected_target {
                Some(t) => live_target matches Some(l) && components(l@) == components(t@),
                None => true,
            }
        },
    }
}

fn kinds_agree_exec(k: Kind, f: FileTypeKind) -> (r: bool)
    ensures
        r == kinds_agree(k, f),
{
    match (k, f) {
        (Kind::File, FileTypeKind::File) => true,
        (Kind::Dir, FileTypeKind::Dir) => true,
        (Kind::Symlink, FileTypeKind::Symlink) => true,
        _ => false,
    }
}

/// Whether the live destination entry is still the one recorded (see
/// [`destination_matches_spec`]).
pub fn destination_matches(
    rec: &ManifestEntry,
    live: &Option<MinMeta>,
    expected_target: Option<&String>,
    live_target: &Option<String>,
) -> (r: bool)
    ensures
        r == destination_matches_spec(
            *rec,
            *live,
            match expected_target {
                Some(t) => Some(*t),
                None => None,
            },
            *live_target,
        ),
{
    let m = match live {
        None => {
            return false;
        },
        Some(m) => m,
    };
    if !kinds_agree_exec(rec.kind, m.kind) || m.ino != rec.ino || m.dev != rec.dev {
        return false;
    }
    if (rec.kind == Kind::File && m.len != rec.size) || m.mtime.seconds != rec.mtime_s
        || m.mtime.nanos != rec.mtime_ns || m.mode & 0o7777 != rec.mode & 0o7777 {
        return false;
    }
    match expected_target {
        Some(expected) => match live_target {
            Some(target) => same_path(target.as_str(), expected.as_str()),
            None => false,
        },
        None => true,
    }
}

/// `Skip` when the entry matches, else `Update`.
pub open spec fn action_from_match_spec(matches: bool) -> Action {
    if matches {
        Action::Skip
    } else {
        Action::Update
    }
}

/// `Skip` when the entry matches, else `Update`.
pub fn action_from_match(matches: bool) -> (a: Action)
    ensures
        a == action_from_match_spec(matches),
{
    if matches {
        Action::Skip
    } else {
        Action::Update
    }
}

/// The action for a source entry judged against its record and the live
/// destination: no record means copy; a directory or symlink is skipped when
/// it and the destination still match the record (a symlink's target too); a
/// file is skipped when both match and, in checksum mode, the source's digest
/// equals the recorded one; anything else, a changed kind included, is
/// updated.
pub open spec fn classify_spec(
    recorded: Option<ManifestEntry>,
    entry: Entry,
    checksum: bool,
    live: Option<MinMeta>,
    live_target: Option<String>,
    source_hash: Option<[u8; 32]>,
) -> Action {
    match recorded {
        None => Action::Copy,
        Some(rec) => match (entry.kind, rec.kind) {
            (EntryKind::Dir, Kind::Dir) => action_from_match_spec(
                metadata_matches_spec(entry, rec) && destination_matches_spec(
                    rec,
                    live,
                    None,
                    live_target,
                ),
            ),
            (EntryKind::Symlink(t), Kind::Symlink) => action_from_match_spec(
                (rec.target matches Some(rt) && components(rt@) == components(t@))
                    && metadata_matches_spec(entry, rec) && destination_matches_spec(
                    rec,
                    live,
                    Some(t),
                    live_target,
                ),
            ),
            (EntryKind::File, Kind::File) => if !metadata_matches_spec(entry, rec)
                || !destination_matches_spec(rec, live, None, live_target) {
                Action::Update
            } else if checksum {
                match (rec.hash, source_hash) {
                    (Some(expected), Some(actual)) => if expected@ == actual@ {
                        Action::Skip
                    } else {
                        Action::Update
                    },
                    _ => Action::Update,
                }
            } else {
                Action::Skip
            },
            _ => Action::Update,
        },
    }
}

/// What classifying against the index must get right, stated on the record,
/// the source entry and the live destination: with no record the entry is
/// copied, and only then; an entry is skipped only when it has a record of
/// its kind whose size, mtime (seconds and nanoseconds) and permission bits
/// the source still has, the live destination still has that record's
/// identity, mtime and permission bits (and size, for a file), a symlink
/// still points where the record says, and in checksum mode the source's
/// digest equals the recorded one. A file whose source and destination both
/// still match its record is skipped when not checksumming.
pub open spec fn index_classification_law(
    recorded: Option<ManifestEntry>,
    entry: Entry,
    checksum: bool,
    live: Option<MinMeta>,
    live_target: Option<String>,
    source_hash: Option<[u8; 32]>,
    a: Action,
) -> bool {
    &&& (a == Action::Copy <==> recorded is None)
    &&& a == Action::Skip ==> {
        &&& recorded is Some
        &&& live is Some
        &&& entry.len == recorded->Some_0.size
        &&& entry.mtime.seconds == recorded->Some_0.mtime_s
        &&& entry.mtime.nanos == recorded->Some_0.mtime_ns
        &&& entry.mode & 0o7777 == recorded->Some_0.mode & 0o7777
        &&& live->Some_0.ino == recorded->Some_0.ino
        &&& live->Some_0.dev == recorded->Some_0.dev
        &&& live->Some_0.mtime.seconds == recorded->Some_0.mtime_s
        &&& live->Some_0.mtime.nanos == recorded->Some_0.mtime_ns
        &&& live->Some_0.mode & 0o7777 == recorded->Some_0.mode & 0o7777
        &&& (entry.kind is Dir ==> recorded->Some_0.kind == Kind::Dir)
        &&& (entry.kind is File ==> recorded->Some_0.kind == Kind::File && live->Some_0.len
            == recorded->Some_0.size)
        &&& (entry.kind is Symlink ==> recorded->Some_0.kind == Kind::Symlink
            && recorded->Some_0.target is Some && components(recorded->Some_0.target->Some_0@)
            == components(entry.kind->Symlink_0@))
        &&& (entry.kind is File && checksum) ==> (recorded->Some_0.hash is Some && source_hash is Some
            && recorded->Some_0.hash->Some_0@ == source_hash->Some_0@)
    }
    &&& (recorded is Some && entry.kind is File && recorded->Some_0.kind == Kind::File && !checksum
        && metadata_matches_spec(entry, recorded->Some_0) && destination_matches_spec(
        recorded->Some_0,
        live,
        None,
        live_target,
    )) ==> a == Action::Skip
}

/// Classification against the index obeys [`index_classification_law`]: in
/// particular a source file edited since it was recorded (another mtime,
/// size or mode) is never skipped.
pub proof fn lemma_classify_index_law(
    recorded: Option<ManifestEntry>,
    entry: Entry,
    checksum: bool,
    live: Option<MinMeta>,
    live_target: Option<String>,
    source_hash: Option<[u8; 32]>,
)
    ensures
        index_classification_law(
            recorded,
            entry,
            checksum,
            live,
            live_target,
            source_hash,
            classify_spec(recorded, entry, checksum, live, live_target, source_hash),
        ),
{
}

impl Manifest {
    /// Classifies a source entry against its record and the live destination
    /// state (see [`classify_spec`]). `live` is the destination's metadata
    /// (`None` when it cannot be stat-ed), `live_target` the destination
    /// link's target (`None` when it cannot be read), and `source_hash` the
    /// digest of the source file in checksum mode (`None` when unreadable).
    pub fn classify(
        &self,
        entry: &Entry,
        checksum: bool,
        live: &Option<MinMeta>,
        live_target: &Option<String>,
        source_hash: &Option<[u8; 32]>,
    ) -> (a: Action)
        requires
            self.wf(),
        ensures
            a == classify_spec(
                lookup(self.entries_map(), path_key(entry.rel@)),
                *entry,
                checksum,
                *live,
                *live_target,
                *source_hash,
            ),
            index_classification_law(
                lookup(self.entries_map(), path_key(entry.rel@)),
                *entry,
                checksum,
                *live,
                *live_target,
                *source_hash,
                a,
            ),
    {
        proof {
            lemma_classify_index_law(
                lookup(self.entries_map(), path_key(entry.rel@)),
                *entry,
                checksum,
                *live,
                *live_target,
                *source_hash,
            );
        }
        let recorded = match self.get(entry.rel.as_str()) {
            None => {
                return Action::Copy;
            },
            Some(r) => r,
        };
        match (&entry.kind, recorded.kind) {
            (EntryKind::Dir, Kind::Dir) => action_from_match(
                metadata_matches(entry, recorded) && destination_matches(
                    recorded,
                    live,
                    None,
                    live_target,
                ),
            ),
            (EntryKind::Symlink(target), Kind::Symlink) => {
                let same_target = match &recorded.target {
                    Some(rt) => same_path(rt.as_str(), target.as_str()),
                    None => false,
                };
                action_from_match(
                    same_target && metadata_matches(entry, recorded) && destination_matches(
                        recorded,
                        live,
                        Some(target),
                        live_target,
                    ),
                )
            },
            (EntryKind::File, Kind::File) => {
                if !metadata_matches(entry, recorded) || !destination_matches(
                    recorded,
                    live,
                    None,
                    live_target,
                ) {
                    return Action::Update;
                }
                if checksum {
                    match (&recorded.hash, source_hash) {
                        (Some(expected), Some(actual)) => {
                            if same_bytes(expected, actual) {
                                Action::Skip
                            } else {
                                Action::Update
                            }
                        },
                        _ => Action::Update,
                    }
                } else {
                    Action::Skip
                }
            },
            _ => Action::Update,
        }
    }
}

// ---------------------------------------------------------------------------
// Building and updating the index after a plan was applied
// ---------------------------------------------------------------------------

/// Journal changes applied in order.
pub open spec fn apply_all(
    m: Map<Seq<Seq<char>>, ManifestEntry>,
    ds: Seq<ManifestDelta>,
) -> Map<Seq<Seq<char>>, ManifestEntry>
    decreases ds.len(),
{
    if ds.len() == 0 {
        m
    } else {
        apply_all(apply_delta_spec(m, ds[0]), ds.drop_first())
    }
}

proof fn lemma_apply_all_push(
    m: Map<Seq<Seq<char>>, ManifestEntry>,
    ds: Seq<ManifestDelta>,
    d: ManifestDelta,
)
    ensures
        apply_all(m, ds.push(d)) == apply_delta_spec(apply_all(m, ds), d),
    decreases ds.len(),
{
    if ds.len() == 0 {
        assert(ds.push(d)[0] == d);
        assert(ds.push(d).drop_first() =~= Seq::<ManifestDelta>::empty());
        assert(apply_all(m, ds.push(d)) == apply_all(
            apply_delta_spec(m, d),
            Seq::<ManifestDelta>::empty(),
        ));
    } else {
        lemma_apply_all_push(apply_delta_spec(m, ds[0]), ds.drop_first(), d);
        assert(ds.push(d)[0] == ds[0]);
        assert(ds.push(d).drop_first() =~= ds.drop_first().push(d));
    }
}

proof fn lemma_apply_all_concat(
    m: Map<Seq<Seq<char>>, ManifestEntry>,
    a: Seq<ManifestDelta>,
    b: Seq<ManifestDelta>,
)
    ensures
        apply_all(m, a + b) == apply_all(apply_all(m, a), b),
    decreases a.len(),
{
    if a.len() == 0 {
        assert(a + b =~= b);
    } else {
        lemma_apply_all_concat(apply_delta_spec(m, a[0]), a.drop_first(), b);
        assert((a + b).drop_first() =~= a.drop_first() + b);
    }
}

/// Decoded journal records replay exactly like the changes they encode.
pub proof fn lemma_replay_matches_apply(
    m: Map<Seq<Seq<char>>, ManifestEntry>,
    ds: Seq<ManifestDelta>,
)
    ensures
        replay_spec(m, ds.map_values(|d: ManifestDelta| Some(d))) == apply_all(m, ds),
    decreases ds.len(),
{
    let opts = ds.map_values(|d: ManifestDelta| Some(d));
    if ds.len() > 0 {
        lemma_replay_matches_apply(apply_delta_spec(m, ds[0]), ds.drop_first());
        assert(opts.drop_first() =~= ds.drop_first().map_values(|d: ManifestDelta| Some(d)));
    }
}

/// The upsert half of recording a plan: every entry that was not skipped gets
/// its fresh record, in plan order. Returns the resulting map and the journal
/// changes it took.
pub open spec fn upsert_pass(
    m: Map<Seq<Seq<char>>, ManifestEntry>,
    actions: Seq<crate::plan::PlannedAction>,
    records: Seq<Option<ManifestEntry>>,
) -> (Map<Seq<Seq<char>>, ManifestEntry>, Seq<ManifestDelta>)
    decreases actions.len(),
{
    if actions.len() == 0 {
        (m, seq![])
    } else {
        let (m1, ds) = upsert_pass(m, actions.drop_last(), records.take(actions.len() - 1));
        let planned = actions.last();
        if planned.action == Action::Skip {
            (m1, ds)
        } else {
            let rec = records[actions.len() - 1]->Some_0;
            (
                m1.insert(path_key(planned.entry.rel@), rec),
                ds.push(ManifestDelta::Upsert(planned.entry.rel, rec)),
            )
        }
    }
}

/// The deletion half of recording a plan: each deleted path that still has a
/// record loses it, and only those removals are journaled.
pub open spec fn deletion_pass(
    m: Map<Seq<Seq<char>>, ManifestEntry>,
    dels: Seq<crate::plan::Deletion>,
) -> (Map<Seq<Seq<char>>, ManifestEntry>, Seq<ManifestDelta>)
    decreases dels.len(),
{
    if dels.len() == 0 {
        (m, seq![])
    } else {
        let (m1, ds) = deletion_pass(m, dels.drop_last());
        let k = path_key(dels.last().rel@);
        if m1.dom().contains(k) {
            (m1.remove(k), ds.push(ManifestDelta::Delete(dels.last().rel)))
        } else {
            (m1, ds)
        }
    }
}

/// A later action that was not skipped names the same path.
pub open spec fn rewritten_later(actions: Seq<crate::plan::PlannedAction>, i: int, k: Seq<Seq<char>>) -> bool {
    exists|j: int|
        i < j < actions.len() && actions[j].action != Action::Skip && path_key(
            #[trigger] actions[j].entry.rel@,
        ) == k
}

/// No action that was not skipped names the path `k`.
pub open spec fn untouched_by_actions(actions: Seq<crate::plan::PlannedAction>, k: Seq<Seq<char>>) -> bool {
    forall|j: int|
        0 <= j < actions.len() && actions[j].action != Action::Skip ==> path_key(
            #[trigger] actions[j].entry.rel@,
        ) != k
}

/// No deletion names the path `k`.
pub open spec fn untouched_by_deletions(dels: Seq<crate::plan::Deletion>, k: Seq<Seq<char>>) -> bool {
    forall|j: int| 0 <= j < dels.len() ==> path_key(#[trigger] dels[j].rel@) != k
}

proof fn lemma_upsert_pass_facts(
    m: Map<Seq<Seq<char>>, ManifestEntry>,
    actions: Seq<crate::plan::PlannedAction>,
    records: Seq<Option<ManifestEntry>>,
)
    requires
        records.len() == actions.len(),
    ensures
        forall|i: int|
            0 <= i < actions.len() && #[trigger] actions[i].action != Action::Skip ==> exists|t: int|
                0 <= t < upsert_pass(m, actions, records).1.len() && upsert_pass(m, actions, records).1[t]
                    == ManifestDelta::Upsert(actions[i].entry.rel, records[i]->Some_0),
        forall|i: int|
            0 <= i < actions.len() && #[trigger] actions[i].action != Action::Skip
                && !rewritten_later(actions, i, path_key(actions[i].entry.rel@)) ==> upsert_pass(
                m,
                actions,
                records,
            ).0.dom().contains(path_key(actions[i].entry.rel@)) && upsert_pass(m, actions, records).0[path_key(
                actions[i].entry.rel@,
            )] == records[i]->Some_0,
        forall|k: Seq<Seq<char>>|
            #[trigger] untouched_by_actions(actions, k) ==> (upsert_pass(m, actions, records).0.dom().contains(
                k,
            ) == m.dom().contains(k) && (m.dom().contains(k) ==> upsert_pass(m, actions, records).0[k]
                == m[k])),
    decreases actions.len(),
{
    if actions.len() > 0 {
        let n = actions.len() - 1;
        let pa = actions.drop_last();
        let pr = records.take(n);
        lemma_upsert_pass_facts(m, pa, pr);
        let (m1, ds) = upsert_pass(m, pa, pr);
        let (m2, ds2) = upsert_pass(m, actions, records);
        assert forall|i: int|
            0 <= i < actions.len() && #[trigger] actions[i].action != Action::Skip implies exists|t: int|
                0 <= t < ds2.len() && ds2[t] == ManifestDelta::Upsert(actions[i].entry.rel, records[i]->Some_0) by {
            if i < n {
                assert(pa[i] == actions[i]);
                assert(pr[i] == records[i]);
                let t = choose|t: int| 0 <= t < ds.len() && ds[t] == ManifestDelta::Upsert(pa[i].entry.rel, pr[i]->Some_0);
                assert(ds2[t] == ds[t]);
            } else {
                assert(ds2[ds.len() as int] == ManifestDelta::Upsert(actions[i].entry.rel, records[i]->Some_0));
            }
        }
        assert forall|i: int|
            0 <= i < actions.len() && #[trigger] actions[i].action != Action::Skip
                && !rewritten_later(actions, i, path_key(actions[i].entry.rel@)) implies m2.dom().contains(
                path_key(actions[i].entry.rel@),
            ) && m2[path_key(actions[i].entry.rel@)] == records[i]->Some_0 by {
            if i < n {
                assert(pa[i] == actions[i]);
                assert(pr[i] == records[i]);
                assert(!rewritten_later(pa, i, path_key(pa[i].entry.rel@))) by {
                    if rewritten_later(pa, i, path_key(pa[i].entry.rel@)) {
                        let j = choose|j: int|
                            i < j < pa.len() && pa[j].action != Action::Skip && path_key(
                                #[trigger] pa[j].entry.rel@,
                            ) == path_key(pa[i].entry.rel@);
                        assert(pa[j] == actions[j]);
                    }
                }
                if actions[n].action != Action::Skip {
                    assert(path_key(actions[n].entry.rel@) != path_key(actions[i].entry.rel@));
                }
            }
        }
        assert forall|k: Seq<Seq<char>>| #[trigger] untouched_by_actions(actions, k) implies (
        m2.dom().contains(k) == m.dom().contains(k) && (m.dom().contains(k) ==> m2[k] == m[k])) by {
            assert(untouched_by_actions(pa, k)) by {
                assert forall|j: int|
                    0 <= j < pa.len() && pa[j].action != Action::Skip implies path_key(
                        #[trigger] pa[j].entry.rel@,
                    ) != k by {
                    assert(pa[j] == actions[j]);
                }
            }
            if actions[n].action != Action::Skip {
                assert(path_key(actions[n].entry.rel@) != k);
            }
        }
    }
}

proof fn lemma_deletion_pass_facts(
    m: Map<Seq<Seq<char>>, ManifestEntry>,
    dels: Seq<crate::plan::Deletion>,
)
    ensures
        forall|j: int| 0 <= j < dels.len() ==> !deletion_pass(m, dels).0.dom().contains(
            path_key(#[trigger] dels[j].rel@),
        ),
        forall|k: Seq<Seq<char>>|
            #[trigger] untouched_by_deletions(dels, k) ==> (deletion_pass(m, dels).0.dom().contains(k)
                == m.dom().contains(k) && (m.dom().contains(k) ==> deletion_pass(m, dels).0[k] == m[k])),
    decreases dels.len(),
{
    if dels.len() > 0 {
        let n = dels.len() - 1;
        let pd = dels.drop_last();
        lemma_deletion_pass_facts(m, pd);
        assert forall|j: int| 0 <= j < dels.len() implies !deletion_pass(m, dels).0.dom().contains(
            path_key(#[trigger] dels[j].rel@),
        ) by {
            if j < n {
                assert(pd[j] == dels[j]);
            }
        }
        assert forall|k: Seq<Seq<char>>| #[trigger] untouched_by_deletions(dels, k) implies (
        deletion_pass(m, dels).0.dom().contains(k) == m.dom().contains(k) && (m.dom().contains(k)
            ==> deletion_pass(m, dels).0[k] == m[k])) by {
            assert(untouched_by_deletions(pd, k)) by {
                assert forall|j: int| 0 <= j < pd.len() implies path_key(#[trigger] pd[j].rel@) != k by {
                    assert(pd[j] == dels[j]);
                }
            }
            assert(path_key(dels[n].rel@) != k);
        }
    }
}

/// What recording an applied plan must get right, stated on the plan and
/// the two indexes: every action that was not skipped (a copy or an update
/// alike) is journaled as an upsert of its fresh record, and, unless a later
/// action or a deletion names the same path, the index then maps that path
/// to that record; every deleted path has no record; and a path that no
/// action and no deletion names keeps its record, or its absence.
pub open spec fn recording_law(
    before: Map<Seq<Seq<char>>, ManifestEntry>,
    actions: Seq<crate::plan::PlannedAction>,
    dels: Seq<crate::plan::Deletion>,
    records: Seq<Option<ManifestEntry>>,
    after: Map<Seq<Seq<char>>, ManifestEntry>,
    deltas: Seq<ManifestDelta>,
) -> bool {
    &&& forall|i: int|
        0 <= i < actions.len() && #[trigger] actions[i].action != Action::Skip ==> exists|t: int|
            0 <= t < deltas.len() && deltas[t] == ManifestDelta::Upsert(actions[i].entry.rel, records[i]->Some_0)
    &&& forall|i: int|
        0 <= i < actions.len() && #[trigger] actions[i].action != Action::Skip && !rewritten_later(
            actions,
            i,
            path_key(actions[i].entry.rel@),
        ) && untouched_by_deletions(dels, path_key(actions[i].entry.rel@)) ==> after.dom().contains(
            path_key(actions[i].entry.rel@),
        ) && after[path_key(actions[i].entry.rel@)] == records[i]->Some_0
    &&& forall|j: int| 0 <= j < dels.len() ==> !after.dom().contains(path_key(#[trigger] dels[j].rel@))
    &&& forall|k: Seq<Seq<char>>|
        untouched_by_actions(actions, k) && #[trigger] untouched_by_deletions(dels, k) ==> (
        after.dom().contains(k) == before.dom().contains(k) && (before.dom().contains(k) ==> after[k]
            == before[k]))
}

/// Recording a plan obeys [`recording_law`].
pub proof fn lemma_record_plan_law(
    before: Map<Seq<Seq<char>>, ManifestEntry>,
    actions: Seq<crate::plan::PlannedAction>,
    dels: Seq<crate::plan::Deletion>,
    records: Seq<Option<ManifestEntry>>,
)
    requires
        records.len() == actions.len(),
    ensures
        ({
            let (m1, ups) = upsert_pass(before, actions, records);
            let (m2, rms) = deletion_pass(m1, dels);
            recording_law(before, actions, dels, records, m2, ups + rms)
        }),
{
    let (m1, ups) = upsert_pass(before, actions, records);
    let (m2, rms) = deletion_pass(m1, dels);
    lemma_upsert_pass_facts(before, actions, records);
    lemma_deletion_pass_facts(m1, dels);
    let d = ups + rms;
    assert forall|i: int|
        0 <= i < actions.len() && #[trigger] actions[i].action != Action::Skip implies exists|t: int|
            0 <= t < d.len() && d[t] == ManifestDelta::Upsert(actions[i].entry.rel, records[i]->Some_0) by {
        let t = choose|t: int| 0 <= t < ups.len() && ups[t] == ManifestDelta::Upsert(actions[i].entry.rel, records[i]->Some_0);
        assert(d[t] == ups[t]);
    }
    assert forall|i: int|
        0 <= i < actions.len() && #[trigger] actions[i].action != Action::Skip && !rewritten_later(
            actions,
            i,
            path_key(actions[i].entry.rel@),
        ) && untouched_by_deletions(dels, path_key(actions[i].entry.rel@)) implies m2.dom().contains(
            path_key(actions[i].entry.rel@),
        ) && m2[path_key(actions[i].entry.rel@)] == records[i]->Some_0 by {
        assert(untouched_by_deletions(dels, path_key(actions[i].entry.rel@)));
    }
    assert forall|k: Seq<Seq<char>>|
        untouched_by_actions(actions, k) && #[trigger] untouched_by_deletions(dels, k) implies (
        m2.dom().contains(k) == before.dom().contains(k) && (before.dom().contains(k) ==> m2[k]
            == before[k])) by {
        assert(untouched_by_actions(actions, k));
    }
}

proof fn lemma_upsert_pass_replays(
    m: Map<Seq<Seq<char>>, ManifestEntry>,
    actions: Seq<crate::plan::PlannedAction>,
    records: Seq<Option<ManifestEntry>>,
)
    ensures
        upsert_pass(m, actions, records).0 == apply_all(m, upsert_pass(m, actions, records).1),
    decreases actions.len(),
{
    if actions.len() > 0 {
        lemma_upsert_pass_replays(m, actions.drop_last(), records.take(actions.len() - 1));
        let (m1, ds) = upsert_pass(m, actions.drop_last(), records.take(actions.len() - 1));
        let planned = actions.last();
        if planned.action != Action::Skip {
            let rec = records[actions.len() - 1]->Some_0;
            lemma_apply_all_push(m, ds, ManifestDelta::Upsert(planned.entry.rel, rec));
        }
    }
}

proof fn lemma_deletion_pass_replays(
    m: Map<Seq<Seq<char>>, ManifestEntry>,
    dels: Seq<crate::plan::Deletion>,
)
    ensures
        deletion_pass(m, dels).0 == apply_all(m, deletion_pass(m, dels).1),
    decreases dels.len(),
{
    if dels.len() > 0 {
        lemma_deletion_pass_replays(m, dels.drop_last());
        let (m1, ds) = deletion_pass(m, dels.drop_last());
        if m1.dom().contains(path_key(dels.last().rel@)) {
            lemma_apply_all_push(m, ds, ManifestDelta::Delete(dels.last().rel));
        }
    }
}

/// The journal written after a plan reproduces the updated index: replaying
/// the changes from [`Manifest::record_plan`] on the index as it was loaded
/// gives the index as it was left.
pub proof fn lemma_recorded_plan_replays(
    m: Map<Seq<Seq<char>>, ManifestEntry>,
    actions: Seq<crate::plan::PlannedAction>,
    records: Seq<Option<ManifestEntry>>,
    dels: Seq<crate::plan::Deletion>,
)
    ensures
        ({
            let (m1, ups) = upsert_pass(m, actions, records);
            let (m2, rms) = deletion_pass(m1, dels);
            m2 == apply_all(m, ups + rms) && replay_spec(
                m,
                (ups + rms).map_values(|d: ManifestDelta| Some(d)),
            ) == m2
        }),
{
    let (m1, ups) = upsert_pass(m, actions, records);
    let (m2, rms) = deletion_pass(m1, dels);
    lemma_upsert_pass_replays(m, actions, records);
    lemma_deletion_pass_replays(m1, dels);
    lemma_apply_all_concat(m, ups, rms);
    lemma_replay_matches_apply(m, ups + rms);
}

impl ManifestEntry {
    /// An identical copy of this record.
    pub fn duplicate(&self) -> (r: ManifestEntry)
        ensures
            r == *self,
    {
        ManifestEntry {
            kind: self.kind,
            size: self.size,
            mtime_s: self.mtime_s,
            mtime_ns: self.mtime_ns,
            ino: self.ino,
            dev: self.dev,
            mode: self.mode,
            hash: self.hash,
            target: match &self.target {
                Some(t) => Some(t.clone()),
                None => None,
            },
        }
    }
}

impl Manifest {
    /// Records the outcome of an applied plan and returns the journal changes
    /// that reproduce it: every action that was not skipped stores its fresh
    /// destination record (`records[i]` for `plan.actions[i]`), then every
    /// deletion that had a record drops it.
    pub fn record_plan(
        &mut self,
        plan: &crate::plan::SyncPlan,
        records: &Vec<Option<ManifestEntry>>,
    ) -> (deltas: Vec<ManifestDelta>)
        requires
            old(self).wf(),
            records@.len() == plan.actions@.len(),
            forall|i: int|
                0 <= i < plan.actions@.len() && #[trigger] plan.actions@[i].action
                    != Action::Skip ==> records@[i] is Some,
        ensures
            final(self).wf(),
            final(self).version_of() == old(self).version_of(),
            ({
                let (m1, ups) = upsert_pass(old(self).entries_map(), plan.actions@, records@);
                let (m2, rms) = deletion_pass(m1, plan.deletions@);
                final(self).entries_map() == m2 && deltas@ == ups + rms
            }),
            recording_law(
                old(self).entries_map(),
                plan.actions@,
                plan.deletions@,
                records@,
                final(self).entries_map(),
                deltas@,
            ),
    {
        proof {
            lemma_record_plan_law(self.entries_map(), plan.actions@, plan.deletions@, records@);
        }
        let ghost m0 = self.entries_map();
        let ghost all = records@;
        let mut deltas: Vec<ManifestDelta> = Vec::new();
        let mut k: usize = 0;
        proof {
            assert(plan.actions@.take(0) =~= Seq::<crate::plan::PlannedAction>::empty());
        }
        while k < plan.actions.len()
            invariant
                self.wf(),
                self.version_of() == old(self).version_of(),
                all == records@,
                all.len() == plan.actions@.len(),
                k <= all.len(),
                forall|i: int|
                    0 <= i < plan.actions@.len() && #[trigger] plan.actions@[i].action
                        != Action::Skip ==> all[i] is Some,
                ({
                    let (m1, ups) = upsert_pass(
                        m0,
                        plan.actions@.take(k as int),
                        all.take(k as int),
                    );
                    self.entries_map() == m1 && deltas@ == ups
                }),
            decreases all.len() - k,
        {
            let planned = &plan.actions[k];
            proof {
                let a = plan.actions@.take(k + 1);
                assert(a.drop_last() =~= plan.actions@.take(k as int));
                assert(all.take(k + 1).take(k as int) =~= all.take(k as int));
                assert(a.last() == plan.actions@[k as int]);
                assert(all.take(k + 1)[k as int] == all[k as int]);
            }
            if planned.action != Action::Skip {
                match &records[k] {
                    Some(r) => {
                        let rel = planned.entry.rel.clone();
                        self.insert(rel, r.duplicate());
                        deltas.push(ManifestDelta::Upsert(planned.entry.rel.clone(), r.duplicate()));
                    },
                    None => {},
                }
            }
            k += 1;
        }
        proof {
            assert(plan.actions@.take(all.len() as int) =~= plan.actions@);
            assert(all.take(all.len() as int) =~= all);
        }
        let ghost ups = deltas@;
        let ghost m1 = self.entries_map();
        let mut i: usize = 0;
        proof {
            assert(plan.deletions@.take(0) =~= Seq::<crate::plan::Deletion>::empty());
            assert(ups + Seq::<ManifestDelta>::empty() =~= ups);
        }
        while i < plan.deletions.len()
            invariant
                self.wf(),
                self.version_of() == old(self).version_of(),
                i <= plan.deletions@.len(),
                ({
                    let (m2, rms) = deletion_pass(m1, plan.deletions@.take(i as int));
                    self.entries_map() == m2 && deltas@ == ups + rms
                }),
            decreases plan.deletions@.len() - i,
        {
            let d = &plan.deletions[i];
            proof {
                let t = plan.deletions@.take(i + 1);
                assert(t.drop_last() =~= plan.deletions@.take(i as int));
                assert(t.last() == plan.deletions@[i as int]);
            }
            let ghost before = deltas@;
            if self.remove(d.rel.as_str()).is_some() {
                deltas.push(ManifestDelta::Delete(d.rel.clone()));
                proof {
                    let (m2, rms) = deletion_pass(m1, plan.deletions@.take(i as int));
                    assert(deltas@ =~= ups + rms.push(ManifestDelta::Delete(d.rel)));
                }
            }
            i += 1;
        }
        proof {
            assert(plan.deletions@.take(i as int) =~= plan.deletions@);
        }
        deltas
    }

    /// A complete index built from an applied plan: the entry of every action
    /// is recorded as `records[i]` for `plan.actions[i]`.
    pub fn from_records(plan: &crate::plan::SyncPlan, records: &Vec<ManifestEntry>) -> (m: Manifest)
        requires
            records@.len() == plan.actions@.len(),
        ensures
            m.wf(),
            m.version_of() == FORMAT_VERSION,
            m.entries_map() == upsert_pass(
                Map::empty(),
                plan.actions@.map_values(|p: crate::plan::PlannedAction|
                    crate::plan::PlannedAction { entry: p.entry, action: Action::Copy }),
                records@.map_values(|r: ManifestEntry| Some(r)),
            ).0,
    {
        let mut m = Manifest::new(FORMAT_VERSION);
        let ghost all = records@;
        let ghost acts = plan.actions@.map_values(|p: crate::plan::PlannedAction|
            crate::plan::PlannedAction { entry: p.entry, action: Action::Copy });
        let ghost recs = all.map_values(|r: ManifestEntry| Some(r));
        let mut k: usize = 0;
        proof {
            assert(acts.take(0) =~= Seq::<crate::plan::PlannedAction>::empty());
        }
        while k < records.len()
            invariant
                m.wf(),
                m.version_of() == FORMAT_VERSION,
                all == records@,
                all.len() == plan.actions@.len(),
                acts.len() == all.len(),
                recs.len() == all.len(),
                forall|i: int| 0 <= i < acts.len() ==> #[trigger] acts[i] == (crate::plan::PlannedAction { entry: plan.actions@[i].entry, action: Action::Copy }),
                forall|i: int| 0 <= i < recs.len() ==> #[trigger] recs[i] == Some(all[i]),
                k <= all.len(),
                m.entries_map() == upsert_pass(
                    Map::empty(),
                    acts.take(k as int),
                    recs.take(k as int),
                ).0,
            decreases all.len() - k,
        {
            let planned = &plan.actions[k];
            proof {
                let a = acts.take(k + 1);
                assert(a.drop_last() =~= acts.take(k as int));
                assert(recs.take(k + 1).take(k as int) =~= recs.take(k as int));
                assert(a.last() == acts[k as int]);
                assert(recs.take(k + 1)[k as int] == recs[k as int]);
            }
            m.insert(planned.entry.rel.clone(), records[k].duplicate());
            k += 1;
        }
        proof {
            assert(acts.take(all.len() as int) =~= acts);
            assert(recs.take(all.len() as int) =~= recs);
        }
        m
    }
}

/// The recorded entries that the source no longer has, in storage order,
/// as deletions (a recorded directory is deleted as a directory).
pub open spec fn stale_records(src_rels: Seq<String>, recs: Seq<(String, ManifestEntry)>) -> Seq<
    crate::plan::Deletion,
>
    decreases recs.len(),
{
    if recs.len() == 0 {
        seq![]
    } else {
        let prev = stale_records(src_rels, recs.drop_last());
        let r = recs.last();
        if crate::pathset::last_with_path(src_rels, r.0@, src_rels.len() as int) is None {
            prev.push(crate::plan::Deletion { rel: r.0, is_dir: r.1.kind == Kind::Dir })
        } else {
            prev
        }
    }
}

impl Manifest {
    /// The deletions that mirror the source when planning from the index:
    /// every recorded path the source lacks, deepest first.
    pub fn stale_deletions(&self, src_rels: &Vec<String>) -> (r: Vec<crate::plan::Deletion>)
        ensures
            r@.to_multiset() == stale_records(src_rels@, self.stored()).to_multiset(),
            forall|i: int, j: int|
                0 <= i < j < r@.len() ==> !crate::paths::path_before(
                    #[trigger] r@[i].rel@,
                    #[trigger] r@[j].rel@,
                ),
    {
        let mut rels: Vec<String> = Vec::new();
        let mut k: usize = 0;
        while k < self.entries.len()
            invariant
                k <= self.entries@.len(),
                rels@.len() == k,
                forall|t: int| 0 <= t < k ==> #[trigger] rels@[t] == self.entries@[t].0,
            decreases self.entries@.len() - k,
        {
            rels.push(self.entries[k].0.clone());
            k += 1;
        }
        let found = crate::pathset::match_paths(src_rels, &rels);
        let mut out: Vec<crate::plan::Deletion> = Vec::new();
        let mut i: usize = 0;
        let ghost recs = self.entries@;
        proof {
            assert(recs.take(0) =~= Seq::<(String, ManifestEntry)>::empty());
        }
        while i < self.entries.len()
            invariant
                recs == self.entries@,
                found@.len() == recs.len(),
                rels@.len() == recs.len(),
                forall|t: int| 0 <= t < recs.len() ==> #[trigger] rels@[t] == recs[t].0,
                forall|t: int|
                    0 <= t < recs.len() ==> match #[trigger] found@[t] {
                        Some(j) => crate::pathset::last_with_path(src_rels@, rels@[t]@, src_rels@.len() as int)
                            == Some(j as int),
                        None => crate::pathset::last_with_path(src_rels@, rels@[t]@, src_rels@.len() as int) is None,
                    },
                i <= recs.len(),
                out@ == stale_records(src_rels@, recs.take(i as int)),
            decreases recs.len() - i,
        {
            proof {
                let t = recs.take(i + 1);
                assert(t.drop_last() =~= recs.take(i as int));
                assert(t.last() == recs[i as int]);
                assert(rels@[i as int] == recs[i as int].0);
            }
            let missing = match found[i] {
                None => true,
                Some(_) => false,
            };
            if missing {
                let rec = &self.entries[i];
                out.push(crate::plan::Deletion { rel: rec.0.clone(), is_dir: rec.1.kind == Kind::Dir });
            }
            i += 1;
        }
        proof {
            assert(recs.take(i as int) =~= recs);
        }
        crate::plan::sort_deepest_first(&mut out);
        out
    }
}

/// The record kind of a walked entry.
pub open spec fn record_kind(kind: EntryKind) -> Kind {
    match kind {
        EntryKind::File => Kind::File,
        EntryKind::Dir => Kind::Dir,
        EntryKind::Symlink(_) => Kind::Symlink,
    }
}

/// Whether the record of an entry carries a content digest: in checksum
/// mode, for regular files.
pub fn wants_digest(hash: bool, kind: &EntryKind) -> (r: bool)
    ensures
        r == (hash && *kind is File),
{
    hash && match kind {
        EntryKind::File => true,
        _ => false,
    }
}

/// The record kept for a destination entry after a sync: the walked kind,
/// the destination's size, mtime, identity and mode as stat-ed (`meta`), the
/// digest read from it (see [`wants_digest`]) and, for a symlink, the target
/// read from it (ignored for other kinds).
pub fn record_of(kind: &EntryKind, meta: &MinMeta, link_target: String, digest: Option<[u8; 32]>) -> (r: ManifestEntry)
    ensures
        r.kind == record_kind(*kind),
        r.size == meta.len,
        r.mtime_s == meta.mtime.seconds,
        r.mtime_ns == meta.mtime.nanos,
        r.ino == meta.ino,
        r.dev == meta.dev,
        r.mode == meta.mode,
        r.hash == digest,
        r.target == (if *kind is Symlink {
            Some(link_target)
        } else {
            None::<String>
        }),
{
    let (k, target) = match kind {
        EntryKind::File => (Kind::File, None),
        EntryKind::Dir => (Kind::Dir, None),
        EntryKind::Symlink(_) => (Kind::Symlink, Some(link_target)),
    };
    ManifestEntry {
        kind: k,
        size: meta.len,
        mtime_s: meta.mtime.seconds,
        mtime_ns: meta.mtime.nanos,
        ino: meta.ino,
        dev: meta.dev,
        mode: meta.mode,
        hash: digest,
        target,
    }
}

} // verus!
