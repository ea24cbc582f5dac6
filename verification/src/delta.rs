//! The delta engine.
//!
//! Given an `old` buffer and a `new` buffer, [`encode`] produces a compact
//! [`Delta`]: a sequence of [`Op::Copy`] (reuse a block of `old`) and
//! [`Op::Literal`] (raw bytes that aren't in `old`) operations. [`apply`] stitches
//! those back together, so that `apply(old, encode(old, new, _)) == new`
//! whenever no strong-hash collision fools the encoder (see
//! [`lemma_apply_encode_roundtrip`]).
//!
//! 1. Choose a block size `B = clamp(round(sqrt(old.len())), 700, 131072)` (or an
//!    explicit override).
//! 2. Split `old` into blocks of `B` bytes (the last may be short). For each block
//!    record its weak rolling checksum and strong hash, keyed weak → block indices.
//! 3. Roll a `B`-byte window across `new`. When the weak checksum hits a known
//!    block *and* the strong hash confirms it, flush any pending literal run, emit
//!    a copy, and jump the window forward by `B`. Otherwise slide by one byte.
//! 4. A short trailing block of `old` is matched against the remaining tail of
//!    `new`, so an unchanged file re-encodes to pure copies with zero literals.

use std::collections::HashMap;

use vstd::prelude::*;
use vstd::slice::{slice_subrange, slice_to_vec};

use crate::checksum::{
    checksum_value, fresh_state, lemma_roll_equals_recompute, strong_digest, strong_hash,
    weak_checksum, RollingChecksum, StrongHash,
};
use crate::error::{DeltaApplyError, Error};

verus! {

broadcast use vstd::std_specs::hash::group_hash_axioms;

/// Minimum auto-selected block size, in bytes.
pub const MIN_BLOCK: usize = 700;

/// Maximum auto-selected block size, in bytes.
pub const MAX_BLOCK: usize = 131_072;

/// A single delta operation.
#[derive(Debug, Clone, PartialEq, Eq)]
pub enum Op {
    /// Reuse block `index` of `old` (its byte range is `index*B .. index*B + len`).
    Copy(u32),
    /// Insert these raw bytes verbatim.
    Literal(Vec<u8>),
}

/// The mathematical value of an [`Op`].
pub enum OpView {
    Copy(u32),
    Literal(Seq<u8>),
}

impl View for Op {
    type V = OpView;

    open spec fn view(&self) -> OpView {
        match self {
            Op::Copy(i) => OpView::Copy(*i),
            Op::Literal(b) => OpView::Literal(b@),
        }
    }
}

/// The views of a sequence of operations.
pub open spec fn ops_view(ops: Seq<Op>) -> Seq<OpView> {
    ops.map_values(|o: Op| o@)
}

/// A delta that reconstructs `new` from `old`.
#[derive(Debug, Clone, PartialEq, Eq)]
pub struct Delta {
    /// Block size used when this delta was produced.
    pub block_size: u32,
    /// The operations, in order.
    pub ops: Vec<Op>,
}

/// The mathematical value of a [`Delta`].
pub struct DeltaView {
    pub block_size: u32,
    pub ops: Seq<OpView>,
}

impl View for Delta {
    type V = DeltaView;

    open spec fn view(&self) -> DeltaView {
        DeltaView { block_size: self.block_size, ops: ops_view(self.ops@) }
    }
}

/// Total length of the literal operations.
pub open spec fn literal_total(ops: Seq<OpView>) -> int
    decreases ops.len(),
{
    if ops.len() == 0 {
        0
    } else {
        literal_total(ops.drop_last()) + match ops.last() {
            OpView::Literal(b) => b.len() as int,
            OpView::Copy(_) => 0int,
        }
    }
}

/// Number of copy operations.
pub open spec fn copy_count(ops: Seq<OpView>) -> int
    decreases ops.len(),
{
    if ops.len() == 0 {
        0
    } else {
        copy_count(ops.drop_last()) + match ops.last() {
            OpView::Literal(_) => 0int,
            OpView::Copy(_) => 1int,
        }
    }
}

proof fn lemma_copy_count_bound(ops: Seq<OpView>)
    ensures
        0 <= copy_count(ops) <= ops.len(),
    decreases ops.len(),
{
    if ops.len() > 0 {
        lemma_copy_count_bound(ops.drop_last());
    }
}

proof fn lemma_literal_total_nonneg(ops: Seq<OpView>)
    ensures
        0 <= literal_total(ops),
    decreases ops.len(),
{
    if ops.len() > 0 {
        lemma_literal_total_nonneg(ops.drop_last());
    }
}

impl Delta {
    /// Number of bytes carried as literals (i.e. not reused from `old`).
    pub fn literal_bytes(&self) -> (n: usize)
        requires
            literal_total(self@.ops) <= usize::MAX,
        ensures
            n as int == literal_total(self@.ops),
    {
        let mut total: usize = 0;
        let mut i: usize = 0;
        while i < self.ops.len()
            invariant
                i <= self.ops@.len(),
                literal_total(self@.ops) <= usize::MAX,
                total as int == literal_total(ops_view(self.ops@.take(i as int))),
            decreases self.ops@.len() - i,
        {
            proof {
                let pre = ops_view(self.ops@.take(i as int));
                let next = ops_view(self.ops@.take(i + 1));
                assert(next.drop_last() =~= pre);
                assert(next.last() == self.ops@[i as int]@);
                lemma_literal_total_prefix(self@.ops, i + 1);
                assert(self@.ops.take(i + 1) =~= next);
                lemma_literal_total_nonneg(pre);
            }
            match &self.ops[i] {
                Op::Literal(b) => {
                    total = total + b.len();
                },
                Op::Copy(_) => {},
            }
            i += 1;
        }
        proof {
            assert(self.ops@.take(i as int) =~= self.ops@);
        }
        total
    }

    /// Number of copy operations.
    pub fn copy_ops(&self) -> (n: usize)
        ensures
            n as int == copy_count(self@.ops),
    {
        let mut count: usize = 0;
        let mut i: usize = 0;
        while i < self.ops.len()
            invariant
                i <= self.ops@.len(),
                count as int == copy_count(ops_view(self.ops@.take(i as int))),
            decreases self.ops@.len() - i,
        {
            proof {
                let pre = ops_view(self.ops@.take(i as int));
                let next = ops_view(self.ops@.take(i + 1));
                assert(next.drop_last() =~= pre);
                assert(next.last() == self.ops@[i as int]@);
                lemma_copy_count_bound(pre);
            }
            match &self.ops[i] {
                Op::Literal(_) => {},
                Op::Copy(_) => {
                    count = count + 1;
                },
            }
            i += 1;
        }
        proof {
            assert(self.ops@.take(i as int) =~= self.ops@);
        }
        count
    }
}

proof fn lemma_literal_total_prefix(ops: Seq<OpView>, k: int)
    requires
        0 <= k <= ops.len(),
    ensures
        literal_total(ops.take(k)) <= literal_total(ops),
    decreases ops.len() - k,
{
    if k < ops.len() {
        lemma_literal_total_prefix(ops, k + 1);
        assert(ops.take(k + 1).drop_last() =~= ops.take(k));
    } else {
        assert(ops.take(k) =~= ops);
    }
}

/// `b` is the auto-selected block size for a basis of `n` bytes:
/// `clamp(round(sqrt(n)), 700, 131072)`, stated without roots as
/// `(2b-1)^2 <= 4n < (2b+1)^2` away from the clamps.
pub open spec fn is_auto_block(n: int, b: int) -> bool {
    &&& MIN_BLOCK <= b <= MAX_BLOCK
    &&& b > MIN_BLOCK ==> (2 * b - 1) * (2 * b - 1) <= 4 * n
    &&& b < MAX_BLOCK ==> 4 * n < (2 * b + 1) * (2 * b + 1)
}

/// The auto-selected block size for a basis of `n` bytes.
pub open spec fn auto_block(n: int) -> int {
    choose|b: int| is_auto_block(n, b)
}

/// There is at most one auto-selected block size for each length.
pub proof fn lemma_auto_block_unique(n: int, b1: int, b2: int)
    requires
        is_auto_block(n, b1),
        is_auto_block(n, b2),
    ensures
        b1 == b2,
{
    if b1 < b2 {
        assert((2 * b1 + 1) * (2 * b1 + 1) <= (2 * b2 - 1) * (2 * b2 - 1)) by (nonlinear_arith)
            requires
                b1 < b2,
                b1 >= 0,
        ;
    } else if b2 < b1 {
        assert((2 * b2 + 1) * (2 * b2 + 1) <= (2 * b1 - 1) * (2 * b1 - 1)) by (nonlinear_arith)
            requires
                b2 < b1,
                b2 >= 0,
        ;
    }
}

/// Choose a block size for `old_len`: `clamp(round(sqrt(old_len)), 700, 131072)`.
pub fn block_size_for(old_len: usize) -> (b: usize)
    ensures
        is_auto_block(old_len as int, b as int),
        b as int == auto_block(old_len as int),
{
    let n = old_len as u64;
    if n >= 17_179_738_113 {
        proof {
            assert(68718952449 <= 4 * n);
            assert((2 * 131072 - 1) * (2 * 131072 - 1) == 68718952449int) by (nonlinear_arith);
            assert(n == old_len);
            assert(is_auto_block(old_len as int, 131072));
            lemma_auto_block_unique(old_len as int, 131072, auto_block(old_len as int));
        }
        return MAX_BLOCK;
    }
    let four_n: u64 = 4 * n;
    let mut lo: u64 = 0;
    let mut hi: u64 = 131071;
    assert(four_n < 68718952449);
    assert((2 * hi + 1) * (2 * hi + 1) == 68718952449int) by (nonlinear_arith)
        requires
            hi == 131071,
    ;
    while lo < hi
        invariant
            lo <= hi <= 131071,
            four_n == 4 * n,
            four_n < (2 * hi + 1) * (2 * hi + 1),
            lo == 0 || (2 * lo - 1) * (2 * lo - 1) <= four_n,
        decreases hi - lo,
    {
        let mid = lo + (hi - lo) / 2;
        let s = 2 * mid + 1;
        assert(s * s <= 68718952449) by (nonlinear_arith)
            requires
                s <= 262143,
        ;
        if four_n < s * s {
            hi = mid;
        } else {
            lo = mid + 1;
        }
    }
    let r = lo;
    let b: u64 = if r < 700 {
        assert(four_n < (2 * 700 + 1) * (2 * 700 + 1)) by (nonlinear_arith)
            requires
                four_n < (2 * r + 1) * (2 * r + 1),
                r < 700,
        ;
        700
    } else {
        r
    };
    proof {
        assert(is_auto_block(old_len as int, b as int));
        lemma_auto_block_unique(old_len as int, b as int, auto_block(old_len as int));
    }
    b as usize
}

/// One block's fingerprint inside a [`Signature`].
#[derive(Debug, Clone, Copy, PartialEq, Eq)]
pub struct BlockSig {
    /// Weak rolling checksum of the block.
    pub weak: u32,
    /// Strong hash (BLAKE3 prefix) of the block.
    pub strong: StrongHash,
    /// Block length in bytes (all `block_size` except possibly the last).
    pub len: u32,
}

/// The mathematical value of a [`BlockSig`].
pub struct BlockView {
    pub weak: u32,
    pub strong: Seq<u8>,
    pub len: u32,
}

impl View for BlockSig {
    type V = BlockView;

    open spec fn view(&self) -> BlockView {
        BlockView { weak: self.weak, strong: self.strong@, len: self.len }
    }
}

/// A compact fingerprint of an `old` buffer: everything the delta encoder needs
/// to find reusable blocks, and nothing else.
#[derive(Debug, Clone, PartialEq, Eq)]
pub struct Signature {
    /// Block size the blocks were cut at.
    pub block_size: u32,
    /// Per-block fingerprints, in `old` order.
    pub blocks: Vec<BlockSig>,
}

/// The mathematical value of a [`Signature`].
pub struct SigView {
    pub block_size: u32,
    pub blocks: Seq<BlockView>,
}

impl View for Signature {
    type V = SigView;

    open spec fn view(&self) -> SigView {
        SigView { block_size: self.block_size, blocks: self.blocks@.map_values(|b: BlockSig| b@) }
    }
}

/// `n` saturated into a `u32`.
pub open spec fn sat_u32(n: int) -> u32 {
    if n <= u32::MAX {
        n as u32
    } else {
        u32::MAX
    }
}

/// The weak checksum of a window, as a `u32`.
pub open spec fn weak_u32(w: Seq<u8>) -> u32 {
    weak_checksum(w) as u32
}

/// `old` cut into consecutive blocks of `block` bytes; the last may be short.
pub open spec fn chunks_of(old: Seq<u8>, block: int) -> Seq<Seq<u8>>
    decreases old.len(),
{
    if block < 1 || old.len() == 0 {
        seq![]
    } else {
        let k = if block <= old.len() {
            block
        } else {
            old.len() as int
        };
        seq![old.take(k)] + chunks_of(old.skip(k), block)
    }
}

/// The fingerprint of one block.
pub open spec fn block_view_of(c: Seq<u8>) -> BlockView {
    BlockView { weak: weak_u32(c), strong: strong_digest(c), len: sat_u32(c.len() as int) }
}

/// The signature of `old` cut at `block` bytes.
pub open spec fn signature_spec(old: Seq<u8>, block: int) -> SigView {
    SigView {
        block_size: sat_u32(block),
        blocks: chunks_of(old, block).map_values(|c: Seq<u8>| block_view_of(c)),
    }
}

/// The block size [`Signature::compute`] cuts at.
pub open spec fn chosen_block(old_len: int, block_override: Option<usize>) -> int {
    match block_override {
        Some(b) => if b >= 1 {
            b as int
        } else {
            1
        },
        None => auto_block(old_len),
    }
}

proof fn lemma_weak_in_range(w: Seq<u8>)
    ensures
        0 <= weak_checksum(w) <= u32::MAX,
{
    let s = fresh_state(w);
    vstd::arithmetic::div_mod::lemma_mod_bound(s.a, 65536);
    vstd::arithmetic::div_mod::lemma_mod_bound(s.b, 65536);
}

impl Signature {
    /// Compute the signature of `old`.
    ///
    /// `block_override` forces a block size (raised to at least 1); otherwise
    /// [`block_size_for`] picks one from `old.len()`.
    pub fn compute(old: &[u8], block_override: Option<usize>) -> (sig: Self)
        ensures
            sig@ == signature_spec(old@, chosen_block(old@.len() as int, block_override)),
            sig@.block_size >= 1,
    {
        let block: usize = match block_override {
            Some(b) => if b >= 1 {
                b
            } else {
                1
            },
            None => block_size_for(old.len()),
        };
        let block_size: u32 = if block <= (u32::MAX as usize) {
            block as u32
        } else {
            u32::MAX
        };
        let len = old.len();
        let mut blocks: Vec<BlockSig> = Vec::new();
        let mut start: usize = 0;
        proof {
            assert(old@.skip(0) =~= old@);
        }
        while start < len
            invariant
                block >= 1,
                len == old@.len(),
                start <= len,
                chunks_of(old@, block as int).map_values(|c: Seq<u8>| block_view_of(c))
                    == blocks@.map_values(|b: BlockSig| b@) + chunks_of(
                    old@.skip(start as int),
                    block as int,
                ).map_values(|c: Seq<u8>| block_view_of(c)),
            decreases len - start,
        {
            let end: usize = if block <= len - start {
                start + block
            } else {
                len
            };
            let chunk = slice_subrange(old, start, end);
            let weak = RollingChecksum::new(chunk).value();
            let strong = strong_hash(chunk);
            let clen: u32 = if chunk.len() <= (u32::MAX as usize) {
                chunk.len() as u32
            } else {
                u32::MAX
            };
            let bs = BlockSig { weak, strong, len: clen };
            proof {
                let rest = old@.skip(start as int);
                let k = end - start;
                assert(rest.take(k as int) =~= chunk@);
                assert(rest.skip(k as int) =~= old@.skip(end as int));
                assert(chunks_of(rest, block as int) == seq![chunk@] + chunks_of(
                    old@.skip(end as int),
                    block as int,
                ));
                lemma_weak_in_range(chunk@);
                assert(bs@ == block_view_of(chunk@));
                let f = |c: Seq<u8>| block_view_of(c);
                assert((seq![chunk@] + chunks_of(old@.skip(end as int), block as int)).map_values(f)
                    =~= seq![bs@] + chunks_of(old@.skip(end as int), block as int).map_values(f));
                assert(blocks@.push(bs).map_values(|b: BlockSig| b@) =~= blocks@.map_values(
                    |b: BlockSig| b@,
                ).push(bs@));
            }
            blocks.push(bs);
            start = end;
        }
        proof {
            assert(old@.skip(start as int) =~= Seq::<u8>::empty());
            assert(chunks_of(old@.skip(start as int), block as int) =~= Seq::<Seq<u8>>::empty());
        }
        let sig = Self { block_size, blocks };
        proof {
            assert(sig@.blocks =~= signature_spec(
                old@,
                chosen_block(old@.len() as int, block_override),
            ).blocks);
        }
        sig
    }

    /// Number of blocks in the signature.
    pub fn len(&self) -> (n: usize)
        ensures
            n == self@.blocks.len(),
    {
        self.blocks.len()
    }

    /// Whether the signature is empty (the `old` buffer had no bytes).
    pub fn is_empty(&self) -> (b: bool)
        ensures
            b == (self@.blocks.len() == 0),
    {
        self.blocks.len() == 0
    }

    /// Whether encoding against this signature makes progress: the block
    /// size is positive, or no block is empty. Every computed signature is; a
    /// signature received from a peer is checked before use.
    pub fn is_scannable(&self) -> (b: bool)
        ensures
            b == scannable(self@),
    {
        if self.block_size > 0 {
            return true;
        }
        let mut i: usize = 0;
        while i < self.blocks.len()
            invariant
                self.block_size == 0,
                i <= self.blocks@.len(),
                forall|j: int| 0 <= j < i ==> #[trigger] self@.blocks[j].len > 0,
            decreases self.blocks@.len() - i,
        {
            if self.blocks[i].len == 0 {
                proof {
                    assert(self@.blocks[i as int].len == 0);
                }
                return false;
            }
            i += 1;
        }
        true
    }
}

/// The index a block is filed under: its position, saturated into a `u32`.
pub open spec fn index_u32(i: int) -> u32 {
    sat_u32(i)
}

/// Indices (as filed) of the first `n` blocks whose weak checksum is `w`, in order.
pub open spec fn weak_indices(blocks: Seq<BlockView>, w: u32, n: int) -> Seq<u32>
    decreases n,
{
    if n <= 0 {
        seq![]
    } else {
        weak_indices(blocks, w, n - 1) + if blocks[n - 1].weak == w {
            seq![index_u32(n - 1)]
        } else {
            seq![]
        }
    }
}

/// The first candidate block whose length and strong hash match `window`.
pub open spec fn find_in(blocks: Seq<BlockView>, cands: Seq<u32>, window: Seq<u8>) -> Option<u32>
    decreases cands.len(),
{
    if cands.len() == 0 {
        None
    } else {
        let c = cands[0];
        if (c as int) < blocks.len() && blocks[c as int].len as int == window.len()
            && blocks[c as int].strong == strong_digest(window) {
            Some(c)
        } else {
            find_in(blocks, cands.drop_first(), window)
        }
    }
}

/// The block the encoder reuses for `window` when its weak checksum is `w`:
/// the first block filed under `w` whose length and strong hash match.
pub open spec fn find_spec(blocks: Seq<BlockView>, w: u32, window: Seq<u8>) -> Option<u32> {
    find_in(blocks, weak_indices(blocks, w, blocks.len() as int), window)
}

proof fn lemma_weak_indices_bound(blocks: Seq<BlockView>, w: u32, n: int)
    requires
        n <= blocks.len(),
    ensures
        forall|j: int|
            0 <= j < weak_indices(blocks, w, n).len() ==> (weak_indices(blocks, w, n)[j] as int)
                < blocks.len(),
    decreases n,
{
    if n > 0 {
        lemma_weak_indices_bound(blocks, w, n - 1);
        let prev = weak_indices(blocks, w, n - 1);
        let tail = if blocks[n - 1].weak == w {
            seq![index_u32(n - 1)]
        } else {
            seq![]
        };
        assert(weak_indices(blocks, w, n) == prev + tail);
        assert forall|j: int| 0 <= j < (prev + tail).len() implies ((prev + tail)[j] as int) < blocks.len() by {
            if j >= prev.len() {
                assert((prev + tail)[j] == index_u32(n - 1));
            }
        }
    }
}

proof fn lemma_find_in_skip(blocks: Seq<BlockView>, cands: Seq<u32>, window: Seq<u8>, k: int)
    requires
        0 <= k < cands.len(),
    ensures
        find_in(blocks, cands.skip(k), window) == {
            let c = cands[k];
            if (c as int) < blocks.len() && blocks[c as int].len as int == window.len()
                && blocks[c as int].strong == strong_digest(window) {
                Some(c)
            } else {
                find_in(blocks, cands.skip(k + 1), window)
            }
        },
{
    assert(cands.skip(k).drop_first() =~= cands.skip(k + 1));
}

/// With no zero-length block, an empty window never matches.
proof fn lemma_find_in_empty_window(blocks: Seq<BlockView>, cands: Seq<u32>, window: Seq<u8>)
    requires
        window.len() == 0,
        forall|i: int| 0 <= i < blocks.len() ==> blocks[i].len > 0,
    ensures
        find_in(blocks, cands, window) is None,
    decreases cands.len(),
{
    if cands.len() > 0 {
        lemma_find_in_empty_window(blocks, cands.drop_first(), window);
    }
}

/// A found block is in range and matches the window's length and strong hash.
pub proof fn lemma_find_in_sound(blocks: Seq<BlockView>, cands: Seq<u32>, window: Seq<u8>)
    ensures
        find_in(blocks, cands, window) matches Some(c) ==> {
            &&& (c as int) < blocks.len()
            &&& blocks[c as int].len as int == window.len()
            &&& blocks[c as int].strong == strong_digest(window)
        },
    decreases cands.len(),
{
    if cands.len() > 0 {
        lemma_find_in_sound(blocks, cands.drop_first(), window);
    }
}

/// Acceleration structure built from a [`Signature`] at encode time: weak
/// checksum → indices of blocks sharing it.
struct Lookup<'a> {
    sig: &'a Signature,
    by_weak: HashMap<u32, Vec<u32>>,
}

impl<'a> Lookup<'a> {
    spec fn wf(&self) -> bool {
        forall|w: u32|
            #![trigger self.by_weak@.contains_key(w)]
            if self.by_weak@.contains_key(w) {
                self.by_weak@[w]@ == weak_indices(
                    self.sig@.blocks,
                    w,
                    self.sig@.blocks.len() as int,
                )
            } else {
                weak_indices(self.sig@.blocks, w, self.sig@.blocks.len() as int) == Seq::<
                    u32,
                >::empty()
            }
    }

    fn new(sig: &'a Signature) -> (l: Self)
        ensures
            l.wf(),
            l.sig == sig,
    {
        let mut by_weak: HashMap<u32, Vec<u32>> = HashMap::new();
        let n = sig.blocks.len();
        let mut i: usize = 0;
        let ghost blocks = sig@.blocks;
        while i < n
            invariant
                n == sig.blocks@.len(),
                blocks == sig@.blocks,
                i <= n,
                forall|w: u32|
                    #![trigger by_weak@.contains_key(w)]
                    if by_weak@.contains_key(w) {
                        by_weak@[w]@ == weak_indices(blocks, w, i as int)
                    } else {
                        weak_indices(blocks, w, i as int) == Seq::<u32>::empty()
                    },
            decreases n - i,
        {
            let idx: u32 = if i <= (u32::MAX as usize) {
                i as u32
            } else {
                u32::MAX
            };
            let weak = sig.blocks[i].weak;
            let mut list: Vec<u32> = match by_weak.remove(&weak) {
                Some(v) => v,
                None => Vec::new(),
            };
            list.push(idx);
            let ghost old_map = by_weak@;
            by_weak.insert(weak, list);
            proof {
                assert(blocks[i as int].weak == weak);
                assert forall|w: u32| #![trigger by_weak@.contains_key(w)]
                    if by_weak@.contains_key(w) {
                        by_weak@[w]@ == weak_indices(blocks, w, i + 1)
                    } else {
                        weak_indices(blocks, w, i + 1) == Seq::<u32>::empty()
                    } by {
                    if w == weak {
                        assert(weak_indices(blocks, w, i + 1) =~= weak_indices(
                            blocks,
                            w,
                            i as int,
                        ).push(idx));
                    } else {
                        assert(weak_indices(blocks, w, i + 1) =~= weak_indices(
                            blocks,
                            w,
                            i as int,
                        ));
                        assert(old_map.contains_key(w) == by_weak@.contains_key(w));
                    }
                }
            }
            i += 1;
        }
        Lookup { sig, by_weak }
    }

    /// Find a block matching `weak` and the window contents.
    fn find(&self, weak: u32, window: &[u8]) -> (r: Option<u32>)
        requires
            self.wf(),
        ensures
            r == find_spec(self.sig@.blocks, weak, window@),
    {
        let ghost blocks = self.sig@.blocks;
        let candidates = match self.by_weak.get(&weak) {
            Some(c) => c,
            None => {
                return None;
            },
        };
        let ghost cands = candidates@;
        proof {
            assert(self.by_weak@.contains_key(weak));
            lemma_weak_indices_bound(blocks, weak, blocks.len() as int);
            assert(cands.skip(0) =~= cands);
        }
        let mut strong: Option<StrongHash> = None;
        let mut k: usize = 0;
        while k < candidates.len()
            invariant
                cands == candidates@,
                cands == weak_indices(blocks, weak, blocks.len() as int),
                blocks == self.sig@.blocks,
                blocks.len() == self.sig.blocks@.len(),
                forall|j: int| 0 <= j < cands.len() ==> (cands[j] as int) < blocks.len(),
                k <= cands.len(),
                find_spec(blocks, weak, window@) == find_in(blocks, cands.skip(k as int), window@),
                strong matches Some(h) ==> h@ == strong_digest(window@),
            decreases cands.len() - k,
        {
            proof {
                lemma_find_in_skip(blocks, cands, window@, k as int);
            }
            let bi = candidates[k];
            let block = &self.sig.blocks[bi as usize];
            if (block.len as usize) != window.len() {
                k += 1;
                continue;
            }
            let sh = match strong {
                Some(h) => h,
                None => {
                    let h = strong_hash(window);
                    strong = Some(h);
                    h
                },
            };
            if same_hash(&block.strong, &sh) {
                return Some(bi);
            }
            k += 1;
        }
        proof {
            assert(cands.skip(k as int) =~= Seq::<u32>::empty());
        }
        None
    }
}

/// Whether two strong hashes are equal.
fn same_hash(x: &StrongHash, y: &StrongHash) -> (r: bool)
    ensures
        r == (x@ == y@),
{
    let mut i: usize = 0;
    while i < 16
        invariant
            i <= 16,
            x@.len() == 16,
            y@.len() == 16,
            forall|j: int| 0 <= j < i ==> x@[j] == y@[j],
        decreases 16 - i,
    {
        if x[i] != y[i] {
            return false;
        }
        i += 1;
    }
    proof {
        assert(x@ =~= y@);
    }
    true
}

/// A literal for `new[from..to]`, or nothing when the range is empty.
pub open spec fn literal_op(new: Seq<u8>, from: int, to: int) -> Seq<OpView> {
    if to > from {
        seq![OpView::Literal(new.subrange(from, to))]
    } else {
        seq![]
    }
}

/// The tail step: the rest of `new` from `lit` becomes one copy of a matching
/// block, or one literal.
pub open spec fn tail_ops(blocks: Seq<BlockView>, new: Seq<u8>, lit: int) -> Seq<OpView> {
    let rem = new.subrange(lit, new.len() as int);
    if rem.len() == 0 {
        seq![]
    } else {
        match find_spec(blocks, weak_u32(rem), rem) {
            Some(bi) => seq![OpView::Copy(bi)],
            None => seq![OpView::Literal(rem)],
        }
    }
}

/// The greedy scan: the window `new[pos..pos+b]` is reused when a block
/// matches it (flushing the pending literal that started at `lit`), otherwise
/// the window slides by one byte; at the end the tail step finishes.
pub open spec fn scan(blocks: Seq<BlockView>, b: int, new: Seq<u8>, pos: int, lit: int) -> Seq<
    OpView,
>
    decreases new.len() - pos,
{
    if pos < 0 || b < 0 || pos + b > new.len() {
        tail_ops(blocks, new, lit)
    } else {
        let window = new.subrange(pos, pos + b);
        match find_spec(blocks, weak_u32(window), window) {
            Some(bi) => if b >= 1 {
                literal_op(new, lit, pos) + seq![OpView::Copy(bi)] + if pos + 2 * b <= new.len() {
                    scan(blocks, b, new, pos + b, pos + b)
                } else {
                    tail_ops(blocks, new, pos + b)
                }
            } else {
                tail_ops(blocks, new, lit)
            },
            None => if pos + b < new.len() {
                scan(blocks, b, new, pos + 1, lit)
            } else {
                tail_ops(blocks, new, lit)
            },
        }
    }
}

/// The delta that [`encode_with_signature`] produces for `new` against `sig`.
/// A signature that offers nothing to copy from (no blocks, or a zero block
/// size with a zero-length block, which no honest signature has) gives `new`
/// as one literal.
pub open spec fn encode_spec(sig: SigView, new: Seq<u8>) -> DeltaView {
    let b = sig.block_size as int;
    DeltaView {
        block_size: sig.block_size,
        ops: if sig.blocks.len() == 0 || !scannable(sig) {
            if new.len() == 0 {
                seq![]
            } else {
                seq![OpView::Literal(new)]
            }
        } else if new.len() >= b {
            scan(sig.blocks, b, new, 0, 0)
        } else {
            tail_ops(sig.blocks, new, 0)
        },
    }
}

/// A signature the encoder can scan: a zero block size only with no zero-length block.
pub open spec fn scannable(sig: SigView) -> bool {
    sig.block_size > 0 || forall|i: int| 0 <= i < sig.blocks.len() ==> sig.blocks[i].len > 0
}

fn push_literal(ops: &mut Vec<Op>, new: &[u8], from: usize, to: usize)
    requires
        from <= new@.len(),
        to <= new@.len(),
    ensures
        ops_view(final(ops)@) == ops_view(old(ops)@) + literal_op(new@, from as int, to as int),
{
    if to > from {
        let bytes = slice_to_vec(slice_subrange(new, from, to));
        let op = Op::Literal(bytes);
        let ghost before = ops@;
        ops.push(op);
        proof {
            assert(ops_view(ops@) =~= ops_view(before).push(op@));
        }
    } else {
        proof {
            assert(ops_view(ops@) =~= ops_view(ops@) + Seq::<OpView>::empty());
        }
    }
}

fn push_op(ops: &mut Vec<Op>, op: Op)
    ensures
        ops_view(final(ops)@) == ops_view(old(ops)@).push(op@),
{
    let ghost before = ops@;
    let ghost v = op@;
    ops.push(op);
    proof {
        assert(ops_view(ops@) =~= ops_view(before).push(v));
    }
}

/// Encode `new` against a previously computed [`Signature`] of `old`.
///
/// This is the half of the delta engine that runs on the machine holding `new`
/// (the rsync "sender"): it needs only the signature, never `old` itself.
pub fn encode_with_signature(sig: &Signature, new: &[u8]) -> (d: Delta)
    ensures
        d@ == encode_spec(sig@, new@),
{
    let block = sig.block_size as usize;
    let block_size = sig.block_size;
    let ghost blocks = sig@.blocks;
    let ghost b = block as int;

    // Degenerate: nothing to copy from.
    if sig.blocks.len() == 0 || !sig.is_scannable() {
        let mut ops: Vec<Op> = Vec::new();
        if new.len() > 0 {
            push_op(&mut ops, Op::Literal(slice_to_vec(new)));
        }
        let d = Delta { block_size, ops };
        proof {
            assert(d@.ops =~= encode_spec(sig@, new@).ops);
        }
        return d;
    }
    let index = Lookup::new(sig);
    let mut ops: Vec<Op> = Vec::new();
    let n = new.len();
    let mut pos: usize = 0;
    let mut lit_start: usize = 0;
    let ghost target = encode_spec(sig@, new@).ops;
    proof {
        assert(ops_view(ops@) =~= Seq::<OpView>::empty());
        assert(ops_view(ops@) + target =~= target);
    }
    if n >= block {
        let mut rc = RollingChecksum::new(slice_subrange(new, 0, block));
        loop
            invariant_except_break
                pos + block <= n,
                lit_start <= pos,
                block >= 1 ==> rc@ == fresh_state(new@.subrange(pos as int, pos + block)),
                ops_view(ops@) + scan(blocks, b, new@, pos as int, lit_start as int) == target,
            invariant
                n == new@.len(),
                b == block,
                block == sig.block_size,
                blocks == sig@.blocks,
                blocks.len() > 0,
                index.wf(),
                index.sig == sig,
                scannable(sig@),
                target == scan(blocks, b, new@, 0, 0),
            ensures
                lit_start <= n,
                ops_view(ops@) + tail_ops(blocks, new@, lit_start as int) == target,
            decreases n - pos,
        {
            let window = slice_subrange(new, pos, pos + block);
            let weak = rc.value();
            let found = index.find(weak, window);
            proof {
                let w = window@;
                if block >= 1 {
                    lemma_weak_in_range(w);
                    assert(weak == weak_u32(w));
                } else {
                    lemma_find_in_empty_window(
                        blocks,
                        weak_indices(blocks, weak, blocks.len() as int),
                        w,
                    );
                    lemma_find_in_empty_window(
                        blocks,
                        weak_indices(blocks, weak_u32(w), blocks.len() as int),
                        w,
                    );
                }
                assert(found == find_spec(blocks, weak_u32(w), w));
            }
            match found {
                Some(bi) => {
                    proof {
                        assert(block >= 1);
                    }
                    let ghost pos0 = pos as int;
                    let ghost lit0 = lit_start as int;
                    let ghost before = ops_view(ops@);
                    push_literal(&mut ops, new, lit_start, pos);
                    push_op(&mut ops, Op::Copy(bi));
                    let ghost emitted = literal_op(new@, lit0, pos0) + seq![OpView::Copy(bi)];
                    proof {
                        assert(ops_view(ops@) =~= before + emitted);
                    }
                    pos = pos + block;
                    lit_start = pos;
                    if block <= n - pos {
                        rc = RollingChecksum::new(slice_subrange(new, pos, pos + block));
                        proof {
                            let rest = scan(blocks, b, new@, pos as int, pos as int);
                            assert(scan(blocks, b, new@, pos0, lit0) == emitted + rest);
                            assert(before + emitted + rest =~= before + (emitted + rest));
                        }
                        continue;
                    }
                    proof {
                        let rest = tail_ops(blocks, new@, pos as int);
                        assert(scan(blocks, b, new@, pos0, lit0) == emitted + rest);
                        assert(before + emitted + rest =~= before + (emitted + rest));
                    }
                    break;
                },
                None => {},
            }
            if pos + block < n {
                proof {
                    if block >= 1 {
                        let w = new@.subrange(pos as int, pos + block);
                        lemma_roll_equals_recompute(w, new@[pos + block]);
                        assert(w.drop_first().push(new@[pos + block]) =~= new@.subrange(
                            pos + 1,
                            pos + 1 + block,
                        ));
                    }
                }
                rc.roll(new[pos], new[pos + block]);
                pos += 1;
            } else {
                break;
            }
        }
    }
    let remaining = slice_subrange(new, lit_start, n);
    if remaining.len() > 0 {
        let weak = RollingChecksum::new(remaining).value();
        proof {
            lemma_weak_in_range(remaining@);
        }
        match index.find(weak, remaining) {
            Some(bi) => push_op(&mut ops, Op::Copy(bi)),
            None => push_op(&mut ops, Op::Literal(slice_to_vec(remaining))),
        }
    }
    let d = Delta { block_size, ops };
    proof {
        assert(ops_view(d.ops@) =~= target);
    }
    d
}

/// Encode the difference from `old` to `new`.
///
/// Computes the signature of `old` and encodes `new` against it.
/// `block_override` forces a block size (raised to at least 1); otherwise
/// [`block_size_for`] picks one.
pub fn encode(old: &[u8], new: &[u8], block_override: Option<usize>) -> (d: Delta)
    ensures
        d@ == encode_spec(
            signature_spec(old@, chosen_block(old@.len() as int, block_override)),
            new@,
        ),
{
    let sig = Signature::compute(old, block_override);
    encode_with_signature(&sig, new)
}


/// The bytes a copy of block `bi` stands for, or why it is refused.
pub open spec fn copy_piece(old: Seq<u8>, block: int, bi: u32) -> Result<Seq<u8>, DeltaApplyError> {
    let start = bi * block;
    if start > usize::MAX {
        Err(DeltaApplyError::BlockOffsetOverflow)
    } else if start >= old.len() && !(start == 0 && old.len() == 0) {
        Err(DeltaApplyError::BlockOutOfRange(bi))
    } else {
        let end = if start + block <= old.len() {
            start + block
        } else {
            old.len() as int
        };
        Ok(old.subrange(start, end))
    }
}

/// The bytes one operation stands for.
pub open spec fn op_piece(old: Seq<u8>, block: int, op: OpView) -> Result<Seq<u8>, DeltaApplyError> {
    match op {
        OpView::Literal(b) => Ok(b),
        OpView::Copy(bi) => copy_piece(old, block, bi),
    }
}

/// The result of applying `ops` to `old` in order: the concatenated pieces, or
/// the first refusal.
pub open spec fn apply_ops(old: Seq<u8>, block: int, ops: Seq<OpView>) -> Result<
    Seq<u8>,
    DeltaApplyError,
>
    decreases ops.len(),
{
    if ops.len() == 0 {
        Ok(seq![])
    } else {
        match apply_ops(old, block, ops.drop_last()) {
            Err(e) => Err(e),
            Ok(r) => match op_piece(old, block, ops.last()) {
                Ok(p) => Ok(r + p),
                Err(e) => Err(e),
            },
        }
    }
}

proof fn lemma_apply_ops_error_sticks(old: Seq<u8>, block: int, ops: Seq<OpView>, k: int)
    requires
        0 <= k <= ops.len(),
        apply_ops(old, block, ops.take(k)) is Err,
    ensures
        apply_ops(old, block, ops) == apply_ops(old, block, ops.take(k)),
    decreases ops.len() - k,
{
    if k < ops.len() {
        assert(ops.take(k + 1).drop_last() =~= ops.take(k));
        lemma_apply_ops_error_sticks(old, block, ops, k + 1);
    } else {
        assert(ops.take(k) =~= ops);
    }
}

/// Reconstruct `new` by applying `delta` to `old`.
///
/// Fails with [`Error::DeltaApply`] if a copy references a block that does not
/// exist in `old` (e.g. a corrupt or mismatched delta).
pub fn apply(old: &[u8], delta: &Delta) -> (r: Result<Vec<u8>, Error>)
    ensures
        match apply_ops(old@, delta.block_size as int, delta@.ops) {
            Ok(v) => r matches Ok(out) && out@ == v,
            Err(e) => r matches Err(Error::DeltaApply(e2)) && e2 == e,
        },
{
    let block = delta.block_size as usize;
    let ghost blk = block as int;
    let mut out: Vec<u8> = Vec::new();
    let mut i: usize = 0;
    let n = delta.ops.len();
    proof {
        assert(ops_view(delta.ops@.take(0)) =~= Seq::<OpView>::empty());
    }
    while i < n
        invariant
            n == delta.ops@.len(),
            blk == delta.block_size,
            blk == block as int,
            i <= n,
            apply_ops(old@, blk, ops_view(delta.ops@.take(i as int))) == Ok::<
                Seq<u8>,
                DeltaApplyError,
            >(out@),
        decreases n - i,
    {
        let ghost all = delta@.ops;
        proof {
            assert(ops_view(delta.ops@.take(i + 1)).drop_last() =~= ops_view(
                delta.ops@.take(i as int),
            ));
            assert(ops_view(delta.ops@.take(i + 1)).last() == delta.ops@[i as int]@);
            assert(ops_view(delta.ops@.take(i + 1)) =~= all.take(i + 1));
            assert(ops_view(delta.ops@.take(i as int)) =~= all.take(i as int));
            assert(all.take(i + 1).drop_last() =~= all.take(i as int));
            assert(all.take(i + 1).last() == delta.ops@[i as int]@);
        }
        match &delta.ops[i] {
            Op::Literal(bytes) => {
                let ghost before = out@;
                out.extend_from_slice(bytes.as_slice());
                proof {
                    assert(out@ =~= before + bytes@);
                }
            },
            Op::Copy(bi) => {
                let bix: usize = *bi as usize;
                let start = match bix.checked_mul(block) {
                    Some(s) => s,
                    None => {
                        proof {
                            assert(bix * block > usize::MAX);
                            assert(bix as int == *bi as int);
                            assert(blk == block as int);
                            assert(*bi as int * blk == bix * block) by (nonlinear_arith)
                                requires
                                    bix as int == *bi as int,
                                    blk == block as int,
                            ;
                            assert(op_piece(old@, blk, delta.ops@[i as int]@) is Err);
                            lemma_apply_ops_error_sticks(old@, blk, all, i + 1);
                        }
                        return Err(Error::DeltaApply(DeltaApplyError::BlockOffsetOverflow));
                    },
                };
                if start >= old.len() && !(start == 0 && old.len() == 0) {
                    proof {
                        lemma_apply_ops_error_sticks(old@, blk, all, i + 1);
                    }
                    return Err(Error::DeltaApply(DeltaApplyError::BlockOutOfRange(*bi)));
                }
                let end: usize = if block <= old.len() - start {
                    start + block
                } else {
                    old.len()
                };
                let piece = slice_subrange(old, start, end);
                let ghost before = out@;
                out.extend_from_slice(piece);
                proof {
                    assert(out@ =~= before + piece@);
                }
            },
        }
        i += 1;
    }
    proof {
        assert(delta.ops@.take(n as int) =~= delta.ops@);
    }
    Ok(out)
}


/// No window of `new` that the encoder could match against a block of `old`
/// has the block's strong hash without also having its bytes.
pub open spec fn collision_free(old: Seq<u8>, block: int, new: Seq<u8>) -> bool {
    forall|i: int, s: int, e: int|
        #![trigger chunks_of(old, block)[i], new.subrange(s, e)]
        0 <= i < chunks_of(old, block).len() && 0 <= s <= e <= new.len() && e - s
            == chunks_of(old, block)[i].len() && strong_digest(new.subrange(s, e)) == strong_digest(
            chunks_of(old, block)[i],
        ) ==> new.subrange(s, e) == chunks_of(old, block)[i]
}

#[verifier::spinoff_prover]
proof fn lemma_chunks_of_index(old: Seq<u8>, block: int, i: int)
    requires
        block >= 1,
        0 <= i < chunks_of(old, block).len(),
    ensures
        i * block < old.len(),
        chunks_of(old, block)[i] == old.subrange(
            i * block,
            if (i + 1) * block <= old.len() {
                (i + 1) * block
            } else {
                old.len() as int
            },
        ),
        1 <= chunks_of(old, block)[i].len() <= block,
    decreases old.len(),
{
    let k = if block <= old.len() {
        block
    } else {
        old.len() as int
    };
    let rest = old.skip(k);
    assert(chunks_of(old, block) == seq![old.take(k)] + chunks_of(rest, block));
    if i == 0 {
        assert(old.take(k) =~= old.subrange(0, k));
    } else {
        assert(chunks_of(old, block)[i] == chunks_of(rest, block)[i - 1]);
        lemma_chunks_of_index(rest, block, i - 1);
        assert((i - 1) * block + block == i * block) by (nonlinear_arith);
        assert(i * block + block == (i + 1) * block) by (nonlinear_arith);
        assert(k == block);
        let lo = (i - 1) * block;
        let hi = if i * block <= rest.len() {
            i * block
        } else {
            rest.len() as int
        };
        assert(rest.subrange(lo, hi) =~= old.subrange(lo + block, hi + block));
    }
}

proof fn lemma_chunks_len_bound(old: Seq<u8>, block: int)
    requires
        block >= 1,
    ensures
        chunks_of(old, block).len() <= old.len(),
    decreases old.len(),
{
    if old.len() > 0 {
        let k = if block <= old.len() {
            block
        } else {
            old.len() as int
        };
        lemma_chunks_len_bound(old.skip(k), block);
    }
}

proof fn lemma_apply_ops_concat(old: Seq<u8>, block: int, a: Seq<OpView>, b: Seq<OpView>)
    requires
        apply_ops(old, block, a) is Ok,
        apply_ops(old, block, b) is Ok,
    ensures
        apply_ops(old, block, a + b) == Ok::<Seq<u8>, DeltaApplyError>(
            apply_ops(old, block, a)->Ok_0 + apply_ops(old, block, b)->Ok_0,
        ),
    decreases b.len(),
{
    if b.len() == 0 {
        assert(a + b =~= a);
        assert(apply_ops(old, block, a)->Ok_0 + Seq::<u8>::empty() =~= apply_ops(old, block, a)->Ok_0);
    } else {
        lemma_apply_ops_concat(old, block, a, b.drop_last());
        assert((a + b).drop_last() =~= a + b.drop_last());
        assert((a + b).last() == b.last());
        let x = apply_ops(old, block, a)->Ok_0;
        let y = apply_ops(old, block, b.drop_last())->Ok_0;
        let p = op_piece(old, block, b.last())->Ok_0;
        assert(x + y + p =~= x + (y + p));
    }
}

proof fn lemma_apply_single(old: Seq<u8>, block: int, op: OpView)
    ensures
        apply_ops(old, block, seq![op]) == match op_piece(old, block, op) {
            Ok(p) => Ok::<Seq<u8>, DeltaApplyError>(p),
            Err(e) => Err(e),
        },
{
    assert(seq![op].drop_last() =~= Seq::<OpView>::empty());
    assert(seq![op].last() == op);
    assert(apply_ops(old, block, Seq::<OpView>::empty()) == Ok::<Seq<u8>, DeltaApplyError>(
        Seq::<u8>::empty(),
    ));
    assert(Seq::<u8>::empty() + op_piece(old, block, op)->Ok_0 =~= op_piece(old, block, op)->Ok_0);
}

/// A block the encoder picks for a window of `new` reproduces that window.
proof fn lemma_found_block_copies(old: Seq<u8>, block: int, new: Seq<u8>, s: int, e: int, w: u32)
    requires
        1 <= block <= u32::MAX,
        old.len() <= usize::MAX,
        collision_free(old, block, new),
        0 <= s <= e <= new.len(),
        find_spec(signature_spec(old, block).blocks, w, new.subrange(s, e)) is Some,
    ensures
        apply_ops(
            old,
            block,
            seq![OpView::Copy(find_spec(signature_spec(old, block).blocks, w, new.subrange(s, e))->Some_0)],
        ) == Ok::<Seq<u8>, DeltaApplyError>(new.subrange(s, e)),
{
    let blocks = signature_spec(old, block).blocks;
    let window = new.subrange(s, e);
    let cands = weak_indices(blocks, w, blocks.len() as int);
    lemma_find_in_sound(blocks, cands, window);
    let c = find_spec(blocks, w, window)->Some_0;
    let i = c as int;
    let chunks = chunks_of(old, block);
    lemma_chunks_of_index(old, block, i);
    let ch = chunks[i];
    assert(blocks[i] == block_view_of(ch));
    assert(ch.len() <= u32::MAX);
    assert(ch.len() == window.len());
    assert(chunks[i] == ch);
    assert(new.subrange(s, e) == chunks[i]);
    lemma_apply_single(old, block, OpView::Copy(c));
    assert(i * block < old.len());
    assert(c as int * block == i * block);
    assert((i + 1) * block == i * block + block) by (nonlinear_arith);
    assert(copy_piece(old, block, c) == Ok::<Seq<u8>, DeltaApplyError>(ch));
    assert(op_piece(old, block, OpView::Copy(c)) == Ok::<Seq<u8>, DeltaApplyError>(ch));
}

proof fn lemma_tail_applies(old: Seq<u8>, block: int, new: Seq<u8>, lit: int)
    requires
        1 <= block <= u32::MAX,
        old.len() <= usize::MAX,
        collision_free(old, block, new),
        0 <= lit <= new.len(),
    ensures
        apply_ops(old, block, tail_ops(signature_spec(old, block).blocks, new, lit)) == Ok::<
            Seq<u8>,
            DeltaApplyError,
        >(new.subrange(lit, new.len() as int)),
{
    let blocks = signature_spec(old, block).blocks;
    let rem = new.subrange(lit, new.len() as int);
    if rem.len() == 0 {
        assert(rem =~= Seq::<u8>::empty());
    } else {
        match find_spec(blocks, weak_u32(rem), rem) {
            Some(bi) => {
                lemma_found_block_copies(old, block, new, lit, new.len() as int, weak_u32(rem));
            },
            None => {
                lemma_apply_single(old, block, OpView::Literal(rem));
            },
        }
    }
}

proof fn lemma_literal_applies(old: Seq<u8>, block: int, new: Seq<u8>, from: int, to: int)
    requires
        0 <= from <= to <= new.len(),
    ensures
        apply_ops(old, block, literal_op(new, from, to)) == Ok::<Seq<u8>, DeltaApplyError>(
            new.subrange(from, to),
        ),
{
    if to > from {
        lemma_apply_single(old, block, OpView::Literal(new.subrange(from, to)));
    } else {
        assert(new.subrange(from, to) =~= Seq::<u8>::empty());
    }
}

proof fn lemma_scan_applies(old: Seq<u8>, block: int, new: Seq<u8>, pos: int, lit: int)
    requires
        1 <= block <= u32::MAX,
        old.len() <= usize::MAX,
        collision_free(old, block, new),
        0 <= lit <= pos,
        pos <= new.len(),
    ensures
        apply_ops(old, block, scan(signature_spec(old, block).blocks, block, new, pos, lit))
            == Ok::<Seq<u8>, DeltaApplyError>(new.subrange(lit, new.len() as int)),
    decreases new.len() - pos,
{
    let blocks = signature_spec(old, block).blocks;
    let n = new.len() as int;
    if pos + block > n {
        lemma_tail_applies(old, block, new, lit);
    } else {
        let window = new.subrange(pos, pos + block);
        match find_spec(blocks, weak_u32(window), window) {
            Some(bi) => {
                let lits = literal_op(new, lit, pos);
                let cp = seq![OpView::Copy(bi)];
                let rest = if pos + 2 * block <= n {
                    scan(blocks, block, new, pos + block, pos + block)
                } else {
                    tail_ops(blocks, new, pos + block)
                };
                if pos + 2 * block <= n {
                    lemma_scan_applies(old, block, new, pos + block, pos + block);
                } else {
                    lemma_tail_applies(old, block, new, pos + block);
                }
                lemma_literal_applies(old, block, new, lit, pos);
                lemma_found_block_copies(old, block, new, pos, pos + block, weak_u32(window));
                lemma_apply_ops_concat(old, block, lits, cp);
                lemma_apply_ops_concat(old, block, lits + cp, rest);
                assert(new.subrange(lit, pos) + window + new.subrange(pos + block, n) =~= new.subrange(lit, n));
            },
            None => {
                if pos + block < n {
                    lemma_scan_applies(old, block, new, pos + 1, lit);
                } else {
                    lemma_tail_applies(old, block, new, lit);
                }
            },
        }
    }
}

/// Applying the encoding of `new` against the signature of `old` reproduces
/// `new`: `apply(old, encode(old, new)) == new`, provided no window of `new`
/// collides with a block of `old` under the strong hash.
pub proof fn lemma_apply_encode_roundtrip(old: Seq<u8>, new: Seq<u8>, block: int)
    requires
        1 <= block <= u32::MAX,
        old.len() <= usize::MAX,
        collision_free(old, block, new),
    ensures
        apply_ops(old, block, encode_spec(signature_spec(old, block), new).ops) == Ok::<
            Seq<u8>,
            DeltaApplyError,
        >(new),
{
    let sig = signature_spec(old, block);
    let n = new.len() as int;
    assert(sig.block_size as int == block);
    assert(new.subrange(0, n) =~= new);
    if sig.blocks.len() == 0 {
        if n == 0 {
            assert(new =~= Seq::<u8>::empty());
        } else {
            lemma_apply_single(old, block, OpView::Literal(new));
        }
    } else if n >= block {
        lemma_scan_applies(old, block, new, 0, 0);
    } else {
        lemma_tail_applies(old, block, new, 0);
    }
}


/// Every operation is a copy.
pub open spec fn all_copies(ops: Seq<OpView>) -> bool {
    forall|k: int| 0 <= k < ops.len() ==> ops[k] is Copy
}

proof fn lemma_all_copies_no_literals(ops: Seq<OpView>)
    requires
        all_copies(ops),
    ensures
        literal_total(ops) == 0,
    decreases ops.len(),
{
    if ops.len() > 0 {
        assert(all_copies(ops.drop_last()));
        lemma_all_copies_no_literals(ops.drop_last());
        assert(ops.last() is Copy);
    }
}

proof fn lemma_chunk_count(old: Seq<u8>, block: int, i: int)
    requires
        block >= 1,
        i >= 0,
        i * block < old.len(),
    ensures
        i < chunks_of(old, block).len(),
    decreases old.len(),
{
    let k = if block <= old.len() {
        block
    } else {
        old.len() as int
    };
    if i > 0 {
        assert((i - 1) * block + block == i * block) by (nonlinear_arith);
        assert(k == block);
        lemma_chunk_count(old.skip(k), block, i - 1);
    }
}

proof fn lemma_find_in_hit(blocks: Seq<BlockView>, cands: Seq<u32>, window: Seq<u8>, j: int)
    requires
        0 <= j < cands.len(),
        (cands[j] as int) < blocks.len(),
        blocks[cands[j] as int].len as int == window.len(),
        blocks[cands[j] as int].strong == strong_digest(window),
    ensures
        find_in(blocks, cands, window) is Some,
    decreases cands.len(),
{
    if j > 0 {
        let c = cands[0];
        if !((c as int) < blocks.len() && blocks[c as int].len as int == window.len()
            && blocks[c as int].strong == strong_digest(window)) {
            assert(cands.drop_first()[j - 1] == cands[j]);
            lemma_find_in_hit(blocks, cands.drop_first(), window, j - 1);
        }
    }
}

proof fn lemma_weak_indices_contains(blocks: Seq<BlockView>, w: u32, n: int, i: int) -> (j: int)
    requires
        0 <= i < n <= blocks.len(),
        blocks[i].weak == w,
        i <= u32::MAX,
    ensures
        0 <= j < weak_indices(blocks, w, n).len(),
        weak_indices(blocks, w, n)[j] == i as u32,
    decreases n,
{
    if i == n - 1 {
        let prev = weak_indices(blocks, w, n - 1);
        assert(weak_indices(blocks, w, n) == prev + seq![index_u32(n - 1)]);
        prev.len() as int
    } else {
        let j = lemma_weak_indices_contains(blocks, w, n - 1, i);
        let prev = weak_indices(blocks, w, n - 1);
        let tail = if blocks[n - 1].weak == w {
            seq![index_u32(n - 1)]
        } else {
            seq![]
        };
        assert(weak_indices(blocks, w, n) == prev + tail);
        assert((prev + tail)[j] == prev[j]);
        j
    }
}

/// Every block of `old` is found when the encoder looks it up by its own contents.
proof fn lemma_own_chunk_found(old: Seq<u8>, block: int, i: int)
    requires
        1 <= block <= u32::MAX,
        0 <= i < chunks_of(old, block).len(),
        i <= u32::MAX,
    ensures
        find_spec(
            signature_spec(old, block).blocks,
            weak_u32(chunks_of(old, block)[i]),
            chunks_of(old, block)[i],
        ) is Some,
{
    let blocks = signature_spec(old, block).blocks;
    let ch = chunks_of(old, block)[i];
    lemma_chunks_of_index(old, block, i);
    assert(blocks[i] == block_view_of(ch));
    let j = lemma_weak_indices_contains(blocks, weak_u32(ch), blocks.len() as int, i);
    lemma_find_in_hit(blocks, weak_indices(blocks, weak_u32(ch), blocks.len() as int), ch, j);
}

proof fn lemma_scan_identical(old: Seq<u8>, block: int, i: int)
    requires
        1 <= block <= u32::MAX,
        chunks_of(old, block).len() <= u32::MAX + 1,
        0 <= i,
        i * block + block <= old.len(),
    ensures
        all_copies(scan(signature_spec(old, block).blocks, block, old, i * block, i * block)),
    decreases old.len() - i * block,
{
    let blocks = signature_spec(old, block).blocks;
    let n = old.len() as int;
    let pos = i * block;
    lemma_chunk_count(old, block, i);
    lemma_chunks_of_index(old, block, i);
    assert((i + 1) * block == i * block + block) by (nonlinear_arith);
    let window = old.subrange(pos, pos + block);
    assert(window == chunks_of(old, block)[i]);
    lemma_own_chunk_found(old, block, i);
    let bi = find_spec(blocks, weak_u32(window), window)->Some_0;
    assert(literal_op(old, pos, pos) =~= Seq::<OpView>::empty());
    let rest = if pos + 2 * block <= n {
        scan(blocks, block, old, pos + block, pos + block)
    } else {
        tail_ops(blocks, old, pos + block)
    };
    if pos + 2 * block <= n {
        lemma_scan_identical(old, block, i + 1);
    } else {
        let r = old.subrange(pos + block, n);
        if r.len() > 0 {
            lemma_chunk_count(old, block, i + 1);
            lemma_chunks_of_index(old, block, i + 1);
            assert((i + 2) * block == (i + 1) * block + block) by (nonlinear_arith);
            assert(r == chunks_of(old, block)[i + 1]);
            lemma_own_chunk_found(old, block, i + 1);
        }
    }
    let all = literal_op(old, pos, pos) + seq![OpView::Copy(bi)] + rest;
    assert forall|k: int| 0 <= k < all.len() implies all[k] is Copy by {
        if k > 0 {
            assert(all[k] == rest[k - 1]);
        }
    }
}

/// A buffer no longer than the block size is cut into at most one block:
/// itself (none when it is empty).
proof fn lemma_chunks_whole(old: Seq<u8>, block: int)
    requires
        block >= 1,
        old.len() <= block,
    ensures
        chunks_of(old, block) == (if old.len() == 0 {
            Seq::<Seq<u8>>::empty()
        } else {
            seq![old]
        }),
{
    if old.len() > 0 {
        let k = old.len() as int;
        assert(old.take(k) =~= old);
        assert(old.skip(k) =~= Seq::<u8>::empty());
        assert(chunks_of(old.skip(k), block) =~= Seq::<Seq<u8>>::empty());
        assert(chunks_of(old, block) =~= seq![old]);
    } else {
        assert(chunks_of(old, block) =~= Seq::<Seq<u8>>::empty());
    }
}

/// The round trip for every block size the encoder accepts: applying the
/// encoding of `new` against the signature of `old` cut at `block`, with the
/// block size the signature records, gives `new` back, provided no window of
/// `new` collides with a block of `old` under the strong hash. A block size
/// above `u32::MAX` is recorded as `u32::MAX`, so it is covered for an `old`
/// of at most `u32::MAX` bytes (one block, or none).
pub proof fn lemma_roundtrip_any_block(old: Seq<u8>, new: Seq<u8>, block: int)
    requires
        block >= 1,
        block <= u32::MAX || old.len() <= u32::MAX,
        old.len() <= usize::MAX,
        collision_free(old, block, new),
    ensures
        apply_ops(
            old,
            signature_spec(old, block).block_size as int,
            encode_spec(signature_spec(old, block), new).ops,
        ) == Ok::<Seq<u8>, DeltaApplyError>(new),
{
    if block <= u32::MAX {
        lemma_apply_encode_roundtrip(old, new, block);
    } else {
        let m = u32::MAX as int;
        lemma_chunks_whole(old, block);
        lemma_chunks_whole(old, m);
        assert(chunks_of(old, block) == chunks_of(old, m));
        assert(signature_spec(old, block) == signature_spec(old, m));
        assert(collision_free(old, m, new));
        lemma_apply_encode_roundtrip(old, new, m);
    }
}

/// An unchanged buffer re-encodes to pure copies with zero literal bytes
/// (for buffers of at most `2^32` blocks, whose indices fit a `u32`).
pub proof fn lemma_identical_is_all_copies(old: Seq<u8>, block: int)
    requires
        1 <= block <= u32::MAX,
        chunks_of(old, block).len() <= u32::MAX + 1,
    ensures
        all_copies(encode_spec(signature_spec(old, block), old).ops),
        literal_total(encode_spec(signature_spec(old, block), old).ops) == 0,
{
    let sig = signature_spec(old, block);
    let n = old.len() as int;
    let ops = encode_spec(sig, old).ops;
    if sig.blocks.len() == 0 {
        assert(old.len() == 0);
    } else if n >= block {
        assert(0 * block == 0);
        lemma_scan_identical(old, block, 0);
    } else {
        assert(old.subrange(0, n) =~= old);
        lemma_chunks_of_index(old, block, 0);
        assert(old == chunks_of(old, block)[0]);
        lemma_own_chunk_found(old, block, 0);
    }
    lemma_all_copies_no_literals(ops);
}

} // verus!
