//! Checksums for the delta engine.
//!
//! Two layers, exactly as in the rsync algorithm:
//!
//! * a **weak rolling checksum** ([`RollingChecksum`]) that is cheap to compute
//!   and `O(1)` to slide one byte along a buffer, used to *cheaply reject*
//!   non-matching windows; and
//! * a **strong hash** ([`strong_hash`]) — the first 16 bytes of a BLAKE3 digest —
//!   used to *confirm* a candidate match found via the weak checksum.
//!
//! With modulus `M = 65536` and a window of length `L`:
//!
//! ```text
//! a = (Σ_k          bytes[k]) mod M
//! b = (Σ_k (L - k) * bytes[k]) mod M
//! checksum = a + b * M
//! ```
//!
//! The accumulators are kept modulo `2^32` with wrapping `u32` arithmetic, which
//! is congruent modulo `M`; only reading the value out masks to 16 bits.

use vstd::arithmetic::div_mod::{
    lemma_add_mod_noop, lemma_add_mod_noop_right, lemma_mod_mod, lemma_mul_mod_noop_left,
    lemma_small_mod, lemma_sub_mod_noop_right,
};
use vstd::prelude::*;

verus! {

/// Length of the strong hash prefix kept per block, in bytes.
pub const STRONG_LEN: usize = 16;

/// A 16-byte strong hash (BLAKE3 prefix).
pub type StrongHash = [u8; 16];

/// Names what `blake3::hash` returns for `data`: its 32-byte BLAKE3 digest.
pub uninterp spec fn blake3_digest(data: Seq<u8>) -> [u8; 32];

/// Calls `blake3::hash(data)` and returns the digest's bytes. The contract
/// claims only that the result is the digest that `blake3_digest` names for
/// the same input; nothing is said about the BLAKE3 function itself.
#[verifier::external_body]
pub(crate) fn blake3_hash(data: &[u8]) -> (d: [u8; 32])
    ensures
        d == blake3_digest(data@),
{
    *blake3::hash(data).as_bytes()
}

#[verifier::external_type_specification]
#[verifier::external_body]
pub struct ExHasher(blake3::Hasher);

/// Names the bytes fed so far into a `blake3::Hasher`, in order.
pub uninterp spec fn hasher_input(h: blake3::Hasher) -> Seq<u8>;

/// Calls `blake3::Hasher::new()`: a hasher that has been fed nothing.
#[verifier::external_body]
fn hasher_new() -> (h: blake3::Hasher)
    ensures
        hasher_input(h) == Seq::<u8>::empty(),
{
    blake3::Hasher::new()
}

/// Calls `blake3::Hasher::update(chunk)`: the hasher has then been fed
/// `chunk` after what it had before.
#[verifier::external_body]
fn hasher_update(h: &mut blake3::Hasher, chunk: &[u8])
    ensures
        hasher_input(*final(h)) == hasher_input(*old(h)) + chunk@,
{
    h.update(chunk);
}

/// Calls `blake3::Hasher::finalize()`, which the crate documents as the hash
/// of everything fed so far: the same digest `blake3::hash` gives for those
/// bytes (named by `blake3_digest`).
#[verifier::external_body]
fn hasher_finalize(h: &blake3::Hasher) -> (d: [u8; 32])
    ensures
        d == blake3_digest(hasher_input(*h)),
{
    *h.finalize().as_bytes()
}

/// An incremental BLAKE3 hash of a file's contents, fed chunk by chunk as
/// they are read. Its view is the bytes fed so far.
pub struct ContentHasher {
    hasher: blake3::Hasher,
}

impl View for ContentHasher {
    type V = Seq<u8>;

    closed spec fn view(&self) -> Seq<u8> {
        hasher_input(self.hasher)
    }
}

impl ContentHasher {
    /// A hasher that has been fed nothing.
    pub fn new() -> (c: Self)
        ensures
            c@ == Seq::<u8>::empty(),
    {
        ContentHasher { hasher: hasher_new() }
    }

    /// Feeds the next chunk of the contents.
    pub fn update(&mut self, chunk: &[u8])
        ensures
            final(self)@ == old(self)@ + chunk@,
    {
        hasher_update(&mut self.hasher, chunk);
    }

    /// The BLAKE3 digest of everything fed so far, as if hashed in one piece.
    pub fn digest(&self) -> (d: [u8; 32])
        ensures
            d == blake3_digest(self@),
    {
        hasher_finalize(&self.hasher)
    }
}

/// The strong hash of a byte string: the first 16 bytes of its BLAKE3 digest.
pub open spec fn strong_digest(data: Seq<u8>) -> Seq<u8> {
    blake3_digest(data)@.take(16)
}

/// Strong hash of `data`: the first [`STRONG_LEN`] bytes of its BLAKE3 digest.
pub fn strong_hash(data: &[u8]) -> (h: StrongHash)
    ensures
        h@ == strong_digest(data@),
{
    let d = blake3_hash(data);
    let h = [
        d[0], d[1], d[2], d[3], d[4], d[5], d[6], d[7],
        d[8], d[9], d[10], d[11], d[12], d[13], d[14], d[15],
    ];
    proof {
        assert(h@ =~= d@.take(16));
    }
    h
}

/// `2^32`: the modulus of the wrapping accumulators.
pub open spec fn word() -> int {
    0x1_0000_0000
}

/// The index weight the accumulator subtracts for position `k` (positions past
/// `u32::MAX` count as zero, as the conversion to `u32` falls back to 0).
pub open spec fn index_weight(k: int) -> int {
    if k <= u32::MAX {
        k
    } else {
        0
    }
}

/// The window length a checksum records: the length, saturated at `u32::MAX`.
pub open spec fn window_len_of(w: Seq<u8>) -> int {
    if w.len() <= u32::MAX {
        w.len() as int
    } else {
        u32::MAX as int
    }
}

/// `Σ_k bytes[k]` over the integers.
pub open spec fn byte_sum(w: Seq<u8>) -> int
    decreases w.len(),
{
    if w.len() == 0 {
        0
    } else {
        byte_sum(w.drop_last()) + w.last() as int
    }
}

/// `Σ_k (len - k) * bytes[k]` over the integers.
pub open spec fn weighted_sum(w: Seq<u8>, len: int) -> int
    decreases w.len(),
{
    if w.len() == 0 {
        0
    } else {
        weighted_sum(w.drop_last(), len) + (len - index_weight(w.len() - 1)) * (w.last() as int)
    }
}

/// The abstract state of a rolling checksum: both accumulators reduced
/// modulo `2^32`, and the recorded window length.
pub struct RollingState {
    pub a: int,
    pub b: int,
    pub window_len: int,
}

/// The state a freshly computed checksum over `w` holds.
pub open spec fn fresh_state(w: Seq<u8>) -> RollingState {
    RollingState {
        a: byte_sum(w) % word(),
        b: weighted_sum(w, window_len_of(w)) % word(),
        window_len: window_len_of(w),
    }
}

/// The state after sliding one byte: `out_byte` leaves, `in_byte` enters.
pub open spec fn rolled_state(s: RollingState, out_byte: u8, in_byte: u8) -> RollingState {
    let a = (s.a - out_byte + in_byte) % word();
    RollingState { a, b: (s.b - s.window_len * out_byte + a) % word(), window_len: s.window_len }
}

/// The 32-bit value read out of accumulators `a` and `b`: `a mod M + (b mod M) * M`.
pub open spec fn checksum_value(a: int, b: int) -> int {
    a % 65536 + (b % 65536) * 65536
}

/// The weak checksum of a whole window.
pub open spec fn weak_checksum(w: Seq<u8>) -> int {
    checksum_value(fresh_state(w).a, fresh_state(w).b)
}

/// Rolling weak checksum over a fixed-length window.
#[derive(Debug, Clone, Copy)]
pub struct RollingChecksum {
    a: u32,
    b: u32,
    window_len: u32,
}

impl View for RollingChecksum {
    type V = RollingState;

    closed spec fn view(&self) -> RollingState {
        RollingState { a: self.a as int, b: self.b as int, window_len: self.window_len as int }
    }
}

proof fn lemma_add_wraps(x: u32, y: u32)
    ensures
        vstd::wrapping::u32_specs::wrapping_add(x, y) as int == (x + y) % word(),
{
    let s = x + y;
    if s < word() {
        lemma_small_mod(s as nat, word() as nat);
    } else {
        lemma_small_mod((s - word()) as nat, word() as nat);
        vstd::arithmetic::div_mod::lemma_mod_sub_multiples_vanish(s, word());
    }
}

proof fn lemma_sub_wraps(x: u32, y: u32)
    ensures
        vstd::wrapping::u32_specs::wrapping_sub(x, y) as int == (x - y) % word(),
{
    let d = x - y;
    if d >= 0 {
        lemma_small_mod(d as nat, word() as nat);
    } else {
        lemma_small_mod((d + word()) as nat, word() as nat);
        vstd::arithmetic::div_mod::lemma_mod_add_multiples_vanish(d, word());
    }
}

proof fn lemma_mul_wraps(x: u32, y: u32)
    ensures
        vstd::wrapping::u32_specs::wrapping_mul(x, y) as int == (x * y) % word(),
{
}

impl RollingChecksum {
    /// Compute the checksum freshly over `window`.
    ///
    /// The window length is fixed for the life of this value; `roll` keeps it
    /// constant.
    pub fn new(window: &[u8]) -> (r: Self)
        ensures
            r@ == fresh_state(window@),
    {
        let len = window.len();
        let window_len: u32 = if len <= (u32::MAX as usize) {
            len as u32
        } else {
            u32::MAX
        };
        let mut a: u32 = 0;
        let mut b: u32 = 0;
        let mut k: usize = 0;
        proof {
            assert(window@.take(0) =~= Seq::<u8>::empty());
        }
        while k < len
            invariant
                len == window@.len(),
                k <= len,
                window_len as int == window_len_of(window@),
                a as int == byte_sum(window@.take(k as int)) % word(),
                b as int == weighted_sum(window@.take(k as int), window_len as int) % word(),
            decreases len - k,
        {
            let kk: u32 = if k <= (u32::MAX as usize) {
                k as u32
            } else {
                0
            };
            let byte = window[k] as u32;
            let weight = window_len.wrapping_sub(kk);
            let term = weight.wrapping_mul(byte);
            let a2 = a.wrapping_add(byte);
            let b2 = b.wrapping_add(term);
            proof {
                let pre = window@.take(k as int);
                let next = window@.take(k + 1);
                assert(next.drop_last() =~= pre);
                assert(next.last() == window@[k as int]);
                let sa = byte_sum(pre);
                let sb = weighted_sum(pre, window_len as int);
                assert(byte_sum(next) == sa + byte);
                let w = window_len - index_weight(k as int);
                assert(kk as int == index_weight(k as int));
                assert(weighted_sum(next, window_len as int) == sb + w * byte);
                lemma_add_wraps(a, byte);
                lemma_add_mod_noop_right(byte as int, sa, word());
                assert(a2 as int == byte_sum(next) % word());
                lemma_sub_wraps(window_len, kk);
                lemma_mul_wraps(weight, byte);
                lemma_mul_mod_noop_left(w, byte as int, word());
                lemma_add_wraps(b, term);
                lemma_add_mod_noop(sb, w * byte, word());
                assert(b2 as int == weighted_sum(next, window_len as int) % word());
            }
            a = a2;
            b = b2;
            k += 1;
        }
        proof {
            assert(window@.take(len as int) =~= window@);
        }
        Self { a, b, window_len }
    }

    /// Slide the window one byte to the right.
    ///
    /// `out_byte` is the byte leaving the window on the left; `in_byte` is the
    /// byte entering on the right. The window length is preserved.
    pub fn roll(&mut self, out_byte: u8, in_byte: u8)
        ensures
            final(self)@ == rolled_state(old(self)@, out_byte, in_byte),
    {
        let out = out_byte as u32;
        let in_ = in_byte as u32;
        let a1 = self.a.wrapping_sub(out);
        let a2 = a1.wrapping_add(in_);
        let lo = self.window_len.wrapping_mul(out);
        let b1 = self.b.wrapping_sub(lo);
        let b2 = b1.wrapping_add(a2);
        proof {
            let s = self@;
            lemma_sub_wraps(self.a, out);
            lemma_add_wraps(a1, in_);
            lemma_add_mod_noop_right(in_ as int, s.a - out, word());
            assert(a2 as int == (s.a - out + in_) % word());
            lemma_mul_wraps(self.window_len, out);
            lemma_sub_wraps(self.b, lo);
            lemma_sub_mod_noop_right(s.b, s.window_len * out, word());
            lemma_add_wraps(b1, a2);
            lemma_add_mod_noop(s.b - s.window_len * out, a2 as int, word());
            lemma_small_mod(a2 as nat, word() as nat);
            assert(b2 as int == (s.b - s.window_len * out + a2) % word());
        }
        self.a = a2;
        self.b = b2;
    }

    /// The current checksum value, `a + b * M`, with `a` and `b` reduced mod `M`.
    pub fn value(&self) -> (v: u32)
        ensures
            v as int == checksum_value(self@.a, self@.b),
    {
        let a = self.a;
        let b = self.b;
        let lo = a & 0xFFFF;
        let hi = b & 0xFFFF;
        proof {
            assert(a & 0xFFFF == a % 65536) by (bit_vector);
            assert(b & 0xFFFF == b % 65536) by (bit_vector);
            assert(hi < 65536 && lo < 65536);
            assert((hi << 16) == hi * 65536) by (bit_vector)
                requires
                    hi < 65536,
            ;
            assert((lo | (hi << 16)) == lo + (hi << 16)) by (bit_vector)
                requires
                    lo < 65536,
                    hi < 65536,
            ;
        }
        lo | (hi << 16)
    }

    /// The fixed window length this checksum tracks.
    pub fn window_len(&self) -> (n: u32)
        ensures
            n as int == self@.window_len,
    {
        self.window_len
    }
}

proof fn lemma_byte_sum_drop_first(s: Seq<u8>)
    requires
        s.len() >= 1,
    ensures
        byte_sum(s) == s[0] + byte_sum(s.drop_first()),
    decreases s.len(),
{
    if s.len() == 1 {
        assert(s.drop_last() =~= Seq::<u8>::empty());
        assert(s.drop_first() =~= Seq::<u8>::empty());
    } else {
        lemma_byte_sum_drop_first(s.drop_last());
        assert(s.drop_first().drop_last() =~= s.drop_last().drop_first());
    }
}

proof fn lemma_weighted_sum_drop_first(s: Seq<u8>, len: int)
    requires
        s.len() >= 1,
        s.len() <= u32::MAX + 1,
    ensures
        weighted_sum(s.drop_first(), len) == weighted_sum(s, len) - len * s[0] + byte_sum(
            s.drop_first(),
        ),
    decreases s.len(),
{
    if s.len() == 1 {
        assert(s.drop_last() =~= Seq::<u8>::empty());
        assert(s.drop_first() =~= Seq::<u8>::empty());
    } else {
        let n = s.len() as int;
        lemma_weighted_sum_drop_first(s.drop_last(), len);
        assert(s.drop_first().drop_last() =~= s.drop_last().drop_first());
        assert(s.drop_first().last() == s.last());
        assert(index_weight(n - 2) == n - 2);
        assert(index_weight(n - 1) == n - 1);
        assert((len - (n - 2)) * s.last() == (len - (n - 1)) * s.last() + s.last()) by (
        nonlinear_arith);
    }
}

proof fn lemma_weighted_sum_push(s: Seq<u8>, x: u8, len: int)
    requires
        s.len() <= u32::MAX,
    ensures
        weighted_sum(s.push(x), len) == weighted_sum(s, len) + (len - s.len()) * x,
        byte_sum(s.push(x)) == byte_sum(s) + x,
{
    assert(s.push(x).drop_last() =~= s);
}

/// Rolling a fresh checksum of a window by one byte gives exactly the fresh
/// checksum of the shifted window: `roll(new(w), w[0], x) == new(w[1..] ++ [x])`.
pub proof fn lemma_roll_equals_recompute(w: Seq<u8>, in_byte: u8)
    requires
        1 <= w.len() <= u32::MAX,
    ensures
        rolled_state(fresh_state(w), w[0], in_byte) == fresh_state(w.drop_first().push(in_byte)),
{
    let len = w.len() as int;
    let w2 = w.drop_first().push(in_byte);
    let m = word();
    lemma_byte_sum_drop_first(w);
    lemma_weighted_sum_drop_first(w, len);
    lemma_weighted_sum_push(w.drop_first(), in_byte, len);
    assert(window_len_of(w2) == len);
    let sa = byte_sum(w);
    let sb = weighted_sum(w, len);
    let sa2 = byte_sum(w2);
    assert(sa2 == sa - w[0] + in_byte);
    assert(w.drop_first().len() == len - 1);
    assert((len - (len - 1)) * in_byte == in_byte) by (nonlinear_arith);
    assert(weighted_sum(w2, len) == weighted_sum(w.drop_first(), len) + in_byte);
    assert(sa2 == byte_sum(w.drop_first()) + in_byte);
    assert(weighted_sum(w2, len) == sb - len * w[0] + sa2);
    // a component
    lemma_add_mod_noop_right(in_byte - w[0], sa, m);
    assert((sa % m - w[0] + in_byte) == (in_byte - w[0]) + sa % m);
    assert((sa % m - w[0] + in_byte) % m == sa2 % m);
    // b component
    lemma_sub_mod_noop_right(sb, len * w[0], m);
    let t = sb % m - len * w[0];
    lemma_add_mod_noop_right(-(len * w[0]) + sa2 % m, sb, m);
    assert(t + sa2 % m == (-(len * w[0]) + sa2 % m) + sb % m);
    lemma_add_mod_noop_right(sb - len * w[0], sa2, m);
    assert((t + sa2 % m) % m == (sb - len * w[0] + sa2) % m);
}

/// Reading out the value of a tracked state gives the weak checksum of the window.
pub proof fn lemma_value_of_fresh(w: Seq<u8>)
    ensures
        checksum_value(fresh_state(w).a, fresh_state(w).b) == byte_sum(w) % 65536 + (
        weighted_sum(w, window_len_of(w)) % 65536) * 65536,
{
    lemma_mod_mod(byte_sum(w), 65536, 65536);
    lemma_mod_mod(weighted_sum(w, window_len_of(w)), 65536, 65536);
}

/// Two integers congruent modulo `65536` stay so when the same amount is added.
proof fn lemma_congruent_add(x: int, y: int, z: int)
    requires
        x % 65536 == y % 65536,
    ensures
        (x + z) % 65536 == (y + z) % 65536,
{
    lemma_add_mod_noop(x, z, 65536);
    lemma_add_mod_noop(y, z, 65536);
}

/// The value read out of two accumulators determines both modulo `65536`.
proof fn lemma_value_digits(a1: int, b1: int, a2: int, b2: int)
    requires
        checksum_value(a1, b1) == checksum_value(a2, b2),
    ensures
        a1 % 65536 == a2 % 65536,
        b1 % 65536 == b2 % 65536,
{
    let x1 = a1 % 65536;
    let y1 = b1 % 65536;
    let x2 = a2 % 65536;
    let y2 = b2 % 65536;
    assert(x1 + y1 * 65536 == x2 + y2 * 65536);
    assert(y1 == y2) by (nonlinear_arith)
        requires
            0 <= x1 < 65536,
            0 <= x2 < 65536,
            0 <= y1,
            0 <= y2,
            x1 + y1 * 65536 == x2 + y2 * 65536,
    ;
}

/// Rolling any checksum by one byte gives the value that recomputing over
/// the shifted window gives, as long as the checksum tracks a window of that
/// length and currently reads the same value as a fresh checksum of the
/// window: what is rolled need not have been built by `new`.
pub proof fn lemma_roll_same_value(s: RollingState, w: Seq<u8>, in_byte: u8)
    requires
        1 <= w.len() <= u32::MAX,
        s.window_len == w.len(),
        checksum_value(s.a, s.b) == weak_checksum(w),
    ensures
        checksum_value(rolled_state(s, w[0], in_byte).a, rolled_state(s, w[0], in_byte).b)
            == weak_checksum(w.drop_first().push(in_byte)),
        rolled_state(s, w[0], in_byte).window_len == w.len(),
{
    let f = fresh_state(w);
    lemma_roll_equals_recompute(w, in_byte);
    lemma_value_digits(s.a, s.b, f.a, f.b);
    let o = w[0] as int;
    let x = in_byte as int;
    // a component
    lemma_congruent_add(s.a, f.a, x - o);
    let sa = (s.a - o + x) % word();
    let fa = (f.a - o + x) % word();
    lemma_mod_mod(s.a - o + x, 65536, 65536);
    lemma_mod_mod(f.a - o + x, 65536, 65536);
    assert(sa % 65536 == fa % 65536);
    // b component
    lemma_congruent_add(s.b, f.b, -(s.window_len * o));
    lemma_congruent_add(sa, fa, s.b - s.window_len * o);
    lemma_congruent_add(s.b - s.window_len * o, f.b - s.window_len * o, fa);
    assert((s.b - s.window_len * o + sa) % 65536 == (f.b - f.window_len * o + fa) % 65536);
    lemma_mod_mod(s.b - s.window_len * o + sa, 65536, 65536);
    lemma_mod_mod(f.b - f.window_len * o + fa, 65536, 65536);
}

/// The state after sliding one byte pair `(out, in)` at a time, in order.
pub open spec fn rolled_states(s: RollingState, steps: Seq<(u8, u8)>) -> RollingState
    decreases steps.len(),
{
    if steps.len() == 0 {
        s
    } else {
        rolled_states(rolled_state(s, steps[0].0, steps[0].1), steps.drop_first())
    }
}

/// A checksum's window length is fixed for its life: however many times it
/// is rolled, it still tracks the window length it was built with.
pub proof fn lemma_window_len_fixed(s: RollingState, steps: Seq<(u8, u8)>)
    ensures
        rolled_states(s, steps).window_len == s.window_len,
    decreases steps.len(),
{
    if steps.len() > 0 {
        lemma_window_len_fixed(rolled_state(s, steps[0].0, steps[0].1), steps.drop_first());
    }
}

} // verus!
