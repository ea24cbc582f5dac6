//! What the running kernel offers to the Linux copy backends.

use vstd::prelude::*;

use crate::text::chars_of;

verus! {

/// An ASCII decimal digit.
pub open spec fn is_digit(c: char) -> bool {
    '0' <= c && c <= '9'
}

/// The value of a run of decimal digits.
pub open spec fn decimal_value(p: Seq<char>) -> int
    decreases p.len(),
{
    if p.len() == 0 {
        0
    } else {
        decimal_value(p.drop_last()) * 10 + (p.last() as int - '0' as int)
    }
}

/// Index of the first character of `s` that is not a digit, or `s.len()`.
pub open spec fn digits_end(s: Seq<char>) -> int
    decreases s.len(),
{
    if s.len() == 0 {
        0
    } else if !is_digit(s[0]) {
        0
    } else {
        1 + digits_end(s.drop_first())
    }
}

/// A run of digits parsed as a `u32`: 0 when it is empty or too large (as a
/// failed parse falls back to 0).
pub open spec fn number_or_zero(p: Seq<char>) -> u32 {
    if p.len() == 0 || decimal_value(p) > u32::MAX {
        0
    } else {
        decimal_value(p) as u32
    }
}

/// The kernel's (major, minor) version from its release string: the first
/// two pieces of the string split at every non-digit character.
pub open spec fn release_version(s: Seq<char>) -> (u32, u32) {
    let i0 = digits_end(s);
    let major = number_or_zero(s.take(i0));
    if i0 >= s.len() {
        (major, 0)
    } else {
        let rest = s.skip(i0 + 1);
        (major, number_or_zero(rest.take(digits_end(rest))))
    }
}

proof fn lemma_digits_end(s: Seq<char>)
    ensures
        0 <= digits_end(s) <= s.len(),
        digits_end(s) < s.len() ==> !is_digit(s[digits_end(s)]),
        forall|j: int| 0 <= j < digits_end(s) ==> is_digit(#[trigger] s[j]),
    decreases s.len(),
{
    if s.len() > 0 && is_digit(s[0]) {
        lemma_digits_end(s.drop_first());
        assert forall|j: int| 0 <= j < digits_end(s) implies is_digit(#[trigger] s[j]) by {
            if j > 0 {
                assert(s[j] == s.drop_first()[j - 1]);
            }
        }
    }
}

proof fn lemma_decimal_nonneg(p: Seq<char>)
    requires
        forall|j: int| 0 <= j < p.len() ==> is_digit(#[trigger] p[j]),
    ensures
        decimal_value(p) >= 0,
    decreases p.len(),
{
    if p.len() > 0 {
        lemma_decimal_nonneg(p.drop_last());
    }
}

/// Parses the digits `cs[from..to]` as a `u32`, 0 when empty or too large.
fn parse_run(cs: &[char], from: usize, to: usize) -> (n: u32)
    requires
        from <= to <= cs@.len(),
        forall|j: int| from <= j < to ==> is_digit(#[trigger] cs@[j]),
    ensures
        n == number_or_zero(cs@.subrange(from as int, to as int)),
{
    if from == to {
        return 0;
    }
    let mut acc: u32 = 0;
    let mut i: usize = from;
    while i < to
        invariant
            from <= i <= to <= cs@.len(),
            forall|j: int| from <= j < to ==> is_digit(#[trigger] cs@[j]),
            acc as int == decimal_value(cs@.subrange(from as int, i as int)),
        decreases to - i,
    {
        proof {
            let p = cs@.subrange(from as int, i + 1);
            assert(p.drop_last() =~= cs@.subrange(from as int, i as int));
            assert(p.last() == cs@[i as int]);
            assert(is_digit(cs@[i as int]));
        }
        let d = (cs[i] as u32) - ('0' as u32);
        let next = match acc.checked_mul(10) {
            Some(m) => m.checked_add(d),
            None => None,
        };
        match next {
            Some(v) => {
                acc = v;
            },
            None => {
                proof {
                    let p = cs@.subrange(from as int, i + 1);
                    assert(decimal_value(p) > u32::MAX);
                    lemma_growing_stays_large(cs@, from as int, i + 1, to as int);
                }
                return 0;
            },
        }
        i += 1;
    }
    acc
}

proof fn lemma_growing_stays_large(cs: Seq<char>, from: int, k: int, to: int)
    requires
        0 <= from <= k <= to <= cs.len(),
        forall|j: int| from <= j < to ==> is_digit(#[trigger] cs[j]),
        decimal_value(cs.subrange(from, k)) > u32::MAX,
    ensures
        decimal_value(cs.subrange(from, to)) > u32::MAX,
    decreases to - k,
{
    if k < to {
        let p = cs.subrange(from, k + 1);
        assert(p.drop_last() =~= cs.subrange(from, k));
        assert(p.last() == cs[k]);
        assert(is_digit(cs[k]));
        lemma_growing_stays_large(cs, from, k + 1, to);
    }
}

/// The kernel's (major, minor) version from its release string (see
/// [`release_version`]).
pub fn parse_release(release: &str) -> (v: (u32, u32))
    ensures
        v == release_version(release@),
{
    let cs = chars_of(release);
    let ghost s = release@;
    let mut i0: usize = 0;
    proof {
        lemma_digits_end(s);
    }
    while i0 < cs.len() && '0' <= cs[i0] && cs[i0] <= '9'
        invariant
            cs@ == s,
            i0 <= digits_end(s),
            0 <= digits_end(s) <= s.len(),
            digits_end(s) < s.len() ==> !is_digit(s[digits_end(s)]),
            forall|j: int| 0 <= j < digits_end(s) ==> is_digit(#[trigger] s[j]),
        decreases cs@.len() - i0,
    {
        i0 += 1;
    }
    let major = parse_run(cs.as_slice(), 0, i0);
    proof {
        assert(cs@.subrange(0, i0 as int) =~= s.take(i0 as int));
    }
    if i0 >= cs.len() {
        return (major, 0);
    }
    let ghost rest = s.skip(i0 + 1);
    proof {
        lemma_digits_end(rest);
    }
    let start = i0 + 1;
    let mut i1: usize = start;
    while i1 < cs.len() && '0' <= cs[i1] && cs[i1] <= '9'
        invariant
            cs@ == s,
            start == i0 + 1,
            start <= i1,
            i1 - start <= digits_end(rest),
            rest == s.skip(start as int),
            0 <= digits_end(rest) <= rest.len(),
            digits_end(rest) < rest.len() ==> !is_digit(rest[digits_end(rest)]),
            forall|j: int| 0 <= j < digits_end(rest) ==> is_digit(#[trigger] rest[j]),
        decreases cs@.len() - i1,
    {
        proof {
            assert(rest[i1 - start] == s[i1 as int]);
        }
        i1 += 1;
    }
    proof {
        if i1 < cs.len() {
            assert(rest[i1 - start] == s[i1 as int]);
        }
        assert(i1 - start == digits_end(rest));
        assert forall|j: int| start <= j < i1 implies is_digit(#[trigger] cs@[j]) by {
            assert(rest[j - start] == s[j]);
        }
        assert(cs@.subrange(start as int, i1 as int) =~= rest.take(digits_end(rest)));
    }
    let minor = parse_run(cs.as_slice(), start, i1);
    (major, minor)
}

/// A kernel of this release supports the splice opcode reliably: 5.19 or
/// later.
pub open spec fn splice_ok(release: Seq<char>) -> bool {
    let (major, minor) = release_version(release);
    major > 5 || (major == 5 && minor >= 19)
}

/// Whether a kernel of this release supports the splice opcode (see
/// [`splice_ok`]).
pub fn release_supports_splice(release: &str) -> (r: bool)
    ensures
        r == splice_ok(release@),
{
    let (major, minor) = parse_release(release);
    major > 5 || (major == 5 && minor >= 19)
}

/// Calls `rustix::system::uname()` and returns its release string, or `None`
/// when that is not UTF-8. Nothing is claimed of it: it describes the running
/// machine.
#[verifier::external_body]
fn kernel_release() -> (r: Option<String>) {
    match rustix::system::uname().release().to_str() {
        Ok(text) => Some(text.to_owned()),
        Err(_) => None,
    }
}

/// The release a kernel is judged by: its release string, or `"0.0"` (too
/// old for splice) when it has none readable.
pub open spec fn judged_release(release: Option<Seq<char>>) -> Seq<char> {
    match release {
        Some(r) => r,
        None => "0.0"@,
    }
}

/// Whether the running kernel supports the splice opcode (see
/// [`release_supports_splice`]). The answer is [`splice_ok`] of the release
/// the kernel reports, an unreadable release counting as `"0.0"`; which
/// release that is depends on the machine.
pub fn kernel_supports_splice() -> (r: bool)
    ensures
        exists|release: Option<Seq<char>>| r == #[trigger] splice_ok(judged_release(release)),
{
    let release = kernel_release();
    let r = match release {
        Some(text) => {
            let r = release_supports_splice(text.as_str());
            proof {
                assert(r == splice_ok(judged_release(Some(text@))));
            }
            r
        },
        None => {
            let r = release_supports_splice("0.0");
            proof {
                assert(r == splice_ok(judged_release(None)));
            }
            r
        },
    };
    r
}

} // verus!
