//! Names for temporary files written beside their final destination.

use vstd::prelude::*;

use crate::text::{push_char, push_text};

verus! {

/// Calls `rand::random::<u64>()`. Nothing is claimed of the value: it is
/// random.
#[verifier::external_body]
fn random_u64() -> (r: u64) {
    rand::random::<u64>()
}

/// The lowercase hexadecimal digit for `d` (below sixteen).
pub open spec fn hex_digit(d: nat) -> char {
    if d < 10 {
        crate::console::digit_char(d)
    } else if d == 10 {
        'a'
    } else if d == 11 {
        'b'
    } else if d == 12 {
        'c'
    } else if d == 13 {
        'd'
    } else if d == 14 {
        'e'
    } else {
        'f'
    }
}

/// The last `width` hexadecimal digits of `n`, zero-padded, most
/// significant first.
pub open spec fn hex_digits(n: nat, width: nat) -> Seq<char>
    decreases width,
{
    if width == 0 {
        seq![]
    } else {
        hex_digits(n / 16, (width - 1) as nat).push(hex_digit(n % 16))
    }
}

fn hex(d: u64) -> (c: char)
    requires
        d < 16,
    ensures
        c == hex_digit(d as nat),
{
    if d == 0 {
        '0'
    } else if d == 1 {
        '1'
    } else if d == 2 {
        '2'
    } else if d == 3 {
        '3'
    } else if d == 4 {
        '4'
    } else if d == 5 {
        '5'
    } else if d == 6 {
        '6'
    } else if d == 7 {
        '7'
    } else if d == 8 {
        '8'
    } else if d == 9 {
        '9'
    } else if d == 10 {
        'a'
    } else if d == 11 {
        'b'
    } else if d == 12 {
        'c'
    } else if d == 13 {
        'd'
    } else if d == 14 {
        'e'
    } else {
        'f'
    }
}

fn push_hex(s: &mut String, n: u64, width: u32)
    ensures
        final(s)@ == old(s)@ + hex_digits(n as nat, width as nat),
    decreases width,
{
    let ghost start = s@;
    if width > 0 {
        push_hex(s, n / 16, width - 1);
        push_char(s, hex(n % 16));
        proof {
            assert(start + hex_digits(n as nat, width as nat) =~= (start + hex_digits(
                (n / 16) as nat,
                (width - 1) as nat,
            )).push(hex_digit((n % 16) as nat)));
        }
    } else {
        proof {
            assert(start + hex_digits(n as nat, 0) =~= start);
        }
    }
}

/// `prefix` followed by `r` as sixteen lowercase hexadecimal digits.
pub open spec fn temp_name_spec(prefix: Seq<char>, r: u64) -> Seq<char> {
    prefix + hex_digits(r as nat, 16)
}

/// `prefix` followed by `r` as sixteen lowercase hexadecimal digits (see
/// [`temp_name_spec`]).
pub fn temp_name(prefix: &str, r: u64) -> (s: String)
    ensures
        s@ == temp_name_spec(prefix@, r),
{
    let mut s = String::new();
    push_text(&mut s, prefix);
    push_hex(&mut s, r, 16);
    proof {
        assert(s@ =~= prefix@ + hex_digits(r as nat, 16));
    }
    s
}

/// A fresh temporary name: `prefix` and a random 64-bit number in hex.
pub fn fresh_temp_name(prefix: &str) -> (s: String)
    ensures
        exists|r: u64| s@ == #[trigger] temp_name_spec(prefix@, r),
{
    let r = random_u64();
    temp_name(prefix, r)
}

} // verus!
