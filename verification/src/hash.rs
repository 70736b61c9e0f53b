//! Deterministic document identifiers.
//!
//! A document's identifier is derived from its source path alone, by a
//! Fowler–Noll–Vo fold over the path's characters rendered in decimal, so
//! that one path always yields one identifier, within a pass and across
//! passes.

use vstd::prelude::*;

verus! {

/// Offset basis of the 64-bit Fowler–Noll–Vo fold.
pub const FNV_OFFSET: u64 = 0xcbf29ce484222325;

/// Prime of the 64-bit Fowler–Noll–Vo fold.
pub const FNV_PRIME: u64 = 0x100000001b3;

/// The hash of the first `n` characters of `s`.
pub open spec fn fnv_fold(s: Seq<char>, n: int) -> u64
    recommends
        0 <= n <= s.len(),
    decreases n,
{
    if n <= 0 {
        FNV_OFFSET
    } else {
        vstd::wrapping::u64_specs::wrapping_mul(
            fnv_fold(s, n - 1) ^ (s[n - 1] as u64),
            FNV_PRIME,
        )
    }
}

/// The hash of a whole character sequence.
pub open spec fn spec_hash(s: Seq<char>) -> u64 {
    fnv_fold(s, s.len() as int)
}

/// The decimal rendering of `n`: most significant digit first, no sign,
/// no leading zero except for zero itself.
pub open spec fn spec_decimal(n: u64) -> Seq<char>
    decreases n,
{
    if n < 10 {
        seq![spec_digit(n as int)]
    } else {
        spec_decimal(n / 10).push(spec_digit((n % 10) as int))
    }
}

/// The character for one decimal digit.
pub open spec fn spec_digit(d: int) -> char {
    if d == 0 {
        '0'
    } else if d == 1 {
        '1'
    } else if d == 2 {
        '2'
    } else if d == 3 {
        '3'
    } else if d == 4 {
        '4'
    } else if d == 5 {
        '5'
    } else if d == 6 {
        '6'
    } else if d == 7 {
        '7'
    } else if d == 8 {
        '8'
    } else {
        '9'
    }
}

/// The identifier derived from a source path.
pub open spec fn spec_id_of(path: Seq<char>) -> Seq<char> {
    spec_decimal(spec_hash(path))
}

fn digit_str(d: u64) -> (r: &'static str)
    requires
        d < 10,
    ensures
        r@ == seq![spec_digit(d as int)],
{
    proof {
        reveal_strlit("0");
        reveal_strlit("1");
        reveal_strlit("2");
        reveal_strlit("3");
        reveal_strlit("4");
        reveal_strlit("5");
        reveal_strlit("6");
        reveal_strlit("7");
        reveal_strlit("8");
        reveal_strlit("9");
    }
    match d {
        0 => "0",
        1 => "1",
        2 => "2",
        3 => "3",
        4 => "4",
        5 => "5",
        6 => "6",
        7 => "7",
        8 => "8",
        _ => "9",
    }
}

/// Renders an unsigned number in decimal.
pub fn decimal_string(n: u64) -> (s: String)
    ensures
        s@ == spec_decimal(n),
    decreases n,
{
    if n < 10 {
        String::from_str(digit_str(n))
    } else {
        let mut s = decimal_string(n / 10);
        s.append(digit_str(n % 10));
        proof {
            assert(spec_decimal(n / 10) + seq![spec_digit((n % 10) as int)] =~= spec_decimal(
                n / 10,
            ).push(spec_digit((n % 10) as int)));
        }
        s
    }
}

/// The deterministic identifier of the document found at `path`: the
/// decimal rendering of the path's hash. Equal paths give equal
/// identifiers, in this pass and in every other.
pub fn calculate_hash(path: &String) -> (r: String)
    ensures
        r@ == spec_id_of(path@),
{
    let mut h: u64 = FNV_OFFSET;
    let mut i: usize = 0;
    let n = path.as_str().unicode_len();
    while i < n
        invariant
            i <= n,
            n == path@.len(),
            h == fnv_fold(path@, i as int),
        decreases n - i,
    {
        let c = path.as_str().get_char(i);
        h = (h ^ (c as u64)).wrapping_mul(FNV_PRIME);
        i = i + 1;
    }
    decimal_string(h)
}

} // verus!
