//! Unsigned decimal integers as `str::parse` reads them: an optional `+`,
//! then at least one ASCII digit, with a value that fits the type.

use vstd::prelude::*;
use crate::pairing::pin::{all_digits, digits_value, parse_u128_exec, u128_body};

verus! {

/// The value `str::parse` reads from `s` for an unsigned type whose values
/// are below `limit`.
pub open spec fn parse_dec(s: Seq<char>, limit: nat) -> Option<nat> {
    let body = u128_body(s);
    if body.len() > 0 && all_digits(body) && digits_value(body) < limit {
        Some(digits_value(body))
    } else {
        None
    }
}

/// `str::parse::<u64>`.
pub fn parse_u64_text(s: &str) -> (r: Option<u64>)
    ensures
        match r {
            Some(v) => parse_dec(s@, 0x1_0000_0000_0000_0000) == Some(v as nat),
            None => parse_dec(s@, 0x1_0000_0000_0000_0000) is None,
        },
{
    match parse_u128_exec(s) {
        Some(v) => if v <= 0xffff_ffff_ffff_ffff {
            Some(v as u64)
        } else {
            None
        },
        None => None,
    }
}

/// `str::parse::<u32>`.
pub fn parse_u32_text(s: &str) -> (r: Option<u32>)
    ensures
        match r {
            Some(v) => parse_dec(s@, 0x1_0000_0000) == Some(v as nat),
            None => parse_dec(s@, 0x1_0000_0000) is None,
        },
{
    match parse_u128_exec(s) {
        Some(v) => if v <= 0xffff_ffff {
            Some(v as u32)
        } else {
            None
        },
        None => None,
    }
}

/// `str::parse::<u16>`.
pub fn parse_u16_text(s: &str) -> (r: Option<u16>)
    ensures
        match r {
            Some(v) => parse_dec(s@, 0x1_0000) == Some(v as nat),
            None => parse_dec(s@, 0x1_0000) is None,
        },
{
    match parse_u128_exec(s) {
        Some(v) => if v <= 0xffff {
            Some(v as u16)
        } else {
            None
        },
        None => None,
    }
}

/// `str::parse::<usize>`.
pub fn parse_usize_text(s: &str) -> (r: Option<usize>)
    ensures
        match r {
            Some(v) => parse_dec(s@, usize::MAX as nat + 1) == Some(v as nat),
            None => parse_dec(s@, usize::MAX as nat + 1) is None,
        },
{
    match parse_u128_exec(s) {
        Some(v) => if v <= usize::MAX as u128 {
            Some(v as usize)
        } else {
            None
        },
        None => None,
    }
}

/// The decimal rendering of `n` is a non-empty run of digits whose value is
/// `n`, so `str::parse` reads it back.
pub proof fn lemma_nat_str_reads_back(n: nat, limit: nat)
    requires
        n < limit,
    ensures
        parse_dec(crate::text::nat_str(n), limit) == Some(n),
{
    lemma_nat_str_digits(n);
}

proof fn lemma_digit_char(d: nat)
    requires
        d < 10,
    ensures
        crate::pairing::pin::digit_value(crate::text::digit_char(d)) == d,
        crate::pairing::pin::is_digit(crate::text::digit_char(d)),
{
    let b = (d + 48) as u8;
    assert(b as int == d + 48);
    assert((b as char) as int == b as int);
}

/// The decimal rendering of `n`: non-empty, all digits, value `n`.
pub proof fn lemma_nat_str_digits(n: nat)
    ensures
        crate::text::nat_str(n).len() > 0,
        all_digits(crate::text::nat_str(n)),
        digits_value(crate::text::nat_str(n)) == n,
        crate::pairing::pin::is_digit(crate::text::nat_str(n)[0]),
    decreases n,
{
    let s = crate::text::nat_str(n);
    if n < 10 {
        lemma_digit_char(n);
        assert(s =~= seq![crate::text::digit_char(n)]);
        assert(s.drop_last() =~= Seq::<char>::empty());
        assert(digits_value(s) == digits_value(s.drop_last()) * 10 + crate::pairing::pin::digit_value(s.last()));
        assert(digits_value(Seq::<char>::empty()) == 0);
    } else {
        lemma_nat_str_digits(n / 10);
        lemma_digit_char(n % 10);
        let p = crate::text::nat_str(n / 10);
        assert(s =~= p.push(crate::text::digit_char(n % 10)));
        assert(s.drop_last() =~= p);
        assert(s[0] == p[0]);
        assert(digits_value(s) == digits_value(p) * 10 + crate::pairing::pin::digit_value(s.last()));
        assert(n == (n / 10) * 10 + n % 10);
        assert forall|i: int| 0 <= i < s.len() implies crate::pairing::pin::is_digit(#[trigger] s[i]) by {
            if i < p.len() {
                assert(s[i] == p[i]);
            }
        }
    }
}

} // verus!
