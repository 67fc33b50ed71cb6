//! PIN <-> Noob encoding for the cluster pairing flow.
//!
//! The six-digit human PIN is the low-entropy stand-in for an out-of-band
//! nonce: it is read as a decimal integer and written big-endian into a
//! 16-byte `Noob`, left-padded with zeros.

use vstd::prelude::*;
use vstd::string::*;

verus! {

/// Whether a character is an ASCII decimal digit.
pub open spec fn is_digit(c: char) -> bool {
    '0' <= c && c <= '9'
}

/// The numeric value of an ASCII digit.
pub open spec fn digit_value(c: char) -> nat {
    (c as nat - '0' as nat) as nat
}

/// A well-formed pairing PIN is exactly six decimal digits.
pub open spec fn valid_pin(pin: Seq<char>) -> bool {
    pin.len() == 6 && forall|i: int| 0 <= i < pin.len() ==> is_digit(#[trigger] pin[i])
}

/// Value of a string of decimal digits, most significant first.
pub open spec fn digits_value(s: Seq<char>) -> nat
    decreases s.len(),
{
    if s.len() == 0 {
        0
    } else {
        digits_value(s.drop_last()) * 10 + digit_value(s.last())
    }
}

/// What `str::parse::<u128>` accepts: an optional `+` then at least one digit,
/// with a value below 2^128.
pub open spec fn parse_u128(s: Seq<char>) -> Option<nat> {
    let body = u128_body(s);
    if body.len() > 0 && all_digits(body) && digits_value(body) < 0x1_0000_0000_0000_0000_0000_0000_0000_0000 {
        Some(digits_value(body))
    } else {
        None
    }
}

/// The digits of a `u128` literal: the text after an optional leading `+`.
pub open spec fn u128_body(s: Seq<char>) -> Seq<char> {
    if s.len() > 0 && s[0] == '+' {
        s.drop_first()
    } else {
        s
    }
}

/// Every character is an ASCII digit.
pub open spec fn all_digits(s: Seq<char>) -> bool {
    forall|i: int| 0 <= i < s.len() ==> is_digit(#[trigger] s[i])
}

/// The last `n` bytes of the big-endian encoding of `v`.
pub open spec fn be_bytes(v: nat, n: nat) -> Seq<u8>
    decreases n,
{
    if n == 0 {
        seq![]
    } else {
        be_bytes(v / 256, (n - 1) as nat).push((v % 256) as u8)
    }
}

/// The 16-byte Noob of a PIN: its decimal value (zero when it does not parse)
/// big-endian, left-padded with zeros.
pub open spec fn spec_noob_from_pin(pin: Seq<char>) -> Seq<u8> {
    be_bytes(
        match parse_u128(pin) {
            Some(v) => v,
            None => 0,
        },
        16,
    )
}

/// A well-formed pairing PIN is exactly six decimal digits.
pub fn is_valid_pin(pin: &str) -> (r: bool)
    ensures
        r == valid_pin(pin@),
{
    let len = pin.unicode_len();
    if len != 6 {
        return false;
    }
    let mut i: usize = 0;
    while i < len
        invariant
            len == pin@.len(),
            i <= len,
            forall|j: int| 0 <= j < i ==> is_digit(#[trigger] pin@[j]),
        decreases len - i,
    {
        let c = pin.get_char(i);
        if !('0' <= c && c <= '9') {
            return false;
        }
        i = i + 1;
    }
    true
}

proof fn lemma_digits_value_push(s: Seq<char>, c: char)
    ensures
        digits_value(s.push(c)) == digits_value(s) * 10 + digit_value(c),
{
    assert(s.push(c).drop_last() =~= s);
}

/// Parse a decimal `u128` the way `str::parse` does (optional `+`, digits only).
pub(crate) fn parse_u128_exec(s: &str) -> (r: Option<u128>)
    ensures
        match r {
            Some(v) => parse_u128(s@) == Some(v as nat),
            None => parse_u128(s@) is None,
        },
{
    let len = s.unicode_len();
    let mut start: usize = 0;
    if len > 0 && s.get_char(0) == '+' {
        start = 1;
    }
    let ghost body = u128_body(s@);
    if start >= len {
        return None;
    }
    proof {
        if start == 0 {
            assert(body =~= s@.subrange(0, len as int));
        } else {
            assert(body =~= s@.subrange(1, len as int));
        }
    }
    let mut acc: u128 = 0;
    let mut i: usize = start;
    while i < len
        invariant
            len == s@.len(),
            start <= i <= len,
            start < len,
            body == s@.subrange(start as int, len as int),
            body == u128_body(s@),
            forall|j: int| 0 <= j < i - start ==> is_digit(#[trigger] body[j]),
            acc as nat == digits_value(body.subrange(0, i - start)),
        decreases len - i,
    {
        let c = s.get_char(i);
        if !('0' <= c && c <= '9') {
            proof {
                assert(body[i - start] == c);
                assert(!is_digit(body[i - start]));
                assert(!all_digits(body));
            }
            return None;
        }
        let d: u128 = ((c as u32) - 48) as u128;
        proof {
            assert(body[i - start] == c);
            lemma_digits_value_push(body.subrange(0, i - start), c);
            assert(body.subrange(0, i - start + 1) =~= body.subrange(0, i - start).push(c));
        }
        match acc.checked_mul(10) {
            Some(m) => match m.checked_add(d) {
                Some(v) => {
                    acc = v;
                },
                None => {
                    proof {
                        assert(is_digit(c));
                        assert forall|j: int| 0 <= j < i - start + 1 implies is_digit(#[trigger] body[j]) by {
                            if j == i - start {
                                assert(body[j] == c);
                            }
                        }
                        assert(digits_value(body.subrange(0, i - start + 1)) > u128::MAX);
                        lemma_prefix_value_bound(body, (i - start + 1) as nat);
                        assert(!all_digits(body) || digits_value(body) > u128::MAX);
                    }
                    return None;
                },
            },
            None => {
                proof {
                    assert(acc * 10 > u128::MAX);
                    assert(digits_value(body.subrange(0, i - start + 1)) > u128::MAX);
                    lemma_prefix_value_bound(body, (i - start + 1) as nat);
                    assert(!all_digits(body) || digits_value(body) > u128::MAX);
                }
                return None;
            },
        }
        i = i + 1;
    }
    proof {
        assert(body.subrange(0, len - start) =~= body);
    }
    Some(acc)
}

/// A prefix of a digit string never has a larger value than the whole string.
proof fn lemma_prefix_value_bound(s: Seq<char>, k: nat)
    requires
        k <= s.len(),
    ensures
        digits_value(s.subrange(0, k as int)) <= digits_value(s) || !all_digits(s),
    decreases s.len() - k,
{
    if k < s.len() {
        lemma_prefix_value_bound(s, k + 1);
        let p = s.subrange(0, k as int);
        assert(s.subrange(0, k + 1 as int) =~= p.push(s[k as int]));
        lemma_digits_value_push(p, s[k as int]);
        assert(digits_value(p) * 10 >= digits_value(p)) by (nonlinear_arith);
    } else {
        assert(s.subrange(0, k as int) =~= s);
    }
}

/// Encode a PIN as a 16-byte big-endian `Noob`.
///
/// The PIN is read as a decimal integer and serialized big-endian into a fixed
/// 16-byte buffer, left-padded with zeros. A string that does not parse as an
/// integer is read as zero; callers gate on [`is_valid_pin`] first.
pub fn noob_from_pin(pin: &str) -> (out: [u8; 16])
    ensures
        out@ == spec_noob_from_pin(pin@),
{
    let v: u128 = match parse_u128_exec(pin) {
        Some(v) => v,
        None => 0,
    };
    let mut out = [0u8; 16];
    let mut m: u128 = v;
    let mut k: usize = 16;
    while k > 0
        invariant
            k <= 16,
            out@.len() == 16,
            m as nat == (v as nat) / pow256((16 - k) as nat),
            out@.subrange(k as int, 16) == be_bytes(v as nat, (16 - k) as nat),
        decreases k,
    {
        k = k - 1;
        let b: u8 = (m % 256) as u8;
        out[k] = b;
        proof {
            lemma_be_bytes_step(v as nat, (15 - k) as nat);
            lemma_div_pow(v as nat, (15 - k) as nat);
        }
        m = m / 256;
        proof {
            assert(out@.subrange(k as int, 16) =~= seq![b] + be_bytes(v as nat, (15 - k) as nat));
        }
    }
    proof {
        assert(out@.subrange(0, 16) =~= out@);
    }
    out
}

/// 256 to the power `n`.
pub open spec fn pow256(n: nat) -> nat
    decreases n,
{
    if n == 0 {
        1
    } else {
        256 * pow256((n - 1) as nat)
    }
}

proof fn lemma_pow256_pos(n: nat)
    ensures
        pow256(n) > 0,
    decreases n,
{
    if n > 0 {
        lemma_pow256_pos((n - 1) as nat);
    }
}

proof fn lemma_div_pow(v: nat, n: nat)
    ensures
        (v / pow256(n)) / 256 == v / pow256(n + 1),
{
    lemma_pow256_pos(n);
    assert(pow256(n + 1) == 256 * pow256(n));
    vstd::arithmetic::div_mod::lemma_div_denominator(v as int, pow256(n) as int, 256);
    assert(pow256(n) * 256 == 256 * pow256(n)) by (nonlinear_arith);
}

/// Appending one more low byte: `be_bytes(v, n + 1)` ends with the byte of
/// `v / 256^n`, preceded by the encoding of the higher bytes.
proof fn lemma_be_bytes_step(v: nat, n: nat)
    ensures
        be_bytes(v, n + 1) == seq![((v / pow256(n)) % 256) as u8] + be_bytes(v, n),
    decreases n,
{
    if n == 0 {
        assert(pow256(0) == 1);
        assert(v / 1 == v);
        assert(be_bytes(v / 256, 0) =~= seq![]);
        assert(be_bytes(v, 1) =~= seq![(v % 256) as u8]);
    } else {
        lemma_be_bytes_step(v / 256, (n - 1) as nat);
        lemma_pow256_pos((n - 1) as nat);
        assert((v / 256) / pow256((n - 1) as nat) == v / pow256(n)) by {
            vstd::arithmetic::div_mod::lemma_div_denominator(v as int, 256, pow256((n - 1) as nat) as int);
        }
        assert(be_bytes(v, n + 1) =~= seq![((v / pow256(n)) % 256) as u8] + be_bytes(v, n));
    }
}

} // verus!
