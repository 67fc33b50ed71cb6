//! Small verified text helpers shared by the wire formats: decimal rendering,
//! character-level comparison and construction of strings.

use vstd::prelude::*;
use vstd::string::*;

verus! {

/// The decimal digit character for `d < 10`.
pub open spec fn digit_char(d: nat) -> char {
    ((d + 48) as u8) as char
}

/// The decimal rendering of a natural number (no sign, no leading zeros).
pub open spec fn nat_str(n: nat) -> Seq<char>
    decreases n,
{
    if n < 10 {
        seq![digit_char(n)]
    } else {
        nat_str(n / 10).push(digit_char(n % 10))
    }
}

/// The decimal rendering of an integer, with a leading `-` when negative.
pub open spec fn int_str(n: int) -> Seq<char> {
    if n < 0 {
        seq!['-'] + nat_str((-n) as nat)
    } else {
        nat_str(n as nat)
    }
}

/// Append one character to a `String`.
#[verifier::external_body]
pub(crate) fn push_char(s: &mut String, c: char)
    ensures
        final(s)@ == old(s)@.push(c),
{
    s.push(c);
}

/// Render a `u64` in decimal.
pub fn u64_to_string(n: u64) -> (out: String)
    ensures
        out@ == nat_str(n as nat),
{
    // Collect digits least-significant first, then emit them in reverse.
    let mut digits: Vec<char> = Vec::new();
    let mut m: u64 = n;
    let ghost mut rest: Seq<char> = seq![];
    while m >= 10
        invariant
            nat_str(n as nat) == nat_str(m as nat) + rest,
            forall|i: int| 0 <= i < digits@.len() ==> #[trigger] digits@[i] == rest[rest.len() - 1 - i],
            digits@.len() == rest.len(),
        decreases m,
    {
        let d: u64 = m % 10;
        let c: char = ((d as u8) + 48) as char;
        proof {
            assert(nat_str(m as nat) == nat_str((m / 10) as nat).push(digit_char((m % 10) as nat)));
            assert(nat_str((m / 10) as nat).push(c) + rest =~= nat_str((m / 10) as nat) + (seq![c] + rest));
            rest = seq![c] + rest;
        }
        digits.push(c);
        m = m / 10;
    }
    let c: char = ((m as u8) + 48) as char;
    proof {
        assert(nat_str(m as nat) == seq![c]);
        rest = seq![c] + rest;
    }
    digits.push(c);
    let mut out = String::new();
    let mut i: usize = digits.len();
    while i > 0
        invariant
            i <= digits@.len(),
            digits@.len() == rest.len(),
            forall|j: int| 0 <= j < digits@.len() ==> #[trigger] digits@[j] == rest[rest.len() - 1 - j],
            out@ == rest.subrange(0, (digits@.len() - i) as int),
        decreases i,
    {
        i = i - 1;
        push_char(&mut out, digits[i]);
        proof {
            assert(out@ =~= rest.subrange(0, (digits@.len() - i) as int));
        }
    }
    proof {
        assert(out@ =~= rest);
        assert(nat_str(n as nat) =~= rest);
    }
    out
}

/// Render an `i64` in decimal.
pub fn i64_to_string(n: i64) -> (out: String)
    ensures
        out@ == int_str(n as int),
{
    if n < 0 {
        let mag: u64 = if n == i64::MIN {
            9223372036854775808u64
        } else {
            (-n) as u64
        };
        let digits = u64_to_string(mag);
        let mut out = String::new();
        push_char(&mut out, '-');
        let mut i: usize = 0;
        let len = digits.unicode_len();
        while i < len
            invariant
                len == digits@.len(),
                i <= len,
                out@ == seq!['-'] + digits@.subrange(0, i as int),
            decreases len - i,
        {
            let c = digits.as_str().get_char(i);
            push_char(&mut out, c);
            i = i + 1;
            proof {
                assert(out@ =~= seq!['-'] + digits@.subrange(0, i as int));
            }
        }
        proof {
            assert(digits@.subrange(0, len as int) =~= digits@);
        }
        out
    } else {
        u64_to_string(n as u64)
    }
}

/// Character-wise equality of two string slices.
pub fn str_eq(a: &str, b: &str) -> (r: bool)
    ensures
        r == (a@ == b@),
{
    let la = a.unicode_len();
    let lb = b.unicode_len();
    if la != lb {
        return false;
    }
    let mut i: usize = 0;
    while i < la
        invariant
            la == a@.len(),
            lb == b@.len(),
            la == lb,
            i <= la,
            forall|j: int| 0 <= j < i ==> a@[j] == b@[j],
        decreases la - i,
    {
        if a.get_char(i) != b.get_char(i) {
            return false;
        }
        i = i + 1;
    }
    proof {
        assert(a@ =~= b@);
    }
    true
}

/// Append a string slice to a `String`.
pub fn push_str(s: &mut String, t: &str)
    ensures
        final(s)@ == old(s)@ + t@,
{
    let len = t.unicode_len();
    let mut i: usize = 0;
    while i < len
        invariant
            len == t@.len(),
            i <= len,
            s@ == old(s)@ + t@.subrange(0, i as int),
        decreases len - i,
    {
        push_char(s, t.get_char(i));
        i = i + 1;
        proof {
            assert(s@ =~= old(s)@ + t@.subrange(0, i as int));
        }
    }
    proof {
        assert(t@.subrange(0, len as int) =~= t@);
    }
}

} // verus!

verus! {

/// Whether `p` is a prefix of `s`.
pub fn has_prefix(s: &str, p: &str) -> (r: bool)
    ensures
        r == p@.is_prefix_of(s@),
{
    let ls = s.unicode_len();
    let lp = p.unicode_len();
    if lp > ls {
        return false;
    }
    let mut i: usize = 0;
    while i < lp
        invariant
            ls == s@.len(),
            lp == p@.len(),
            lp <= ls,
            i <= lp,
            forall|j: int| 0 <= j < i ==> p@[j] == s@[j],
        decreases lp - i,
    {
        if p.get_char(i) != s.get_char(i) {
            return false;
        }
        i = i + 1;
    }
    true
}

/// The characters of `s` from index `start` up to `end`.
pub fn char_range(s: &str, start: usize, end: usize) -> (r: String)
    requires
        start <= end <= s@.len(),
    ensures
        r@ == s@.subrange(start as int, end as int),
{
    let mut out = String::new();
    let mut i: usize = start;
    while i < end
        invariant
            start <= i <= end,
            end <= s@.len(),
            out@ == s@.subrange(start as int, i as int),
        decreases end - i,
    {
        push_char(&mut out, s.get_char(i));
        i = i + 1;
        proof {
            assert(out@ =~= s@.subrange(start as int, i as int));
        }
    }
    out
}

} // verus!

verus! {

/// The texts of `parts` joined by commas.
pub open spec fn join_commas(parts: Seq<Seq<char>>) -> Seq<char>
    decreases parts.len(),
{
    if parts.len() == 0 {
        seq![]
    } else if parts.len() == 1 {
        parts[0]
    } else {
        join_commas(parts.drop_last()) + seq![','] + parts.last()
    }
}

/// Join strings with commas.
pub fn join_with_commas(parts: &Vec<String>) -> (r: String)
    ensures
        r@ == join_commas(crate::codec::texts_view(parts@)),
{
    let ghost pv = crate::codec::texts_view(parts@);
    let mut out = String::new();
    let mut i: usize = 0;
    proof {
        assert(pv.subrange(0, 0) =~= Seq::<Seq<char>>::empty());
    }
    while i < parts.len()
        invariant
            i <= parts@.len(),
            pv == crate::codec::texts_view(parts@),
            out@ == join_commas(pv.subrange(0, i as int)),
        decreases parts@.len() - i,
    {
        if i > 0 {
            push_char(&mut out, ',');
        }
        push_str(&mut out, parts[i].as_str());
        proof {
            let p = pv.subrange(0, i + 1);
            assert(p.drop_last() =~= pv.subrange(0, i as int));
            assert(p.last() == parts@[i as int]@);
            if i == 0 {
                assert(out@ =~= join_commas(p));
            } else {
                assert(out@ =~= join_commas(p));
            }
        }
        i = i + 1;
    }
    proof {
        assert(pv.subrange(0, pv.len() as int) =~= pv);
    }
    out
}

} // verus!
