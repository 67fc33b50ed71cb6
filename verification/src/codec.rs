//! Encodings shared by the wire formats: base64 (URL-safe without padding, and
//! standard with padding), JSON string literals, and the JSON parsing that the
//! EAP-NOOB messages need (top-level members kept verbatim, integers, strings).
//!
//! JSON string quoting is written and proved here; base64 and JSON parsing are
//! done by the `base64` and `serde_json` crates behind the trusted items below.

use vstd::prelude::*;
use crate::text::{int_str, push_char, push_str};
use base64::Engine;

verus! {

// --- base64 -----------------------------------------------------------------

/// The URL-safe base64 alphabet (`A-Z a-z 0-9 - _`).
pub open spec fn is_b64url_char(c: char) -> bool {
    ('A' <= c && c <= 'Z') || ('a' <= c && c <= 'z') || ('0' <= c && c <= '9') || c == '-' || c == '_'
}

/// The standard base64 alphabet plus the padding character.
pub open spec fn is_b64std_char(c: char) -> bool {
    ('A' <= c && c <= 'Z') || ('a' <= c && c <= 'z') || ('0' <= c && c <= '9') || c == '+' || c == '/'
        || c == '='
}

/// URL-safe base64 without padding of `data`, as computed by the `base64` crate.
pub uninterp spec fn b64url(data: Seq<u8>) -> Seq<char>;

/// What the `base64` crate's URL-safe, no-padding engine decodes `text` to.
pub uninterp spec fn b64url_decoded(text: Seq<char>) -> Option<Seq<u8>>;

/// Standard base64 with padding of `data`, as computed by the `base64` crate.
pub uninterp spec fn b64std(data: Seq<u8>) -> Seq<char>;

/// What the `base64` crate's standard (padded) engine decodes `text` to.
pub uninterp spec fn b64std_decoded(text: Seq<char>) -> Option<Seq<u8>>;

/// `base64::engine::general_purpose::URL_SAFE_NO_PAD.encode`. Claims: the text
/// is named `b64url(data)`, uses only the URL-safe alphabet, and decodes back
/// to `data` with the same engine.
#[verifier::external_body]
pub(crate) fn b64url_encode(data: &[u8]) -> (s: String)
    ensures
        s@ == b64url(data@),
        b64url_decoded(s@) == Some(data@),
        forall|i: int| 0 <= i < s@.len() ==> is_b64url_char(#[trigger] s@[i]),
{
    base64::engine::general_purpose::URL_SAFE_NO_PAD.encode(data)
}

/// `base64::engine::general_purpose::URL_SAFE_NO_PAD.decode`. Claims only that
/// the outcome is the one named `b64url_decoded(text)`.
#[verifier::external_body]
pub(crate) fn b64url_decode(text: &str) -> (r: Option<Vec<u8>>)
    ensures
        match r {
            Some(v) => b64url_decoded(text@) == Some(v@),
            None => b64url_decoded(text@) is None,
        },
{
    base64::engine::general_purpose::URL_SAFE_NO_PAD.decode(text.as_bytes()).ok()
}

/// `base64::engine::general_purpose::STANDARD.encode`. Claims: the text is
/// named `b64std(data)`, uses only the standard alphabet and `=`, has the
/// padded length of four characters per started group of three bytes, and
/// decodes back to `data` with the same engine.
#[verifier::external_body]
pub(crate) fn b64std_encode(data: &[u8]) -> (s: String)
    ensures
        s@ == b64std(data@),
        s@.len() == 4 * ((data@.len() + 2) / 3),
        b64std_decoded(s@) == Some(data@),
        forall|i: int| 0 <= i < s@.len() ==> is_b64std_char(#[trigger] s@[i]),
{
    base64::engine::general_purpose::STANDARD.encode(data)
}

/// `base64::engine::general_purpose::STANDARD.decode`. Claims only that the
/// outcome is the one named `b64std_decoded(text)`.
#[verifier::external_body]
pub(crate) fn b64std_decode(text: &str) -> (r: Option<Vec<u8>>)
    ensures
        match r {
            Some(v) => b64std_decoded(text@) == Some(v@),
            None => b64std_decoded(text@) is None,
        },
{
    base64::engine::general_purpose::STANDARD.decode(text.as_bytes()).ok()
}

// --- JSON string literals -----------------------------------------------------

/// Lower-case hex digit of `d < 16`.
pub open spec fn hex_digit(d: nat) -> char {
    if d < 10 {
        ((d + 48) as u8) as char
    } else {
        ((d + 87) as u8) as char
    }
}

/// How one character appears inside a JSON string literal: quote, backslash
/// and control characters are escaped (short forms where JSON has them,
/// `\u00XX` otherwise); everything else stands for itself.
pub open spec fn json_escape_char(c: char) -> Seq<char> {
    if c == '"' {
        seq!['\\', '"']
    } else if c == '\\' {
        seq!['\\', '\\']
    } else if c == '\x08' {
        seq!['\\', 'b']
    } else if c == '\t' {
        seq!['\\', 't']
    } else if c == '\n' {
        seq!['\\', 'n']
    } else if c == '\x0c' {
        seq!['\\', 'f']
    } else if c == '\r' {
        seq!['\\', 'r']
    } else if (c as u32) < 0x20 {
        seq!['\\', 'u', '0', '0', hex_digit((c as nat) / 16), hex_digit((c as nat) % 16)]
    } else {
        seq![c]
    }
}

/// The escaped body of a JSON string literal.
pub open spec fn json_escape(s: Seq<char>) -> Seq<char>
    decreases s.len(),
{
    if s.len() == 0 {
        seq![]
    } else {
        json_escape(s.drop_last()) + json_escape_char(s.last())
    }
}

/// The JSON string literal of `s` (what `serde_json::to_string(&str)` gives).
pub open spec fn json_quote(s: Seq<char>) -> Seq<char> {
    seq!['"'] + json_escape(s) + seq!['"']
}

/// A character that JSON string quoting leaves unchanged.
pub open spec fn json_plain_char(c: char) -> bool {
    c != '"' && c != '\\' && (c as u32) >= 0x20
}

/// Text made only of characters that quoting leaves unchanged is quoted by
/// wrapping it in double quotes.
pub proof fn lemma_json_quote_plain(s: Seq<char>)
    requires
        forall|i: int| 0 <= i < s.len() ==> json_plain_char(#[trigger] s[i]),
    ensures
        json_escape(s) == s,
        json_quote(s) == seq!['"'] + s + seq!['"'],
    decreases s.len(),
{
    if s.len() > 0 {
        lemma_json_quote_plain(s.drop_last());
        assert(json_plain_char(s[s.len() - 1]));
        assert(s.drop_last().push(s.last()) =~= s);
    }
}

/// Base64 text (either alphabet) is left unchanged by JSON quoting.
pub proof fn lemma_b64_plain(s: Seq<char>)
    requires
        (forall|i: int| 0 <= i < s.len() ==> is_b64url_char(#[trigger] s[i])) || (forall|i: int|
            0 <= i < s.len() ==> is_b64std_char(#[trigger] s[i])),
    ensures
        json_quote(s) == seq!['"'] + s + seq!['"'],
{
    assert forall|i: int| 0 <= i < s.len() implies json_plain_char(#[trigger] s[i]) by {
        if forall|j: int| 0 <= j < s.len() ==> is_b64url_char(#[trigger] s[j]) {
            assert(is_b64url_char(s[i]));
        } else {
            assert(is_b64std_char(s[i]));
        }
    }
    lemma_json_quote_plain(s);
}

fn hex_digit_exec(d: u32) -> (c: char)
    requires
        d < 16,
    ensures
        c == hex_digit(d as nat),
{
    if d < 10 {
        ((d as u8) + 48) as char
    } else {
        ((d as u8) + 87) as char
    }
}

/// Append the escaped form of one character.
fn push_escaped(out: &mut String, c: char)
    ensures
        final(out)@ == old(out)@ + json_escape_char(c),
{
    let ghost start = out@;
    if c == '"' {
        push_char(out, '\\');
        push_char(out, '"');
    } else if c == '\\' {
        push_char(out, '\\');
        push_char(out, '\\');
    } else if c == '\x08' {
        push_char(out, '\\');
        push_char(out, 'b');
    } else if c == '\t' {
        push_char(out, '\\');
        push_char(out, 't');
    } else if c == '\n' {
        push_char(out, '\\');
        push_char(out, 'n');
    } else if c == '\x0c' {
        push_char(out, '\\');
        push_char(out, 'f');
    } else if c == '\r' {
        push_char(out, '\\');
        push_char(out, 'r');
    } else if (c as u32) < 0x20 {
        let v: u32 = c as u32;
        push_char(out, '\\');
        push_char(out, 'u');
        push_char(out, '0');
        push_char(out, '0');
        push_char(out, hex_digit_exec(v / 16));
        push_char(out, hex_digit_exec(v % 16));
    } else {
        push_char(out, c);
    }
    proof {
        assert(out@ =~= start + json_escape_char(c));
    }
}

/// The JSON string literal of `s`, as `serde_json::to_string(&str)` writes it.
pub fn json_string_literal(s: &str) -> (out: String)
    ensures
        out@ == json_quote(s@),
{
    let mut out = String::new();
    push_char(&mut out, '"');
    let len = s.unicode_len();
    let mut i: usize = 0;
    while i < len
        invariant
            len == s@.len(),
            i <= len,
            out@ == seq!['"'] + json_escape(s@.subrange(0, i as int)),
        decreases len - i,
    {
        let c = s.get_char(i);
        push_escaped(&mut out, c);
        proof {
            let p = s@.subrange(0, i + 1);
            assert(p.drop_last() =~= s@.subrange(0, i as int));
            assert(p.last() == c);
        }
        i = i + 1;
    }
    push_char(&mut out, '"');
    proof {
        assert(s@.subrange(0, len as int) =~= s@);
    }
    out
}

// --- JSON parsing ---------------------------------------------------------------

/// The members of a top-level JSON object, as `serde_json` reads `text` into a
/// sorted map from key (unescaped) to the value's verbatim JSON text; `None`
/// when `text` is not a JSON object.
pub uninterp spec fn json_members(text: Seq<u8>) -> Option<Seq<(Seq<char>, Seq<char>)>>;

/// The view of a list of (key, verbatim value) pairs.
pub open spec fn members_view(v: Seq<(String, String)>) -> Seq<(Seq<char>, Seq<char>)> {
    v.map_values(|p: (String, String)| (p.0@, p.1@))
}

/// One member of a compact JSON object: the quoted key, a colon, the value.
pub open spec fn member_text(m: (Seq<char>, Seq<char>)) -> Seq<char> {
    json_quote(m.0) + seq![':'] + m.1
}

/// The comma-separated members of a compact JSON object, in order.
pub open spec fn members_text(ms: Seq<(Seq<char>, Seq<char>)>) -> Seq<char>
    decreases ms.len(),
{
    if ms.len() == 0 {
        seq![]
    } else if ms.len() == 1 {
        member_text(ms[0])
    } else {
        members_text(ms.drop_last()) + seq![','] + member_text(ms.last())
    }
}

/// The compact (whitespace-free) JSON object with the given members, in order.
pub open spec fn json_object_text(ms: Seq<(Seq<char>, Seq<char>)>) -> Seq<char> {
    seq!['{'] + members_text(ms) + seq!['}']
}

/// JSON text of one scalar value: a string literal as [`json_quote`] writes
/// it, `true`, `false`, or a decimal integer.
pub open spec fn json_scalar_text(v: Seq<char>) -> bool {
    ||| exists|s: Seq<char>| v == json_quote(s)
    ||| v == "true"@
    ||| v == "false"@
    ||| exists|n: nat| v == crate::text::nat_str(n)
    ||| exists|n: int| v == int_str(n)
}

/// JSON text of one value nested at most one level: a scalar, a compact array
/// of integers, or a compact object whose values are scalars.
pub open spec fn json_flat_text(v: Seq<char>) -> bool {
    ||| json_scalar_text(v)
    ||| exists|k: Seq<i64>| v == json_int_list_text(k)
    ||| exists|ms: Seq<(Seq<char>, Seq<char>)>|
        v == json_object_text(ms) && forall|i: int| 0 <= i < ms.len() ==> json_scalar_text(#[trigger] ms[i].1)
}

/// No key occurs twice among the members.
pub open spec fn keys_distinct(ms: Seq<(Seq<char>, Seq<char>)>) -> bool {
    forall|i: int, j: int| 0 <= i < j < ms.len() ==> (#[trigger] ms[i]).0 != (#[trigger] ms[j]).0
}

/// Members that a compact object renders so that serde reads each back.
pub open spec fn plain_members(ms: Seq<(Seq<char>, Seq<char>)>) -> bool {
    &&& keys_distinct(ms)
    &&& forall|i: int| 0 <= i < ms.len() ==> json_flat_text((#[trigger] ms[i]).1)
}

/// `serde_json::from_slice::<BTreeMap<String, Box<RawValue>>>`: the members of a
/// JSON object with each value kept verbatim. Claims: the outcome is the one
/// named `json_members(text)` (a key given twice keeps its last value); and the
/// UTF-8 of a compact object with distinct keys, whose values are scalars,
/// integer arrays or objects of scalars, reads back as those members: serde
/// unquotes each key and keeps each value's text as it stands, so every key
/// finds its value and no other key is present.
#[verifier::external_body]
pub(crate) fn parse_json_members(text: &[u8]) -> (r: Option<Vec<(String, String)>>)
    ensures
        match r {
            Some(v) => json_members(text@) == Some(members_view(v@)),
            None => json_members(text@) is None,
        },
        forall|ms: Seq<(Seq<char>, Seq<char>)>|
            text@ == vstd::utf8::encode_utf8(#[trigger] json_object_text(ms)) && plain_members(ms) ==> r is Some
                && forall|k: Seq<char>| #[trigger] member_lookup(members_view(r.unwrap()@), k) == member_lookup(ms, k),
{
    serde_json::from_slice::<std::collections::BTreeMap<String, Box<serde_json::value::RawValue>>>(text)
        .ok()
        .map(|m| m.into_iter().map(|(k, v)| (k, v.get().to_string())).collect())
}

/// The `i64` that `serde_json` reads from the JSON text `text`, if any.
pub uninterp spec fn json_i64(text: Seq<char>) -> Option<i64>;

/// `serde_json::from_str::<i64>`. Claims: the outcome is the one named
/// `json_i64(text)`, and the decimal rendering of an `i64` reads back as itself.
#[verifier::external_body]
pub(crate) fn parse_json_i64(text: &str) -> (r: Option<i64>)
    ensures
        r == json_i64(text@),
        forall|k: i64| text@ == int_str(k as int) ==> r == Some(k),
{
    serde_json::from_str::<i64>(text).ok()
}

/// The string that `serde_json` reads from the JSON text `text`, if any.
pub uninterp spec fn json_string_value(text: Seq<char>) -> Option<Seq<char>>;

/// `serde_json::from_str::<String>`. Claims: the outcome is the one named
/// `json_string_value(text)`, and a JSON string literal reads back as the text
/// it quotes.
#[verifier::external_body]
pub(crate) fn parse_json_string(text: &str) -> (r: Option<String>)
    ensures
        match r {
            Some(s) => json_string_value(text@) == Some(s@),
            None => json_string_value(text@) is None,
        },
        forall|t: Seq<char>| text@ == json_quote(t) ==> r is Some && r.unwrap()@ == t,
{
    serde_json::from_str::<String>(text).ok()
}

/// The list of `i64` that `serde_json` reads from the JSON text `text`, if any.
pub uninterp spec fn json_i64_list(text: Seq<char>) -> Option<Seq<i64>>;

/// The compact JSON array of a list of integers: `[a,b,c]`.
pub open spec fn json_int_list_text(v: Seq<i64>) -> Seq<char>
    decreases v.len(),
{
    seq!['['] + int_list_body(v) + seq![']']
}

/// The comma-separated decimal renderings of a list of integers.
pub open spec fn int_list_body(v: Seq<i64>) -> Seq<char>
    decreases v.len(),
{
    if v.len() == 0 {
        seq![]
    } else if v.len() == 1 {
        int_str(v[0] as int)
    } else {
        int_list_body(v.drop_last()) + seq![','] + int_str(v.last() as int)
    }
}

/// `serde_json::from_str::<Vec<i64>>`. Claims: the outcome is the one named
/// `json_i64_list(text)`, and a compact JSON array of integers reads back as
/// that list.
#[verifier::external_body]
pub(crate) fn parse_json_i64_list(text: &str) -> (r: Option<Vec<i64>>)
    ensures
        match r {
            Some(v) => json_i64_list(text@) == Some(v@),
            None => json_i64_list(text@) is None,
        },
        forall|k: Seq<i64>| text@ == json_int_list_text(k) ==> r is Some && r.unwrap()@ == k,
{
    serde_json::from_str::<Vec<i64>>(text).ok()
}

/// Render a list of integers as a compact JSON array.
pub fn json_int_list(v: &Vec<i64>) -> (out: String)
    ensures
        out@ == json_int_list_text(v@),
{
    let mut out = String::new();
    push_char(&mut out, '[');
    let mut i: usize = 0;
    while i < v.len()
        invariant
            i <= v@.len(),
            out@ == seq!['['] + int_list_body(v@.subrange(0, i as int)),
        decreases v@.len() - i,
    {
        let ghost before = v@.subrange(0, i as int);
        if i > 0 {
            push_char(&mut out, ',');
        }
        let d = crate::text::i64_to_string(v[i]);
        push_str(&mut out, d.as_str());
        proof {
            let after = v@.subrange(0, i + 1);
            assert(after.drop_last() =~= before);
            if i == 0 {
                assert(int_list_body(after) == int_str(v@[0] as int));
                assert(int_list_body(before) =~= seq![]);
            }
            assert(out@ =~= seq!['['] + int_list_body(after));
        }
        i = i + 1;
    }
    push_char(&mut out, ']');
    proof {
        assert(v@.subrange(0, v@.len() as int) =~= v@);
        assert(out@ =~= json_int_list_text(v@));
    }
    out
}

} // verus!

verus! {

/// The verbatim value of the first member named `key`, if any.
pub open spec fn member_lookup(ms: Seq<(Seq<char>, Seq<char>)>, key: Seq<char>) -> Option<Seq<char>>
    decreases ms.len(),
{
    if ms.len() == 0 {
        None
    } else if ms[0].0 == key {
        Some(ms[0].1)
    } else {
        member_lookup(ms.drop_first(), key)
    }
}

/// No member of `ms` is named `key` exactly when looking `key` up finds nothing.
pub proof fn lemma_lookup_absent(ms: Seq<(Seq<char>, Seq<char>)>, key: Seq<char>)
    ensures
        member_lookup(ms, key) is None <==> forall|i: int| 0 <= i < ms.len() ==> (#[trigger] ms[i]).0 != key,
    decreases ms.len(),
{
    if ms.len() > 0 {
        lemma_lookup_absent(ms.drop_first(), key);
        if member_lookup(ms, key) is None {
            assert forall|i: int| 0 <= i < ms.len() implies (#[trigger] ms[i]).0 != key by {
                if i > 0 {
                    assert(ms[i] == ms.drop_first()[i - 1]);
                }
            }
        } else if ms[0].0 != key {
            let j = choose|j: int| 0 <= j < ms.drop_first().len() && (#[trigger] ms.drop_first()[j]).0 == key;
            assert(ms[j + 1] == ms.drop_first()[j]);
        }
    }
}

/// Appending a member: the text grows by a comma and the member, a lookup
/// finds the new member only where no earlier one had the key, and distinct
/// scalar members stay so when the new key is new.
pub proof fn lemma_push_member(ms: Seq<(Seq<char>, Seq<char>)>, m: (Seq<char>, Seq<char>))
    ensures
        members_text(ms.push(m)) == (if ms.len() == 0 {
            member_text(m)
        } else {
            members_text(ms) + seq![','] + member_text(m)
        }),
        forall|k: Seq<char>|
            #[trigger] member_lookup(ms.push(m), k) == (if member_lookup(ms, k) is Some {
                member_lookup(ms, k)
            } else if m.0 == k {
                Some(m.1)
            } else {
                None
            }),
        plain_members(ms) && json_flat_text(m.1) && member_lookup(ms, m.0) is None ==> plain_members(ms.push(m)),
{
    assert(ms.push(m).drop_last() =~= ms);
    assert forall|k: Seq<char>|
        #[trigger] member_lookup(ms.push(m), k) == (if member_lookup(ms, k) is Some {
            member_lookup(ms, k)
        } else if m.0 == k {
            Some(m.1)
        } else {
            None
        }) by {
        lemma_lookup_push(ms, m, k);
    }
    if plain_members(ms) && json_flat_text(m.1) && member_lookup(ms, m.0) is None {
        lemma_lookup_absent(ms, m.0);
        let t = ms.push(m);
        assert forall|i: int, j: int| 0 <= i < j < t.len() implies (#[trigger] t[i]).0 != (#[trigger] t[j]).0 by {
            if j == ms.len() {
                assert(t[i] == ms[i]);
            } else {
                assert(t[i] == ms[i] && t[j] == ms[j]);
            }
        }
        assert forall|i: int| 0 <= i < t.len() implies json_flat_text((#[trigger] t[i]).1) by {
            if i < ms.len() {
                assert(t[i] == ms[i]);
            }
        }
    }
}

/// Appending a member to a non-empty list adds a comma and the member's text.
pub proof fn lemma_push_text(ms: Seq<(Seq<char>, Seq<char>)>, m: (Seq<char>, Seq<char>))
    ensures
        members_text(ms.push(m)) == (if ms.len() == 0 {
            member_text(m)
        } else {
            members_text(ms) + seq![','] + member_text(m)
        }),
{
    assert(ms.push(m).drop_last() =~= ms);
}

/// The opening of an object with one member: the lead text `lit` (a brace,
/// the quoted key, a colon) and the value.
pub proof fn lemma_object_first(m: (Seq<char>, Seq<char>), lit: Seq<char>)
    requires
        lit == seq!['{'] + json_quote(m.0) + seq![':'],
    ensures
        seq!['{'] + members_text(seq![m]) == lit + m.1,
{
    assert(seq!['{'] + members_text(seq![m]) =~= lit + m.1);
}

/// An object's opening grows by the member's lead text `lit` (a comma, the
/// quoted key, a colon) and its value when a member is appended.
pub proof fn lemma_object_push(ms: Seq<(Seq<char>, Seq<char>)>, m: (Seq<char>, Seq<char>), lit: Seq<char>)
    requires
        ms.len() > 0,
        lit == seq![','] + json_quote(m.0) + seq![':'],
    ensures
        seq!['{'] + members_text(ms.push(m)) == seq!['{'] + members_text(ms) + lit + m.1,
{
    lemma_push_text(ms, m);
    assert(seq!['{'] + members_text(ms.push(m)) =~= seq!['{'] + members_text(ms) + lit + m.1);
}

pub proof fn lemma_lookup_push(ms: Seq<(Seq<char>, Seq<char>)>, m: (Seq<char>, Seq<char>), k: Seq<char>)
    ensures
        member_lookup(ms.push(m), k) == (if member_lookup(ms, k) is Some {
            member_lookup(ms, k)
        } else if m.0 == k {
            Some(m.1)
        } else {
            None
        }),
    decreases ms.len(),
{
    if ms.len() == 0 {
        assert(ms.push(m).drop_first() =~= Seq::<(Seq<char>, Seq<char>)>::empty());
    } else {
        assert(ms.push(m).drop_first() =~= ms.drop_first().push(m));
        lemma_lookup_push(ms.drop_first(), m, k);
    }
}

/// Find the verbatim value of the member named `key`.
pub fn find_member(ms: &Vec<(String, String)>, key: &str) -> (r: Option<String>)
    ensures
        match r {
            Some(v) => member_lookup(members_view(ms@), key@) == Some(v@),
            None => member_lookup(members_view(ms@), key@) is None,
        },
{
    let ghost mv = members_view(ms@);
    proof {
        assert(mv.subrange(0, mv.len() as int) =~= mv);
    }
    let mut i: usize = 0;
    while i < ms.len()
        invariant
            i <= ms@.len(),
            mv == members_view(ms@),
            member_lookup(mv, key@) == member_lookup(mv.subrange(i as int, mv.len() as int), key@),
        decreases ms@.len() - i,
    {
        let ghost tail = mv.subrange(i as int, mv.len() as int);
        proof {
            assert(tail[0] == (ms@[i as int].0@, ms@[i as int].1@));
            assert(tail.drop_first() =~= mv.subrange(i + 1, mv.len() as int));
        }
        if crate::text::str_eq(ms[i].0.as_str(), key) {
            let v = ms[i].1.clone();
            return Some(v);
        }
        i = i + 1;
    }
    proof {
        assert(mv.subrange(ms@.len() as int, mv.len() as int).len() == 0);
    }
    None
}

} // verus!

verus! {

// --- hexadecimal ------------------------------------------------------------------

/// Lower-case hexadecimal of `data`, two digits per byte (what `hex::encode`
/// produces).
pub open spec fn hex_lower(data: Seq<u8>) -> Seq<char>
    decreases data.len(),
{
    if data.len() == 0 {
        seq![]
    } else {
        hex_lower(data.drop_last()) + seq![hex_digit((data.last() / 16) as nat), hex_digit((data.last() % 16) as nat)]
    }
}

/// Lower-case hexadecimal of `data`.
pub fn hex_encode(data: &[u8]) -> (out: String)
    ensures
        out@ == hex_lower(data@),
        out@.len() == 2 * data@.len(),
{
    let mut out = String::new();
    let mut i: usize = 0;
    while i < data.len()
        invariant
            i <= data@.len(),
            out@ == hex_lower(data@.subrange(0, i as int)),
            out@.len() == 2 * i,
        decreases data@.len() - i,
    {
        let b: u8 = data[i];
        push_char(&mut out, hex_digit_exec((b / 16) as u32));
        push_char(&mut out, hex_digit_exec((b % 16) as u32));
        proof {
            let p = data@.subrange(0, i + 1);
            assert(p.drop_last() =~= data@.subrange(0, i as int));
            assert(out@ =~= hex_lower(p));
        }
        i = i + 1;
    }
    proof {
        assert(data@.subrange(0, data@.len() as int) =~= data@);
    }
    out
}

} // verus!

verus! {

// --- typed members of a JSON object -----------------------------------------------

/// The `u64` that `serde_json` reads from the JSON text `text`, if any.
pub uninterp spec fn json_u64(text: Seq<char>) -> Option<u64>;

/// `serde_json::from_str::<u64>`. Claims: the outcome is the one named
/// `json_u64(text)`, and the decimal rendering of a `u64` reads back as itself.
#[verifier::external_body]
pub(crate) fn parse_json_u64(text: &str) -> (r: Option<u64>)
    ensures
        r == json_u64(text@),
        forall|k: u64| text@ == crate::text::nat_str(k as nat) ==> r == Some(k),
{
    serde_json::from_str::<u64>(text).ok()
}

/// A string member: `Ok(None)` when absent, `Ok(Some(s))` when it is a JSON
/// string, `Err` otherwise (as a `String` field of a serde struct reads it).
pub open spec fn member_str(ms: Seq<(Seq<char>, Seq<char>)>, key: Seq<char>) -> Result<Option<Seq<char>>, ()> {
    match member_lookup(ms, key) {
        None => Ok(None),
        Some(t) => match json_string_value(t) {
            Some(s) => Ok(Some(s)),
            None => Err(()),
        },
    }
}

/// An unsigned integer member, read like [`member_str`].
pub open spec fn member_u64(ms: Seq<(Seq<char>, Seq<char>)>, key: Seq<char>) -> Result<Option<u64>, ()> {
    match member_lookup(ms, key) {
        None => Ok(None),
        Some(t) => match json_u64(t) {
            Some(v) => Ok(Some(v)),
            None => Err(()),
        },
    }
}

/// A boolean member, read like [`member_str`]: the JSON literals `true` and
/// `false`.
pub open spec fn member_bool(ms: Seq<(Seq<char>, Seq<char>)>, key: Seq<char>) -> Result<Option<bool>, ()> {
    match member_lookup(ms, key) {
        None => Ok(None),
        Some(t) => if t == "true"@ {
            Ok(Some(true))
        } else if t == "false"@ {
            Ok(Some(false))
        } else {
            Err(())
        },
    }
}

/// The text of an optional string.
pub open spec fn opt_text(o: Option<String>) -> Option<Seq<char>> {
    match o {
        Some(s) => Some(s@),
        None => None,
    }
}

/// Read a string member of `ms` named `key`.
pub fn get_member_str(ms: &Vec<(String, String)>, key: &str) -> (r: Result<Option<String>, ()>)
    ensures
        match r {
            Ok(v) => member_str(members_view(ms@), key@) == Ok::<Option<Seq<char>>, ()>(opt_text(v)),
            Err(_) => member_str(members_view(ms@), key@) is Err,
        },
        forall|t: Seq<char>|
            member_lookup(members_view(ms@), key@) == Some(#[trigger] json_quote(t)) ==> r is Ok && opt_text(
                r->Ok_0,
            ) == Some(t),
{
    match find_member(ms, key) {
        None => Ok(None),
        Some(t) => match parse_json_string(t.as_str()) {
            Some(s) => Ok(Some(s)),
            None => Err(()),
        },
    }
}

/// Read an unsigned integer member of `ms` named `key`.
pub fn get_member_u64(ms: &Vec<(String, String)>, key: &str) -> (r: Result<Option<u64>, ()>)
    ensures
        match r {
            Ok(v) => member_u64(members_view(ms@), key@) == Ok::<Option<u64>, ()>(v),
            Err(_) => member_u64(members_view(ms@), key@) is Err,
        },
        forall|k: u64|
            member_lookup(members_view(ms@), key@) == Some(#[trigger] crate::text::nat_str(k as nat)) ==> r
                == Ok::<Option<u64>, ()>(Some(k)),
{
    match find_member(ms, key) {
        None => Ok(None),
        Some(t) => match parse_json_u64(t.as_str()) {
            Some(v) => Ok(Some(v)),
            None => Err(()),
        },
    }
}

/// Read a boolean member of `ms` named `key`.
pub fn get_member_bool(ms: &Vec<(String, String)>, key: &str) -> (r: Result<Option<bool>, ()>)
    ensures
        match r {
            Ok(v) => member_bool(members_view(ms@), key@) == Ok::<Option<bool>, ()>(v),
            Err(_) => member_bool(members_view(ms@), key@) is Err,
        },
{
    proof {
        reveal_strlit("true");
        reveal_strlit("false");
    }
    match find_member(ms, key) {
        None => Ok(None),
        Some(t) => if crate::text::str_eq(t.as_str(), "true") {
            Ok(Some(true))
        } else if crate::text::str_eq(t.as_str(), "false") {
            Ok(Some(false))
        } else {
            Err(())
        },
    }
}

} // verus!

verus! {

/// The elements of a JSON array, as `serde_json` reads `text`, each kept as
/// its verbatim JSON text; `None` when `text` is not a JSON array.
pub uninterp spec fn json_array_items(text: Seq<u8>) -> Option<Seq<Seq<char>>>;

/// The views of a list of strings.
pub open spec fn texts_view(v: Seq<String>) -> Seq<Seq<char>> {
    v.map_values(|s: String| s@)
}

/// Whether `serde_json` reads the JSON text `text` as a number.
pub uninterp spec fn json_is_number(text: Seq<char>) -> bool;

/// `serde_json::from_str::<serde_json::Number>(text).is_ok()`: whether the
/// text is one JSON number (integer or fraction). Claims only that the answer
/// is the one named `json_is_number(text)`.
#[verifier::external_body]
pub(crate) fn is_json_number(text: &str) -> (r: bool)
    ensures
        r == json_is_number(text@),
{
    serde_json::from_str::<serde_json::Number>(text).is_ok()
}

/// `serde_json::from_slice::<Vec<Box<RawValue>>>`: the elements of a JSON
/// array, each verbatim. Claims only that the outcome is the one named
/// `json_array_items(text)`.
#[verifier::external_body]
pub(crate) fn parse_json_array(text: &[u8]) -> (r: Option<Vec<String>>)
    ensures
        match r {
            Some(v) => json_array_items(text@) == Some(texts_view(v@)),
            None => json_array_items(text@) is None,
        },
{
    serde_json::from_slice::<Vec<Box<serde_json::value::RawValue>>>(text)
        .ok()
        .map(|v| v.into_iter().map(|e| e.get().to_string()).collect())
}

} // verus!
