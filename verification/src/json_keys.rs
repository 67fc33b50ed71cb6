//! The member keys of a top-level JSON object in the order they are written,
//! repeats included. A struct decoder refuses an object that gives one of its
//! fields twice; the members map of [`crate::codec`] keeps only the last
//! value, so the decoders ask here whether a field is repeated.
//!
//! Each key and each value is read by `serde_json` (one value at a time, with
//! its end offset); the object's own punctuation and whitespace are walked here.

use vstd::prelude::*;
use vstd::utf8::{encode_utf8, is_ascii_chars, is_ascii_chars_encode_utf8};
use crate::codec::{json_flat_text, json_object_text, json_quote, member_text, members_text, plain_members, texts_view};

verus! {

// --- whitespace -----------------------------------------------------------------

/// JSON whitespace: space, tab, line feed, carriage return.
pub open spec fn is_json_ws(b: u8) -> bool {
    b == 32u8 || b == 9u8 || b == 10u8 || b == 13u8
}

/// The first index at or after `i` that is not JSON whitespace.
pub open spec fn skip_ws(t: Seq<u8>, i: int) -> int
    decreases t.len() - i,
{
    if 0 <= i < t.len() && is_json_ws(t[i]) {
        skip_ws(t, i + 1)
    } else {
        i
    }
}

/// Skipping whitespace never moves back.
pub proof fn lemma_skip_ws_ge(t: Seq<u8>, i: int)
    ensures
        skip_ws(t, i) >= i,
    decreases t.len() - i,
{
    if 0 <= i < t.len() && is_json_ws(t[i]) {
        lemma_skip_ws_ge(t, i + 1);
    }
}

fn skip_ws_exec(t: &[u8], i: usize) -> (r: usize)
    requires
        i <= t@.len(),
    ensures
        r == skip_ws(t@, i as int),
        i <= r <= t@.len(),
{
    let mut j = i;
    while j < t.len() && (t[j] == 32u8 || t[j] == 9u8 || t[j] == 10u8 || t[j] == 13u8)
        invariant
            i <= j <= t@.len(),
            skip_ws(t@, i as int) == skip_ws(t@, j as int),
        decreases t@.len() - j,
    {
        j = j + 1;
    }
    j
}

// --- one value at a time ------------------------------------------------------------

/// The string that `serde_json` reads as the first value of `text` (after
/// leading whitespace), with the number of bytes read.
pub uninterp spec fn json_string_head(text: Seq<u8>) -> Option<(Seq<char>, nat)>;

/// The number of bytes `serde_json` reads for the first value of `text`
/// (after leading whitespace), when it reads one.
pub uninterp spec fn json_value_head(text: Seq<u8>) -> Option<nat>;

/// The first item of `serde_json::Deserializer::from_slice(&text[start..])
/// .into_iter::<String>()` with the stream's `byte_offset()`. Claims: the
/// outcome is the one named `json_string_head` of the bytes from `start`; a
/// string read takes at least one byte and no more than there are; and bytes
/// that begin with a JSON string literal read as the text it quotes, taking
/// exactly the literal (a string ends at its closing quote, so whatever
/// follows it is not looked at).
#[verifier::external_body]
fn string_head(text: &[u8], start: usize) -> (r: Option<(String, usize)>)
    requires
        start <= text@.len(),
    ensures
        match r {
            Some(p) => json_string_head(text@.skip(start as int)) == Some((p.0@, p.1 as nat)) && 0 < p.1
                <= text@.len() - start,
            None => json_string_head(text@.skip(start as int)) is None,
        },
        forall|k: Seq<char>|
            encode_utf8(#[trigger] json_quote(k)).is_prefix_of(text@.skip(start as int)) ==> r is Some
                && r.unwrap().0@ == k && r.unwrap().1 == encode_utf8(json_quote(k)).len(),
{
    let mut it = serde_json::Deserializer::from_slice(&text[start..]).into_iter::<String>();
    match it.next() {
        Some(Ok(s)) => Some((s, it.byte_offset())),
        _ => None,
    }
}

/// The first item of `serde_json::Deserializer::from_slice(&text[start..])
/// .into_iter::<serde::de::IgnoredAny>()` with the stream's `byte_offset()`.
/// Claims: the outcome is the one named `json_value_head` of the bytes from
/// `start`; a value read takes at least one byte and no more than there are;
/// and bytes that begin with flat JSON text followed by nothing, a comma or a
/// closing brace read that value, taking exactly its bytes.
#[verifier::external_body]
fn value_head(text: &[u8], start: usize) -> (r: Option<usize>)
    requires
        start <= text@.len(),
    ensures
        match r {
            Some(n) => json_value_head(text@.skip(start as int)) == Some(n as nat) && 0 < n <= text@.len() - start,
            None => json_value_head(text@.skip(start as int)) is None,
        },
        forall|v: Seq<char>|
            #[trigger] json_flat_text(v) && encode_utf8(v).is_prefix_of(text@.skip(start as int)) && (text@.len()
                - start == encode_utf8(v).len() || text@[start + encode_utf8(v).len()] == 44u8 || text@[start
                + encode_utf8(v).len()] == 125u8) ==> r is Some && r.unwrap() == encode_utf8(v).len(),
{
    let mut it = serde_json::Deserializer::from_slice(&text[start..]).into_iter::<serde::de::IgnoredAny>();
    match it.next() {
        Some(Ok(_)) => Some(it.byte_offset()),
        _ => None,
    }
}

// --- the keys of an object ------------------------------------------------------------

/// The keys of the members from index `i` on: a string, a colon, a value,
/// then a comma and more members or the closing brace.
pub open spec fn keys_from(t: Seq<u8>, i: int) -> Option<Seq<Seq<char>>>
    decreases t.len() - i,
{
    if i < 0 || i >= t.len() {
        None
    } else {
        match json_string_head(t.skip(i)) {
            None => None,
            Some(h) => {
                let j = skip_ws(t, i + h.1);
                if h.1 == 0 || !(j < t.len() && t[j] == 58u8) {
                    None
                } else {
                    match json_value_head(t.skip(j + 1)) {
                        None => None,
                        Some(b) => {
                            let q = skip_ws(t, j + 1 + b);
                            if b == 0 || !(q < t.len()) {
                                None
                            } else if t[q] == 125u8 {
                                Some(seq![h.0])
                            } else if t[q] == 44u8 {
                                proof {
                                    lemma_skip_ws_ge(t, i + h.1);
                                    lemma_skip_ws_ge(t, j + 1 + b);
                                }
                                match keys_from(t, q + 1) {
                                    Some(rest) => Some(seq![h.0] + rest),
                                    None => None,
                                }
                            } else {
                                None
                            }
                        },
                    }
                }
            },
        }
    }
}

/// The keys of the top-level object in `t`, in order and with repeats.
pub open spec fn object_keys_of(t: Seq<u8>) -> Option<Seq<Seq<char>>> {
    let i = skip_ws(t, 0);
    if 0 <= i < t.len() && t[i] == 123u8 {
        let j = skip_ws(t, i + 1);
        if 0 <= j < t.len() && t[j] == 125u8 {
            Some(seq![])
        } else {
            keys_from(t, i + 1)
        }
    } else {
        None
    }
}

/// The keys of a list of members.
pub open spec fn member_keys(ms: Seq<(Seq<char>, Seq<char>)>) -> Seq<Seq<char>> {
    ms.map_values(|m: (Seq<char>, Seq<char>)| m.0)
}

/// How often `k` occurs in `ks`.
pub open spec fn key_count(ks: Seq<Seq<char>>, k: Seq<char>) -> nat
    decreases ks.len(),
{
    if ks.len() == 0 {
        0
    } else {
        (if ks.last() == k {
            1nat
        } else {
            0nat
        }) + key_count(ks.drop_last(), k)
    }
}

/// The object in `t` gives one of `fields` more than once.
pub open spec fn field_repeated(t: Seq<u8>, fields: Seq<Seq<char>>) -> bool {
    match object_keys_of(t) {
        Some(ks) => exists|i: int| 0 <= i < fields.len() && key_count(ks, #[trigger] fields[i]) >= 2,
        None => false,
    }
}

/// The texts of a list of string slices.
pub open spec fn strs_view(v: Seq<&str>) -> Seq<Seq<char>> {
    v.map_values(|s: &str| s@)
}

// --- lemmas on the text of a compact object ---------------------------------------

/// UTF-8 encoding distributes over concatenation.
pub proof fn lemma_encode_concat(a: Seq<char>, b: Seq<char>)
    ensures
        encode_utf8(a + b) == encode_utf8(a) + encode_utf8(b),
    decreases a.len(),
{
    if a.len() == 0 {
        assert(a + b =~= b);
        assert(encode_utf8(a) =~= Seq::<u8>::empty());
        assert(encode_utf8(a) + encode_utf8(b) =~= encode_utf8(b));
    } else {
        assert((a + b).drop_first() =~= a.drop_first() + b);
        assert((a + b)[0] == a[0]);
        lemma_encode_concat(a.drop_first(), b);
        assert(encode_utf8(a + b) =~= encode_utf8(a) + encode_utf8(b));
    }
}

/// An ASCII character is encoded as its one byte.
pub proof fn lemma_encode_ascii(c: char)
    requires
        (c as u32) < 128,
    ensures
        encode_utf8(seq![c]) == seq![c as u8],
{
    assert(is_ascii_chars(seq![c]));
    is_ascii_chars_encode_utf8(seq![c]);
    assert(encode_utf8(seq![c]) =~= seq![c as u8]);
}

/// The members text read from the front: the first member, then a comma and
/// the rest when there is more.
pub proof fn lemma_members_front(s: Seq<(Seq<char>, Seq<char>)>)
    requires
        s.len() >= 1,
    ensures
        members_text(s) == member_text(s[0]) + (if s.len() > 1 {
            seq![','] + members_text(s.drop_first())
        } else {
            seq![]
        }),
    decreases s.len(),
{
    if s.len() == 1 {
        assert(member_text(s[0]) + Seq::<char>::empty() =~= member_text(s[0]));
    } else if s.len() == 2 {
        assert(s.drop_last() =~= seq![s[0]]);
        assert(s.drop_first() =~= seq![s[1]]);
        assert(members_text(s.drop_first()) == member_text(s[1]));
        assert(members_text(s.drop_last()) == member_text(s[0]));
        assert(s.last() == s[1]);
        assert(members_text(s) == members_text(s.drop_last()) + seq![','] + member_text(s.last()));
        assert(members_text(s) =~= member_text(s[0]) + (seq![','] + members_text(s.drop_first())));
    } else {
        lemma_members_front(s.drop_last());
        assert(members_text(s) == members_text(s.drop_last()) + seq![','] + member_text(s.last()));
        assert(s.drop_last().len() > 1);
        assert(s.drop_last().drop_first() =~= s.drop_first().drop_last());
        assert(s.drop_first().last() == s.last());
        assert(s.drop_last()[0] == s[0]);
        assert(members_text(s.drop_first()) == members_text(s.drop_first().drop_last()) + seq![','] + member_text(
            s.drop_first().last(),
        ));
        assert(members_text(s) =~= member_text(s[0]) + (seq![','] + members_text(s.drop_first())));
    }
}

/// Distinct keys occur once at most.
proof fn lemma_distinct_count(ms: Seq<(Seq<char>, Seq<char>)>, k: Seq<char>)
    requires
        crate::codec::keys_distinct(ms),
    ensures
        key_count(member_keys(ms), k) <= 1,
    decreases ms.len(),
{
    if ms.len() > 0 {
        let init = ms.drop_last();
        assert(crate::codec::keys_distinct(init)) by {
            assert forall|i: int, j: int| 0 <= i < j < init.len() implies (#[trigger] init[i]).0 != (#[trigger] init[j]).0 by {
                assert(init[i] == ms[i] && init[j] == ms[j]);
            }
        }
        lemma_distinct_count(init, k);
        assert(member_keys(ms).drop_last() =~= member_keys(init));
        if ms.last().0 == k {
            lemma_absent_count(init, k);
            assert forall|i: int| 0 <= i < init.len() implies (#[trigger] init[i]).0 != k by {
                assert(init[i] == ms[i]);
                assert(ms[i].0 != ms[ms.len() - 1].0);
            }
        }
    }
}

/// A key of no member occurs nowhere.
proof fn lemma_absent_count(ms: Seq<(Seq<char>, Seq<char>)>, k: Seq<char>)
    ensures
        (forall|i: int| 0 <= i < ms.len() ==> (#[trigger] ms[i]).0 != k) ==> key_count(member_keys(ms), k) == 0,
    decreases ms.len(),
{
    if ms.len() > 0 {
        let init = ms.drop_last();
        lemma_absent_count(init, k);
        assert(member_keys(ms).drop_last() =~= member_keys(init));
        if forall|i: int| 0 <= i < ms.len() ==> (#[trigger] ms[i]).0 != k {
            assert forall|i: int| 0 <= i < init.len() implies (#[trigger] init[i]).0 != k by {
                assert(init[i] == ms[i]);
            }
            assert(ms[ms.len() - 1].0 != k);
        }
    }
}

/// The UTF-8 of a compact object: the members' bytes follow the opening
/// brace, and the first byte of a quoted key is the quote.
proof fn lemma_object_bytes(ms: Seq<(Seq<char>, Seq<char>)>)
    ensures
        encode_utf8(json_object_text(ms)) == seq![123u8] + encode_utf8(members_text(ms) + seq!['}']),
{
    lemma_encode_ascii('{');
    assert(json_object_text(ms) =~= seq!['{'] + (members_text(ms) + seq!['}']));
    lemma_encode_concat(seq!['{'], members_text(ms) + seq!['}']);
}

/// One member and what follows it, in bytes: the quoted key, then a colon,
/// the value and the rest.
proof fn lemma_member_bytes(m: (Seq<char>, Seq<char>), rest: Seq<char>)
    ensures
        encode_utf8(member_text(m) + rest) == encode_utf8(json_quote(m.0)) + (seq![58u8] + (encode_utf8(m.1)
            + encode_utf8(rest))),
        encode_utf8(json_quote(m.0)).len() >= 1,
        encode_utf8(json_quote(m.0))[0] == 34u8,
{
    lemma_encode_ascii(':');
    lemma_encode_ascii('"');
    assert(member_text(m) + rest =~= json_quote(m.0) + (seq![':'] + (m.1 + rest)));
    lemma_encode_concat(json_quote(m.0), seq![':'] + (m.1 + rest));
    lemma_encode_concat(seq![':'], m.1 + rest);
    lemma_encode_concat(m.1, rest);
    assert(json_quote(m.0) =~= seq!['"'] + (crate::codec::json_escape(m.0) + seq!['"']));
    lemma_encode_concat(seq!['"'], crate::codec::json_escape(m.0) + seq!['"']);
}

/// The members from index `c` and the closing brace: the key of the first,
/// its colon, value, and either the brace or a comma and the next ones.
proof fn lemma_tail_bytes(ms: Seq<(Seq<char>, Seq<char>)>, c: int)
    requires
        0 <= c < ms.len(),
    ensures
        encode_utf8(members_text(ms.skip(c)) + seq!['}']) == encode_utf8(json_quote(ms[c].0)) + (seq![58u8] + (
        encode_utf8(ms[c].1) + (if c + 1 < ms.len() {
            seq![44u8] + encode_utf8(members_text(ms.skip(c + 1)) + seq!['}'])
        } else {
            seq![125u8]
        }))),
{
    let s = ms.skip(c);
    lemma_members_front(s);
    assert(s[0] == ms[c]);
    assert(s.drop_first() =~= ms.skip(c + 1));
    lemma_encode_ascii(',');
    lemma_encode_ascii('}');
    if c + 1 < ms.len() {
        let rest = seq![','] + (members_text(ms.skip(c + 1)) + seq!['}']);
        assert(members_text(s) + seq!['}'] =~= member_text(ms[c]) + rest);
        lemma_member_bytes(ms[c], rest);
        lemma_encode_concat(seq![','], members_text(ms.skip(c + 1)) + seq!['}']);
    } else {
        let rest = seq!['}'];
        assert(members_text(s) + seq!['}'] =~= member_text(ms[c]) + rest);
        lemma_member_bytes(ms[c], rest);
    }
}

/// The keys of the top-level object in `text`, in order and with repeats;
/// the keys of a compact object with plain members are those members' keys.
#[verifier::rlimit(100)]
pub fn object_keys(text: &[u8]) -> (r: Option<Vec<String>>)
    ensures
        match r {
            Some(v) => object_keys_of(text@) == Some(texts_view(v@)),
            None => object_keys_of(text@) is None,
        },
        forall|ms: Seq<(Seq<char>, Seq<char>)>|
            plain_members(ms) && text@ == encode_utf8(#[trigger] json_object_text(ms)) ==> r is Some && texts_view(
                r.unwrap()@,
            ) == member_keys(ms),
{
    let n = text.len();
    proof {
        assert forall|ms: Seq<(Seq<char>, Seq<char>)>|
            plain_members(ms) && text@ == encode_utf8(#[trigger] json_object_text(ms)) implies {
            &&& text@.len() >= 2 && text@[0] == 123u8
            &&& text@.skip(1) == encode_utf8(members_text(ms) + seq!['}'])
            &&& (ms.len() == 0 ==> text@[1] == 125u8)
            &&& (ms.len() > 0 ==> text@[1] == 34u8)
        } by {
            lemma_object_bytes(ms);
            assert(text@.skip(1) =~= encode_utf8(members_text(ms) + seq!['}']));
            if ms.len() == 0 {
                lemma_encode_ascii('}');
                assert(members_text(ms) + seq!['}'] =~= seq!['}']);
            } else {
                lemma_tail_bytes(ms, 0);
                assert(ms.skip(0) =~= ms);
                lemma_member_bytes(ms[0], seq![]);
            }
        }
    }
    let i = skip_ws_exec(text, 0);
    if !(i < n && text[i] == 123u8) {
        return None;
    }
    let j = skip_ws_exec(text, i + 1);
    if j < n && text[j] == 125u8 {
        let v: Vec<String> = Vec::new();
        proof {
            assert(texts_view(v@) =~= Seq::<Seq<char>>::empty());
            assert forall|ms: Seq<(Seq<char>, Seq<char>)>|
                plain_members(ms) && text@ == encode_utf8(#[trigger] json_object_text(ms)) implies member_keys(ms)
                == Seq::<Seq<char>>::empty() by {
                assert(i == 0 && j == 1);
                assert(member_keys(ms) =~= Seq::<Seq<char>>::empty());
            }
        }
        return Some(v);
    }
    let mut keys: Vec<String> = Vec::new();
    let mut pos: usize = i + 1;
    proof {
        assert(texts_view(keys@) =~= Seq::<Seq<char>>::empty());
        assert(object_keys_of(text@) == keys_from(text@, pos as int));
        assert forall|ms: Seq<(Seq<char>, Seq<char>)>|
            plain_members(ms) && text@ == encode_utf8(#[trigger] json_object_text(ms)) implies {
            &&& 0 < ms.len()
            &&& texts_view(keys@) == member_keys(ms).take(0)
            &&& text@.skip(pos as int) == encode_utf8(members_text(ms.skip(0)) + seq!['}'])
        } by {
            assert(i == 0);
            assert(ms.skip(0) =~= ms);
            assert(member_keys(ms).take(0) =~= Seq::<Seq<char>>::empty());
        }
    }
    loop
        invariant
            n == text@.len(),
            0 < pos <= n,
            object_keys_of(text@) == (match keys_from(text@, pos as int) {
                Some(rest) => Some(texts_view(keys@) + rest),
                None => None::<Seq<Seq<char>>>,
            }),
            forall|ms: Seq<(Seq<char>, Seq<char>)>|
                plain_members(ms) && text@ == encode_utf8(#[trigger] json_object_text(ms)) ==> {
                    &&& keys@.len() < ms.len()
                    &&& texts_view(keys@) == member_keys(ms).take(keys@.len() as int)
                    &&& text@.skip(pos as int) == encode_utf8(members_text(ms.skip(keys@.len() as int)) + seq!['}'])
                },
        decreases n - pos,
    {
        let c = keys.len();
        let sh = string_head(text, pos);
        proof {
            assert forall|ms: Seq<(Seq<char>, Seq<char>)>|
                plain_members(ms) && text@ == encode_utf8(#[trigger] json_object_text(ms)) implies {
                &&& sh is Some && sh.unwrap().0@ == ms[c as int].0
                &&& sh.unwrap().1 == encode_utf8(json_quote(ms[c as int].0)).len()
                &&& text@.skip(pos + encode_utf8(json_quote(ms[c as int].0)).len()) == seq![58u8] + (encode_utf8(
                    ms[c as int].1,
                ) + (if c + 1 < ms.len() {
                    seq![44u8] + encode_utf8(members_text(ms.skip(c + 1)) + seq!['}'])
                } else {
                    seq![125u8]
                }))
            } by {
                lemma_tail_bytes(ms, c as int);
                let kb = encode_utf8(json_quote(ms[c as int].0));
                let tl = text@.skip(pos as int);
                assert(kb.is_prefix_of(tl)) by {
                    assert(tl.subrange(0, kb.len() as int) =~= kb);
                }
                assert(text@.skip(pos + kb.len()) =~= tl.skip(kb.len() as int));
            }
        }
        let (k, a) = match sh {
            Some(p) => p,
            None => return None,
        };
        let j2 = skip_ws_exec(text, pos + a);
        if !(j2 < n && text[j2] == 58u8) {
            proof {
                assert forall|ms: Seq<(Seq<char>, Seq<char>)>|
                    plain_members(ms) && text@ == encode_utf8(#[trigger] json_object_text(ms)) implies false by {
                    let t2 = text@.skip(pos + a);
                    assert(t2[0] == 58u8);
                    assert(text@[pos + a] == t2[0]);
                    assert(skip_ws(text@, pos + a) == pos + a);
                }
            }
            return None;
        }
        proof {
            assert forall|ms: Seq<(Seq<char>, Seq<char>)>|
                plain_members(ms) && text@ == encode_utf8(#[trigger] json_object_text(ms)) implies j2 == pos + a by {
                let t2 = text@.skip(pos + a);
                assert(t2[0] == 58u8);
                assert(text@[pos + a] == t2[0]);
                assert(skip_ws(text@, pos + a) == pos + a);
            }
        }
        let vh = value_head(text, j2 + 1);
        proof {
            assert forall|ms: Seq<(Seq<char>, Seq<char>)>|
                plain_members(ms) && text@ == encode_utf8(#[trigger] json_object_text(ms)) implies {
                &&& vh is Some && vh.unwrap() == encode_utf8(ms[c as int].1).len()
                &&& text@[j2 + 1 + encode_utf8(ms[c as int].1).len()] == (if c + 1 < ms.len() {
                    44u8
                } else {
                    125u8
                })
                &&& (c + 1 < ms.len() ==> text@.skip(j2 + 2 + encode_utf8(ms[c as int].1).len()) == encode_utf8(
                    members_text(ms.skip(c + 1)) + seq!['}'],
                ))
            } by {
                let vb = encode_utf8(ms[c as int].1);
                let tl = text@.skip(j2 + 1);
                assert(json_flat_text(ms[c as int].1));
                assert(tl =~= text@.skip(pos + a).skip(1));
                assert(vb.is_prefix_of(tl)) by {
                    assert(tl.subrange(0, vb.len() as int) =~= vb);
                }
                assert(text@[j2 + 1 + vb.len()] == tl[vb.len() as int]);
                if c + 1 < ms.len() {
                    assert(text@.skip(j2 + 2 + vb.len()) =~= tl.skip((vb.len() + 1) as int));
                }
            }
        }
        let b = match vh {
            Some(m) => m,
            None => return None,
        };
        let q = skip_ws_exec(text, j2 + 1 + b);
        if !(q < n) {
            return None;
        }
        proof {
            assert forall|ms: Seq<(Seq<char>, Seq<char>)>|
                plain_members(ms) && text@ == encode_utf8(#[trigger] json_object_text(ms)) implies q == j2 + 1 + b by {}
            lemma_skip_ws_ge(text@, pos + a);
            lemma_skip_ws_ge(text@, j2 + 1 + b);
        }
        let ghost before = keys@;
        let ghost kv = k@;
        keys.push(k);
        proof {
            assert(texts_view(keys@) =~= texts_view(before).push(kv));
        }
        if text[q] == 125u8 {
            proof {
                assert(texts_view(keys@) =~= texts_view(before) + seq![kv]);
                assert forall|ms: Seq<(Seq<char>, Seq<char>)>|
                    plain_members(ms) && text@ == encode_utf8(#[trigger] json_object_text(ms)) implies texts_view(
                    keys@,
                ) == member_keys(ms) by {
                    assert(c + 1 == ms.len());
                    assert(member_keys(ms) =~= member_keys(ms).take(c as int).push(ms[c as int].0));
                }
            }
            return Some(keys);
        }
        if text[q] != 44u8 {
            return None;
        }
        proof {
            assert forall|ms: Seq<(Seq<char>, Seq<char>)>|
                plain_members(ms) && text@ == encode_utf8(#[trigger] json_object_text(ms)) implies {
                &&& keys@.len() < ms.len()
                &&& texts_view(keys@) == member_keys(ms).take(keys@.len() as int)
                &&& text@.skip(q + 1) == encode_utf8(members_text(ms.skip(keys@.len() as int)) + seq!['}'])
            } by {
                assert(c + 1 < ms.len());
                assert(member_keys(ms).take(c + 1) =~= member_keys(ms).take(c as int).push(ms[c as int].0));
            }
            assert(texts_view(before) + (seq![kv] + Seq::<Seq<char>>::empty()) =~= texts_view(keys@));
            assert forall|rest: Seq<Seq<char>>| true implies texts_view(before) + (seq![kv] + rest) == texts_view(keys@)
                + rest by {
                assert(texts_view(before) + (seq![kv] + rest) =~= texts_view(keys@) + rest);
            }
        }
        pos = q + 1;
    }
}

/// Whether the object in `text` gives one of `fields` more than once; never
/// for a compact object with plain members.
pub fn repeated_field(text: &[u8], fields: &Vec<&str>) -> (r: bool)
    ensures
        r == field_repeated(text@, strs_view(fields@)),
        forall|ms: Seq<(Seq<char>, Seq<char>)>|
            plain_members(ms) && text@ == encode_utf8(#[trigger] json_object_text(ms)) ==> !r,
{
    let keys = match object_keys(text) {
        Some(k) => k,
        None => return false,
    };
    let ghost ks = texts_view(keys@);
    let ghost fv = strs_view(fields@);
    proof {
        assert forall|ms: Seq<(Seq<char>, Seq<char>)>|
            plain_members(ms) && text@ == encode_utf8(#[trigger] json_object_text(ms)) implies forall|k: Seq<char>|
            #[trigger] key_count(ks, k) <= 1 by {
            assert forall|k: Seq<char>| #[trigger] key_count(ks, k) <= 1 by {
                lemma_distinct_count(ms, k);
            }
        }
    }
    let mut f: usize = 0;
    while f < fields.len()
        invariant
            f <= fields@.len(),
            ks == texts_view(keys@),
            fv == strs_view(fields@),
            object_keys_of(text@) == Some(ks),
            forall|i: int| 0 <= i < f ==> key_count(ks, #[trigger] fv[i]) < 2,
            forall|ms: Seq<(Seq<char>, Seq<char>)>|
                plain_members(ms) && text@ == encode_utf8(#[trigger] json_object_text(ms)) ==> forall|k: Seq<char>|
                    #[trigger] key_count(ks, k) <= 1,
        decreases fields@.len() - f,
    {
        let mut count: usize = 0;
        let mut i: usize = 0;
        while i < keys.len()
            invariant
                i <= keys@.len(),
                f < fields@.len(),
                ks == texts_view(keys@),
                fv == strs_view(fields@),
                count == key_count(ks.take(i as int), fv[f as int]),
                count <= i,
            decreases keys@.len() - i,
        {
            proof {
                assert(ks.take(i + 1).drop_last() =~= ks.take(i as int));
                assert(ks.take(i + 1).last() == keys@[i as int]@);
            }
            if crate::text::str_eq(keys[i].as_str(), fields[f]) {
                count = count + 1;
            }
            i = i + 1;
        }
        proof {
            assert(ks.take(keys@.len() as int) =~= ks);
        }
        if count >= 2 {
            proof {
                assert(key_count(ks, fv[f as int]) >= 2);
            }
            return true;
        }
        f = f + 1;
    }
    proof {
        assert forall|i: int| 0 <= i < fv.len() implies !(key_count(ks, #[trigger] fv[i]) >= 2) by {}
    }
    false
}

} // verus!
