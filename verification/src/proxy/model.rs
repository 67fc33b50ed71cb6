//! The requested model of an Ollama/OpenAI request body: both carry a
//! top-level JSON `"model"` string.

use vstd::prelude::*;
use crate::codec::{find_member, json_members, json_string_value, member_lookup, parse_json_members, parse_json_string};
use crate::text::{char_range, push_str};

verus! {

/// The `model` member of a JSON object body, when it is a string.
pub open spec fn spec_extract_model(body: Seq<u8>) -> Option<Seq<char>> {
    match json_members(body) {
        None => None,
        Some(ms) => match member_lookup(ms, "model"@) {
            None => None,
            Some(t) => json_string_value(t),
        },
    }
}

/// Return the `model` field from a JSON request body, if present.
pub fn extract_model(body: &[u8]) -> (r: Option<String>)
    ensures
        match r {
            Some(m) => spec_extract_model(body@) == Some(m@),
            None => spec_extract_model(body@) is None,
        },
{
    let ms = match parse_json_members(body) {
        Some(ms) => ms,
        None => return None,
    };
    match find_member(&ms, "model") {
        None => None,
        Some(t) => parse_json_string(t.as_str()),
    }
}

/// `model` without one trailing `:latest`.
pub open spec fn spec_normalize_model_key(model: Seq<char>) -> Seq<char> {
    let suffix = ":latest"@;
    if model.len() >= suffix.len() && model.subrange(model.len() - suffix.len(), model.len() as int) == suffix {
        model.subrange(0, model.len() - suffix.len())
    } else {
        model
    }
}

/// Normalize an Ollama model key: strip a trailing `:latest` tag so `llama3`
/// and `llama3:latest` route to the same nodes.
pub fn normalize_model_key(model: &str) -> (r: String)
    ensures
        r@ == spec_normalize_model_key(model@),
{
    proof {
        reveal_strlit(":latest");
    }
    let n = model.unicode_len();
    let suffix = ":latest";
    let k = suffix.unicode_len();
    if n >= k {
        let tail = char_range(model, n - k, n);
        if crate::text::str_eq(tail.as_str(), suffix) {
            return char_range(model, 0, n - k);
        }
    }
    let mut r = String::new();
    push_str(&mut r, model);
    r
}

/// `llama3` and `llama3:latest` name the same model: appending `:latest` to a
/// key that does not already end in it leaves its normalization unchanged.
pub proof fn lemma_latest_alias(k: Seq<char>)
    requires
        !(k.len() >= 7 && k.subrange(k.len() - 7, k.len() as int) == ":latest"@),
    ensures
        spec_normalize_model_key(k + ":latest"@) == spec_normalize_model_key(k),
        spec_normalize_model_key(k) == k,
{
    reveal_strlit(":latest");
    let t = k + ":latest"@;
    assert(t.subrange(t.len() - 7, t.len() as int) =~= ":latest"@);
    assert(t.subrange(0, t.len() - 7) =~= k);
}

} // verus!
