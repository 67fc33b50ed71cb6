//! Model discovery via the Ollama `GET /api/tags` endpoint: the response's
//! `models` array lists one object per model with its `name`.

use vstd::prelude::*;
use vstd::utf8::encode_utf8;
use crate::codec::{find_member, json_array_items, json_members, json_string_value, member_lookup, parse_json_array, parse_json_members, parse_json_string};

verus! {

/// The `name` of one model entry, when the entry is an object with a string
/// `name`.
pub open spec fn entry_name(entry: Seq<char>) -> Option<Seq<char>> {
    match json_members(encode_utf8(entry)) {
        None => None,
        Some(ms) => match member_lookup(ms, "name"@) {
            None => None,
            Some(t) => json_string_value(t),
        },
    }
}

/// The names of the entries that have one, in order.
pub open spec fn entry_names(entries: Seq<Seq<char>>) -> Seq<Seq<char>>
    decreases entries.len(),
{
    if entries.len() == 0 {
        seq![]
    } else {
        match entry_name(entries.last()) {
            Some(n) => entry_names(entries.drop_last()).push(n),
            None => entry_names(entries.drop_last()),
        }
    }
}

/// The model names of an `/api/tags` body: empty unless it is an object whose
/// `models` member is an array.
pub open spec fn spec_tags(body: Seq<u8>) -> Seq<Seq<char>> {
    match json_members(body) {
        None => seq![],
        Some(ms) => match member_lookup(ms, "models"@) {
            None => seq![],
            Some(t) => match json_array_items(encode_utf8(t)) {
                None => seq![],
                Some(items) => entry_names(items),
            },
        },
    }
}

fn entry_name_exec(entry: &str) -> (r: Option<String>)
    ensures
        match r {
            Some(n) => entry_name(entry@) == Some(n@),
            None => entry_name(entry@) is None,
        },
{
    let ms = match parse_json_members(entry.as_bytes()) {
        Some(ms) => ms,
        None => return None,
    };
    match find_member(&ms, "name") {
        None => None,
        Some(t) => parse_json_string(t.as_str()),
    }
}

/// Parse an Ollama `/api/tags` response into model names.
/// Shape: `{"models":[{"name":"llama3:latest",...}, ...]}`.
pub fn parse_ollama_tags(body: &[u8]) -> (r: Vec<String>)
    ensures
        crate::codec::texts_view(r@) == spec_tags(body@),
{
    let mut out: Vec<String> = Vec::new();
    let ms = match parse_json_members(body) {
        Some(ms) => ms,
        None => {
            proof {
                assert(crate::codec::texts_view(out@) =~= Seq::<Seq<char>>::empty());
            }
            return out;
        },
    };
    let models = match find_member(&ms, "models") {
        Some(t) => t,
        None => {
            proof {
                assert(crate::codec::texts_view(out@) =~= Seq::<Seq<char>>::empty());
            }
            return out;
        },
    };
    let items = match parse_json_array(models.as_str().as_bytes()) {
        Some(v) => v,
        None => {
            proof {
                assert(crate::codec::texts_view(out@) =~= Seq::<Seq<char>>::empty());
            }
            return out;
        },
    };
    let ghost iv = crate::codec::texts_view(items@);
    let mut i: usize = 0;
    proof {
        assert(iv.subrange(0, 0) =~= Seq::<Seq<char>>::empty());
        assert(crate::codec::texts_view(out@) =~= Seq::<Seq<char>>::empty());
    }
    while i < items.len()
        invariant
            i <= items@.len(),
            iv == crate::codec::texts_view(items@),
            crate::codec::texts_view(out@) == entry_names(iv.subrange(0, i as int)),
        decreases items@.len() - i,
    {
        let ghost before = out@;
        match entry_name_exec(items[i].as_str()) {
            Some(n) => {
                out.push(n);
            },
            None => {},
        }
        proof {
            let p = iv.subrange(0, i + 1);
            assert(p.drop_last() =~= iv.subrange(0, i as int));
            assert(p.last() == items@[i as int]@);
            assert(crate::codec::texts_view(out@) =~= entry_names(p));
        }
        i = i + 1;
    }
    proof {
        assert(iv.subrange(0, iv.len() as int) =~= iv);
    }
    out
}

} // verus!
