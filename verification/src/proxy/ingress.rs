//! The `/ingress` envelope: a wrapped upstream request (or its response)
//! exchanged between peers. Body fields: host, port, path, method, name,
//! data, txt, code; absent fields are left out of the JSON.

use vstd::prelude::*;
use crate::json_keys::{field_repeated, repeated_field, strs_view};
use crate::codec::{find_member, json_members, json_quote, json_string_literal, json_string_value, json_u64, member_lookup, parse_json_members, parse_json_string, parse_json_u64, texts_view};
use crate::text::{join_commas, join_with_commas, nat_str, push_str, str_eq, u64_to_string};

verus! {

/// The `/ingress` request/response envelope.
#[derive(Debug, Clone)]
pub struct IngressEnvelope {
    pub host: Option<String>,
    pub port: Option<u16>,
    /// Upstream path to hit on the peer's local engine.
    pub path: Option<String>,
    /// HTTP method for the wrapped request (POST when absent).
    pub method: Option<String>,
    /// Model / target name.
    pub name: Option<String>,
    /// Original request (or response) body.
    pub data: Option<String>,
    /// Status text on the response path.
    pub txt: Option<String>,
    /// HTTP status code on the response path.
    pub code: Option<u16>,
}

/// The content of an ingress envelope.
pub struct IngressView {
    pub host: Option<Seq<char>>,
    pub port: Option<u16>,
    pub path: Option<Seq<char>>,
    pub method: Option<Seq<char>>,
    pub name: Option<Seq<char>>,
    pub data: Option<Seq<char>>,
    pub txt: Option<Seq<char>>,
    pub code: Option<u16>,
}

/// The text of an optional string.
pub open spec fn ot(o: Option<String>) -> Option<Seq<char>> {
    match o {
        Some(s) => Some(s@),
        None => None,
    }
}

/// The content of an envelope value.
pub open spec fn ingress_view(e: IngressEnvelope) -> IngressView {
    IngressView {
        host: ot(e.host),
        port: e.port,
        path: ot(e.path),
        method: ot(e.method),
        name: ot(e.name),
        data: ot(e.data),
        txt: ot(e.txt),
        code: e.code,
    }
}

impl Default for IngressEnvelope {
    fn default() -> (e: Self)
        ensures
            e.host is None && e.port is None && e.path is None && e.method is None && e.name is None
                && e.data is None && e.txt is None && e.code is None,
    {
        IngressEnvelope { host: None, port: None, path: None, method: None, name: None, data: None, txt: None, code: None }
    }
}

/// `"key":` followed by the JSON string of `v`, when present.
pub open spec fn str_part(key: Seq<char>, v: Option<Seq<char>>) -> Seq<Seq<char>> {
    match v {
        Some(s) => seq![seq!['"'] + key + seq!['"', ':'] + json_quote(s)],
        None => seq![],
    }
}

/// `"key":` followed by the decimal `v`, when present.
pub open spec fn num_part(key: Seq<char>, v: Option<u16>) -> Seq<Seq<char>> {
    match v {
        Some(n) => seq![seq!['"'] + key + seq!['"', ':'] + nat_str(n as nat)],
        None => seq![],
    }
}

/// The members of the JSON form, in field order.
pub open spec fn ingress_parts(e: IngressView) -> Seq<Seq<char>> {
    str_part("host"@, e.host) + num_part("port"@, e.port) + str_part("path"@, e.path) + str_part("method"@, e.method)
        + str_part("name"@, e.name) + str_part("data"@, e.data) + str_part("txt"@, e.txt) + num_part("code"@, e.code)
}

/// The compact JSON of an envelope.
pub open spec fn ingress_json(e: IngressView) -> Seq<char> {
    seq!['{'] + join_commas(ingress_parts(e)) + seq!['}']
}

/// An optional string member: absent or `null` reads as `None`, a JSON string
/// as its text, anything else is an error.
pub open spec fn opt_str_member(ms: Seq<(Seq<char>, Seq<char>)>, key: Seq<char>) -> Result<Option<Seq<char>>, ()> {
    match member_lookup(ms, key) {
        None => Ok(None),
        Some(t) => if t == "null"@ {
            Ok(None)
        } else {
            match json_string_value(t) {
                Some(s) => Ok(Some(s)),
                None => Err(()),
            }
        },
    }
}

/// An optional 16-bit member: absent or `null` reads as `None`, an integer up
/// to 65535 as its value, anything else is an error.
pub open spec fn opt_u16_member(ms: Seq<(Seq<char>, Seq<char>)>, key: Seq<char>) -> Result<Option<u16>, ()> {
    match member_lookup(ms, key) {
        None => Ok(None),
        Some(t) => if t == "null"@ {
            Ok(None)
        } else {
            match json_u64(t) {
                Some(v) => if v <= 65535 {
                    Ok(Some(v as u16))
                } else {
                    Err(())
                },
                None => Err(()),
            }
        },
    }
}

/// The members an ingress envelope reads; an object that gives one twice is
/// refused.
pub open spec fn ingress_keys() -> Seq<Seq<char>> {
    seq!["host"@, "port"@, "path"@, "method"@, "name"@, "data"@, "txt"@, "code"@]
}

/// The envelope read from JSON bytes; `None` when they are not a JSON object
/// whose known members have their types, or the object gives one of them twice.
/// Only the object form is read: a JSON array of the fields in order is refused.
pub open spec fn ingress_from_json(bytes: Seq<u8>) -> Option<IngressView> {
    match json_members(bytes) {
        None => None,
        Some(ms) => if field_repeated(bytes, ingress_keys()) {
            None
        } else {
            match (
            opt_str_member(ms, "host"@),
            opt_u16_member(ms, "port"@),
            opt_str_member(ms, "path"@),
            opt_str_member(ms, "method"@),
            opt_str_member(ms, "name"@),
            opt_str_member(ms, "data"@),
            opt_str_member(ms, "txt"@),
            opt_u16_member(ms, "code"@),
        ) {
            (Ok(host), Ok(port), Ok(path), Ok(method), Ok(name), Ok(data), Ok(txt), Ok(code)) => Some(
                IngressView { host, port, path, method, name, data, txt, code },
            ),
            _ => None,
        }},
    }
}

fn get_opt_str(ms: &Vec<(String, String)>, key: &str) -> (r: Result<Option<String>, ()>)
    ensures
        match r {
            Ok(v) => opt_str_member(crate::codec::members_view(ms@), key@) == Ok::<Option<Seq<char>>, ()>(ot(v)),
            Err(_) => opt_str_member(crate::codec::members_view(ms@), key@) is Err,
        },
{
    proof {
        reveal_strlit("null");
    }
    match find_member(ms, key) {
        None => Ok(None),
        Some(t) => if str_eq(t.as_str(), "null") {
            Ok(None)
        } else {
            match parse_json_string(t.as_str()) {
                Some(s) => Ok(Some(s)),
                None => Err(()),
            }
        },
    }
}

fn get_opt_u16(ms: &Vec<(String, String)>, key: &str) -> (r: Result<Option<u16>, ()>)
    ensures
        match r {
            Ok(v) => opt_u16_member(crate::codec::members_view(ms@), key@) == Ok::<Option<u16>, ()>(v),
            Err(_) => opt_u16_member(crate::codec::members_view(ms@), key@) is Err,
        },
{
    proof {
        reveal_strlit("null");
    }
    match find_member(ms, key) {
        None => Ok(None),
        Some(t) => if str_eq(t.as_str(), "null") {
            Ok(None)
        } else {
            match parse_json_u64(t.as_str()) {
                Some(v) => if v <= 65535 {
                    Ok(Some(v as u16))
                } else {
                    Err(())
                },
                None => Err(()),
            }
        },
    }
}

fn push_str_part(parts: &mut Vec<String>, key: &str, v: &Option<String>)
    ensures
        texts_view(final(parts)@) == texts_view(old(parts)@) + str_part(key@, ot(*v)),
{
    match v {
        Some(s) => {
            let mut p = String::new();
            crate::text::push_char(&mut p, '"');
            push_str(&mut p, key);
            crate::text::push_char(&mut p, '"');
            crate::text::push_char(&mut p, ':');
            let q = json_string_literal(s.as_str());
            push_str(&mut p, q.as_str());
            let ghost before = texts_view(parts@);
            parts.push(p);
            proof {
                assert(p@ =~= seq!['"'] + key@ + seq!['"', ':'] + json_quote(s@));
                assert(texts_view(parts@) =~= before + str_part(key@, ot(*v)));
            }
        },
        None => {
            proof {
                assert(texts_view(parts@) =~= texts_view(parts@) + str_part(key@, ot(*v)));
            }
        },
    }
}

fn push_num_part(parts: &mut Vec<String>, key: &str, v: Option<u16>)
    ensures
        texts_view(final(parts)@) == texts_view(old(parts)@) + num_part(key@, v),
{
    match v {
        Some(n) => {
            let mut p = String::new();
            crate::text::push_char(&mut p, '"');
            push_str(&mut p, key);
            crate::text::push_char(&mut p, '"');
            crate::text::push_char(&mut p, ':');
            let d = u64_to_string(n as u64);
            push_str(&mut p, d.as_str());
            let ghost before = texts_view(parts@);
            parts.push(p);
            proof {
                assert(p@ =~= seq!['"'] + key@ + seq!['"', ':'] + nat_str(n as nat));
                assert(texts_view(parts@) =~= before + num_part(key@, v));
            }
        },
        None => {
            proof {
                assert(texts_view(parts@) =~= texts_view(parts@) + num_part(key@, v));
            }
        },
    }
}

impl IngressEnvelope {
    /// The envelope as compact JSON.
    pub fn to_json(&self) -> (r: String)
        ensures
            r@ == ingress_json(ingress_view(*self)),
    {
        let mut parts: Vec<String> = Vec::new();
        proof {
            assert(texts_view(parts@) =~= Seq::<Seq<char>>::empty());
        }
        push_str_part(&mut parts, "host", &self.host);
        push_num_part(&mut parts, "port", self.port);
        push_str_part(&mut parts, "path", &self.path);
        push_str_part(&mut parts, "method", &self.method);
        push_str_part(&mut parts, "name", &self.name);
        push_str_part(&mut parts, "data", &self.data);
        push_str_part(&mut parts, "txt", &self.txt);
        push_num_part(&mut parts, "code", self.code);
        proof {
            assert(texts_view(parts@) =~= ingress_parts(ingress_view(*self)));
        }
        let body = join_with_commas(&parts);
        let mut out = String::new();
        crate::text::push_char(&mut out, '{');
        push_str(&mut out, body.as_str());
        crate::text::push_char(&mut out, '}');
        proof {
            assert(out@ =~= ingress_json(ingress_view(*self)));
        }
        out
    }

    /// Read an envelope from JSON bytes.
    pub fn from_json(bytes: &[u8]) -> (r: Option<IngressEnvelope>)
        ensures
            match r {
                Some(e) => ingress_from_json(bytes@) == Some(ingress_view(e)),
                None => ingress_from_json(bytes@) is None,
            },
    {
        let ms = match parse_json_members(bytes) {
            Some(ms) => ms,
            None => return None,
        };
        let keys: Vec<&str> = vec!["host", "port", "path", "method", "name", "data", "txt", "code"];
        proof {
            assert(strs_view(keys@) =~= ingress_keys());
        }
        if repeated_field(bytes, &keys) {
            return None;
        }
        let host = match get_opt_str(&ms, "host") {
            Ok(v) => v,
            Err(_) => return None,
        };
        let port = match get_opt_u16(&ms, "port") {
            Ok(v) => v,
            Err(_) => return None,
        };
        let path = match get_opt_str(&ms, "path") {
            Ok(v) => v,
            Err(_) => return None,
        };
        let method = match get_opt_str(&ms, "method") {
            Ok(v) => v,
            Err(_) => return None,
        };
        let name = match get_opt_str(&ms, "name") {
            Ok(v) => v,
            Err(_) => return None,
        };
        let data = match get_opt_str(&ms, "data") {
            Ok(v) => v,
            Err(_) => return None,
        };
        let txt = match get_opt_str(&ms, "txt") {
            Ok(v) => v,
            Err(_) => return None,
        };
        let code = match get_opt_u16(&ms, "code") {
            Ok(v) => v,
            Err(_) => return None,
        };
        Some(IngressEnvelope { host, port, path, method, name, data, txt, code })
    }
}

} // verus!
