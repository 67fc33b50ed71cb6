//! JSON-RPC 2.0 identifiers used for supervisor <-> service IPC.

use vstd::prelude::*;

verus! {

/// JSON-RPC id: a string or an integer.
#[derive(Debug, Clone, PartialEq, Eq)]
pub enum RpcId {
    Num(i64),
    Str(String),
}

/// The `jsonrpc` member, which is always the literal string `"2.0"`.
#[derive(Debug, Clone, Copy, PartialEq, Eq, Structural)]
pub struct JsonRpcVersion;

impl JsonRpcVersion {
    /// The version text.
    pub fn text(&self) -> (r: &'static str)
        ensures
            r@ == "2.0"@,
    {
        "2.0"
    }

    /// The version read from the text of a `jsonrpc` member: only `2.0` is
    /// accepted.
    pub fn parse(s: &str) -> (r: Option<JsonRpcVersion>)
        ensures
            r is Some <==> s@ == "2.0"@,
    {
        proof {
            reveal_strlit("2.0");
        }
        if crate::text::str_eq(s, "2.0") {
            Some(JsonRpcVersion)
        } else {
            None
        }
    }
}

} // verus!
