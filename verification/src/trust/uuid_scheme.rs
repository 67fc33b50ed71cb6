//! The `urn:nvpair:node:<uuid>` SAN URI scheme carried in node certificates.

use vstd::prelude::*;
use crate::text::{char_range, has_prefix, push_str};

verus! {

/// SAN URI prefix that carries a node UUID.
pub const NODE_URN_PREFIX: &'static str = "urn:nvpair:node:";

/// The characters of the node URN prefix.
pub open spec fn urn_prefix() -> Seq<char> {
    "urn:nvpair:node:"@
}

/// The UUID carried by a URI, if it is a node URN.
pub open spec fn spec_uuid_from_urn(uri: Seq<char>) -> Option<Seq<char>> {
    if urn_prefix().is_prefix_of(uri) {
        Some(uri.skip(urn_prefix().len() as int))
    } else {
        None
    }
}

/// Build the SAN URI for a node UUID.
pub fn node_urn(uuid: &str) -> (r: String)
    ensures
        r@ == urn_prefix() + uuid@,
{
    let mut out = String::new();
    push_str(&mut out, NODE_URN_PREFIX);
    push_str(&mut out, uuid);
    out
}

/// Extract the UUID from a `urn:nvpair:node:<uuid>` URI, if it matches.
pub fn uuid_from_urn(uri: &str) -> (r: Option<String>)
    ensures
        match r {
            Some(u) => spec_uuid_from_urn(uri@) == Some(u@),
            None => spec_uuid_from_urn(uri@) is None,
        },
{
    proof {
        reveal_strlit("urn:nvpair:node:");
    }
    if has_prefix(uri, NODE_URN_PREFIX) {
        let n = NODE_URN_PREFIX.unicode_len();
        let rest = char_range(uri, n, uri.unicode_len());
        Some(rest)
    } else {
        None
    }
}

/// Reading the UUID back out of a node URN gives the UUID.
pub proof fn lemma_urn_roundtrip(uuid: Seq<char>)
    ensures
        spec_uuid_from_urn(urn_prefix() + uuid) == Some(uuid),
{
    let u = urn_prefix() + uuid;
    assert(urn_prefix().is_prefix_of(u)) by {
        assert(u.subrange(0, urn_prefix().len() as int) =~= urn_prefix());
    }
    assert(u.skip(urn_prefix().len() as int) =~= uuid);
}

} // verus!
