//! The operator dashboard's control logic: which endpoint a request names,
//! the plain `http://` URLs of peer dashboards, and pairing addresses.

use vstd::prelude::*;
use crate::cluster::wire::DEFAULT_PAIRING_PORT;
use crate::decimal::{parse_dec, parse_u16_text};
use crate::text::{char_range, has_prefix, nat_str, push_char, push_str, str_eq, u64_to_string};

verus! {

/// The position of the first `c` in `s`.
pub open spec fn first_index(s: Seq<char>, c: char) -> Option<int>
    decreases s.len(),
{
    if s.len() == 0 {
        None
    } else if s[0] == c {
        Some(0)
    } else {
        match first_index(s.drop_first(), c) {
            Some(i) => Some(i + 1),
            None => None,
        }
    }
}

/// The position of the last `c` in `s`.
pub open spec fn last_index(s: Seq<char>, c: char) -> Option<int>
    decreases s.len(),
{
    if s.len() == 0 {
        None
    } else if s.last() == c {
        Some(s.len() - 1)
    } else {
        last_index(s.drop_last(), c)
    }
}

proof fn lemma_first_index_skip(s: Seq<char>, c: char, i: int)
    requires
        0 <= i <= s.len(),
        forall|j: int| 0 <= j < i ==> s[j] != c,
    ensures
        first_index(s, c) == match first_index(s.skip(i), c) {
            Some(k) => Some(k + i),
            None => None,
        },
    decreases i,
{
    if i > 0 {
        lemma_first_index_skip(s.drop_first(), c, i - 1);
        assert(s.drop_first().skip(i - 1) =~= s.skip(i));
    } else {
        assert(s.skip(0) =~= s);
    }
}

proof fn lemma_last_index_take(s: Seq<char>, c: char, i: int)
    requires
        0 <= i <= s.len(),
        forall|j: int| i <= j < s.len() ==> s[j] != c,
    ensures
        last_index(s, c) == last_index(s.take(i), c),
    decreases s.len(),
{
    if i < s.len() {
        lemma_last_index_take(s.drop_last(), c, i);
        assert(s.drop_last().take(i) =~= s.take(i));
    } else {
        assert(s.take(i) =~= s);
    }
}

proof fn lemma_index_bounds(s: Seq<char>, c: char)
    ensures
        first_index(s, c) matches Some(i) ==> 0 <= i < s.len() && s[i] == c,
        last_index(s, c) matches Some(i) ==> 0 <= i < s.len() && s[i] == c,
    decreases s.len(),
{
    if s.len() > 0 {
        lemma_index_bounds(s.drop_first(), c);
        lemma_index_bounds(s.drop_last(), c);
    }
}

/// The first position of `c` in `s`.
pub fn find_first(s: &str, c: char) -> (r: Option<usize>)
    ensures
        match r {
            Some(i) => first_index(s@, c) == Some(i as int),
            None => first_index(s@, c) is None,
        },
{
    let n = s.unicode_len();
    let mut i: usize = 0;
    while i < n
        invariant
            n == s@.len(),
            i <= n,
            forall|j: int| 0 <= j < i ==> s@[j] != c,
        decreases n - i,
    {
        if s.get_char(i) == c {
            proof {
                lemma_first_index_skip(s@, c, i as int);
            }
            return Some(i);
        }
        i = i + 1;
    }
    proof {
        lemma_first_index_skip(s@, c, n as int);
    }
    None
}

/// The last position of `c` in `s`.
pub fn find_last(s: &str, c: char) -> (r: Option<usize>)
    ensures
        match r {
            Some(i) => last_index(s@, c) == Some(i as int),
            None => last_index(s@, c) is None,
        },
{
    let n = s.unicode_len();
    let mut i: usize = n;
    while i > 0
        invariant
            n == s@.len(),
            i <= n,
            forall|j: int| i <= j < n ==> s@[j] != c,
        decreases i,
    {
        if s.get_char(i - 1) == c {
            proof {
                lemma_last_index_take(s@, c, i as int);
                assert(s@.take(i as int).last() == c);
            }
            return Some(i - 1);
        }
        i = i - 1;
    }
    proof {
        lemma_last_index_take(s@, c, 0);
    }
    None
}

/// The host, port and path of a plain `http://` URL: the path from the first
/// `/` after the scheme (`/` when there is none); the port after the last `:`
/// of the authority, 80 when there is none or it is not a port number.
pub open spec fn spec_parse_url(url: Seq<char>) -> Option<(Seq<char>, u16, Seq<char>)> {
    if !"http://"@.is_prefix_of(url) {
        None
    } else {
        let rest = url.skip(7);
        let (authority, path) = match first_index(rest, '/') {
            Some(i) => (rest.take(i), rest.skip(i)),
            None => (rest, "/"@),
        };
        let (host, port) = match last_index(authority, ':') {
            Some(j) => (
                authority.take(j),
                match parse_dec(authority.skip(j + 1), 0x1_0000) {
                    Some(p) => p as u16,
                    None => 80u16,
                },
            ),
            None => (authority, 80u16),
        };
        Some((host, port, path))
    }
}

/// A URL that is not a plain `http://` URL.
#[derive(Debug, Clone, Copy, PartialEq, Eq, Structural)]
pub enum UrlError {
    NotHttp,
}

impl UrlError {
    /// The error's text.
    pub fn message(&self) -> (r: String)
        ensures
            r@ == "only http:// URLs"@,
    {
        String::from_str("only http:// URLs")
    }
}

/// Split a plain `http://host[:port][/path]` URL.
pub fn parse_url(url: &str) -> (r: Result<(String, u16, String), UrlError>)
    ensures
        match r {
            Ok((h, p, path)) => spec_parse_url(url@) == Some((h@, p, path@)),
            Err(_) => spec_parse_url(url@) is None,
        },
{
    proof {
        reveal_strlit("http://");
        reveal_strlit("/");
    }
    if !has_prefix(url, "http://") {
        return Err(UrlError::NotHttp);
    }
    let n = url.unicode_len();
    let rest = char_range(url, 7, n);
    let rn = rest.unicode_len();
    let (authority, path) = match find_first(rest.as_str(), '/') {
        Some(i) => {
            proof {
                lemma_index_bounds(rest@, '/');
            }
            (char_range(rest.as_str(), 0, i), char_range(rest.as_str(), i, rn))
        },
        None => (rest.clone(), String::from_str("/")),
    };
    let an = authority.unicode_len();
    let (host, port) = match find_last(authority.as_str(), ':') {
        Some(j) => {
            proof {
                lemma_index_bounds(authority@, ':');
            }
            let p = char_range(authority.as_str(), j + 1, an);
            let port: u16 = match parse_u16_text(p.as_str()) {
                Some(v) => v,
                None => 80,
            };
            (char_range(authority.as_str(), 0, j), port)
        },
        None => (authority.clone(), 80u16),
    };
    proof {
        assert(rest@ =~= url@.skip(7));
        assert(url@.skip(7).take(rest@.len() as int) =~= rest@);
        assert(authority@.take(authority@.len() as int) =~= authority@);
    }
    Ok((host, port, path))
}

/// A pairing address: kept when its text after the last `:` is a port
/// number, else given the default pairing port.
pub open spec fn spec_normalize_addr(input: Seq<char>) -> Seq<char> {
    let has_port = match last_index(input, ':') {
        Some(j) => parse_dec(input.skip(j + 1), 0x1_0000) is Some,
        None => false,
    };
    if has_port {
        input
    } else {
        input + seq![':'] + nat_str(DEFAULT_PAIRING_PORT as nat)
    }
}

/// Normalizing twice is normalizing once: a normalized address always ends
/// in an explicit port.
pub proof fn lemma_normalize_idempotent(input: Seq<char>)
    ensures
        spec_normalize_addr(spec_normalize_addr(input)) == spec_normalize_addr(input),
{
    let y = spec_normalize_addr(input);
    if y != input {
        let p = nat_str(DEFAULT_PAIRING_PORT as nat);
        crate::decimal::lemma_nat_str_digits(DEFAULT_PAIRING_PORT as nat);
        crate::decimal::lemma_nat_str_reads_back(DEFAULT_PAIRING_PORT as nat, 0x1_0000);
        let k = input.len() as int;
        assert(y =~= input + seq![':'] + p);
        assert forall|j: int| k + 1 <= j < y.len() implies y[j] != ':' by {
            assert(y[j] == p[j - k - 1]);
            assert(crate::pairing::pin::is_digit(p[j - k - 1]));
        }
        lemma_last_index_take(y, ':', k + 1);
        assert(y.take(k + 1).last() == ':');
        assert(last_index(y, ':') == Some(k));
        assert(y.skip(k + 1) =~= p);
    }
}

/// Normalize a bare `host` to `host:14321`, leaving an explicit port intact.
pub fn normalize_pairing_addr(input: &str) -> (r: String)
    ensures
        r@ == spec_normalize_addr(input@),
{
    let n = input.unicode_len();
    let has_port = match find_last(input, ':') {
        Some(j) => {
            proof {
                lemma_index_bounds(input@, ':');
            }
            let p = char_range(input, j + 1, n);
            parse_u16_text(p.as_str()).is_some()
        },
        None => false,
    };
    let mut out = String::new();
    push_str(&mut out, input);
    if !has_port {
        push_char(&mut out, ':');
        let port = u64_to_string(DEFAULT_PAIRING_PORT as u64);
        push_str(&mut out, port.as_str());
    }
    out
}

/// The dashboard endpoints.
#[derive(Debug, Clone, Copy, PartialEq, Eq, Structural)]
pub enum UiRoute {
    /// `GET /`: the page.
    Index,
    /// `GET /api/status`.
    Status,
    /// `GET /api/identity/cert`: this node's certificate PEM.
    IdentityCert,
    /// `POST /api/trust/add`: pin a certificate PEM.
    TrustAdd,
    /// `POST /api/trust/pair`: pair with another dashboard.
    TrustPair,
    /// `GET /api/pairing/pending`: invites awaiting a PIN.
    PairingPending,
    /// `POST /api/pairing/invite`: invite a joiner.
    PairingInvite,
    /// `POST /api/pairing/respond`: answer an invite with its PIN.
    PairingRespond,
    /// Anything else.
    NotFound,
}

/// The endpoint a method and path name.
pub open spec fn spec_route(method: Seq<char>, path: Seq<char>) -> UiRoute {
    if method == "GET"@ && path == "/"@ {
        UiRoute::Index
    } else if method == "GET"@ && path == "/api/status"@ {
        UiRoute::Status
    } else if method == "GET"@ && path == "/api/identity/cert"@ {
        UiRoute::IdentityCert
    } else if method == "POST"@ && path == "/api/trust/add"@ {
        UiRoute::TrustAdd
    } else if method == "POST"@ && path == "/api/trust/pair"@ {
        UiRoute::TrustPair
    } else if method == "GET"@ && path == "/api/pairing/pending"@ {
        UiRoute::PairingPending
    } else if method == "POST"@ && path == "/api/pairing/invite"@ {
        UiRoute::PairingInvite
    } else if method == "POST"@ && path == "/api/pairing/respond"@ {
        UiRoute::PairingRespond
    } else {
        UiRoute::NotFound
    }
}

/// Which endpoint a request names.
pub fn route(method: &str, path: &str) -> (r: UiRoute)
    ensures
        r == spec_route(method@, path@),
{
    let get = str_eq(method, "GET");
    let post = str_eq(method, "POST");
    if get && str_eq(path, "/") {
        UiRoute::Index
    } else if get && str_eq(path, "/api/status") {
        UiRoute::Status
    } else if get && str_eq(path, "/api/identity/cert") {
        UiRoute::IdentityCert
    } else if post && str_eq(path, "/api/trust/add") {
        UiRoute::TrustAdd
    } else if post && str_eq(path, "/api/trust/pair") {
        UiRoute::TrustPair
    } else if get && str_eq(path, "/api/pairing/pending") {
        UiRoute::PairingPending
    } else if post && str_eq(path, "/api/pairing/invite") {
        UiRoute::PairingInvite
    } else if post && str_eq(path, "/api/pairing/respond") {
        UiRoute::PairingRespond
    } else {
        UiRoute::NotFound
    }
}

} // verus!
