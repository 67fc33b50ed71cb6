//! Cluster node identity: a self-signed X.509 leaf whose SAN URI
//! `urn:nvpair:node:<uuid>` carries the node UUID, fingerprinted as
//! `sha256:<hex of the certificate DER>`.
//!
//! PEM reading and its base64 decoding are written and proved here; the
//! certificate's subject-alternative-name URIs are read by `x509-parser`.

use vstd::prelude::*;
use crate::codec::{hex_encode, hex_lower};
use crate::pairing::mac::{sha256, sha256_digest};
use crate::text::{char_range, has_prefix, push_str};
use crate::pairing::suite::random_16;
use crate::trust::uuid_scheme::{node_urn, spec_uuid_from_urn, uuid_from_urn};
use x509_parser::prelude::FromDer;

verus! {

// --- PEM lines ------------------------------------------------------------------

/// `s` without one trailing carriage return.
pub open spec fn strip_cr(s: Seq<char>) -> Seq<char> {
    if s.len() > 0 && s.last() == '\r' {
        s.drop_last()
    } else {
        s
    }
}

/// The index of the first line feed in `s`, if any.
pub open spec fn first_newline(s: Seq<char>) -> Option<int> {
    if exists|i: int| 0 <= i < s.len() && s[i] == '\n' {
        Some(choose|i: int| 0 <= i < s.len() && s[i] == '\n' && forall|j: int| 0 <= j < i ==> s[j] != '\n')
    } else {
        None
    }
}

/// The lines of `s` as `str::lines` yields them: split at `\n`, a `\r` before
/// the `\n` dropped, and no empty line after a final line feed.
#[verifier::opaque]
pub open spec fn lines_of(s: Seq<char>) -> Seq<Seq<char>>
    decreases s.len(),
{
    if s.len() == 0 {
        seq![]
    } else {
        match first_newline(s) {
            Some(i) => if 0 <= i < s.len() {
                seq![strip_cr(s.take(i))] + lines_of(s.skip(i + 1))
            } else {
                seq![]
            },
            None => seq![s],
        }
    }
}

/// The characters that `char::is_whitespace` accepts (Unicode White_Space).
pub open spec fn is_ws(c: char) -> bool {
    ('\t' <= c && c <= '\r') || c == ' ' || c == '\u{85}' || c == '\u{a0}' || c == '\u{1680}' || (
    '\u{2000}' <= c && c <= '\u{200a}') || c == '\u{2028}' || c == '\u{2029}' || c == '\u{202f}'
        || c == '\u{205f}' || c == '\u{3000}'
}

/// `s` without leading whitespace.
pub open spec fn trim_start(s: Seq<char>) -> Seq<char>
    decreases s.len(),
{
    if s.len() > 0 && is_ws(s[0]) {
        trim_start(s.drop_first())
    } else {
        s
    }
}

/// `s` without trailing whitespace.
pub open spec fn trim_end(s: Seq<char>) -> Seq<char>
    decreases s.len(),
{
    if s.len() > 0 && is_ws(s.last()) {
        trim_end(s.drop_last())
    } else {
        s
    }
}

/// `s` without leading or trailing whitespace (`str::trim`).
pub open spec fn trim(s: Seq<char>) -> Seq<char> {
    trim_end(trim_start(s))
}

/// The certificate block's opening line prefix.
pub open spec fn pem_begin() -> Seq<char> {
    "-----BEGIN CERTIFICATE-----"@
}

/// The certificate block's closing line prefix.
pub open spec fn pem_end() -> Seq<char> {
    "-----END CERTIFICATE-----"@
}

/// The base64 body of the first certificate block in `lines`: the trimmed
/// lines after a `BEGIN CERTIFICATE` line, up to the first `END CERTIFICATE`
/// line (a later `BEGIN` line restarts nothing and is skipped).
pub open spec fn pem_body(lines: Seq<Seq<char>>, in_block: bool) -> Seq<char>
    decreases lines.len(),
{
    if lines.len() == 0 {
        seq![]
    } else if pem_begin().is_prefix_of(lines[0]) {
        pem_body(lines.drop_first(), true)
    } else if pem_end().is_prefix_of(lines[0]) {
        seq![]
    } else if in_block {
        trim(lines[0]) + pem_body(lines.drop_first(), in_block)
    } else {
        pem_body(lines.drop_first(), in_block)
    }
}

// --- base64 (standard alphabet) ---------------------------------------------------

/// The value of a standard-alphabet base64 character.
pub open spec fn sextet(c: char) -> Option<nat> {
    if 'A' <= c && c <= 'Z' {
        Some((c as nat - 'A' as nat) as nat)
    } else if 'a' <= c && c <= 'z' {
        Some((c as nat - 'a' as nat + 26) as nat)
    } else if '0' <= c && c <= '9' {
        Some((c as nat - '0' as nat + 52) as nat)
    } else if c == '+' {
        Some(62)
    } else if c == '/' {
        Some(63)
    } else {
        None
    }
}

/// Characters the decoder passes over: padding and ASCII whitespace.
pub open spec fn b64_skipped(c: char) -> bool {
    c == '=' || c == ' ' || c == '\t' || c == '\n' || c == '\x0c' || c == '\r'
}

/// `2^k`.
pub open spec fn p2(k: nat) -> nat
    decreases k,
{
    if k == 0 {
        1
    } else {
        2 * p2((k - 1) as nat)
    }
}

/// Decode `s` given `bits` pending bits whose value is `acc`, having produced
/// `out`: every value character appends six bits, and each complete byte is
/// emitted most significant first; leftover bits are dropped at the end.
pub open spec fn b64_run(s: Seq<char>, acc: nat, bits: nat, out: Seq<u8>) -> Option<Seq<u8>>
    decreases s.len(),
{
    if s.len() == 0 {
        Some(out)
    } else if b64_skipped(s[0]) {
        b64_run(s.drop_first(), acc, bits, out)
    } else {
        match sextet(s[0]) {
            None => None,
            Some(v) => {
                let a = acc * 64 + v;
                let b = bits + 6;
                if b >= 8 {
                    b64_run(
                        s.drop_first(),
                        a % p2((b - 8) as nat),
                        (b - 8) as nat,
                        out.push((a / p2((b - 8) as nat)) as u8),
                    )
                } else {
                    b64_run(s.drop_first(), a, b, out)
                }
            },
        }
    }
}

/// The bytes that base64 text decodes to, or `None` on a character outside the
/// alphabet.
pub open spec fn b64_decode_spec(s: Seq<char>) -> Option<Seq<u8>> {
    b64_run(s, 0, 0, seq![])
}

/// The DER of the first `CERTIFICATE` block of a PEM text, if it has a
/// non-empty body that decodes.
pub open spec fn spec_pem_to_der(pem: Seq<char>) -> Option<Seq<u8>> {
    let body = pem_body(lines_of(pem), false);
    if body.len() == 0 {
        None
    } else {
        b64_decode_spec(body)
    }
}

fn p2_exec(k: u32) -> (r: u32)
    requires
        k < 8,
    ensures
        r == p2(k as nat),
        r >= 1,
{
    proof {
        reveal_with_fuel(p2, 8);
    }
    if k == 0 {
        1
    } else if k == 1 {
        2
    } else if k == 2 {
        4
    } else if k == 3 {
        8
    } else if k == 4 {
        16
    } else if k == 5 {
        32
    } else if k == 6 {
        64
    } else {
        128
    }
}

fn sextet_exec(c: char) -> (r: Option<u32>)
    ensures
        match r {
            Some(v) => sextet(c) == Some(v as nat) && v < 64,
            None => sextet(c) is None,
        },
{
    if 'A' <= c && c <= 'Z' {
        Some((c as u32) - ('A' as u32))
    } else if 'a' <= c && c <= 'z' {
        Some((c as u32) - ('a' as u32) + 26)
    } else if '0' <= c && c <= '9' {
        Some((c as u32) - ('0' as u32) + 52)
    } else if c == '+' {
        Some(62)
    } else if c == '/' {
        Some(63)
    } else {
        None
    }
}

proof fn lemma_p2_step(bits: nat)
    requires
        bits < 8,
    ensures
        p2(bits + 6) == p2(bits) * 64,
        p2(bits) <= 128,
        p2(bits) >= 1,
{
    reveal_with_fuel(p2, 15);
}

/// Decode standard base64, skipping `=` and ASCII whitespace; `None` on any
/// other character outside the alphabet.
fn base64_decode(s: &str) -> (r: Option<Vec<u8>>)
    ensures
        match r {
            Some(v) => b64_decode_spec(s@) == Some(v@),
            None => b64_decode_spec(s@) is None,
        },
{
    let len = s.unicode_len();
    let mut out: Vec<u8> = Vec::new();
    let mut acc: u32 = 0;
    let mut bits: u32 = 0;
    let mut i: usize = 0;
    proof {
        assert(s@.skip(0) =~= s@);
    }
    while i < len
        invariant
            len == s@.len(),
            i <= len,
            bits < 8,
            acc < p2(bits as nat),
            b64_decode_spec(s@) == b64_run(s@.skip(i as int), acc as nat, bits as nat, out@),
        decreases len - i,
    {
        let c = s.get_char(i);
        proof {
            assert(s@.skip(i as int)[0] == c);
            assert(s@.skip(i as int).drop_first() =~= s@.skip(i + 1));
            lemma_p2_step(bits as nat);
        }
        if c == '=' || c == ' ' || c == '\t' || c == '\n' || c == '\x0c' || c == '\r' {
            i = i + 1;
        } else {
            match sextet_exec(c) {
                None => {
                    return None;
                },
                Some(v) => {
                    assert(acc * 64 + v < p2(bits as nat) * 64) by (nonlinear_arith)
                        requires
                            acc < p2(bits as nat),
                            v < 64,
                    ;
                    let a: u32 = acc * 64 + v;
                    let b: u32 = bits + 6;
                    if b >= 8 {
                        let p = p2_exec(b - 8);
                        proof {
                            assert(p2((b - 8) as nat) * 256 == p2(b as nat)) by {
                                reveal_with_fuel(p2, 15);
                            }
                            assert(a / p < 256) by (nonlinear_arith)
                                requires
                                    a < p * 256,
                                    p >= 1,
                            ;
                            assert(a % p < p) by (nonlinear_arith)
                                requires
                                    p >= 1,
                            ;
                        }
                        out.push((a / p) as u8);
                        acc = a % p;
                        bits = b - 8;
                    } else {
                        acc = a;
                        bits = b;
                    }
                    i = i + 1;
                },
            }
        }
    }
    proof {
        assert(s@.skip(len as int).len() == 0);
    }
    Some(out)
}

// --- PEM -------------------------------------------------------------------------

/// The index of the first line feed at or after `from`, or the length.
fn next_newline(s: &str, from: usize) -> (j: usize)
    requires
        from <= s@.len(),
    ensures
        from <= j <= s@.len(),
        j < s@.len() ==> s@[j as int] == '\n',
        forall|k: int| from <= k < j ==> s@[k] != '\n',
{
    let len = s.unicode_len();
    let mut j = from;
    while j < len
        invariant
            len == s@.len(),
            from <= j <= len,
            forall|k: int| from <= k < j ==> s@[k] != '\n',
        decreases len - j,
    {
        if s.get_char(j) == '\n' {
            return j;
        }
        j = j + 1;
    }
    j
}

/// The first line of `t` runs up to `j`, the first line feed.
proof fn lemma_lines_step(t: Seq<char>, j: int)
    requires
        0 <= j <= t.len(),
        t.len() > 0,
        j < t.len() ==> t[j] == '\n',
        forall|k: int| 0 <= k < j ==> t[k] != '\n',
    ensures
        j < t.len() ==> lines_of(t) == seq![strip_cr(t.take(j))] + lines_of(t.skip(j + 1)),
        j == t.len() ==> lines_of(t) == seq![t],
{
    reveal(lines_of);
    if j < t.len() {
        assert(exists|i: int| 0 <= i < t.len() && t[i] == '\n');
        let i = choose|i: int| 0 <= i < t.len() && t[i] == '\n' && forall|k: int| 0 <= k < i ==> t[k] != '\n';
        assert(exists|i: int| 0 <= i < t.len() && t[i] == '\n' && forall|k: int| 0 <= k < i ==> t[k] != '\n') by {
            assert(0 <= j < t.len() && t[j] == '\n' && forall|k: int| 0 <= k < j ==> t[k] != '\n');
        }
        assert(i == j) by {
            if i < j {
                assert(t[i] != '\n');
            } else if i > j {
                assert(t[j] != '\n');
            }
        }
    } else {
        assert(!(exists|i: int| 0 <= i < t.len() && t[i] == '\n'));
    }
}

/// The index of the first non-whitespace character of `s` at or after `from`.
fn skip_ws_forward(s: &str, from: usize, to: usize) -> (k: usize)
    requires
        from <= to <= s@.len(),
    ensures
        from <= k <= to,
        trim_start(s@.subrange(from as int, to as int)) == s@.subrange(k as int, to as int),
{
    let mut k = from;
    while k < to
        invariant
            from <= k <= to,
            to <= s@.len(),
            trim_start(s@.subrange(from as int, to as int)) == trim_start(s@.subrange(k as int, to as int)),
        decreases to - k,
    {
        let c = s.get_char(k);
        if !is_ws_exec(c) {
            return k;
        }
        proof {
            assert(s@.subrange(k as int, to as int).drop_first() =~= s@.subrange(k + 1, to as int));
        }
        k = k + 1;
    }
    k
}

/// The end index after dropping trailing whitespace from `s[from..to]`.
fn skip_ws_backward(s: &str, from: usize, to: usize) -> (k: usize)
    requires
        from <= to <= s@.len(),
    ensures
        from <= k <= to,
        trim_end(s@.subrange(from as int, to as int)) == s@.subrange(from as int, k as int),
{
    let mut k = to;
    while k > from
        invariant
            from <= k <= to,
            to <= s@.len(),
            trim_end(s@.subrange(from as int, to as int)) == trim_end(s@.subrange(from as int, k as int)),
        decreases k - from,
    {
        let c = s.get_char(k - 1);
        if !is_ws_exec(c) {
            return k;
        }
        proof {
            assert(s@.subrange(from as int, k as int).drop_last() =~= s@.subrange(from as int, k - 1));
        }
        k = k - 1;
    }
    k
}

fn is_ws_exec(c: char) -> (r: bool)
    ensures
        r == is_ws(c),
{
    ('\t' <= c && c <= '\r') || c == ' ' || c == '\u{85}' || c == '\u{a0}' || c == '\u{1680}' || (
    '\u{2000}' <= c && c <= '\u{200a}') || c == '\u{2028}' || c == '\u{2029}' || c == '\u{202f}'
        || c == '\u{205f}' || c == '\u{3000}'
}

/// `trim(s[a..b])` is `s[k1..k2]` for the indices the scans find.
fn trim_range(s: &str, a: usize, b: usize) -> (r: (usize, usize))
    requires
        a <= b <= s@.len(),
    ensures
        a <= r.0 <= r.1 <= b,
        trim(s@.subrange(a as int, b as int)) == s@.subrange(r.0 as int, r.1 as int),
{
    let k1 = skip_ws_forward(s, a, b);
    let k2 = skip_ws_backward(s, k1, b);
    (k1, k2)
}

/// Extract DER from the first CERTIFICATE PEM block.
pub fn pem_cert_to_der(pem: &str) -> (r: Option<Vec<u8>>)
    ensures
        match r {
            Some(v) => spec_pem_to_der(pem@) == Some(v@),
            None => spec_pem_to_der(pem@) is None,
        },
{
    pem_to_der(pem)
}

/// The line of `pem` starting at `pos`, and where the next one starts
/// (`None` when it is the last line).
pub(crate) fn line_at(pem: &str, pos: usize) -> (r: (String, Option<usize>))
    requires
        pos < pem@.len(),
    ensures
        match r.1 {
            Some(next) => pos < next <= pem@.len() && lines_of(pem@.skip(pos as int)) == seq![r.0@]
                + lines_of(pem@.skip(next as int)),
            None => lines_of(pem@.skip(pos as int)) == seq![r.0@],
        },
{
    let len = pem.unicode_len();
    let j = next_newline(pem, pos);
    let ghost t = pem@.skip(pos as int);
    let mut end = j;
    if j < len && j > pos && pem.get_char(j - 1) == '\r' {
        end = j - 1;
    }
    let line = char_range(pem, pos, end);
    proof {
        assert forall|k: int| 0 <= k < j - pos implies t[k] != '\n' by {
            assert(t[k] == pem@[pos + k]);
        }
        if j < len {
            assert(t[j - pos] == pem@[j as int]);
        }
        lemma_lines_step(t, j - pos);
        if j < len {
            assert(t.take(j - pos) =~= pem@.subrange(pos as int, j as int));
            assert(t.skip(j - pos + 1) =~= pem@.skip(j + 1));
            assert(strip_cr(t.take(j - pos)) =~= line@);
        } else {
            assert(t =~= line@);
        }
    }
    if j < len {
        (line, Some(j + 1))
    } else {
        (line, None)
    }
}

/// The base64 body of the first certificate block of `pem`.
fn pem_block_body(pem: &str) -> (b64: String)
    ensures
        b64@ == pem_body(lines_of(pem@), false),
{
    proof {
        reveal_strlit("-----BEGIN CERTIFICATE-----");
        reveal_strlit("-----END CERTIFICATE-----");
    }
    let len = pem.unicode_len();
    let mut b64 = String::new();
    let mut in_block = false;
    let mut pos: usize = 0;
    proof {
        assert(pem@.skip(0) =~= pem@);
        assert(b64@ + pem_body(lines_of(pem@), false) =~= pem_body(lines_of(pem@), false));
    }
    while pos < len
        invariant
            len == pem@.len(),
            pos <= len,
            pem_body(lines_of(pem@), false) == b64@ + pem_body(lines_of(pem@.skip(pos as int)), in_block),
        decreases len - pos,
    {
        let (line, next) = line_at(pem, pos);
        let ghost ls = lines_of(pem@.skip(pos as int));
        let ghost rest = match next {
            Some(n) => lines_of(pem@.skip(n as int)),
            None => seq![],
        };
        proof {
            assert(ls[0] == line@);
            assert(ls.drop_first() =~= rest);
        }
        if has_prefix(line.as_str(), "-----BEGIN CERTIFICATE-----") {
            in_block = true;
        } else if has_prefix(line.as_str(), "-----END CERTIFICATE-----") {
            proof {
                assert(b64@ + seq![] =~= b64@);
            }
            return b64;
        } else if in_block {
            let trimmed = trim_line(line.as_str());
            let ghost before = b64@;
            push_str(&mut b64, trimmed.as_str());
            proof {
                assert(b64@ + pem_body(rest, in_block) =~= before + (trim(line@) + pem_body(rest, in_block)));
            }
        }
        match next {
            Some(n) => {
                pos = n;
            },
            None => {
                proof {
                    assert(rest.len() == 0);
                    assert(pem_body(rest, in_block) == Seq::<char>::empty());
                    assert(b64@ + seq![] =~= b64@);
                }
                return b64;
            },
        }
    }
    proof {
        assert(pem@.skip(len as int) =~= Seq::<char>::empty());
        reveal(lines_of);
        assert(lines_of(Seq::<char>::empty()) =~= Seq::<Seq<char>>::empty());
        assert(b64@ + seq![] =~= b64@);
    }
    b64
}

/// `str::trim` of a line.
pub(crate) fn trim_line(line: &str) -> (r: String)
    ensures
        r@ == trim(line@),
{
    let n = line.unicode_len();
    let (k1, k2) = trim_range(line, 0, n);
    proof {
        assert(line@.subrange(0, n as int) =~= line@);
    }
    char_range(line, k1, k2)
}

fn pem_to_der(pem: &str) -> (r: Option<Vec<u8>>)
    ensures
        match r {
            Some(v) => spec_pem_to_der(pem@) == Some(v@),
            None => spec_pem_to_der(pem@) is None,
        },
{
    let b64 = pem_block_body(pem);
    if b64.unicode_len() == 0 {
        return None;
    }
    base64_decode(b64.as_str())
}

// --- certificates ------------------------------------------------------------

/// One subject-alternative name of a certificate: a URI, or a name of another
/// kind.
#[derive(Debug, Clone, PartialEq, Eq)]
pub enum SanName {
    Uri(String),
    Other,
}

/// The view of a subject-alternative name: `Some(uri)` for a URI.
pub open spec fn san_view(n: SanName) -> Option<Seq<char>> {
    match n {
        SanName::Uri(u) => Some(u@),
        SanName::Other => None,
    }
}

/// The views of a list of subject-alternative names.
pub open spec fn san_views(v: Seq<SanName>) -> Seq<Option<Seq<char>>> {
    v.map_values(|n: SanName| san_view(n))
}

/// The subject-alternative names that `x509-parser` reads from the certificate
/// with DER `der`, in order (`Some(uri)` for a URI, `None` for another kind);
/// `None` when the DER is not a certificate, has no or a duplicated
/// subject-alternative-name extension.
pub uninterp spec fn x509_san_names(der: Seq<u8>) -> Option<Seq<Option<Seq<char>>>>;

/// `X509Certificate::from_der` then `subject_alternative_name`, each general
/// name converted one for one. Claims only that the outcome is the one named
/// `x509_san_names(der)`.
#[verifier::external_body]
fn cert_san_names(der: &[u8]) -> (r: Option<Vec<SanName>>)
    ensures
        match r {
            Some(v) => x509_san_names(der@) == Some(san_views(v@)),
            None => x509_san_names(der@) is None,
        },
{
    let (_, cert) = x509_parser::certificate::X509Certificate::from_der(der).ok()?;
    let san = cert.subject_alternative_name().ok()??;
    Some(san.value.general_names.iter().map(|n| match n {
        x509_parser::extensions::GeneralName::URI(u) => SanName::Uri(u.to_string()),
        _ => SanName::Other,
    }).collect())
}

/// The UUID of the first node URN among the names.
pub open spec fn first_node_uuid(names: Seq<Option<Seq<char>>>) -> Option<Seq<char>>
    decreases names.len(),
{
    if names.len() == 0 {
        None
    } else {
        match names[0] {
            Some(uri) => match spec_uuid_from_urn(uri) {
                Some(u) => Some(u),
                None => first_node_uuid(names.drop_first()),
            },
            None => first_node_uuid(names.drop_first()),
        }
    }
}

/// The node UUID a certificate carries in its first `urn:nvpair:node:` SAN URI.
pub open spec fn cert_node_uuid(der: Seq<u8>) -> Option<Seq<char>> {
    match x509_san_names(der) {
        Some(names) => first_node_uuid(names),
        None => None,
    }
}

/// Extract the node UUID from a certificate's `urn:nvpair:node:<uuid>` SAN URI.
pub fn node_uuid_from_cert(der: &[u8]) -> (r: Option<String>)
    ensures
        match r {
            Some(u) => cert_node_uuid(der@) == Some(u@),
            None => cert_node_uuid(der@) is None,
        },
{
    let names = match cert_san_names(der) {
        Some(n) => n,
        None => return None,
    };
    let ghost nv = san_views(names@);
    let mut i: usize = 0;
    proof {
        assert(nv.skip(0) =~= nv);
    }
    while i < names.len()
        invariant
            i <= names@.len(),
            nv == san_views(names@),
            x509_san_names(der@) == Some(nv),
            first_node_uuid(nv) == first_node_uuid(nv.skip(i as int)),
        decreases names@.len() - i,
    {
        proof {
            assert(nv.skip(i as int)[0] == san_view(names@[i as int]));
            assert(nv.skip(i as int).drop_first() =~= nv.skip(i + 1));
        }
        match &names[i] {
            SanName::Uri(u) => {
                match uuid_from_urn(u.as_str()) {
                    Some(id) => {
                        proof {
                            assert(names@[i as int] == SanName::Uri(*u));
                            assert(nv.skip(i as int)[0] == Some(u@));
                            assert(first_node_uuid(nv.skip(i as int)) == Some(id@));
                        }
                        return Some(id);
                    },
                    None => {},
                }
            },
            SanName::Other => {},
        }
        i = i + 1;
    }
    None
}

/// `sha256:` followed by the lower-case hex SHA-256 of `der`.
pub open spec fn fingerprint_text(der: Seq<u8>) -> Seq<char> {
    "sha256:"@ + hex_lower(sha256_digest(der))
}

/// `sha256:<hex>` over certificate DER bytes.
pub fn cert_fingerprint(der: &[u8]) -> (r: String)
    ensures
        r@ == fingerprint_text(der@),
        r@.len() == 71,
{
    let digest = sha256(der);
    let hex = hex_encode(&digest);
    let mut out = String::new();
    push_str(&mut out, "sha256:");
    push_str(&mut out, hex.as_str());
    proof {
        reveal_strlit("sha256:");
    }
    out
}

// --- node identity -----------------------------------------------------------------

/// A node's certificate and private key, DER and PEM.
#[derive(Debug, Clone)]
pub struct Identity {
    pub node_uuid: String,
    pub cert_der: Vec<u8>,
    pub key_pkcs8_der: Vec<u8>,
    pub cert_pem: String,
    pub key_pem: String,
}

/// Why an identity could not be built.
#[derive(Debug, Clone, Copy, PartialEq, Eq, Structural)]
pub enum IdentityError {
    /// Key generation, parsing or certificate signing failed.
    Crypto,
    /// The certificate PEM has no CERTIFICATE block.
    NoCertificate,
    /// The certificate carries no `urn:nvpair:node` SAN.
    NoNodeUuid,
}

/// The description of an identity failure.
pub open spec fn identity_error_text(e: IdentityError) -> Seq<char> {
    match e {
        IdentityError::Crypto => "key or certificate operation failed"@,
        IdentityError::NoCertificate => "no CERTIFICATE block"@,
        IdentityError::NoNodeUuid => "cert missing urn:nvpair:node SAN"@,
    }
}

impl IdentityError {
    /// A human-readable description.
    pub fn message(&self) -> (r: String)
        ensures
            r@ == identity_error_text(*self),
    {
        match self {
            IdentityError::Crypto => String::from_str("key or certificate operation failed"),
            IdentityError::NoCertificate => String::from_str("no CERTIFICATE block"),
            IdentityError::NoNodeUuid => String::from_str("cert missing urn:nvpair:node SAN"),
        }
    }
}

/// An extended key usage that a node certificate is issued for.
#[derive(Debug, Clone, Copy, PartialEq, Eq, Structural)]
pub enum CertUsage {
    /// TLS server authentication.
    ServerAuth,
    /// TLS client authentication.
    ClientAuth,
}

/// The usages a node certificate carries: it serves and dials mTLS.
pub fn node_cert_usages() -> (r: Vec<CertUsage>)
    ensures
        r@ == seq![CertUsage::ServerAuth, CertUsage::ClientAuth],
{
    let mut v = Vec::new();
    v.push(CertUsage::ServerAuth);
    v.push(CertUsage::ClientAuth);
    v
}

/// rcgen's extended-key-usage purpose.
#[verifier::external_type_specification]
#[verifier::external_body]
pub struct ExExtendedKeyUsagePurpose(rcgen::ExtendedKeyUsagePurpose);

/// The `rcgen::ExtendedKeyUsagePurpose` variant named like `u`, one for one.
/// Nothing is claimed of the value, which Verus cannot see into.
#[verifier::external_body]
fn eku_purpose(u: CertUsage) -> (r: rcgen::ExtendedKeyUsagePurpose) {
    match u {
        CertUsage::ServerAuth => rcgen::ExtendedKeyUsagePurpose::ServerAuth,
        CertUsage::ClientAuth => rcgen::ExtendedKeyUsagePurpose::ClientAuth,
    }
}

/// `rcgen::KeyPair::generate_for(&PKCS_ED25519)` followed by `serialize_der`
/// and `serialize_pem`: a fresh random Ed25519 key as PKCS#8 DER and PEM.
/// Nothing is claimed of the key.
#[verifier::external_body]
fn new_ed25519_key() -> (r: Option<(Vec<u8>, String)>) {
    let k = rcgen::KeyPair::generate_for(&rcgen::PKCS_ED25519).ok()?;
    Some((k.serialize_der(), k.serialize_pem()))
}

/// The PKCS#8 DER that `rcgen` reads from a PEM private key, if it reads one.
pub uninterp spec fn pkcs8_of_pem(pem: Seq<char>) -> Option<Seq<u8>>;

/// `rcgen::KeyPair::from_pem` followed by `serialize_der`: the PKCS#8 DER of
/// a PEM private key, or `None` when it does not parse; the outcome is the
/// one named `pkcs8_of_pem(pem)`.
#[verifier::external_body]
fn key_der_from_pem(pem: &str) -> (r: Option<Vec<u8>>)
    ensures
        match r {
            Some(d) => pkcs8_of_pem(pem@) == Some(d@),
            None => pkcs8_of_pem(pem@) is None,
        },
{
    rcgen::KeyPair::from_pem(pem).ok().map(|k| k.serialize_der())
}

/// `rcgen::CertificateParams` with one SAN, the URI `urn`, the given
/// extended key usages, serial number `serial` and common name `cn`, valid
/// from the first to the second (year, month, day), self-signed with
/// `self_signed` under the PKCS#8 key `key_der` (read with `KeyPair::try_from`);
/// the certificate's DER and PEM. `date_time_ymd` panics on an invalid date,
/// so both dates are required to be valid calendar days. Claimed: rcgen writes
/// the one URI as the certificate's only subject-alternative name, so
/// `x509-parser` reads back exactly `[URI urn]`. Nothing else is claimed of
/// the certificate, and nothing of whether signing succeeds.
#[verifier::external_body]
fn self_signed_node_cert(
    urn: &str,
    cn: &str,
    serial: &[u8],
    usages: Vec<rcgen::ExtendedKeyUsagePurpose>,
    key_der: &[u8],
    from: (i32, u8, u8),
    until: (i32, u8, u8),
) -> (r: Option<(Vec<u8>, String)>)
    requires
        1 <= from.1 <= 12 && 1 <= from.2 <= 28 && 1 <= until.1 <= 12 && 1 <= until.2 <= 28,
        1 <= from.0 <= 9999 && 1 <= until.0 <= 9999,
    ensures
        match r {
            Some(c) => x509_san_names(c.0@) == Some(seq![Some(urn@)]),
            None => true,
        },
{
    let mut p = rcgen::CertificateParams::default();
    p.subject_alt_names = vec![rcgen::SanType::URI(urn.to_string().try_into().ok()?)];
    p.extended_key_usages = usages;
    p.serial_number = Some(rcgen::SerialNumber::from_slice(serial));
    p.distinguished_name.push(rcgen::DnType::CommonName, cn);
    p.not_before = rcgen::date_time_ymd(from.0, from.1, from.2);
    p.not_after = rcgen::date_time_ymd(until.0, until.1, until.2);
    let key = rcgen::KeyPair::try_from(key_der).ok()?;
    let cert = p.self_signed(&key).ok()?;
    Some((cert.der().as_ref().to_vec(), cert.pem()))
}

/// `uuid::Uuid::new_v4` in its hyphenated text form, which the `uuid` crate
/// documents as 36 characters. Nothing else is claimed of the random value.
#[verifier::external_body]
pub(crate) fn new_uuid_v4() -> (r: String)
    ensures
        r@.len() == 36,
{
    uuid::Uuid::new_v4().to_string()
}

impl Identity {
    /// Mint a fresh identity with a random node UUID.
    pub fn generate() -> (r: Result<Identity, IdentityError>)
        ensures
            match r {
                Ok(id) => id.node_uuid@.len() == 36 && cert_node_uuid(id.cert_der@) == Some(id.node_uuid@),
                Err(e) => e == IdentityError::Crypto,
            },
    {
        let id = new_uuid_v4();
        Identity::generate_with_uuid(id.as_str())
    }

    /// Mint an identity for a specific node UUID: a fresh Ed25519 key and a
    /// self-signed certificate with SAN URI `urn:nvpair:node:<uuid>`, common
    /// name `uuid`, a random 128-bit serial and validity from 2025-01-01 to
    /// 2035-01-01.
    pub fn generate_with_uuid(node_uuid: &str) -> (r: Result<Identity, IdentityError>)
        ensures
            match r {
                Ok(id) => id.node_uuid@ == node_uuid@ && cert_node_uuid(id.cert_der@) == Some(node_uuid@),
                Err(e) => e == IdentityError::Crypto,
            },
    {
        let (key_der, key_pem) = match new_ed25519_key() {
            Some(k) => k,
            None => return Err(IdentityError::Crypto),
        };
        let urn = node_urn(node_uuid);
        let serial = random_16();
        let kinds = node_cert_usages();
        let mut usages: Vec<rcgen::ExtendedKeyUsagePurpose> = Vec::new();
        for i in 0..kinds.len() {
            usages.push(eku_purpose(kinds[i]));
        }
        let (cert_der, cert_pem) = match self_signed_node_cert(
            urn.as_str(),
            node_uuid,
            &serial,
            usages,
            key_der.as_slice(),
            (2025, 1, 1),
            (2035, 1, 1),
        ) {
            Some(c) => c,
            None => return Err(IdentityError::Crypto),
        };
        proof {
            crate::trust::uuid_scheme::lemma_urn_roundtrip(node_uuid@);
            assert(seq![Some(urn@)].drop_first() =~= Seq::<Option<Seq<char>>>::empty());
        }
        let mut uuid = String::new();
        push_str(&mut uuid, node_uuid);
        Ok(Identity { node_uuid: uuid, cert_der, key_pkcs8_der: key_der, cert_pem, key_pem })
    }

    /// Reconstruct an identity from certificate and key PEM: the node UUID is
    /// read from the certificate.
    pub fn from_pem(cert_pem: &str, key_pem: &str) -> (r: Result<Identity, IdentityError>)
        ensures
            match r {
                Ok(id) => pkcs8_of_pem(key_pem@) == Some(id.key_pkcs8_der@) && spec_pem_to_der(cert_pem@) == Some(
                    id.cert_der@,
                ) && cert_node_uuid(id.cert_der@) == Some(id.node_uuid@) && id.cert_pem@ == cert_pem@
                    && id.key_pem@ == key_pem@,
                Err(IdentityError::Crypto) => pkcs8_of_pem(key_pem@) is None,
                Err(IdentityError::NoCertificate) => pkcs8_of_pem(key_pem@) is Some && spec_pem_to_der(cert_pem@) is None,
                Err(IdentityError::NoNodeUuid) => pkcs8_of_pem(key_pem@) is Some && spec_pem_to_der(cert_pem@) is Some
                    && cert_node_uuid(spec_pem_to_der(cert_pem@).unwrap()) is None,
            },
    {
        let key_der = match key_der_from_pem(key_pem) {
            Some(k) => k,
            None => return Err(IdentityError::Crypto),
        };
        let cert_der = match pem_cert_to_der(cert_pem) {
            Some(d) => d,
            None => return Err(IdentityError::NoCertificate),
        };
        let node_uuid = match node_uuid_from_cert(cert_der.as_slice()) {
            Some(u) => u,
            None => return Err(IdentityError::NoNodeUuid),
        };
        let mut cp = String::new();
        push_str(&mut cp, cert_pem);
        let mut kp = String::new();
        push_str(&mut kp, key_pem);
        Ok(Identity { node_uuid, cert_der, key_pkcs8_der: key_der, cert_pem: cp, key_pem: kp })
    }

    /// `sha256:<hex>` fingerprint over the certificate DER.
    pub fn fingerprint(&self) -> (r: String)
        ensures
            r@ == fingerprint_text(self.cert_der@),
            r@.len() == 71,
    {
        cert_fingerprint(self.cert_der.as_slice())
    }
}

} // verus!
