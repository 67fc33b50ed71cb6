//! Pluggable message framing over a byte stream:
//! * [`Framing::JsonLines`]: one compact JSON object per `\n`-terminated line.
//! * [`Framing::LengthPrefixedBE`]: 4-byte big-endian length, then the body.
//! * [`Framing::ContentLength`]: `Content-Length: N\r\n\r\n` header, then the body.
//!
//! Encoding and the decisions of reading (where a line ends, what a header
//! declares) are here; the byte-stream reads are the caller's.

use vstd::prelude::*;
use crate::trust::identity::{trim_end, trim_start};
use crate::text::{nat_str, u64_to_string};

verus! {

/// How messages are delimited on the stream.
#[derive(Debug, Clone, Copy, PartialEq, Eq, Structural)]
pub enum Framing {
    JsonLines,
    LengthPrefixedBE,
    ContentLength,
}

impl Default for Framing {
    fn default() -> (r: Self)
        ensures
            r == Framing::JsonLines,
    {
        Framing::JsonLines
    }
}

/// The ASCII bytes of a text made of ASCII characters.
pub open spec fn ascii_bytes(s: Seq<char>) -> Seq<u8> {
    s.map_values(|c: char| c as u8)
}

/// The four big-endian bytes of `n`.
pub open spec fn be32(n: nat) -> Seq<u8> {
    seq![((n / 0x100_0000) % 256) as u8, ((n / 0x1_0000) % 256) as u8, ((n / 0x100) % 256) as u8, (n % 256) as u8]
}

/// The framed form of `body`.
pub open spec fn framed(f: Framing, body: Seq<u8>) -> Seq<u8> {
    match f {
        Framing::JsonLines => body.push(10u8),
        Framing::LengthPrefixedBE => be32(body.len()) + body,
        Framing::ContentLength => ascii_bytes("Content-Length: "@ + nat_str(body.len()) + "\r\n\r\n"@) + body,
    }
}

fn push_ascii(v: &mut Vec<u8>, s: &str)
    requires
        forall|i: int| 0 <= i < s@.len() ==> (s@[i] as int) < 128,
    ensures
        final(v)@ == old(v)@ + ascii_bytes(s@),
{
    let n = s.unicode_len();
    let mut i: usize = 0;
    while i < n
        invariant
            n == s@.len(),
            i <= n,
            forall|j: int| 0 <= j < s@.len() ==> (s@[j] as int) < 128,
            v@ == old(v)@ + ascii_bytes(s@.subrange(0, i as int)),
        decreases n - i,
    {
        let c = s.get_char(i);
        v.push(c as u8);
        proof {
            assert(ascii_bytes(s@.subrange(0, i + 1)) =~= ascii_bytes(s@.subrange(0, i as int)).push(c as u8));
        }
        i = i + 1;
    }
    proof {
        assert(s@.subrange(0, n as int) =~= s@);
    }
}

fn push_all(v: &mut Vec<u8>, b: &[u8])
    ensures
        final(v)@ == old(v)@ + b@,
{
    let mut i: usize = 0;
    while i < b.len()
        invariant
            i <= b@.len(),
            v@ == old(v)@ + b@.subrange(0, i as int),
        decreases b@.len() - i,
    {
        v.push(b[i]);
        i = i + 1;
        proof {
            assert(v@ =~= old(v)@ + b@.subrange(0, i as int));
        }
    }
    proof {
        assert(b@.subrange(0, b@.len() as int) =~= b@);
    }
}

proof fn lemma_digits_ascii(n: nat)
    ensures
        forall|i: int| 0 <= i < nat_str(n).len() ==> (nat_str(n)[i] as int) < 128,
    decreases n,
{
    let d = (n % 10) as nat;
    assert(((d + 48) as u8) as int == d + 48);
    assert((crate::text::digit_char(d) as int) < 128);
    if n >= 10 {
        lemma_digits_ascii(n / 10);
        let t = nat_str(n / 10);
        assert(nat_str(n) == t.push(crate::text::digit_char(d)));
        assert forall|i: int| 0 <= i < nat_str(n).len() implies (nat_str(n)[i] as int) < 128 by {
            if i < t.len() {
                assert(nat_str(n)[i] == t[i]);
            }
        }
    }
}

impl Framing {
    /// Frame a JSON body for transmission (the length prefix carries the
    /// length's low 32 bits).
    pub fn encode(self, body: &[u8]) -> (r: Vec<u8>)
        ensures
            r@ == framed(self, body@),
    {
        let mut v: Vec<u8> = Vec::new();
        match self {
            Framing::JsonLines => {
                push_all(&mut v, body);
                v.push(10u8);
            },
            Framing::LengthPrefixedBE => {
                let n = body.len();
                v.push(((n / 0x100_0000) % 256) as u8);
                v.push(((n / 0x1_0000) % 256) as u8);
                v.push(((n / 0x100) % 256) as u8);
                v.push((n % 256) as u8);
                proof {
                    assert(v@ =~= be32(body@.len()));
                }
                push_all(&mut v, body);
            },
            Framing::ContentLength => {
                proof {
                    reveal_strlit("Content-Length: ");
                    reveal_strlit("\r\n\r\n");
                    lemma_digits_ascii(body@.len());
                }
                push_ascii(&mut v, "Content-Length: ");
                let d = u64_to_string(body.len() as u64);
                push_ascii(&mut v, d.as_str());
                push_ascii(&mut v, "\r\n\r\n");
                proof {
                    assert(ascii_bytes("Content-Length: "@ + nat_str(body@.len()) + "\r\n\r\n"@) =~= ascii_bytes(
                        "Content-Length: "@,
                    ) + ascii_bytes(nat_str(body@.len())) + ascii_bytes("\r\n\r\n"@));
                }
                push_all(&mut v, body);
            },
        }
        v
    }
}

/// A complete line as the line framing yields it: the bytes before the line
/// feed without one trailing carriage return, or `None` for a blank line,
/// which is skipped.
pub open spec fn line_body(buf: Seq<u8>) -> Option<Seq<u8>> {
    let b = if buf.len() > 0 && buf.last() == 13u8 { buf.drop_last() } else { buf };
    if b.len() == 0 { None } else { Some(b) }
}

/// The message of a line read up to its line feed (`None`: a blank line, to
/// be skipped).
pub fn line_message(buf: &[u8]) -> (r: Option<Vec<u8>>)
    ensures
        match r {
            Some(v) => line_body(buf@) == Some(v@),
            None => line_body(buf@) is None,
        },
{
    let n = buf.len();
    let end = if n > 0 && buf[n - 1] == 13u8 { n - 1 } else { n };
    if end == 0 {
        return None;
    }
    let mut v: Vec<u8> = Vec::new();
    let mut i: usize = 0;
    while i < end
        invariant
            end <= buf@.len(),
            i <= end,
            v@ == buf@.subrange(0, i as int),
        decreases end - i,
    {
        v.push(buf[i]);
        i = i + 1;
        proof {
            assert(v@ =~= buf@.subrange(0, i as int));
        }
    }
    proof {
        if end < n {
            assert(buf@.drop_last() =~= buf@.subrange(0, end as int));
        } else {
            assert(buf@ =~= buf@.subrange(0, end as int));
        }
    }
    Some(v)
}

/// The length a 4-byte big-endian prefix declares.
pub fn prefix_length(b: [u8; 4]) -> (r: u32)
    ensures
        r as nat == b@[0] as nat * 0x100_0000 + b@[1] as nat * 0x1_0000 + b@[2] as nat * 0x100 + b@[3] as nat,
{
    (b[0] as u32) * 0x100_0000 + (b[1] as u32) * 0x1_0000 + (b[2] as u32) * 0x100 + (b[3] as u32)
}

/// Whether the header read so far is complete (ends with a blank line).
pub open spec fn header_done(h: Seq<u8>) -> bool {
    h.len() >= 4 && h.subrange(h.len() - 4, h.len() as int) == seq![13u8, 10u8, 13u8, 10u8]
}

/// Whether the header read so far ends with `\r\n\r\n`.
pub fn header_complete(h: &[u8]) -> (r: bool)
    ensures
        r == header_done(h@),
{
    let n = h.len();
    if n < 4 {
        return false;
    }
    let r = h[n - 4] == 13u8 && h[n - 3] == 10u8 && h[n - 2] == 13u8 && h[n - 1] == 10u8;
    proof {
        if r {
            assert(h@.subrange(n - 4, n as int) =~= seq![13u8, 10u8, 13u8, 10u8]);
        } else {
            if h@.subrange(n - 4, n as int) == seq![13u8, 10u8, 13u8, 10u8] {
                assert(h@.subrange(n - 4, n as int)[0] == h@[n - 4]);
                assert(h@.subrange(n - 4, n as int)[1] == h@[n - 3]);
                assert(h@.subrange(n - 4, n as int)[2] == h@[n - 2]);
                assert(h@.subrange(n - 4, n as int)[3] == h@[n - 1]);
            }
        }
    }
    r
}

/// Headers longer than this are refused.
pub const MAX_HEADER: usize = 8192;

/// The position of the first `\r\n` in `s`.
pub open spec fn first_crlf(s: Seq<char>) -> Option<int>
    decreases s.len(),
{
    if s.len() < 2 {
        None
    } else if s[0] == '\r' && s[1] == '\n' {
        Some(0)
    } else {
        match first_crlf(s.drop_first()) {
            Some(i) => Some(i + 1),
            None => None,
        }
    }
}

/// `s` split at each `\r\n` (the last piece may be empty).
pub open spec fn crlf_lines(s: Seq<char>) -> Seq<Seq<char>>
    decreases s.len(),
{
    match first_crlf(s) {
        Some(i) => if 0 <= i && i + 2 <= s.len() {
            seq![s.take(i)] + crlf_lines(s.skip(i + 2))
        } else {
            seq![s]
        },
        None => seq![s],
    }
}

/// The length a `Content-Length:` header line declares (surrounding
/// whitespace ignored), if it is a `usize`.
pub open spec fn declared_length(line: Seq<char>) -> Option<nat> {
    crate::decimal::parse_dec(crate::trust::identity::trim(line.skip(15)), usize::MAX as nat + 1)
}

/// The verdict of the last `Content-Length:` line among `lines`, if any.
pub open spec fn last_length_line(lines: Seq<Seq<char>>) -> Option<Option<nat>>
    decreases lines.len(),
{
    if lines.len() == 0 {
        None
    } else if "Content-Length:"@.is_prefix_of(lines.last()) {
        Some(declared_length(lines.last()))
    } else {
        last_length_line(lines.drop_last())
    }
}

/// The body length a header declares: read from its last `Content-Length:`
/// line; none when there is no such line or it does not hold a length.
pub open spec fn spec_content_length(header: Seq<char>) -> Option<nat> {
    match last_length_line(crlf_lines(header)) {
        Some(v) => v,
        None => None,
    }
}

/// Whether a `\r\n` starts at `j` in `s`.
pub open spec fn crlf_at(s: Seq<char>, j: int) -> bool {
    0 <= j && j + 1 < s.len() && s[j] == '\r' && s[j + 1] == '\n'
}

proof fn lemma_first_crlf_skip(s: Seq<char>, i: int)
    requires
        0 <= i <= s.len(),
        forall|j: int| 0 <= j < i ==> !#[trigger] crlf_at(s, j),
    ensures
        first_crlf(s) == match first_crlf(s.skip(i)) {
            Some(k) => Some(k + i),
            None => None,
        },
    decreases i,
{
    if i > 0 {
        assert(!crlf_at(s, 0));
        assert forall|j: int| 0 <= j < i - 1 implies !#[trigger] crlf_at(s.drop_first(), j) by {
            assert(!crlf_at(s, j + 1));
        }
        lemma_first_crlf_skip(s.drop_first(), i - 1);
        assert(s.drop_first().skip(i - 1) =~= s.skip(i));
    } else {
        assert(s.skip(0) =~= s);
    }
}

/// The next `\r\n` at or after `from`.
fn next_crlf(s: &str, from: usize) -> (r: Option<usize>)
    requires
        from <= s@.len(),
    ensures
        match r {
            Some(i) => from <= i && i + 2 <= s@.len() && first_crlf(s@.skip(from as int)) == Some(i - from),
            None => first_crlf(s@.skip(from as int)) is None,
        },
{
    let n = s.unicode_len();
    let ghost t = s@.skip(from as int);
    let mut i: usize = from;
    while n - i > 1
        invariant
            n == s@.len(),
            from <= i <= n,
            t == s@.skip(from as int),
            forall|j: int| 0 <= j < i - from ==> !#[trigger] crlf_at(t, j),
        decreases n - i,
    {
        let hit = s.get_char(i) == '\r' && s.get_char(i + 1) == '\n';
        proof {
            assert(t[i - from] == s@[i as int] && t[i - from + 1] == s@[i + 1]);
            assert(hit == crlf_at(t, i - from));
        }
        if hit {
            proof {
                lemma_first_crlf_skip(t, i - from);
                assert(t.skip(i - from)[0] == '\r' && t.skip(i - from)[1] == '\n');
            }
            return Some(i);
        }
        i = i + 1;
    }
    proof {
        lemma_first_crlf_skip(t, i - from);
        assert(t.skip(i - from).len() < 2);
    }
    None
}

/// The length declared by one header line, when it is a `Content-Length:`
/// line.
fn length_line(line: &str) -> (r: Option<Option<usize>>)
    ensures
        match r {
            None => !"Content-Length:"@.is_prefix_of(line@),
            Some(v) => "Content-Length:"@.is_prefix_of(line@) && match v {
                Some(k) => declared_length(line@) == Some(k as nat),
                None => declared_length(line@) is None,
            },
        },
{
    proof {
        reveal_strlit("Content-Length:");
    }
    if !crate::text::has_prefix(line, "Content-Length:") {
        return None;
    }
    let rest = crate::text::char_range(line, 15, line.unicode_len());
    let t = crate::trust::identity::trim_line(rest.as_str());
    proof {
        assert(rest@ =~= line@.skip(15));
    }
    Some(crate::decimal::parse_usize_text(t.as_str()))
}

/// The body length a Content-Length header (as received, before the body)
/// declares, read as lossy UTF-8 text; `None` is the missing-length error.
pub fn content_length(header: &[u8]) -> (r: Option<usize>)
    ensures
        match r {
            Some(k) => spec_content_length(crate::proxy::live::utf8_lossy(header@)) == Some(k as nat),
            None => spec_content_length(crate::proxy::live::utf8_lossy(header@)) is None,
        },
{
    let text = crate::proxy::live::lossy_text(header);
    let s = text.as_str();
    let n = s.unicode_len();
    let mut pos: usize = 0;
    let mut acc: Option<Option<usize>> = None;
    let ghost mut done: Seq<Seq<char>> = seq![];
    proof {
        assert(s@.skip(0) =~= s@);
        assert(crlf_lines(s@) =~= done + crlf_lines(s@.skip(0)));
    }
    loop
        invariant
            n == s@.len(),
            pos <= n,
            s@ == crate::proxy::live::utf8_lossy(header@),
            crlf_lines(s@) == done + crlf_lines(s@.skip(pos as int)),
            match acc {
                None => last_length_line(done) is None,
                Some(v) => last_length_line(done) == Some(
                    match v {
                        Some(k) => Some(k as nat),
                        None => None,
                    },
                ),
            },
        decreases n - pos,
    {
        let ghost t = s@.skip(pos as int);
        match next_crlf(s, pos) {
            Some(i) => {
                let line = crate::text::char_range(s, pos, i);
                proof {
                    assert(t.take(i - pos) =~= line@);
                    assert(t.skip(i - pos + 2) =~= s@.skip(i + 2));
                    assert(crlf_lines(t) =~= seq![line@] + crlf_lines(s@.skip(i + 2)));
                }
                match length_line(line.as_str()) {
                    Some(v) => {
                        acc = Some(v);
                    },
                    None => {},
                }
                proof {
                    let nd = done.push(line@);
                    assert(nd.drop_last() =~= done);
                    assert(nd.last() == line@);
                    assert(done + crlf_lines(t) =~= nd + crlf_lines(s@.skip(i + 2)));
                    done = nd;
                }
                pos = i + 2;
            },
            None => {
                let line = crate::text::char_range(s, pos, n);
                proof {
                    assert(line@ =~= t);
                    assert(crlf_lines(t) =~= seq![t]);
                }
                match length_line(line.as_str()) {
                    Some(v) => {
                        acc = Some(v);
                    },
                    None => {},
                }
                proof {
                    let nd = done.push(line@);
                    assert(nd.drop_last() =~= done);
                    assert(nd.last() == line@);
                    assert(crlf_lines(s@) =~= nd);
                    assert(s@ == crate::proxy::live::utf8_lossy(header@));
                    assert(spec_content_length(s@) == match last_length_line(nd) {
                        Some(v) => v,
                        None => None,
                    });
                }
                return match acc {
                    Some(v) => v,
                    None => None,
                };
            },
        }
    }
}

// --- what one side writes, the other reads ----------------------------------------

/// The header text the content-length framing writes for `n` body bytes.
pub open spec fn length_header(n: nat) -> Seq<char> {
    "Content-Length: "@ + nat_str(n) + "\r\n\r\n"@
}

/// The content-length framing reads back the length it wrote: the header of
/// a framed body declares the body's length.
pub proof fn lemma_content_length_roundtrip(n: nat)
    requires
        n <= usize::MAX,
    ensures
        spec_content_length(length_header(n)) == Some(n),
        framed(Framing::ContentLength, Seq::<u8>::empty()) == ascii_bytes(length_header(0)),
{
    reveal_strlit("Content-Length: ");
    reveal_strlit("Content-Length:");
    reveal_strlit("\r\n\r\n");
    let d = nat_str(n);
    crate::decimal::lemma_nat_str_digits(n);
    crate::decimal::lemma_nat_str_reads_back(n, usize::MAX as nat + 1);
    let h = length_header(n);
    let k: int = 16 + d.len() as int;
    assert(h.len() == k + 4);
    assert forall|j: int| 0 <= j < k implies h[j] != '\r' by {
        if j >= 16 {
            assert(h[j] == d[j - 16]);
            assert(crate::pairing::pin::is_digit(d[j - 16]));
        }
    }
    assert forall|j: int| 0 <= j < k implies !#[trigger] crlf_at(h, j) by {
        assert(h[j] != '\r');
    }
    lemma_first_crlf_skip(h, k);
    let t = h.skip(k);
    assert(t =~= seq!['\r', '\n', '\r', '\n']);
    assert(first_crlf(t) == Some(0int));
    assert(first_crlf(h) == Some(k));
    let line = h.take(k);
    assert(line =~= "Content-Length: "@ + d);
    let rest = h.skip(k + 2);
    assert(rest =~= seq!['\r', '\n']);
    assert(first_crlf(rest) == Some(0int));
    assert(rest.skip(2) =~= Seq::<char>::empty());
    assert(first_crlf(Seq::<char>::empty()) is None);
    assert(crlf_lines(Seq::<char>::empty()) =~= seq![Seq::<char>::empty()]);
    assert(rest.take(0) =~= Seq::<char>::empty());
    assert(crlf_lines(rest) == seq![rest.take(0)] + crlf_lines(rest.skip(2)));
    assert(crlf_lines(rest) =~= seq![Seq::<char>::empty(), Seq::<char>::empty()]);
    assert(crlf_lines(h) =~= seq![line, Seq::<char>::empty(), Seq::<char>::empty()]);
    let ls = crlf_lines(h);
    assert(!"Content-Length:"@.is_prefix_of(ls.last()));
    assert(ls.drop_last() =~= seq![line, Seq::<char>::empty()]);
    assert(!"Content-Length:"@.is_prefix_of(ls.drop_last().last()));
    assert(ls.drop_last().drop_last() =~= seq![line]);
    assert("Content-Length:"@.is_prefix_of(line)) by {
        assert forall|i: int| 0 <= i < 15 implies line[i] == "Content-Length:"@[i] by {
            assert(line[i] == "Content-Length: "@[i]);
        }
    }
    let body = line.skip(15);
    assert(body =~= seq![' '] + d);
    assert(trim_start(body) == trim_start(body.drop_first()));
    assert(body.drop_first() =~= d);
    assert(!crate::trust::identity::is_ws(d[0]));
    assert(trim_start(d) == d);
    assert(!crate::trust::identity::is_ws(d.last())) by {
        assert(crate::pairing::pin::is_digit(d[d.len() - 1]));
    }
    assert(trim_end(d) == d);
    assert(crate::trust::identity::trim(body) == d);
    assert(declared_length(line) == Some(n));
    reveal_with_fuel(last_length_line, 4);
    assert(framed(Framing::ContentLength, Seq::<u8>::empty()) =~= ascii_bytes(length_header(0)));
}

/// The length-prefixed framing reads back what it wrote: the four prefix
/// bytes, big-endian, are the body's length, and the body follows.
pub proof fn lemma_length_prefix_roundtrip(body: Seq<u8>)
    requires
        body.len() <= u32::MAX,
    ensures
        ({
            let f = framed(Framing::LengthPrefixedBE, body);
            &&& f.len() == body.len() + 4
            &&& f[0] as nat * 0x100_0000 + f[1] as nat * 0x1_0000 + f[2] as nat * 0x100 + f[3] as nat == body.len()
            &&& f.skip(4) == body
        }),
{
    let n = body.len();
    let f = framed(Framing::LengthPrefixedBE, body);
    assert(f.skip(4) =~= body);
    let b0 = (n / 0x100_0000) % 256;
    let b1 = (n / 0x1_0000) % 256;
    let b2 = (n / 0x100) % 256;
    let b3 = n % 256;
    assert(f[0] as nat == b0 && f[1] as nat == b1 && f[2] as nat == b2 && f[3] as nat == b3);
    assert(b0 * 0x100_0000 + b1 * 0x1_0000 + b2 * 0x100 + b3 == n) by (nonlinear_arith)
        requires
            n <= 0xffff_ffff,
            b0 == (n / 0x100_0000) % 256,
            b1 == (n / 0x1_0000) % 256,
            b2 == (n / 0x100) % 256,
            b3 == n % 256,
    ;
}

/// The line framing reads back what it wrote: the line before the line feed
/// is the message, for a non-empty message without a line feed that does not
/// end in a carriage return.
pub proof fn lemma_line_roundtrip(body: Seq<u8>)
    requires
        body.len() > 0,
        body.last() != 13u8,
        forall|i: int| 0 <= i < body.len() ==> body[i] != 10u8,
    ensures
        framed(Framing::JsonLines, body).last() == 10u8,
        line_body(framed(Framing::JsonLines, body).drop_last()) == Some(body),
{
    assert(framed(Framing::JsonLines, body).drop_last() =~= body);
}

} // verus!
