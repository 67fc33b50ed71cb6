//! The EAP-NOOB message as exchanged between Server and Peer: a compact JSON
//! object whose MAC-relevant members are kept as verbatim JSON text, so that
//! the confirmation MACs match a real peer byte for byte.

use vstd::prelude::*;
use vstd::string::*;
use vstd::utf8::encode_utf8;
use crate::json_keys::{field_repeated, repeated_field, strs_view};
use crate::codec::{
    json_flat_text, json_i64, json_members, json_object_text, json_plain_char, json_quote, json_string_literal,
    json_string_value, lemma_json_quote_plain, lemma_lookup_push, lemma_push_member, lemma_push_text, member_lookup,
    member_text, members_text, parse_json_i64, parse_json_members, parse_json_string, plain_members, find_member,
};
use crate::pairing::mac::comma_join;
use crate::text::{int_str, i64_to_string, push_char, push_str, str_eq};

verus! {

/// One EAP-NOOB message. Integer members are decoded; the others hold the
/// verbatim JSON text of the member (`None` when absent or `null`), except
/// `error_info` and `eap`, which hold the decoded string.
#[derive(Debug)]
pub struct Wire {
    pub type_: Option<i64>,
    pub peer_state: Option<i64>,
    pub peer_id: Option<String>,
    pub nai: Option<String>,
    pub new_nai: Option<String>,
    pub vers: Option<String>,
    pub verp: Option<String>,
    pub cryptosuites: Option<String>,
    pub cryptosuitep: Option<String>,
    pub dirs: Option<String>,
    pub dirp: Option<String>,
    pub server_info: Option<String>,
    pub peer_info: Option<String>,
    pub pks: Option<String>,
    pub pkp: Option<String>,
    pub ns: Option<String>,
    pub np: Option<String>,
    pub sleep_time: Option<i64>,
    pub noob_id: Option<String>,
    pub macs: Option<String>,
    pub macp: Option<String>,
    pub error_code: Option<i64>,
    pub error_info: Option<String>,
    pub eap: Option<String>,
}

/// The content of a message: integers, verbatim JSON texts and decoded strings.
pub struct WireView {
    pub type_: Option<i64>,
    pub peer_state: Option<i64>,
    pub peer_id: Option<Seq<char>>,
    pub nai: Option<Seq<char>>,
    pub new_nai: Option<Seq<char>>,
    pub vers: Option<Seq<char>>,
    pub verp: Option<Seq<char>>,
    pub cryptosuites: Option<Seq<char>>,
    pub cryptosuitep: Option<Seq<char>>,
    pub dirs: Option<Seq<char>>,
    pub dirp: Option<Seq<char>>,
    pub server_info: Option<Seq<char>>,
    pub peer_info: Option<Seq<char>>,
    pub pks: Option<Seq<char>>,
    pub pkp: Option<Seq<char>>,
    pub ns: Option<Seq<char>>,
    pub np: Option<Seq<char>>,
    pub sleep_time: Option<i64>,
    pub noob_id: Option<Seq<char>>,
    pub macs: Option<Seq<char>>,
    pub macp: Option<Seq<char>>,
    pub error_code: Option<i64>,
    pub error_info: Option<Seq<char>>,
    pub eap: Option<Seq<char>>,
}

/// The content of a message value.
pub open spec fn wire_view(w: Wire) -> WireView {
    WireView {
        type_: w.type_,
        peer_state: w.peer_state,
        peer_id: ov(w.peer_id),
        nai: ov(w.nai),
        new_nai: ov(w.new_nai),
        vers: ov(w.vers),
        verp: ov(w.verp),
        cryptosuites: ov(w.cryptosuites),
        cryptosuitep: ov(w.cryptosuitep),
        dirs: ov(w.dirs),
        dirp: ov(w.dirp),
        server_info: ov(w.server_info),
        peer_info: ov(w.peer_info),
        pks: ov(w.pks),
        pkp: ov(w.pkp),
        ns: ov(w.ns),
        np: ov(w.np),
        sleep_time: w.sleep_time,
        noob_id: ov(w.noob_id),
        macs: ov(w.macs),
        macp: ov(w.macp),
        error_code: w.error_code,
        error_info: ov(w.error_info),
        eap: ov(w.eap),
    }
}

/// A message with no member.
pub open spec fn blank() -> WireView {
    WireView {
        type_: None,
        peer_state: None,
        peer_id: None,
        nai: None,
        new_nai: None,
        vers: None,
        verp: None,
        cryptosuites: None,
        cryptosuitep: None,
        dirs: None,
        dirp: None,
        server_info: None,
        peer_info: None,
        pks: None,
        pkp: None,
        ns: None,
        np: None,
        sleep_time: None,
        noob_id: None,
        macs: None,
        macp: None,
        error_code: None,
        error_info: None,
        eap: None,
    }
}

/// The view of an optional string.
pub open spec fn ov(o: Option<String>) -> Option<Seq<char>> {
    match o {
        Some(s) => Some(s@),
        None => None,
    }
}

/// The decimal text of an optional integer.
pub open spec fn oi(o: Option<i64>) -> Option<Seq<char>> {
    match o {
        Some(v) => Some(int_str(v as int)),
        None => None,
    }
}

/// The JSON string literal of an optional string.
pub open spec fn oq(o: Option<Seq<char>>) -> Option<Seq<char>> {
    match o {
        Some(s) => Some(json_quote(s)),
        None => None,
    }
}

/// One `"key":value` member of a compact JSON object.
pub open spec fn kv(key: Seq<char>, val: Seq<char>) -> Seq<char> {
    seq!['"'] + key + seq!['"', ':'] + val
}

/// The member for `key` when the value is present.
pub open spec fn opt_kv(key: Seq<char>, val: Option<Seq<char>>) -> Seq<Seq<char>> {
    match val {
        Some(v) => seq![kv(key, v)],
        None => seq![],
    }
}

/// The members of a message, in the order they are written.
pub open spec fn wire_entries(w: WireView) -> Seq<Seq<char>> {
    opt_kv("Type"@, oi(w.type_)) + opt_kv("PeerState"@, oi(w.peer_state)) + opt_kv("PeerId"@, w.peer_id)
        + opt_kv("NAI"@, w.nai) + opt_kv("NewNAI"@, w.new_nai) + opt_kv("Vers"@, w.vers)
        + opt_kv("Verp"@, w.verp) + opt_kv("Cryptosuites"@, w.cryptosuites) + opt_kv(
        "Cryptosuitep"@,
        w.cryptosuitep,
    ) + opt_kv("Dirs"@, w.dirs) + opt_kv("Dirp"@, w.dirp) + opt_kv(
        "ServerInfo"@,
        w.server_info,
    ) + opt_kv("PeerInfo"@, w.peer_info) + opt_kv("PKs"@, w.pks) + opt_kv("PKp"@, w.pkp)
        + opt_kv("Ns"@, w.ns) + opt_kv("Np"@, w.np) + opt_kv("SleepTime"@, oi(w.sleep_time))
        + opt_kv("NoobId"@, w.noob_id) + opt_kv("MACs"@, w.macs) + opt_kv("MACp"@, w.macp)
        + opt_kv("ErrorCode"@, oi(w.error_code)) + opt_kv("ErrorInfo"@, oq(w.error_info)) + opt_kv(
        "eap"@,
        oq(w.eap),
    )
}

/// The compact JSON text of a message.
pub open spec fn wire_text(w: WireView) -> Seq<char> {
    seq!['{'] + comma_join(wire_entries(w)) + seq!['}']
}

/// The bytes of a message on the wire.
pub open spec fn wire_bytes(w: WireView) -> Seq<u8> {
    encode_utf8(wire_text(w))
}

impl Wire {
    /// A message with every member absent.
    pub fn empty() -> (w: Wire)
        ensures
            wire_view(w) == blank(),
    {
        Wire {
            type_: None,
            peer_state: None,
            peer_id: None,
            nai: None,
            new_nai: None,
            vers: None,
            verp: None,
            cryptosuites: None,
            cryptosuitep: None,
            dirs: None,
            dirp: None,
            server_info: None,
            peer_info: None,
            pks: None,
            pkp: None,
            ns: None,
            np: None,
            sleep_time: None,
            noob_id: None,
            macs: None,
            macp: None,
            error_code: None,
            error_info: None,
            eap: None,
        }
    }
}

fn push_entry(entries: &mut Vec<String>, key: &str, val: &Option<String>)
    ensures
        final(entries)@.map_values(|e: String| e@) == old(entries)@.map_values(|e: String| e@) + opt_kv(
            key@,
            ov(*val),
        ),
{
    match val {
        Some(v) => {
            let mut e = String::new();
            push_char(&mut e, '"');
            push_str(&mut e, key);
            push_char(&mut e, '"');
            push_char(&mut e, ':');
            push_str(&mut e, v.as_str());
            entries.push(e);
            proof {
                assert(e@ =~= kv(key@, v@));
                assert(entries@.map_values(|e: String| e@) =~= old(entries)@.map_values(|e: String| e@)
                    + opt_kv(key@, ov(*val)));
            }
        },
        None => {
            proof {
                assert(entries@.map_values(|e: String| e@) =~= old(entries)@.map_values(|e: String| e@)
                    + opt_kv(key@, ov(*val)));
            }
        },
    }
}

fn int_text(v: &Option<i64>) -> (r: Option<String>)
    ensures
        ov(r) == oi(*v),
{
    match v {
        Some(x) => Some(i64_to_string(*x)),
        None => None,
    }
}

fn quoted_text(v: &Option<String>) -> (r: Option<String>)
    ensures
        ov(r) == oq(ov(*v)),
{
    match v {
        Some(x) => Some(json_string_literal(x.as_str())),
        None => None,
    }
}

/// Serialize a message to compact JSON bytes.
pub fn to_bytes(w: &Wire) -> (out: Vec<u8>)
    ensures
        out@ == wire_bytes(wire_view(*w)),
{
    let mut entries: Vec<String> = Vec::new();
    push_entry(&mut entries, "Type", &int_text(&w.type_));
    push_entry(&mut entries, "PeerState", &int_text(&w.peer_state));
    push_entry(&mut entries, "PeerId", &w.peer_id);
    push_entry(&mut entries, "NAI", &w.nai);
    push_entry(&mut entries, "NewNAI", &w.new_nai);
    push_entry(&mut entries, "Vers", &w.vers);
    push_entry(&mut entries, "Verp", &w.verp);
    push_entry(&mut entries, "Cryptosuites", &w.cryptosuites);
    push_entry(&mut entries, "Cryptosuitep", &w.cryptosuitep);
    push_entry(&mut entries, "Dirs", &w.dirs);
    push_entry(&mut entries, "Dirp", &w.dirp);
    push_entry(&mut entries, "ServerInfo", &w.server_info);
    push_entry(&mut entries, "PeerInfo", &w.peer_info);
    push_entry(&mut entries, "PKs", &w.pks);
    push_entry(&mut entries, "PKp", &w.pkp);
    push_entry(&mut entries, "Ns", &w.ns);
    push_entry(&mut entries, "Np", &w.np);
    push_entry(&mut entries, "SleepTime", &int_text(&w.sleep_time));
    push_entry(&mut entries, "NoobId", &w.noob_id);
    push_entry(&mut entries, "MACs", &w.macs);
    push_entry(&mut entries, "MACp", &w.macp);
    push_entry(&mut entries, "ErrorCode", &int_text(&w.error_code));
    push_entry(&mut entries, "ErrorInfo", &quoted_text(&w.error_info));
    push_entry(&mut entries, "eap", &quoted_text(&w.eap));
    let ghost ev = entries@.map_values(|e: String| e@);
    proof {
        assert(ev =~= wire_entries(wire_view(*w)));
    }
    let mut text = String::new();
    push_char(&mut text, '{');
    let mut i: usize = 0;
    while i < entries.len()
        invariant
            i <= entries@.len(),
            ev == entries@.map_values(|e: String| e@),
            text@ == seq!['{'] + comma_join(ev.subrange(0, i as int)),
        decreases entries@.len() - i,
    {
        if i > 0 {
            push_char(&mut text, ',');
        }
        push_str(&mut text, entries[i].as_str());
        proof {
            let after = ev.subrange(0, i + 1);
            assert(after.drop_last() =~= ev.subrange(0, i as int));
            if i == 0 {
                assert(comma_join(ev.subrange(0, 0)) =~= seq![]);
            }
            assert(text@ =~= seq!['{'] + comma_join(after));
        }
        i = i + 1;
    }
    push_char(&mut text, '}');
    proof {
        assert(ev.subrange(0, ev.len() as int) =~= ev);
        assert(text@ =~= wire_text(wire_view(*w)));
    }
    text.as_str().as_bytes_vec()
}

// --- parsing ------------------------------------------------------------------

/// The verbatim text of member `key`, treating `null` as absent.
pub open spec fn raw_member(ms: Seq<(Seq<char>, Seq<char>)>, key: Seq<char>) -> Option<Seq<char>> {
    match member_lookup(ms, key) {
        None => None,
        Some(t) => if t == "null"@ {
            None
        } else {
            Some(t)
        },
    }
}

/// An integer member reads (absent and `null` read as `None`).
pub open spec fn int_member_ok(ms: Seq<(Seq<char>, Seq<char>)>, key: Seq<char>) -> bool {
    match raw_member(ms, key) {
        None => true,
        Some(t) => json_i64(t) is Some,
    }
}

/// The value of an integer member.
pub open spec fn int_member(ms: Seq<(Seq<char>, Seq<char>)>, key: Seq<char>) -> Option<i64> {
    match raw_member(ms, key) {
        None => None,
        Some(t) => json_i64(t),
    }
}

/// A string member reads (absent and `null` read as `None`).
pub open spec fn str_member_ok(ms: Seq<(Seq<char>, Seq<char>)>, key: Seq<char>) -> bool {
    match raw_member(ms, key) {
        None => true,
        Some(t) => json_string_value(t) is Some,
    }
}

/// The value of a string member.
pub open spec fn str_member(ms: Seq<(Seq<char>, Seq<char>)>, key: Seq<char>) -> Option<Seq<char>> {
    match raw_member(ms, key) {
        None => None,
        Some(t) => json_string_value(t),
    }
}

/// Every typed member of the object reads as its type.
pub open spec fn members_typecheck(ms: Seq<(Seq<char>, Seq<char>)>) -> bool {
    &&& int_member_ok(ms, "Type"@)
    &&& int_member_ok(ms, "PeerState"@)
    &&& int_member_ok(ms, "SleepTime"@)
    &&& int_member_ok(ms, "ErrorCode"@)
    &&& str_member_ok(ms, "ErrorInfo"@)
    &&& str_member_ok(ms, "eap"@)
}

/// The message read from the members `ms`.
pub open spec fn wire_of(ms: Seq<(Seq<char>, Seq<char>)>, w: WireView) -> bool {
    &&& w.type_ == int_member(ms, "Type"@)
    &&& w.peer_state == int_member(ms, "PeerState"@)
    &&& w.peer_id == raw_member(ms, "PeerId"@)
    &&& w.nai == raw_member(ms, "NAI"@)
    &&& w.new_nai == raw_member(ms, "NewNAI"@)
    &&& w.vers == raw_member(ms, "Vers"@)
    &&& w.verp == raw_member(ms, "Verp"@)
    &&& w.cryptosuites == raw_member(ms, "Cryptosuites"@)
    &&& w.cryptosuitep == raw_member(ms, "Cryptosuitep"@)
    &&& w.dirs == raw_member(ms, "Dirs"@)
    &&& w.dirp == raw_member(ms, "Dirp"@)
    &&& w.server_info == raw_member(ms, "ServerInfo"@)
    &&& w.peer_info == raw_member(ms, "PeerInfo"@)
    &&& w.pks == raw_member(ms, "PKs"@)
    &&& w.pkp == raw_member(ms, "PKp"@)
    &&& w.ns == raw_member(ms, "Ns"@)
    &&& w.np == raw_member(ms, "Np"@)
    &&& w.sleep_time == int_member(ms, "SleepTime"@)
    &&& w.noob_id == raw_member(ms, "NoobId"@)
    &&& w.macs == raw_member(ms, "MACs"@)
    &&& w.macp == raw_member(ms, "MACp"@)
    &&& w.error_code == int_member(ms, "ErrorCode"@)
    &&& w.error_info == str_member(ms, "ErrorInfo"@)
    &&& w.eap == str_member(ms, "eap"@)
}

/// The members a message reads; an object that gives one twice is refused.
pub open spec fn wire_keys() -> Seq<Seq<char>> {
    seq![
        "Type"@,
        "PeerState"@,
        "PeerId"@,
        "NAI"@,
        "NewNAI"@,
        "Vers"@,
        "Verp"@,
        "Cryptosuites"@,
        "Cryptosuitep"@,
        "Dirs"@,
        "Dirp"@,
        "ServerInfo"@,
        "PeerInfo"@,
        "PKs"@,
        "PKp"@,
        "Ns"@,
        "Np"@,
        "SleepTime"@,
        "NoobId"@,
        "MACs"@,
        "MACp"@,
        "ErrorCode"@,
        "ErrorInfo"@,
        "eap"@,
    ]
}

/// Whether `input` is a well-formed message: a JSON object that gives no
/// member twice and whose typed members read as their types. Only the object
/// form is read: a JSON array of the fields in order is refused.
pub open spec fn parses(input: Seq<u8>) -> bool {
    json_members(input) is Some && !field_repeated(input, wire_keys()) && members_typecheck(
        json_members(input).unwrap(),
    )
}

/// `w` is the message read from `input`.
pub open spec fn parsed(input: Seq<u8>, w: Wire) -> bool {
    parses(input) && wire_of(json_members(input).unwrap(), wire_view(w))
}

// --- reading back what is written -------------------------------------------------

/// The members of a message as (key, optional value text), in written order.
pub open spec fn wire_parts(w: WireView) -> Seq<(Seq<char>, Option<Seq<char>>)> {
    seq![
        ("Type"@, oi(w.type_)),
        ("PeerState"@, oi(w.peer_state)),
        ("PeerId"@, w.peer_id),
        ("NAI"@, w.nai),
        ("NewNAI"@, w.new_nai),
        ("Vers"@, w.vers),
        ("Verp"@, w.verp),
        ("Cryptosuites"@, w.cryptosuites),
        ("Cryptosuitep"@, w.cryptosuitep),
        ("Dirs"@, w.dirs),
        ("Dirp"@, w.dirp),
        ("ServerInfo"@, w.server_info),
        ("PeerInfo"@, w.peer_info),
        ("PKs"@, w.pks),
        ("PKp"@, w.pkp),
        ("Ns"@, w.ns),
        ("Np"@, w.np),
        ("SleepTime"@, oi(w.sleep_time)),
        ("NoobId"@, w.noob_id),
        ("MACs"@, w.macs),
        ("MACp"@, w.macp),
        ("ErrorCode"@, oi(w.error_code)),
        ("ErrorInfo"@, oq(w.error_info)),
        ("eap"@, oq(w.eap)),
    ]
}

/// The written entries of optional members, in order.
pub open spec fn entries_of(parts: Seq<(Seq<char>, Option<Seq<char>>)>) -> Seq<Seq<char>>
    decreases parts.len(),
{
    if parts.len() == 0 {
        seq![]
    } else {
        entries_of(parts.drop_last()) + opt_kv(parts.last().0, parts.last().1)
    }
}

/// The present members among optional ones, in order.
pub open spec fn present(parts: Seq<(Seq<char>, Option<Seq<char>>)>) -> Seq<(Seq<char>, Seq<char>)>
    decreases parts.len(),
{
    if parts.len() == 0 {
        seq![]
    } else {
        match parts.last().1 {
            Some(v) => present(parts.drop_last()).push((parts.last().0, v)),
            None => present(parts.drop_last()),
        }
    }
}

/// Every key is made of characters that quoting leaves unchanged.
pub open spec fn plain_keys(parts: Seq<(Seq<char>, Option<Seq<char>>)>) -> bool {
    forall|i: int, j: int| 0 <= i < parts.len() && 0 <= j < parts[i].0.len() ==> json_plain_char(#[trigger] parts[i].0[j])
}

/// No key occurs twice.
pub open spec fn part_keys_distinct(parts: Seq<(Seq<char>, Option<Seq<char>>)>) -> bool {
    forall|i: int, j: int| 0 <= i < j < parts.len() ==> (#[trigger] parts[i]).0 != (#[trigger] parts[j]).0
}

/// Every present value is flat JSON text.
pub open spec fn flat_values(parts: Seq<(Seq<char>, Option<Seq<char>>)>) -> bool {
    forall|i: int| 0 <= i < parts.len() && (#[trigger] parts[i]).1 is Some ==> json_flat_text(parts[i].1.unwrap())
}

/// The entries of plain-keyed optional members are the texts of the present
/// members, and joined by commas they are those members' object body.
proof fn lemma_entries_present(parts: Seq<(Seq<char>, Option<Seq<char>>)>)
    requires
        plain_keys(parts),
    ensures
        comma_join(entries_of(parts)) == members_text(present(parts)),
        entries_of(parts).len() == present(parts).len(),
    decreases parts.len(),
{
    if parts.len() > 0 {
        let init = parts.drop_last();
        let last = parts.last();
        assert(plain_keys(init)) by {
            assert forall|i: int, j: int| 0 <= i < init.len() && 0 <= j < init[i].0.len() implies json_plain_char(#[trigger] init[i].0[j]) by {
                assert(init[i] == parts[i]);
            }
        }
        lemma_entries_present(init);
        match last.1 {
            Some(v) => {
                assert forall|j: int| 0 <= j < last.0.len() implies json_plain_char(#[trigger] last.0[j]) by {
                    assert(parts[parts.len() - 1] == last);
                }
                lemma_json_quote_plain(last.0);
                assert(kv(last.0, v) =~= member_text((last.0, v)));
                lemma_push_text(present(init), (last.0, v));
                let e = entries_of(init) + seq![kv(last.0, v)];
                assert(e.drop_last() =~= entries_of(init));
                if entries_of(init).len() == 0 {
                    assert(comma_join(e) == e[0]);
                }
            },
            None => {
                assert(entries_of(parts) =~= entries_of(init));
            },
        }
    }
}

/// In optional members with distinct keys, a key finds the value of its part
/// (none when that part is absent), and a key of no part finds nothing; with
/// flat values the present members are plain.
proof fn lemma_present_lookup(parts: Seq<(Seq<char>, Option<Seq<char>>)>, k: Seq<char>)
    requires
        part_keys_distinct(parts),
    ensures
        forall|j: int| 0 <= j < parts.len() && (#[trigger] parts[j]).0 == k ==> member_lookup(present(parts), k) == parts[j].1,
        (forall|j: int| 0 <= j < parts.len() ==> (#[trigger] parts[j]).0 != k) ==> member_lookup(present(parts), k) is None,
    decreases parts.len(),
{
    if parts.len() > 0 {
        let init = parts.drop_last();
        let last = parts.last();
        assert(part_keys_distinct(init)) by {
            assert forall|i: int, j: int| 0 <= i < j < init.len() implies (#[trigger] init[i]).0 != (#[trigger] init[j]).0 by {
                assert(init[i] == parts[i] && init[j] == parts[j]);
            }
        }
        lemma_present_lookup(init, k);
        if let Some(v) = last.1 {
            lemma_lookup_push(present(init), (last.0, v), k);
        }
        assert forall|j: int| 0 <= j < parts.len() && (#[trigger] parts[j]).0 == k implies member_lookup(present(parts), k) == parts[j].1 by {
            if j < parts.len() - 1 {
                assert(init[j] == parts[j]);
                assert(parts[j].0 != parts[parts.len() - 1].0);
            } else {
                assert forall|i: int| 0 <= i < init.len() implies (#[trigger] init[i]).0 != k by {
                    assert(init[i] == parts[i]);
                    assert(parts[i].0 != parts[j].0);
                }
            }
        }
        if forall|j: int| 0 <= j < parts.len() ==> (#[trigger] parts[j]).0 != k {
            assert forall|i: int| 0 <= i < init.len() implies (#[trigger] init[i]).0 != k by {
                assert(init[i] == parts[i]);
            }
            assert(parts[parts.len() - 1].0 != k);
        }
    }
}

/// Optional members with distinct keys and flat values are plain when present.
proof fn lemma_present_plain(parts: Seq<(Seq<char>, Option<Seq<char>>)>)
    requires
        part_keys_distinct(parts),
        flat_values(parts),
    ensures
        plain_members(present(parts)),
    decreases parts.len(),
{
    if parts.len() == 0 {
        assert(plain_members(present(parts)));
    } else {
        let init = parts.drop_last();
        let last = parts.last();
        assert(part_keys_distinct(init)) by {
            assert forall|i: int, j: int| 0 <= i < j < init.len() implies (#[trigger] init[i]).0 != (#[trigger] init[j]).0 by {
                assert(init[i] == parts[i] && init[j] == parts[j]);
            }
        }
        assert(flat_values(init)) by {
            assert forall|i: int| 0 <= i < init.len() && (#[trigger] init[i]).1 is Some implies json_flat_text(init[i].1.unwrap()) by {
                assert(init[i] == parts[i]);
            }
        }
        lemma_present_plain(init);
        if let Some(v) = last.1 {
            lemma_present_lookup(init, last.0);
            assert forall|j: int| 0 <= j < init.len() implies (#[trigger] init[j]).0 != last.0 by {
                assert(init[j] == parts[j]);
            }
            assert(parts[parts.len() - 1] == last);
            lemma_push_member(present(init), (last.0, v));
        }
    }
}

/// The keys of a message are distinct and plain.
proof fn lemma_wire_keys(w: WireView)
    ensures
        part_keys_distinct(wire_parts(w)),
        plain_keys(wire_parts(w)),
{
    reveal_strlit("Type");
    reveal_strlit("PeerState");
    reveal_strlit("PeerId");
    reveal_strlit("NAI");
    reveal_strlit("NewNAI");
    reveal_strlit("Vers");
    reveal_strlit("Verp");
    reveal_strlit("Cryptosuites");
    reveal_strlit("Cryptosuitep");
    reveal_strlit("Dirs");
    reveal_strlit("Dirp");
    reveal_strlit("ServerInfo");
    reveal_strlit("PeerInfo");
    reveal_strlit("PKs");
    reveal_strlit("PKp");
    reveal_strlit("Ns");
    reveal_strlit("Np");
    reveal_strlit("SleepTime");
    reveal_strlit("NoobId");
    reveal_strlit("MACs");
    reveal_strlit("MACp");
    reveal_strlit("ErrorCode");
    reveal_strlit("ErrorInfo");
    reveal_strlit("eap");
    let p = wire_parts(w);
    assert forall|i: int, j: int| 0 <= i < j < p.len() implies (#[trigger] p[i]).0 != (#[trigger] p[j]).0 by {
        if p[i].0.len() == p[j].0.len() {
            assert(p[i].0[p[i].0.len() - 1] != p[j].0[p[j].0.len() - 1] || p[i].0[0] != p[j].0[0] || p[i].0[1] != p[j].0[1]);
        }
    }
    assert forall|i: int, j: int| 0 <= i < p.len() && 0 <= j < p[i].0.len() implies json_plain_char(#[trigger] p[i].0[j]) by {}
}

/// A message's JSON is the compact object of its present members.
pub proof fn lemma_wire_text(w: WireView)
    ensures
        wire_text(w) == json_object_text(present(wire_parts(w))),
{
    lemma_wire_keys(w);
    assert(wire_entries(w) == entries_of(wire_parts(w))) by {
        reveal_with_fuel(entries_of, 25);
        let p = wire_parts(w);
        assert(p.take(0).len() == 0);
        assert(wire_entries(w) =~= entries_of(p));
    }
    lemma_entries_present(wire_parts(w));
}

/// A raw member value that is written and read back verbatim: flat JSON text
/// other than `null` (which reads as absent).
pub open spec fn raw_ok(v: Option<Seq<char>>) -> bool {
    match v {
        Some(t) => json_flat_text(t) && t != "null"@,
        None => true,
    }
}

/// Every raw member of a message is written and read back verbatim.
pub open spec fn wire_flat(w: WireView) -> bool {
    &&& raw_ok(w.peer_id)
    &&& raw_ok(w.nai)
    &&& raw_ok(w.new_nai)
    &&& raw_ok(w.vers)
    &&& raw_ok(w.verp)
    &&& raw_ok(w.cryptosuites)
    &&& raw_ok(w.cryptosuitep)
    &&& raw_ok(w.dirs)
    &&& raw_ok(w.dirp)
    &&& raw_ok(w.server_info)
    &&& raw_ok(w.peer_info)
    &&& raw_ok(w.pks)
    &&& raw_ok(w.pkp)
    &&& raw_ok(w.ns)
    &&& raw_ok(w.np)
    &&& raw_ok(w.noob_id)
    &&& raw_ok(w.macs)
    &&& raw_ok(w.macp)
}

/// Decimal text is never the literal `null`.
pub proof fn lemma_int_not_null(k: int)
    ensures
        int_str(k) != "null"@,
{
    reveal_strlit("null");
    let n: nat = if k < 0 { (-k) as nat } else { k as nat };
    let d = crate::text::nat_str(n);
    assert(d.last() == crate::text::digit_char(n % 10));
    assert(int_str(k).last() == d.last());
    assert("null"@.last() == 'l');
}

/// A string literal is never the literal `null`.
pub proof fn lemma_quote_not_null(t: Seq<char>)
    ensures
        json_quote(t) != "null"@,
{
    reveal_strlit("null");
    assert(json_quote(t)[0] == '"');
}

/// A message whose raw members are flat has plain members in its JSON object,
/// each found under its key.
pub proof fn lemma_wire_lookup(w: WireView)
    requires
        wire_flat(w),
    ensures
        plain_members(present(wire_parts(w))),
        member_lookup(present(wire_parts(w)), "Type"@) == oi(w.type_),
        member_lookup(present(wire_parts(w)), "PeerState"@) == oi(w.peer_state),
        member_lookup(present(wire_parts(w)), "PeerId"@) == w.peer_id,
        member_lookup(present(wire_parts(w)), "NAI"@) == w.nai,
        member_lookup(present(wire_parts(w)), "NewNAI"@) == w.new_nai,
        member_lookup(present(wire_parts(w)), "Vers"@) == w.vers,
        member_lookup(present(wire_parts(w)), "Verp"@) == w.verp,
        member_lookup(present(wire_parts(w)), "Cryptosuites"@) == w.cryptosuites,
        member_lookup(present(wire_parts(w)), "Cryptosuitep"@) == w.cryptosuitep,
        member_lookup(present(wire_parts(w)), "Dirs"@) == w.dirs,
        member_lookup(present(wire_parts(w)), "Dirp"@) == w.dirp,
        member_lookup(present(wire_parts(w)), "ServerInfo"@) == w.server_info,
        member_lookup(present(wire_parts(w)), "PeerInfo"@) == w.peer_info,
        member_lookup(present(wire_parts(w)), "PKs"@) == w.pks,
        member_lookup(present(wire_parts(w)), "PKp"@) == w.pkp,
        member_lookup(present(wire_parts(w)), "Ns"@) == w.ns,
        member_lookup(present(wire_parts(w)), "Np"@) == w.np,
        member_lookup(present(wire_parts(w)), "SleepTime"@) == oi(w.sleep_time),
        member_lookup(present(wire_parts(w)), "NoobId"@) == w.noob_id,
        member_lookup(present(wire_parts(w)), "MACs"@) == w.macs,
        member_lookup(present(wire_parts(w)), "MACp"@) == w.macp,
        member_lookup(present(wire_parts(w)), "ErrorCode"@) == oi(w.error_code),
        member_lookup(present(wire_parts(w)), "ErrorInfo"@) == oq(w.error_info),
        member_lookup(present(wire_parts(w)), "eap"@) == oq(w.eap),
{
    let p = wire_parts(w);
    lemma_wire_keys(w);
    assert(flat_values(p)) by {
        assert forall|i: int| 0 <= i < p.len() && (#[trigger] p[i]).1 is Some implies json_flat_text(p[i].1.unwrap()) by {
            let v = p[i].1.unwrap();
            if i == 0 || i == 1 || i == 17 || i == 21 {
                let k: i64 = if i == 0 { w.type_.unwrap() } else if i == 1 { w.peer_state.unwrap() } else if i == 17 { w.sleep_time.unwrap() } else { w.error_code.unwrap() };
                assert(v == int_str(k as int));
            } else if i == 22 || i == 23 {
                let t = if i == 22 { w.error_info.unwrap() } else { w.eap.unwrap() };
                assert(v == json_quote(t));
            }
        }
    }
    lemma_present_plain(p);
    lemma_present_lookup(p, p[0].0);
    lemma_present_lookup(p, p[1].0);
    lemma_present_lookup(p, p[2].0);
    lemma_present_lookup(p, p[3].0);
    lemma_present_lookup(p, p[4].0);
    lemma_present_lookup(p, p[5].0);
    lemma_present_lookup(p, p[6].0);
    lemma_present_lookup(p, p[7].0);
    lemma_present_lookup(p, p[8].0);
    lemma_present_lookup(p, p[9].0);
    lemma_present_lookup(p, p[10].0);
    lemma_present_lookup(p, p[11].0);
    lemma_present_lookup(p, p[12].0);
    lemma_present_lookup(p, p[13].0);
    lemma_present_lookup(p, p[14].0);
    lemma_present_lookup(p, p[15].0);
    lemma_present_lookup(p, p[16].0);
    lemma_present_lookup(p, p[17].0);
    lemma_present_lookup(p, p[18].0);
    lemma_present_lookup(p, p[19].0);
    lemma_present_lookup(p, p[20].0);
    lemma_present_lookup(p, p[21].0);
    lemma_present_lookup(p, p[22].0);
    lemma_present_lookup(p, p[23].0);
}

/// The bytes of a message whose raw members are flat read back as that message.
pub open spec fn reads_back(input: Seq<u8>) -> bool {
    forall|w: WireView|
        wire_flat(w) && input == #[trigger] wire_bytes(w) ==> parses(input) && (exists|wm: Wire| parsed(input, wm))
            && forall|wm: Wire| parsed(input, wm) ==> wire_view(wm) == w
}

fn raw_field(ms: &Vec<(String, String)>, key: &str) -> (r: Option<String>)
    ensures
        ov(r) == raw_member(crate::codec::members_view(ms@), key@),
{
    match find_member(ms, key) {
        None => None,
        Some(t) => if str_eq(t.as_str(), "null") {
            None
        } else {
            Some(t)
        },
    }
}

fn int_field(ms: &Vec<(String, String)>, key: &str) -> (r: Result<Option<i64>, ()>)
    ensures
        match r {
            Ok(v) => int_member_ok(crate::codec::members_view(ms@), key@) && v == int_member(
                crate::codec::members_view(ms@),
                key@,
            ),
            Err(_) => !int_member_ok(crate::codec::members_view(ms@), key@),
        },
        forall|k: i64|
            member_lookup(crate::codec::members_view(ms@), key@) == Some(#[trigger] int_str(k as int)) ==> r
                == Ok::<Option<i64>, ()>(Some(k)),
{
    proof {
        assert forall|k: i64| #[trigger] int_str(k as int) != "null"@ by {
            lemma_int_not_null(k as int);
        }
    }
    match raw_field(ms, key) {
        None => Ok(None),
        Some(t) => match parse_json_i64(t.as_str()) {
            Some(v) => Ok(Some(v)),
            None => Err(()),
        },
    }
}

fn str_field(ms: &Vec<(String, String)>, key: &str) -> (r: Result<Option<String>, ()>)
    ensures
        match r {
            Ok(v) => str_member_ok(crate::codec::members_view(ms@), key@) && ov(v) == str_member(
                crate::codec::members_view(ms@),
                key@,
            ),
            Err(_) => !str_member_ok(crate::codec::members_view(ms@), key@),
        },
        forall|t: Seq<char>|
            member_lookup(crate::codec::members_view(ms@), key@) == Some(#[trigger] json_quote(t)) ==> r is Ok && ov(
                r->Ok_0,
            ) == Some(t),
{
    proof {
        assert forall|t: Seq<char>| #[trigger] json_quote(t) != "null"@ by {
            lemma_quote_not_null(t);
        }
    }
    match raw_field(ms, key) {
        None => Ok(None),
        Some(t) => match parse_json_string(t.as_str()) {
            Some(v) => Ok(Some(v)),
            None => Err(()),
        },
    }
}

/// Read a message from its JSON bytes; `None` when it is not a JSON object or
/// a typed member does not read as its type. The bytes [`to_bytes`] writes
/// for a message whose raw members are flat JSON read back as that message.
pub fn from_bytes(input: &[u8]) -> (r: Option<Wire>)
    ensures
        match r {
            Some(w) => parsed(input@, w),
            None => !parses(input@),
        },
        forall|w: WireView| wire_flat(w) && input@ == #[trigger] wire_bytes(w) ==> r is Some && wire_view(r.unwrap()) == w,
{
    let ms = match parse_json_members(input) {
        Some(ms) => ms,
        None => {
            proof {
                assert forall|w: WireView| wire_flat(w) && input@ == #[trigger] wire_bytes(w) implies false by {
                    lemma_wire_text(w);
                    lemma_wire_lookup(w);
                }
            }
            return None;
        },
    };
    let keys: Vec<&str> = vec![
        "Type",
        "PeerState",
        "PeerId",
        "NAI",
        "NewNAI",
        "Vers",
        "Verp",
        "Cryptosuites",
        "Cryptosuitep",
        "Dirs",
        "Dirp",
        "ServerInfo",
        "PeerInfo",
        "PKs",
        "PKp",
        "Ns",
        "Np",
        "SleepTime",
        "NoobId",
        "MACs",
        "MACp",
        "ErrorCode",
        "ErrorInfo",
        "eap",
    ];
    proof {
        assert(strs_view(keys@) =~= wire_keys());
    }
    if repeated_field(input, &keys) {
        proof {
            assert forall|w: WireView| wire_flat(w) && input@ == #[trigger] wire_bytes(w) implies false by {
                lemma_wire_text(w);
                lemma_wire_lookup(w);
            }
        }
        return None;
    }
    let ghost msv = crate::codec::members_view(ms@);
    proof {
        assert forall|w: WireView| wire_flat(w) && input@ == #[trigger] wire_bytes(w) implies forall|k: Seq<char>|
            #[trigger] member_lookup(msv, k) == member_lookup(present(wire_parts(w)), k) by {
            lemma_wire_text(w);
            lemma_wire_lookup(w);
        }
    }
    let type_r = int_field(&ms, "Type");
    let peer_state_r = int_field(&ms, "PeerState");
    let sleep_time_r = int_field(&ms, "SleepTime");
    let error_code_r = int_field(&ms, "ErrorCode");
    let error_info_r = str_field(&ms, "ErrorInfo");
    let eap_r = str_field(&ms, "eap");
    let peer_id = raw_field(&ms, "PeerId");
    let nai = raw_field(&ms, "NAI");
    let new_nai = raw_field(&ms, "NewNAI");
    let vers = raw_field(&ms, "Vers");
    let verp = raw_field(&ms, "Verp");
    let cryptosuites = raw_field(&ms, "Cryptosuites");
    let cryptosuitep = raw_field(&ms, "Cryptosuitep");
    let dirs = raw_field(&ms, "Dirs");
    let dirp = raw_field(&ms, "Dirp");
    let server_info = raw_field(&ms, "ServerInfo");
    let peer_info = raw_field(&ms, "PeerInfo");
    let pks = raw_field(&ms, "PKs");
    let pkp = raw_field(&ms, "PKp");
    let ns = raw_field(&ms, "Ns");
    let np = raw_field(&ms, "Np");
    let noob_id = raw_field(&ms, "NoobId");
    let macs = raw_field(&ms, "MACs");
    let macp = raw_field(&ms, "MACp");
    proof {
        reveal_strlit("null");
        assert forall|w: WireView| wire_flat(w) && input@ == #[trigger] wire_bytes(w) implies {
            &&& type_r == Ok::<Option<i64>, ()>(w.type_)
            &&& peer_state_r == Ok::<Option<i64>, ()>(w.peer_state)
            &&& sleep_time_r == Ok::<Option<i64>, ()>(w.sleep_time)
            &&& error_code_r == Ok::<Option<i64>, ()>(w.error_code)
            &&& error_info_r is Ok && ov(error_info_r->Ok_0) == w.error_info
            &&& eap_r is Ok && ov(eap_r->Ok_0) == w.eap
            &&& ov(peer_id) == w.peer_id
            &&& ov(nai) == w.nai
            &&& ov(new_nai) == w.new_nai
            &&& ov(vers) == w.vers
            &&& ov(verp) == w.verp
            &&& ov(cryptosuites) == w.cryptosuites
            &&& ov(cryptosuitep) == w.cryptosuitep
            &&& ov(dirs) == w.dirs
            &&& ov(dirp) == w.dirp
            &&& ov(server_info) == w.server_info
            &&& ov(peer_info) == w.peer_info
            &&& ov(pks) == w.pks
            &&& ov(pkp) == w.pkp
            &&& ov(ns) == w.ns
            &&& ov(np) == w.np
            &&& ov(noob_id) == w.noob_id
            &&& ov(macs) == w.macs
            &&& ov(macp) == w.macp
        } by {
            lemma_wire_lookup(w);
            let p = present(wire_parts(w));
            assert(member_lookup(msv, "Type"@) == member_lookup(p, "Type"@));
            assert(member_lookup(msv, "PeerState"@) == member_lookup(p, "PeerState"@));
            assert(member_lookup(msv, "SleepTime"@) == member_lookup(p, "SleepTime"@));
            assert(member_lookup(msv, "ErrorCode"@) == member_lookup(p, "ErrorCode"@));
            assert(member_lookup(msv, "ErrorInfo"@) == member_lookup(p, "ErrorInfo"@));
            assert(member_lookup(msv, "eap"@) == member_lookup(p, "eap"@));
            assert(member_lookup(msv, "PeerId"@) == member_lookup(p, "PeerId"@));
            assert(member_lookup(msv, "NAI"@) == member_lookup(p, "NAI"@));
            assert(member_lookup(msv, "NewNAI"@) == member_lookup(p, "NewNAI"@));
            assert(member_lookup(msv, "Vers"@) == member_lookup(p, "Vers"@));
            assert(member_lookup(msv, "Verp"@) == member_lookup(p, "Verp"@));
            assert(member_lookup(msv, "Cryptosuites"@) == member_lookup(p, "Cryptosuites"@));
            assert(member_lookup(msv, "Cryptosuitep"@) == member_lookup(p, "Cryptosuitep"@));
            assert(member_lookup(msv, "Dirs"@) == member_lookup(p, "Dirs"@));
            assert(member_lookup(msv, "Dirp"@) == member_lookup(p, "Dirp"@));
            assert(member_lookup(msv, "ServerInfo"@) == member_lookup(p, "ServerInfo"@));
            assert(member_lookup(msv, "PeerInfo"@) == member_lookup(p, "PeerInfo"@));
            assert(member_lookup(msv, "PKs"@) == member_lookup(p, "PKs"@));
            assert(member_lookup(msv, "PKp"@) == member_lookup(p, "PKp"@));
            assert(member_lookup(msv, "Ns"@) == member_lookup(p, "Ns"@));
            assert(member_lookup(msv, "Np"@) == member_lookup(p, "Np"@));
            assert(member_lookup(msv, "NoobId"@) == member_lookup(p, "NoobId"@));
            assert(member_lookup(msv, "MACs"@) == member_lookup(p, "MACs"@));
            assert(member_lookup(msv, "MACp"@) == member_lookup(p, "MACp"@));
            if let Some(k) = w.type_ {
                assert(member_lookup(msv, "Type"@) == Some(int_str(k as int)));
            }
            if let Some(k) = w.peer_state {
                assert(member_lookup(msv, "PeerState"@) == Some(int_str(k as int)));
            }
            if let Some(k) = w.sleep_time {
                assert(member_lookup(msv, "SleepTime"@) == Some(int_str(k as int)));
            }
            if let Some(k) = w.error_code {
                assert(member_lookup(msv, "ErrorCode"@) == Some(int_str(k as int)));
            }
            if let Some(t) = w.error_info {
                assert(member_lookup(msv, "ErrorInfo"@) == Some(json_quote(t)));
            }
            if let Some(t) = w.eap {
                assert(member_lookup(msv, "eap"@) == Some(json_quote(t)));
            }
        }
    }
    let type_ = match type_r {
        Ok(v) => v,
        Err(_) => return None,
    };
    let peer_state = match peer_state_r {
        Ok(v) => v,
        Err(_) => return None,
    };
    let sleep_time = match sleep_time_r {
        Ok(v) => v,
        Err(_) => return None,
    };
    let error_code = match error_code_r {
        Ok(v) => v,
        Err(_) => return None,
    };
    let error_info = match error_info_r {
        Ok(v) => v,
        Err(_) => return None,
    };
    let eap = match eap_r {
        Ok(v) => v,
        Err(_) => return None,
    };
    Some(
        Wire {
            type_,
            peer_state,
            peer_id,
            nai,
            new_nai,
            vers,
            verp,
            cryptosuites,
            cryptosuitep,
            dirs,
            dirp,
            server_info,
            peer_info,
            pks,
            pkp,
            ns,
            np,
            noob_id,
            sleep_time,
            macs,
            macp,
            error_code,
            error_info,
            eap,
        },
    )
}

} // verus!
