//! LAN discovery contract (mDNS / DNS-SD): the service type nodes advertise
//! and browse, and the node record carried in the service's TXT record.

use vstd::prelude::*;
use crate::keyed::Keyed;
use crate::proto::txt_keys;
use crate::text::{char_range, push_str, str_eq};

verus! {

/// DNS-SD service type used for node discovery on the local network.
pub const MDNS_SERVICE_TYPE: &'static str = "_nvpair-node._tcp";

/// A node record as advertised in / parsed from an mDNS TXT record. Keys not
/// modelled are kept in `extra` so that nothing is dropped.
#[derive(Debug)]
pub struct NodeRecord {
    pub node_uuid: Option<String>,
    pub cluster_uuid: Option<String>,
    /// Advertised reachable addresses (host:port), when present in TXT.
    pub addresses: Vec<String>,
    /// Any TXT keys not modelled, with their values.
    pub extra: Keyed<String>,
}

/// The content of a node record.
pub struct RecordView {
    pub node_uuid: Option<Seq<char>>,
    pub cluster_uuid: Option<Seq<char>>,
    pub addresses: Seq<Seq<char>>,
    pub extra: Map<Seq<char>, Seq<char>>,
}

/// The text of an optional string.
pub open spec fn ot(o: Option<String>) -> Option<Seq<char>> {
    match o {
        Some(s) => Some(s@),
        None => None,
    }
}

/// The content of a node record value.
pub open spec fn record_view(r: NodeRecord) -> RecordView {
    RecordView {
        node_uuid: ot(r.node_uuid),
        cluster_uuid: ot(r.cluster_uuid),
        addresses: crate::codec::texts_view(r.addresses@),
        extra: r.extra.view().map_values(|s: String| s@),
    }
}

/// The empty record.
pub open spec fn empty_record() -> RecordView {
    RecordView { node_uuid: None, cluster_uuid: None, addresses: seq![], extra: Map::empty() }
}

/// The keys that carry the node UUID.
pub open spec fn is_node_key(k: Seq<char>) -> bool {
    k == "uuid"@ || k == "node"@ || k == "nodeUuid"@ || k == "node_uuid"@ || k == "node-uuid"@
}

/// The keys that carry the cluster UUID.
pub open spec fn is_cluster_key(k: Seq<char>) -> bool {
    k == "cluster"@ || k == "cluster-uuid"@ || k == "clusterUuid"@ || k == "cluster_uuid"@
}

/// The keys that carry an address.
pub open spec fn is_addr_key(k: Seq<char>) -> bool {
    k == "addr"@ || k == "addresses"@
}

/// The index of the first `=` in `e`, if any.
pub open spec fn first_eq(e: Seq<char>) -> Option<int> {
    if exists|i: int| 0 <= i < e.len() && e[i] == '=' {
        Some(choose|i: int| 0 <= i < e.len() && e[i] == '=' && forall|j: int| 0 <= j < i ==> e[j] != '=')
    } else {
        None
    }
}

/// The record after reading one `key=value` entry (split at the first `=`;
/// an entry without `=` is ignored).
pub open spec fn apply_entry(r: RecordView, e: Seq<char>) -> RecordView {
    match first_eq(e) {
        None => r,
        Some(i) => {
            let k = e.take(i);
            let v = e.skip(i + 1);
            if is_node_key(k) {
                RecordView { node_uuid: Some(v), ..r }
            } else if is_cluster_key(k) {
                RecordView { cluster_uuid: Some(v), ..r }
            } else if is_addr_key(k) {
                RecordView { addresses: r.addresses.push(v), ..r }
            } else {
                RecordView { extra: r.extra.insert(k, v), ..r }
            }
        },
    }
}

/// The record read from the entries, in order.
pub open spec fn record_of(entries: Seq<Seq<char>>) -> RecordView
    decreases entries.len(),
{
    if entries.len() == 0 {
        empty_record()
    } else {
        apply_entry(record_of(entries.drop_last()), entries.last())
    }
}

/// The key of `key=value` is everything before the first `=`.
proof fn lemma_first_eq_split(k: Seq<char>, v: Seq<char>)
    requires
        forall|i: int| 0 <= i < k.len() ==> k[i] != '=',
    ensures
        first_eq(k + seq!['='] + v) == Some(k.len() as int),
        (k + seq!['='] + v).take(k.len() as int) == k,
        (k + seq!['='] + v).skip(k.len() as int + 1) == v,
{
    let e = k + seq!['='] + v;
    assert(e[k.len() as int] == '=');
    let i = choose|i: int| 0 <= i < e.len() && e[i] == '=' && forall|j: int| 0 <= j < i ==> e[j] != '=';
    assert(0 <= k.len() < e.len() && e[k.len() as int] == '=' && forall|j: int| 0 <= j < k.len() ==> e[j] != '=');
    assert(i == k.len()) by {
        if i < k.len() {
            assert(e[i] == k[i]);
        }
    }
    assert(e.take(k.len() as int) =~= k);
    assert(e.skip(k.len() as int + 1) =~= v);
}

/// Reading an entry is reading it after the earlier ones.
proof fn lemma_record_push(es: Seq<Seq<char>>, k: Seq<char>, v: Seq<char>)
    requires
        forall|i: int| 0 <= i < k.len() ==> k[i] != '=',
    ensures
        record_of(es.push(k + seq!['='] + v)) == (if is_node_key(k) {
            RecordView { node_uuid: Some(v), ..record_of(es) }
        } else if is_cluster_key(k) {
            RecordView { cluster_uuid: Some(v), ..record_of(es) }
        } else if is_addr_key(k) {
            RecordView { addresses: record_of(es).addresses.push(v), ..record_of(es) }
        } else {
            RecordView { extra: record_of(es).extra.insert(k, v), ..record_of(es) }
        }),
{
    let e = k + seq!['='] + v;
    lemma_first_eq_split(k, v);
    let es2 = es.push(e);
    assert(es2.drop_last() =~= es);
    assert(es2.last() == e);
}

proof fn lemma_addr_keys(k: Seq<char>)
    requires
        k == "addr"@ || k == "addresses"@,
    ensures
        !is_node_key(k) && !is_cluster_key(k) && is_addr_key(k),
        forall|i: int| 0 <= i < k.len() ==> k[i] != '=',
{
    reveal_strlit("addr");
    reveal_strlit("addresses");
    reveal_strlit("uuid");
    reveal_strlit("node");
    reveal_strlit("nodeUuid");
    reveal_strlit("node_uuid");
    reveal_strlit("node-uuid");
    reveal_strlit("cluster");
    reveal_strlit("cluster-uuid");
    reveal_strlit("clusterUuid");
    reveal_strlit("cluster_uuid");
    assert(k[0] == 'a');
    assert("uuid"@[0] == 'u' && "node"@[0] == 'n' && "nodeUuid"@[0] == 'n' && "node_uuid"@[0] == 'n');
    assert("node-uuid"@[0] == 'n' && "cluster"@[0] == 'c' && "cluster-uuid"@[0] == 'c');
    assert("clusterUuid"@[0] == 'c' && "cluster_uuid"@[0] == 'c');
}

proof fn lemma_cluster_keys(k: Seq<char>)
    requires
        k == "cluster"@ || k == "cluster-uuid"@ || k == "clusterUuid"@ || k == "cluster_uuid"@,
    ensures
        !is_node_key(k) && is_cluster_key(k),
        forall|i: int| 0 <= i < k.len() ==> k[i] != '=',
{
    reveal_strlit("uuid");
    reveal_strlit("node");
    reveal_strlit("nodeUuid");
    reveal_strlit("node_uuid");
    reveal_strlit("node-uuid");
    reveal_strlit("cluster");
    reveal_strlit("cluster-uuid");
    reveal_strlit("clusterUuid");
    reveal_strlit("cluster_uuid");
    assert(k[0] == 'c');
    assert("uuid"@[0] == 'u' && "node"@[0] == 'n' && "nodeUuid"@[0] == 'n' && "node_uuid"@[0] == 'n');
    assert("node-uuid"@[0] == 'n');
}

proof fn lemma_node_keys(k: Seq<char>)
    requires
        k == "uuid"@ || k == "node"@ || k == "nodeUuid"@ || k == "node_uuid"@ || k == "node-uuid"@,
    ensures
        is_node_key(k),
        forall|i: int| 0 <= i < k.len() ==> k[i] != '=',
{
    reveal_strlit("uuid");
    reveal_strlit("node");
    reveal_strlit("nodeUuid");
    reveal_strlit("node_uuid");
    reveal_strlit("node-uuid");
}

/// Reading one more `addr=…` or `addresses=…` entry appends its value to the
/// addresses and changes nothing else of the record.
pub proof fn lemma_address_entry(es: Seq<Seq<char>>, k: Seq<char>, v: Seq<char>)
    requires
        k == "addr"@ || k == "addresses"@,
    ensures
        record_of(es.push(k + seq!['='] + v)) == (RecordView { addresses: record_of(es).addresses.push(v), ..record_of(es) }),
{
    lemma_addr_keys(k);
    lemma_record_push(es, k, v);
}

/// Reading one more entry whose key is one of the node-UUID keys (`uuid`,
/// `node`, `nodeUuid`, `node_uuid`, `node-uuid`) sets the node UUID to its
/// value and changes nothing else of the record.
pub proof fn lemma_node_entry(es: Seq<Seq<char>>, k: Seq<char>, v: Seq<char>)
    requires
        k == "uuid"@ || k == "node"@ || k == "nodeUuid"@ || k == "node_uuid"@ || k == "node-uuid"@,
    ensures
        record_of(es.push(k + seq!['='] + v)) == (RecordView { node_uuid: Some(v), ..record_of(es) }),
{
    lemma_node_keys(k);
    lemma_record_push(es, k, v);
}

/// Reading one more entry whose key is one of the cluster-UUID keys
/// (`cluster`, `cluster-uuid`, `clusterUuid`, `cluster_uuid`) sets the cluster
/// UUID to its value and changes nothing else of the record.
pub proof fn lemma_cluster_entry(es: Seq<Seq<char>>, k: Seq<char>, v: Seq<char>)
    requires
        k == "cluster"@ || k == "cluster-uuid"@ || k == "clusterUuid"@ || k == "cluster_uuid"@,
    ensures
        record_of(es.push(k + seq!['='] + v)) == (RecordView { cluster_uuid: Some(v), ..record_of(es) }),
{
    lemma_cluster_keys(k);
    lemma_record_push(es, k, v);
}

/// Reading one more entry whose key (without `=`) is none of the modelled
/// keys keeps it in `extra` with its value and changes nothing else; no
/// entries make the empty record.
pub proof fn lemma_extra_entry(es: Seq<Seq<char>>, k: Seq<char>, v: Seq<char>)
    requires
        forall|i: int| 0 <= i < k.len() ==> k[i] != '=',
        k != "addr"@ && k != "addresses"@ && k != "uuid"@ && k != "node"@ && k != "nodeUuid"@ && k != "node_uuid"@
            && k != "node-uuid"@ && k != "cluster"@ && k != "cluster-uuid"@ && k != "clusterUuid"@ && k
            != "cluster_uuid"@,
    ensures
        record_of(es.push(k + seq!['='] + v)) == (RecordView { extra: record_of(es).extra.insert(k, v), ..record_of(es) }),
        record_of(Seq::<Seq<char>>::empty()) == empty_record(),
{
    lemma_record_push(es, k, v);
}

fn find_eq(e: &str) -> (r: Option<usize>)
    ensures
        match r {
            Some(i) => first_eq(e@) == Some(i as int) && i < e@.len(),
            None => first_eq(e@) is None,
        },
{
    let n = e.unicode_len();
    let mut i: usize = 0;
    while i < n
        invariant
            n == e@.len(),
            i <= n,
            forall|j: int| 0 <= j < i ==> e@[j] != '=',
        decreases n - i,
    {
        if e.get_char(i) == '=' {
            proof {
                let c = choose|c: int| 0 <= c < e@.len() && e@[c] == '=' && forall|j: int| 0 <= j < c ==> e@[j] != '=';
                assert(exists|c: int| 0 <= c < e@.len() && e@[c] == '=' && forall|j: int| 0 <= j < c ==> e@[j] != '=') by {
                    assert(0 <= i < e@.len() && e@[i as int] == '=' && forall|j: int| 0 <= j < i ==> e@[j] != '=');
                }
                if c < i {
                    assert(e@[c] != '=');
                } else if c > i {
                    assert(e@[i as int] != '=');
                }
            }
            return Some(i);
        }
        i = i + 1;
    }
    None
}

fn is_one_of(k: &str, options: &[&str]) -> (r: bool)
    ensures
        r == exists|i: int| 0 <= i < options@.len() && (#[trigger] options@[i])@ == k@,
{
    let mut i: usize = 0;
    while i < options.len()
        invariant
            i <= options@.len(),
            forall|j: int| 0 <= j < i ==> (#[trigger] options@[j])@ != k@,
        decreases options@.len() - i,
    {
        if str_eq(options[i], k) {
            return true;
        }
        i = i + 1;
    }
    false
}

impl NodeRecord {
    /// The empty record.
    pub fn new() -> (r: NodeRecord)
        ensures
            r.extra.wf(),
            record_view(r) == empty_record(),
    {
        let r = NodeRecord { node_uuid: None, cluster_uuid: None, addresses: Vec::new(), extra: Keyed::new() };
        proof {
            assert(crate::codec::texts_view(r.addresses@) =~= Seq::<Seq<char>>::empty());
            assert(r.extra.view().map_values(|s: String| s@) =~= Map::<Seq<char>, Seq<char>>::empty());
        }
        r
    }

    /// Parse a set of raw `key=value` TXT strings into a record. The node
    /// UUID keys are `uuid`, `node`, `nodeUuid`, `node_uuid`, `node-uuid`; the
    /// cluster UUID keys `cluster`, `cluster-uuid`, `clusterUuid`,
    /// `cluster_uuid`; address keys `addr`, `addresses`. Later entries win.
    #[verifier::rlimit(40)]
    pub fn from_txt(entries: &[&str]) -> (r: NodeRecord)
        ensures
            r.extra.wf(),
            record_view(r) == record_of(entries@.map_values(|e: &str| e@)),
    {
        proof {
            reveal_strlit("uuid");
            reveal_strlit("node");
            reveal_strlit("nodeUuid");
            reveal_strlit("node_uuid");
            reveal_strlit("node-uuid");
            reveal_strlit("cluster");
            reveal_strlit("cluster-uuid");
            reveal_strlit("clusterUuid");
            reveal_strlit("cluster_uuid");
            reveal_strlit("addr");
            reveal_strlit("addresses");
        }
        let node_keys: [&str; 5] = ["uuid", "node", "nodeUuid", "node_uuid", "node-uuid"];
        let cluster_keys: [&str; 4] = ["cluster", "cluster-uuid", "clusterUuid", "cluster_uuid"];
        let addr_keys: [&str; 2] = ["addr", "addresses"];
        let ghost ev = entries@.map_values(|e: &str| e@);
        let mut rec = NodeRecord::new();
        let mut i: usize = 0;
        proof {
            assert(ev.subrange(0, 0) =~= Seq::<Seq<char>>::empty());
        }
        while i < entries.len()
            invariant
                i <= entries@.len(),
                ev == entries@.map_values(|e: &str| e@),
                node_keys@ == seq!["uuid", "node", "nodeUuid", "node_uuid", "node-uuid"],
                cluster_keys@ == seq!["cluster", "cluster-uuid", "clusterUuid", "cluster_uuid"],
                addr_keys@ == seq!["addr", "addresses"],
                rec.extra.wf(),
                record_view(rec) == record_of(ev.subrange(0, i as int)),
            decreases entries@.len() - i,
        {
            let e = entries[i];
            let ghost before = record_view(rec);
            proof {
                let p = ev.subrange(0, i + 1);
                assert(p.drop_last() =~= ev.subrange(0, i as int));
                assert(p.last() == e@);
            }
            match find_eq(e) {
                None => {},
                Some(j) => {
                    let n = e.unicode_len();
                    let k = char_range(e, 0, j);
                    let v = char_range(e, j + 1, n);
                    proof {
                        assert(k@ =~= e@.take(j as int));
                        assert(v@ =~= e@.skip(j + 1));
                        assert(is_node_key(k@) == exists|x: int| 0 <= x < node_keys@.len() && (#[trigger] node_keys@[x])@ == k@) by {
                            if is_node_key(k@) {
                                if k@ == "uuid"@ { assert(node_keys@[0]@ == k@); }
                                else if k@ == "node"@ { assert(node_keys@[1]@ == k@); }
                                else if k@ == "nodeUuid"@ { assert(node_keys@[2]@ == k@); }
                                else if k@ == "node_uuid"@ { assert(node_keys@[3]@ == k@); }
                                else { assert(node_keys@[4]@ == k@); }
                            }
                        }
                        assert(is_cluster_key(k@) == exists|x: int| 0 <= x < cluster_keys@.len() && (#[trigger] cluster_keys@[x])@ == k@) by {
                            if is_cluster_key(k@) {
                                if k@ == "cluster"@ { assert(cluster_keys@[0]@ == k@); }
                                else if k@ == "cluster-uuid"@ { assert(cluster_keys@[1]@ == k@); }
                                else if k@ == "clusterUuid"@ { assert(cluster_keys@[2]@ == k@); }
                                else { assert(cluster_keys@[3]@ == k@); }
                            }
                        }
                        assert(is_addr_key(k@) == exists|x: int| 0 <= x < addr_keys@.len() && (#[trigger] addr_keys@[x])@ == k@) by {
                            if is_addr_key(k@) {
                                if k@ == "addr"@ { assert(addr_keys@[0]@ == k@); }
                                else { assert(addr_keys@[1]@ == k@); }
                            }
                        }
                    }
                    if is_one_of(k.as_str(), &node_keys) {
                        rec.node_uuid = Some(v);
                    } else if is_one_of(k.as_str(), &cluster_keys) {
                        rec.cluster_uuid = Some(v);
                    } else if is_one_of(k.as_str(), &addr_keys) {
                        rec.addresses.push(v);
                        proof {
                            assert(crate::codec::texts_view(rec.addresses@) =~= before.addresses.push(e@.skip(j + 1)));
                        }
                    } else {
                        let ghost m0 = rec.extra.view();
                        rec.extra.insert(k, v);
                        proof {
                            assert(rec.extra.view().map_values(|s: String| s@) =~= m0.map_values(|s: String| s@).insert(e@.take(j as int), e@.skip(j + 1)));
                        }
                    }
                },
            }
            proof {
                assert(record_view(rec) == apply_entry(before, e@));
            }
            i = i + 1;
        }
        proof {
            assert(ev.subrange(0, ev.len() as int) =~= ev);
        }
        rec
    }
}

/// The TXT properties of a record: the node UUID under the observed key
/// `uuid` and under `nodeUuid`, the cluster UUID under `cluster-uuid`, then
/// every extra key (an extra key overrides any of those).
pub open spec fn txt_of(r: RecordView) -> Map<Seq<char>, Seq<char>> {
    let a = match r.node_uuid {
        Some(u) => Map::empty().insert("uuid"@, u).insert("nodeUuid"@, u),
        None => Map::empty(),
    };
    let b = match r.cluster_uuid {
        Some(c) => a.insert("cluster-uuid"@, c),
        None => a,
    };
    b.union_prefer_right(r.extra)
}

fn copy(s: &str) -> (r: String)
    ensures
        r@ == s@,
{
    let mut r = String::new();
    push_str(&mut r, s);
    r
}

/// The TXT properties to advertise for a record.
pub fn record_to_txt(record: &NodeRecord) -> (r: Keyed<String>)
    requires
        record.extra.wf(),
    ensures
        r.wf(),
        r.view().map_values(|s: String| s@) == txt_of(record_view(*record)),
{
    proof {
        reveal_strlit("uuid");
        reveal_strlit("nodeUuid");
        reveal_strlit("cluster-uuid");
        assert(txt_keys::NODE_UUID@ == "uuid"@);
        assert(txt_keys::CLUSTER_UUID@ == "cluster-uuid"@);
    }
    let mut props: Keyed<String> = Keyed::new();
    match &record.node_uuid {
        Some(u) => {
            props.insert(copy(txt_keys::NODE_UUID), copy(u.as_str()));
            props.insert(copy("nodeUuid"), copy(u.as_str()));
        },
        None => {},
    }
    match &record.cluster_uuid {
        Some(c) => props.insert(copy(txt_keys::CLUSTER_UUID), copy(c.as_str())),
        None => {},
    }
    let ghost base = props.view().map_values(|s: String| s@);
    let n = record.extra.len();
    let mut i: usize = 0;
    while i < n
        invariant
            record.extra.wf(),
            props.wf(),
            n == record.extra.view().len(),
            i <= n,
            props.view().map_values(|s: String| s@) == base.union_prefer_right(
                record.extra.view().map_values(|s: String| s@).restrict(
                    Set::new(|k: Seq<char>| exists|a: int| 0 <= a < i && record.extra.key_at(a) == k),
                ),
            ),
        decreases n - i,
    {
        proof {
            record.extra.lemma_keys();
        }
        let v = record.extra.value_at(i);
        let k = record.extra.key_at_exec(i);
        let ghost before = props.view().map_values(|s: String| s@);
        props.insert(k, copy(v.as_str()));
        proof {
            let em = record.extra.view().map_values(|s: String| s@);
            let ki = record.extra.key_at(i as int);
            let s_old = Set::new(|x: Seq<char>| exists|a: int| 0 <= a < i && record.extra.key_at(a) == x);
            let s_new = Set::new(|x: Seq<char>| exists|a: int| 0 <= a < i + 1 && record.extra.key_at(a) == x);
            assert forall|x: Seq<char>| #![auto] s_new.contains(x) <==> (s_old.contains(x) || x == ki) by {
                if s_new.contains(x) {
                    let a = choose|a: int| 0 <= a < i + 1 && record.extra.key_at(a) == x;
                    if a < i {
                        assert(s_old.contains(x));
                    }
                }
                if s_old.contains(x) {
                    let a = choose|a: int| 0 <= a < i && record.extra.key_at(a) == x;
                    assert(0 <= a < i + 1 && record.extra.key_at(a) == x);
                }
                if x == ki {
                    assert(0 <= i < i + 1 && record.extra.key_at(i as int) == x);
                }
            }
            let l = props.view().map_values(|s: String| s@);
            let r = base.union_prefer_right(em.restrict(s_new));
            assert(l =~= before.insert(ki, v@));
            assert(em.dom().contains(ki) && em[ki] == v@);
            assert forall|x: Seq<char>| #![auto] l.dom().contains(x) <==> r.dom().contains(x) by {}
            assert forall|x: Seq<char>| #![auto] l.dom().contains(x) implies l[x] == r[x] by {}
            assert(l =~= r);
        }
        i = i + 1;
    }
    proof {
        record.extra.lemma_keys();
        let em = record.extra.view().map_values(|s: String| s@);
        let s_all = Set::new(|k: Seq<char>| exists|a: int| 0 <= a < n && record.extra.key_at(a) == k);
        assert(em.restrict(s_all) =~= em);
        assert(props.view().map_values(|s: String| s@) =~= txt_of(record_view(*record)));
    }
    props
}

/// A cluster member as published in the `nodes:changed` notification.
#[derive(Debug, Clone)]
pub struct ClusterMember {
    pub id: Option<String>,
    pub node_uuid: Option<String>,
    pub name: Option<String>,
    pub ip_address: Option<String>,
    pub port: Option<u16>,
    pub cluster_id: Option<String>,
    pub admission_epoch: Option<u64>,
    /// e.g. "member".
    pub state: Option<String>,
    pub joined_at: Option<i64>,
    pub last_seen: Option<i64>,
}

} // verus!
