//! Candidate selection: given the known nodes, pick where to run a request.
//!
//! The proxy forwards to a node that advertises the requested model and is
//! either this node or a pinned peer, choosing by manual selection, then the
//! lowest scheduler priority rank, then this node, then the smallest node id.

use vstd::prelude::*;

verus! {

/// A routing candidate (this node or a peer).
#[derive(Debug, Clone)]
pub struct Candidate {
    pub node_id: String,
    /// Base URL of the target's local engine.
    pub base_url: String,
    /// Whether this node advertises the requested model.
    pub advertises_model: bool,
    /// Whether this candidate is the local node.
    pub is_self: bool,
    /// Whether this peer's certificate is pinned (required to route to a peer).
    pub pinned: bool,
    /// Scheduler priority rank (lower = preferred); `None` if unranked.
    pub priority_rank: Option<u32>,
    /// Explicit manual selection wins over priority.
    pub manually_selected: bool,
    /// Peer address for cluster routing; `None` for the local node.
    pub host: Option<String>,
    pub ingress_port: Option<u16>,
}

/// A candidate may receive the request: it advertises the model and is this
/// node or a pinned peer.
pub open spec fn eligible(c: Candidate) -> bool {
    c.advertises_model && (c.is_self || c.pinned)
}

/// `a` sorts before `b` (code-point lexicographic order, which is the byte
/// order of their UTF-8 encodings).
pub open spec fn text_lt(a: Seq<char>, b: Seq<char>) -> bool
    decreases a.len(),
{
    if b.len() == 0 {
        false
    } else if a.len() == 0 {
        true
    } else if a[0] != b[0] {
        (a[0] as int) < (b[0] as int)
    } else {
        text_lt(a.drop_first(), b.drop_first())
    }
}

/// Some eligible candidate is manually selected.
pub open spec fn any_manual(cs: Seq<Candidate>) -> bool {
    exists|j: int| 0 <= j < cs.len() && eligible(#[trigger] cs[j]) && cs[j].manually_selected
}

/// Some eligible candidate has a priority rank.
pub open spec fn any_ranked(cs: Seq<Candidate>) -> bool {
    exists|j: int| 0 <= j < cs.len() && eligible(#[trigger] cs[j]) && cs[j].priority_rank is Some
}

/// Some eligible candidate is this node.
pub open spec fn any_self(cs: Seq<Candidate>) -> bool {
    exists|j: int| 0 <= j < cs.len() && eligible(#[trigger] cs[j]) && cs[j].is_self
}

/// Index `i` is the one selection picks: among the eligible candidates, the
/// first manually selected one; else the first with the lowest rank; else the
/// first that is this node; else the first with the smallest node id.
pub open spec fn chosen(cs: Seq<Candidate>, i: int) -> bool {
    &&& 0 <= i < cs.len()
    &&& eligible(cs[i])
    &&& if any_manual(cs) {
        cs[i].manually_selected && forall|j: int| 0 <= j < i ==> !(eligible(#[trigger] cs[j]) && cs[j].manually_selected)
    } else if any_ranked(cs) {
        &&& cs[i].priority_rank is Some
        &&& forall|j: int| 0 <= j < cs.len() && eligible(#[trigger] cs[j]) && cs[j].priority_rank is Some
            ==> cs[i].priority_rank.unwrap() <= cs[j].priority_rank.unwrap()
        &&& forall|j: int| 0 <= j < i && eligible(#[trigger] cs[j]) && cs[j].priority_rank is Some
            ==> cs[i].priority_rank.unwrap() < cs[j].priority_rank.unwrap()
    } else if any_self(cs) {
        cs[i].is_self && forall|j: int| 0 <= j < i ==> !(eligible(#[trigger] cs[j]) && cs[j].is_self)
    } else {
        &&& forall|j: int| 0 <= j < cs.len() && eligible(#[trigger] cs[j]) ==> !text_lt(cs[j].node_id@, cs[i].node_id@)
        &&& forall|j: int| 0 <= j < i && eligible(#[trigger] cs[j]) ==> text_lt(cs[i].node_id@, cs[j].node_id@)
    }
}

/// Whether `a` sorts before `b`.
pub fn str_lt(a: &str, b: &str) -> (r: bool)
    ensures
        r == text_lt(a@, b@),
{
    let la = a.unicode_len();
    let lb = b.unicode_len();
    let mut i: usize = 0;
    proof {
        assert(a@.skip(0) =~= a@);
        assert(b@.skip(0) =~= b@);
    }
    while i < la && i < lb
        invariant
            la == a@.len(),
            lb == b@.len(),
            i <= la && i <= lb,
            text_lt(a@, b@) == text_lt(a@.skip(i as int), b@.skip(i as int)),
        decreases la - i,
    {
        let ca = a.get_char(i);
        let cb = b.get_char(i);
        proof {
            assert(a@.skip(i as int)[0] == ca);
            assert(b@.skip(i as int)[0] == cb);
            assert(a@.skip(i as int).drop_first() =~= a@.skip(i + 1));
            assert(b@.skip(i as int).drop_first() =~= b@.skip(i + 1));
        }
        if ca != cb {
            return (ca as u32) < (cb as u32);
        }
        i = i + 1;
    }
    proof {
        assert(a@.skip(i as int).len() == la - i);
        assert(b@.skip(i as int).len() == lb - i);
    }
    i < lb
}

/// `text_lt` is a strict order: irreflexive, and `a < b` excludes `b < a`.
pub proof fn lemma_text_lt_asym(a: Seq<char>, b: Seq<char>)
    ensures
        !text_lt(a, a),
        text_lt(a, b) ==> !text_lt(b, a),
    decreases a.len(),
{
    if a.len() > 0 && b.len() > 0 && a[0] == b[0] {
        lemma_text_lt_asym(a.drop_first(), b.drop_first());
    }
    if a.len() > 0 {
        lemma_text_lt_asym(a.drop_first(), a.drop_first());
    }
}

/// `text_lt` is transitive.
pub proof fn lemma_text_lt_trans(a: Seq<char>, b: Seq<char>, c: Seq<char>)
    requires
        text_lt(a, b),
        text_lt(b, c),
    ensures
        text_lt(a, c),
    decreases a.len(),
{
    if a.len() > 0 && b.len() > 0 && c.len() > 0 && a[0] == b[0] && b[0] == c[0] {
        lemma_text_lt_trans(a.drop_first(), b.drop_first(), c.drop_first());
    }
}

/// Two texts are ordered one way or the other unless equal.
pub proof fn lemma_text_lt_total(a: Seq<char>, b: Seq<char>)
    ensures
        a != b ==> text_lt(a, b) || text_lt(b, a),
    decreases a.len(),
{
    if a.len() > 0 && b.len() > 0 && a[0] == b[0] {
        lemma_text_lt_total(a.drop_first(), b.drop_first());
        if a.drop_first() == b.drop_first() {
            assert(a =~= seq![a[0]] + a.drop_first());
            assert(b =~= seq![b[0]] + b.drop_first());
        }
    } else if a.len() == 0 && b.len() == 0 {
        assert(a =~= b);
    } else if a.len() > 0 && b.len() > 0 {
        assert(a[0] != b[0]);
        assert((a[0] as int) != (b[0] as int));
    }
}

/// Pick the candidate to route to, or `None` if none is eligible. Selection
/// order: manual > lowest priority rank > this node > smallest node id.
pub fn select(candidates: &[Candidate]) -> (r: Option<&Candidate>)
    ensures
        match r {
            Some(c) => exists|i: int| chosen(candidates@, i) && candidates@[i] == *c,
            None => forall|i: int| 0 <= i < candidates@.len() ==> !eligible(#[trigger] candidates@[i]),
        },
{
    let ghost cs = candidates@;
    let n = candidates.len();
    // 1. Manual selection.
    let mut i: usize = 0;
    while i < n
        invariant
            n == cs.len(),
            cs == candidates@,
            i <= n,
            forall|j: int| 0 <= j < i ==> !(eligible(#[trigger] cs[j]) && cs[j].manually_selected),
        decreases n - i,
    {
        let c = &candidates[i];
        if c.advertises_model && (c.is_self || c.pinned) && c.manually_selected {
            proof {
                assert(any_manual(cs));
                assert(chosen(cs, i as int));
                assert(candidates@[i as int] == *c);
            }
            return Some(c);
        }
        i = i + 1;
    }
    // 2. Lowest scheduler priority rank (the first of the lowest).
    let mut best: Option<usize> = None;
    let mut i: usize = 0;
    while i < n
        invariant
            n == cs.len(),
            cs == candidates@,
            i <= n,
            !any_manual(cs),
            match best {
                Some(b) => {
                    &&& b < i
                    &&& eligible(cs[b as int]) && cs[b as int].priority_rank is Some
                    &&& forall|j: int| 0 <= j < i && eligible(#[trigger] cs[j]) && cs[j].priority_rank is Some
                        ==> cs[b as int].priority_rank.unwrap() <= cs[j].priority_rank.unwrap()
                    &&& forall|j: int| 0 <= j < b && eligible(#[trigger] cs[j]) && cs[j].priority_rank is Some
                        ==> cs[b as int].priority_rank.unwrap() < cs[j].priority_rank.unwrap()
                },
                None => forall|j: int| 0 <= j < i ==> !(eligible(#[trigger] cs[j]) && cs[j].priority_rank is Some),
            },
        decreases n - i,
    {
        let c = &candidates[i];
        if c.advertises_model && (c.is_self || c.pinned) {
            match c.priority_rank {
                Some(r) => {
                    match best {
                        Some(b) => {
                            let br = match candidates[b].priority_rank {
                                Some(br) => br,
                                None => 0,
                            };
                            if r < br {
                                best = Some(i);
                            }
                        },
                        None => {
                            best = Some(i);
                        },
                    }
                },
                None => {},
            }
        }
        i = i + 1;
    }
    match best {
        Some(b) => {
            proof {
                assert(any_ranked(cs));
                assert(chosen(cs, b as int));
            }
            return Some(&candidates[b]);
        },
        None => {
            proof {
                assert(!any_ranked(cs));
            }
        },
    }
    // 3. Prefer this node.
    let mut i: usize = 0;
    while i < n
        invariant
            n == cs.len(),
            cs == candidates@,
            i <= n,
            !any_manual(cs),
            !any_ranked(cs),
            forall|j: int| 0 <= j < i ==> !(eligible(#[trigger] cs[j]) && cs[j].is_self),
        decreases n - i,
    {
        let c = &candidates[i];
        if c.advertises_model && (c.is_self || c.pinned) && c.is_self {
            proof {
                assert(any_self(cs));
                assert(chosen(cs, i as int));
                assert(candidates@[i as int] == *c);
            }
            return Some(c);
        }
        i = i + 1;
    }
    proof {
        assert(!any_self(cs));
    }
    // 4. The smallest node id (the first of the smallest).
    let mut best: Option<usize> = None;
    let mut i: usize = 0;
    while i < n
        invariant
            n == cs.len(),
            cs == candidates@,
            i <= n,
            !any_manual(cs),
            !any_ranked(cs),
            !any_self(cs),
            match best {
                Some(b) => {
                    &&& b < i
                    &&& eligible(cs[b as int])
                    &&& forall|j: int| 0 <= j < i && eligible(#[trigger] cs[j]) ==> !text_lt(cs[j].node_id@, cs[b as int].node_id@)
                    &&& forall|j: int| 0 <= j < b && eligible(#[trigger] cs[j]) ==> text_lt(cs[b as int].node_id@, cs[j].node_id@)
                },
                None => forall|j: int| 0 <= j < i ==> !eligible(#[trigger] cs[j]),
            },
        decreases n - i,
    {
        let c = &candidates[i];
        if c.advertises_model && (c.is_self || c.pinned) {
            match best {
                Some(b) => {
                    if str_lt(c.node_id.as_str(), candidates[b].node_id.as_str()) {
                        proof {
                            let bi = b as int;
                            let ci = cs[i as int].node_id@;
                            let cb = cs[bi].node_id@;
                            assert forall|j: int| 0 <= j < i + 1 && eligible(#[trigger] cs[j]) implies !text_lt(
                                cs[j].node_id@,
                                ci,
                            ) by {
                                lemma_text_lt_asym(ci, ci);
                                if j < i && text_lt(cs[j].node_id@, ci) {
                                    lemma_text_lt_trans(cs[j].node_id@, ci, cb);
                                }
                            }
                            assert forall|j: int| 0 <= j < i && eligible(#[trigger] cs[j]) implies text_lt(ci, cs[j].node_id@) by {
                                let cj = cs[j].node_id@;
                                assert(!text_lt(cj, cb));
                                if cj != cb {
                                    lemma_text_lt_total(cj, cb);
                                    lemma_text_lt_trans(ci, cb, cj);
                                }
                            }
                        }
                        best = Some(i);
                    }
                },
                None => {
                    proof {
                        lemma_text_lt_asym(cs[i as int].node_id@, cs[i as int].node_id@);
                    }
                    best = Some(i);
                },
            }
        }
        i = i + 1;
    }
    match best {
        Some(b) => {
            proof {
                assert(chosen(cs, b as int));
            }
            Some(&candidates[b])
        },
        None => None,
    }
}

/// The selected candidate may receive the request: it advertises the model,
/// and it is this node or a pinned peer.
pub proof fn lemma_selected_is_eligible(cs: Seq<Candidate>, i: int)
    requires
        chosen(cs, i),
    ensures
        cs[i].advertises_model,
        cs[i].is_self || cs[i].pinned,
{
}

/// Selection is unique: at most one index is the one selection picks.
pub proof fn lemma_choice_unique(cs: Seq<Candidate>, i: int, k: int)
    requires
        chosen(cs, i),
        chosen(cs, k),
    ensures
        i == k,
{
    if i != k {
        let a = if i < k { i } else { k };
        let b = if i < k { k } else { i };
        assert(chosen(cs, a) && chosen(cs, b) && a < b);
        if any_manual(cs) {
            assert(!(eligible(cs[a]) && cs[a].manually_selected));
        } else if any_ranked(cs) {
            assert(cs[b].priority_rank.unwrap() < cs[a].priority_rank.unwrap());
        } else if any_self(cs) {
            assert(!(eligible(cs[a]) && cs[a].is_self));
        } else {
            assert(text_lt(cs[b].node_id@, cs[a].node_id@));
        }
    }
}

} // verus!
