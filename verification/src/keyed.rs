//! A small map from string keys to values, kept as a vector of entries with
//! distinct keys, viewed as a `Map`.

use vstd::prelude::*;
use crate::text::str_eq;

verus! {

/// Whether some entry of `s` has key `k`.
pub open spec fn has_key<V>(s: Seq<(String, V)>, k: Seq<char>) -> bool {
    exists|i: int| 0 <= i < s.len() && (#[trigger] s[i]).0@ == k
}

/// The entries of `s` as a map.
pub open spec fn keyed_map<V>(s: Seq<(String, V)>) -> Map<Seq<char>, V> {
    Map::new(|k: Seq<char>| has_key(s, k), |k: Seq<char>| s[choose|i: int| 0 <= i < s.len() && (#[trigger] s[i]).0@ == k].1)
}

/// No two entries of `s` share a key.
pub open spec fn keys_unique<V>(s: Seq<(String, V)>) -> bool {
    forall|i: int, j: int| 0 <= i < s.len() && 0 <= j < s.len() && i != j ==> (#[trigger] s[i]).0@ != (#[trigger] s[j]).0@
}

/// String-keyed entries with distinct keys.
#[derive(Debug)]
pub struct Keyed<V> {
    entries: Vec<(String, V)>,
}

proof fn lemma_entry<V>(s: Seq<(String, V)>, i: int)
    requires
        keys_unique(s),
        0 <= i < s.len(),
    ensures
        keyed_map(s).dom().contains(s[i].0@),
        keyed_map(s)[s[i].0@] == s[i].1,
{
    let k = s[i].0@;
    assert(has_key(s, k));
    let j = choose|j: int| 0 <= j < s.len() && (#[trigger] s[j]).0@ == k;
    if j != i {
        assert(s[i].0@ != s[j].0@);
    }
}

proof fn lemma_len<V>(s: Seq<(String, V)>)
    requires
        keys_unique(s),
    ensures
        keyed_map(s).dom().finite(),
        keyed_map(s).len() == s.len(),
    decreases s.len(),
{
    if s.len() == 0 {
        assert(keyed_map(s).dom() =~= Set::<Seq<char>>::empty());
    } else {
        let t = s.drop_last();
        assert(keys_unique(t)) by {
            assert forall|a: int, b: int| 0 <= a < t.len() && 0 <= b < t.len() && a != b implies (#[trigger] t[a]).0@
                != (#[trigger] t[b]).0@ by {
                assert(t[a] == s[a] && t[b] == s[b]);
            }
        }
        lemma_len(t);
        let k = s.last().0@;
        assert(!keyed_map(t).dom().contains(k)) by {
            if has_key(t, k) {
                let j = choose|j: int| 0 <= j < t.len() && (#[trigger] t[j]).0@ == k;
                assert(s[j].0@ != s[s.len() - 1].0@);
            }
        }
        assert(keyed_map(s).dom() =~= keyed_map(t).dom().insert(k)) by {
            assert forall|x: Seq<char>| #![auto] keyed_map(s).dom().contains(x) <==> keyed_map(t).dom().insert(k).contains(x) by {
                if has_key(s, x) && x != k {
                    let j = choose|j: int| 0 <= j < s.len() && (#[trigger] s[j]).0@ == x;
                    assert(t[j].0@ == x);
                }
                if has_key(t, x) {
                    let j = choose|j: int| 0 <= j < t.len() && (#[trigger] t[j]).0@ == x;
                    assert(s[j].0@ == x);
                }
                if x == k {
                    assert(s[s.len() - 1].0@ == x);
                }
            }
        }
    }
}

impl<V> Keyed<V> {
    /// The entries as a map.
    pub closed spec fn view(&self) -> Map<Seq<char>, V> {
        keyed_map(self.entries@)
    }

    /// The invariant: keys are distinct.
    pub closed spec fn wf(&self) -> bool {
        keys_unique(self.entries@)
    }

    /// No entries.
    pub fn new() -> (r: Keyed<V>)
        ensures
            r.wf(),
            r.view() == Map::<Seq<char>, V>::empty(),
    {
        let r = Keyed { entries: Vec::new() };
        proof {
            assert(r.view() =~= Map::<Seq<char>, V>::empty());
        }
        r
    }

    /// The number of entries.
    pub fn len(&self) -> (n: usize)
        requires
            self.wf(),
        ensures
            n == self.view().len(),
            self.view().dom().finite(),
    {
        proof {
            lemma_len(self.entries@);
        }
        self.entries.len()
    }

    /// Whether there is an entry for `k`.
    pub fn contains(&self, k: &str) -> (r: bool)
        requires
            self.wf(),
        ensures
            r == self.view().dom().contains(k@),
    {
        self.index_of(k).is_some()
    }

    fn index_of(&self, k: &str) -> (r: Option<usize>)
        requires
            self.wf(),
        ensures
            match r {
                Some(i) => i < self.entries@.len() && self.entries@[i as int].0@ == k@ && self.view().dom().contains(
                    k@,
                ) && self.view()[k@] == self.entries@[i as int].1,
                None => !self.view().dom().contains(k@),
            },
    {
        let mut i: usize = 0;
        while i < self.entries.len()
            invariant
                i <= self.entries@.len(),
                keys_unique(self.entries@),
                forall|j: int| 0 <= j < i ==> (#[trigger] self.entries@[j]).0@ != k@,
            decreases self.entries@.len() - i,
        {
            if str_eq(self.entries[i].0.as_str(), k) {
                proof {
                    lemma_entry(self.entries@, i as int);
                }
                return Some(i);
            }
            i = i + 1;
        }
        None
    }

    /// The value for `k`, if any.
    pub fn get(&self, k: &str) -> (r: Option<&V>)
        requires
            self.wf(),
        ensures
            match r {
                Some(v) => self.view().dom().contains(k@) && self.view()[k@] == *v,
                None => !self.view().dom().contains(k@),
            },
    {
        match self.index_of(k) {
            Some(i) => Some(&self.entries[i].1),
            None => None,
        }
    }

    /// The key of the `i`-th entry, in entry order.
    pub closed spec fn key_at(&self, i: int) -> Seq<char> {
        self.entries@[i].0@
    }

    /// Entry order lists every key exactly once.
    pub proof fn lemma_keys(&self)
        requires
            self.wf(),
        ensures
            self.view().dom().finite(),
            forall|i: int, j: int| 0 <= i < self.view().len() && 0 <= j < self.view().len() && i != j ==> self.key_at(i)
                != self.key_at(j),
            forall|i: int| 0 <= i < self.view().len() ==> self.view().dom().contains(#[trigger] self.key_at(i)),
            forall|k: Seq<char>| #[trigger] self.view().dom().contains(k) ==> exists|i: int|
                0 <= i < self.view().len() && self.key_at(i) == k,
    {
        lemma_len(self.entries@);
        assert forall|i: int| 0 <= i < self.view().len() implies self.view().dom().contains(#[trigger] self.key_at(i)) by {
            lemma_entry(self.entries@, i);
        }
        assert forall|k: Seq<char>| #[trigger] self.view().dom().contains(k) implies exists|i: int|
            0 <= i < self.view().len() && self.key_at(i) == k by {
            let i = choose|i: int| 0 <= i < self.entries@.len() && (#[trigger] self.entries@[i]).0@ == k;
            assert(self.key_at(i) == k);
        }
    }

    /// The key of the `i`-th entry, in entry order.
    pub fn key_at_exec(&self, i: usize) -> (r: String)
        requires
            self.wf(),
            i < self.view().len(),
        ensures
            r@ == self.key_at(i as int),
    {
        proof {
            lemma_len(self.entries@);
        }
        let mut r = String::new();
        crate::text::push_str(&mut r, self.entries[i].0.as_str());
        r
    }

    /// The `i`-th value, in entry order.
    pub fn value_at(&self, i: usize) -> (r: &V)
        requires
            self.wf(),
            i < self.view().len(),
        ensures
            self.view().dom().contains(self.key_at(i as int)),
            self.view()[self.key_at(i as int)] == *r,
    {
        proof {
            lemma_len(self.entries@);
            lemma_entry(self.entries@, i as int);
        }
        &self.entries[i].1
    }

    /// Remove and return the value for `k`.
    pub fn remove(&mut self, k: &str) -> (r: Option<V>)
        requires
            old(self).wf(),
        ensures
            final(self).wf(),
            final(self).view() == old(self).view().remove(k@),
            match r {
                Some(v) => old(self).view().dom().contains(k@) && old(self).view()[k@] == v,
                None => !old(self).view().dom().contains(k@),
            },
    {
        match self.index_of(k) {
            None => {
                proof {
                    assert(self.view().remove(k@) =~= self.view());
                }
                None
            },
            Some(i) => {
                let ghost s0 = self.entries@;
                let (_, v) = self.entries.remove(i);
                proof {
                    let s = self.entries@;
                    assert(s == s0.remove(i as int));
                    assert forall|a: int, b: int| 0 <= a < s.len() && 0 <= b < s.len() && a != b implies (#[trigger] s[a]).0@
                        != (#[trigger] s[b]).0@ by {
                        let a2 = if a < i { a } else { a + 1 };
                        let b2 = if b < i { b } else { b + 1 };
                        assert(s[a] == s0[a2] && s[b] == s0[b2]);
                    }
                    let nm = keyed_map(s);
                    let om = keyed_map(s0).remove(k@);
                    assert forall|x: Seq<char>| #![auto] nm.dom().contains(x) <==> om.dom().contains(x) by {
                        if nm.dom().contains(x) {
                            let j = choose|j: int| 0 <= j < s.len() && (#[trigger] s[j]).0@ == x;
                            let j2 = if j < i { j } else { j + 1 };
                            assert(s[j] == s0[j2]);
                            assert(s0[j2].0@ == x);
                            assert(j2 != i);
                        }
                        if om.dom().contains(x) {
                            let j = choose|j: int| 0 <= j < s0.len() && (#[trigger] s0[j]).0@ == x;
                            assert(j != i);
                            let j1 = if j < i { j } else { j - 1 };
                            assert(s[j1] == s0[j]);
                        }
                    }
                    assert forall|x: Seq<char>| #![auto] nm.dom().contains(x) implies nm[x] == om[x] by {
                        let j = choose|j: int| 0 <= j < s.len() && (#[trigger] s[j]).0@ == x;
                        let j2 = if j < i { j } else { j + 1 };
                        assert(s[j] == s0[j2]);
                        lemma_entry(s, j);
                        lemma_entry(s0, j2);
                    }
                    assert(nm =~= om);
                }
                Some(v)
            },
        }
    }

    /// Set the value for `k`, replacing any earlier one.
    pub fn insert(&mut self, k: String, v: V)
        requires
            old(self).wf(),
        ensures
            final(self).wf(),
            final(self).view() == old(self).view().insert(k@, v),
    {
        let ghost kv = k@;
        let _ = self.remove(k.as_str());
        let ghost s0 = self.entries@;
        let ghost m0 = self.view();
        self.entries.push((k, v));
        proof {
            let s = self.entries@;
            assert(!m0.dom().contains(kv));
            assert(!has_key(s0, kv));
            assert forall|a: int, b: int| 0 <= a < s.len() && 0 <= b < s.len() && a != b implies (#[trigger] s[a]).0@
                != (#[trigger] s[b]).0@ by {
                let n = s0.len() as int;
                if a != n && b != n {
                    assert(s0[a].0@ != s0[b].0@);
                } else if a == n {
                    assert(s0[b].0@ != kv);
                } else {
                    assert(s0[a].0@ != kv);
                }
            }
            let nm = keyed_map(s);
            let om = m0.insert(kv, v);
            assert forall|x: Seq<char>| #![auto] nm.dom().contains(x) <==> om.dom().contains(x) by {
                if nm.dom().contains(x) && x != kv {
                    let j = choose|j: int| 0 <= j < s.len() && (#[trigger] s[j]).0@ == x;
                    assert(j < s0.len());
                    assert(s0[j].0@ == x);
                }
                if m0.dom().contains(x) {
                    let j = choose|j: int| 0 <= j < s0.len() && (#[trigger] s0[j]).0@ == x;
                    assert(s[j].0@ == x);
                }
                if x == kv {
                    assert(s[s0.len() as int].0@ == x);
                }
            }
            assert forall|x: Seq<char>| #![auto] nm.dom().contains(x) implies nm[x] == om[x] by {
                let j = choose|j: int| 0 <= j < s.len() && (#[trigger] s[j]).0@ == x;
                lemma_entry(s, j);
                if j < s0.len() {
                    lemma_entry(s0, j);
                }
            }
            assert(nm =~= om);
        }
    }
}

} // verus!
