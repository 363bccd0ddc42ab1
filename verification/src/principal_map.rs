//! A map keyed by principals, kept as a list of entries with distinct keys.
use vstd::prelude::*;

use crate::principal::Principal;

verus! {

/// No key occurs twice among the entries.
pub open spec fn keys_distinct<V>(s: Seq<(Principal, V)>) -> bool {
    forall|i: int, j: int| 0 <= i < s.len() && 0 <= j < s.len() && i != j ==> s[i].0 != s[j].0
}

/// The map that a list of entries stands for: each entry in turn binds its
/// key to its value.
pub open spec fn pairs_to_map<V>(s: Seq<(Principal, V)>) -> Map<Principal, V>
    decreases s.len(),
{
    if s.len() == 0 {
        Map::empty()
    } else {
        pairs_to_map(s.drop_last()).insert(s.last().0, s.last().1)
    }
}

/// The keys of the entries, in order.
pub open spec fn pair_keys<V>(s: Seq<(Principal, V)>) -> Seq<Principal> {
    s.map_values(|e: (Principal, V)| e.0)
}

/// A key is bound exactly when some entry carries it; the domain is finite.
pub proof fn lemma_pairs_to_map_dom<V>(s: Seq<(Principal, V)>)
    ensures
        pairs_to_map(s).dom().finite(),
        forall|k: Principal|
            #![trigger pairs_to_map(s).contains_key(k)]
            pairs_to_map(s).contains_key(k) <==> exists|i: int| 0 <= i < s.len() && s[i].0 == k,
    decreases s.len(),
{
    if s.len() > 0 {
        let t = s.drop_last();
        lemma_pairs_to_map_dom(t);
        assert forall|k: Principal| pairs_to_map(s).contains_key(k) implies exists|i: int|
            0 <= i < s.len() && s[i].0 == k by {
            if k != s.last().0 {
                let i = choose|i: int| 0 <= i < t.len() && t[i].0 == k;
                assert(s[i].0 == k);
            } else {
                assert(s[s.len() - 1].0 == k);
            }
        }
        assert forall|k: Principal| (exists|i: int| 0 <= i < s.len() && s[i].0 == k) implies
            #[trigger] pairs_to_map(s).contains_key(k) by {
            let i = choose|i: int| 0 <= i < s.len() && s[i].0 == k;
            if i < s.len() - 1 {
                assert(t[i].0 == k);
            }
        }
    }
}

/// With distinct keys, each entry's key is bound to that entry's value.
pub proof fn lemma_pairs_to_map_value<V>(s: Seq<(Principal, V)>, i: int)
    requires
        keys_distinct(s),
        0 <= i < s.len(),
    ensures
        pairs_to_map(s).contains_key(s[i].0),
        pairs_to_map(s)[s[i].0] == s[i].1,
    decreases s.len(),
{
    if i < s.len() - 1 {
        let t = s.drop_last();
        assert(t[i] == s[i]);
        lemma_pairs_to_map_value(t, i);
        assert(s[s.len() - 1].0 != s[i].0);
    }
}

/// With distinct keys, the map has as many keys as there are entries.
pub proof fn lemma_pairs_to_map_len<V>(s: Seq<(Principal, V)>)
    requires
        keys_distinct(s),
    ensures
        pairs_to_map(s).dom().finite(),
        pairs_to_map(s).dom().len() == s.len(),
    decreases s.len(),
{
    lemma_pairs_to_map_dom(s);
    if s.len() > 0 {
        let t = s.drop_last();
        assert(keys_distinct(t)) by {
            assert forall|i: int, j: int|
                0 <= i < t.len() && 0 <= j < t.len() && i != j implies t[i].0 != t[j].0 by {
                assert(t[i] == s[i] && t[j] == s[j]);
            }
        }
        lemma_pairs_to_map_len(t);
        lemma_pairs_to_map_dom(t);
        let k = s.last().0;
        assert(!pairs_to_map(t).contains_key(k)) by {
            if pairs_to_map(t).contains_key(k) {
                let i = choose|i: int| 0 <= i < t.len() && t[i].0 == k;
                assert(s[i].0 == s[s.len() - 1].0);
            }
        }
        assert(pairs_to_map(s).dom() =~= pairs_to_map(t).dom().insert(k));
    }
}

/// Replacing the value of an entry rebinds that entry's key.
pub proof fn lemma_pairs_to_map_update<V>(s: Seq<(Principal, V)>, i: int, v: V)
    requires
        keys_distinct(s),
        0 <= i < s.len(),
    ensures
        pairs_to_map(s.update(i, (s[i].0, v))) == pairs_to_map(s).insert(s[i].0, v),
    decreases s.len(),
{
    let u = s.update(i, (s[i].0, v));
    let t = s.drop_last();
    if i == s.len() - 1 {
        assert(u.drop_last() =~= t);
        assert(pairs_to_map(u) =~= pairs_to_map(s).insert(s[i].0, v));
    } else {
        assert(u.drop_last() =~= t.update(i, (t[i].0, v)));
        assert(keys_distinct(t)) by {
            assert forall|a: int, b: int|
                0 <= a < t.len() && 0 <= b < t.len() && a != b implies t[a].0 != t[b].0 by {
                assert(t[a] == s[a] && t[b] == s[b]);
            }
        }
        lemma_pairs_to_map_update(t, i, v);
        assert(s[s.len() - 1].0 != s[i].0);
        assert(u.last() == s.last());
        assert(pairs_to_map(u) =~= pairs_to_map(s).insert(s[i].0, v));
    }
}

/// Appending an entry binds its key to its value.
pub proof fn lemma_pairs_to_map_push<V>(s: Seq<(Principal, V)>, e: (Principal, V))
    ensures
        pairs_to_map(s.push(e)) == pairs_to_map(s).insert(e.0, e.1),
{
    assert(s.push(e).drop_last() =~= s);
}

/// A map from principals to values, with the entries in the order their keys
/// first arrived.
pub struct PrincipalMap<V> {
    entries: Vec<(Principal, V)>,
}

impl<V> View for PrincipalMap<V> {
    type V = Map<Principal, V>;

    closed spec fn view(&self) -> Map<Principal, V> {
        pairs_to_map(self.entries@)
    }
}

impl<V> PrincipalMap<V> {
    /// No key is stored twice.
    pub closed spec fn wf(&self) -> bool {
        keys_distinct(self.entries@)
    }

    /// The keys, in the order they arrived.
    pub closed spec fn key_order(&self) -> Seq<Principal> {
        pair_keys(self.entries@)
    }

    /// The empty map.
    pub fn new() -> (m: PrincipalMap<V>)
        ensures
            m.wf(),
            m@ == Map::<Principal, V>::empty(),
    {
        PrincipalMap { entries: Vec::new() }
    }

    /// Where the entry with key `k` stands, if any.
    fn find(&self, k: &Principal) -> (r: Option<usize>)
        ensures
            r matches Some(i) ==> i < self.entries@.len() && self.entries@[i as int].0 == *k,
            r is None ==> forall|i: int| 0 <= i < self.entries@.len() ==> self.entries@[i].0 != *k,
    {
        let mut i: usize = 0;
        while i < self.entries.len()
            invariant
                0 <= i <= self.entries@.len(),
                forall|j: int| 0 <= j < i ==> self.entries@[j].0 != *k,
            decreases self.entries@.len() - i,
        {
            if self.entries[i].0 == *k {
                return Some(i);
            }
            i = i + 1;
        }
        None
    }

    /// Whether `k` is bound.
    pub fn contains_key(&self, k: &Principal) -> (r: bool)
        requires
            self.wf(),
        ensures
            r == self@.contains_key(*k),
    {
        proof {
            lemma_pairs_to_map_dom(self.entries@);
        }
        self.find(k).is_some()
    }

    /// The value bound to `k`, if any.
    pub fn get(&self, k: &Principal) -> (r: Option<&V>)
        requires
            self.wf(),
        ensures
            r is Some <==> self@.contains_key(*k),
            r matches Some(v) ==> *v == self@[*k],
    {
        proof {
            lemma_pairs_to_map_dom(self.entries@);
        }
        match self.find(k) {
            Some(i) => {
                proof {
                    lemma_pairs_to_map_value(self.entries@, i as int);
                }
                Some(&self.entries[i].1)
            },
            None => None,
        }
    }

    /// Binds `k` to `v`, replacing any earlier value.
    pub fn insert(&mut self, k: Principal, v: V)
        requires
            old(self).wf(),
        ensures
            final(self).wf(),
            final(self)@ == old(self)@.insert(k, v),
            final(self)@.dom().finite(),
    {
        match self.find(&k) {
            Some(i) => {
                proof {
                    lemma_pairs_to_map_update(self.entries@, i as int, v);
                }
                let ghost before = self.entries@;
                self.entries.set(i, (k, v));
                proof {
                    assert(self.entries@ =~= before.update(i as int, (before[i as int].0, v)));
                    lemma_pairs_to_map_dom(self.entries@);
                }
            },
            None => {
                let ghost before = self.entries@;
                proof {
                    lemma_pairs_to_map_push(before, (k, v));
                }
                self.entries.push((k, v));
                proof {
                    assert(self.entries@ == before.push((k, v)));
                    lemma_pairs_to_map_dom(self.entries@);
                    assert forall|a: int, b: int|
                        0 <= a < self.entries@.len() && 0 <= b < self.entries@.len() && a != b
                        implies self.entries@[a].0 != self.entries@[b].0 by {
                        if a < before.len() && b < before.len() {
                            assert(self.entries@[a] == before[a] && self.entries@[b] == before[b]);
                        } else if a < before.len() {
                            assert(self.entries@[a] == before[a]);
                        } else if b < before.len() {
                            assert(self.entries@[b] == before[b]);
                        }
                    }
                }
            },
        }
    }

    /// Binds `k` to `v` unless `k` is already bound.
    pub fn insert_if_absent(&mut self, k: Principal, v: V)
        requires
            old(self).wf(),
        ensures
            final(self).wf(),
            final(self)@ == (if old(self)@.contains_key(k) {
                old(self)@
            } else {
                old(self)@.insert(k, v)
            }),
            final(self)@.dom().finite(),
    {
        proof {
            lemma_pairs_to_map_dom(self.entries@);
        }
        if !self.contains_key(&k) {
            self.insert(k, v);
        }
    }

    /// The number of keys.
    pub fn len(&self) -> (r: usize)
        requires
            self.wf(),
        ensures
            self@.dom().finite(),
            r == self@.dom().len(),
    {
        proof {
            lemma_pairs_to_map_len(self.entries@);
        }
        self.entries.len()
    }

    /// The keys, each once, in the order they arrived.
    pub fn keys(&self) -> (r: Vec<Principal>)
        requires
            self.wf(),
        ensures
            r@ == self.key_order(),
            r@.no_duplicates(),
            r@.to_set() == self@.dom(),
    {
        let mut out: Vec<Principal> = Vec::new();
        let mut i: usize = 0;
        while i < self.entries.len()
            invariant
                0 <= i <= self.entries@.len(),
                out@ == pair_keys(self.entries@.subrange(0, i as int)),
            decreases self.entries@.len() - i,
        {
            out.push(self.entries[i].0);
            i = i + 1;
            proof {
                assert(out@ =~= pair_keys(self.entries@.subrange(0, i as int)));
            }
        }
        proof {
            assert(self.entries@.subrange(0, i as int) =~= self.entries@);
            lemma_pairs_to_map_dom(self.entries@);
            assert(out@.to_set() =~= self@.dom()) by {
                assert forall|k: Principal| out@.to_set().contains(k) implies self@.dom().contains(k) by {
                    let j = choose|j: int| 0 <= j < out@.len() && out@[j] == k;
                    assert(self.entries@[j].0 == k);
                }
                assert forall|k: Principal| self@.dom().contains(k) implies out@.to_set().contains(k) by {
                    let j = choose|j: int| 0 <= j < self.entries@.len() && self.entries@[j].0 == k;
                    assert(out@[j] == k);
                }
            }
        }
        out
    }
}

impl<V: Copy> PrincipalMap<V> {
    /// The entries, in the order their keys arrived.
    pub fn pairs(&self) -> (r: Vec<(Principal, V)>)
        requires
            self.wf(),
        ensures
            keys_distinct(r@),
            pairs_to_map(r@) == self@,
            pair_keys(r@) == self.key_order(),
    {
        let mut out: Vec<(Principal, V)> = Vec::new();
        let mut i: usize = 0;
        while i < self.entries.len()
            invariant
                0 <= i <= self.entries@.len(),
                out@ == self.entries@.subrange(0, i as int),
            decreases self.entries@.len() - i,
        {
            out.push(self.entries[i]);
            i = i + 1;
            proof {
                assert(out@ =~= self.entries@.subrange(0, i as int));
            }
        }
        proof {
            assert(self.entries@.subrange(0, i as int) =~= self.entries@);
        }
        out
    }
}

} // verus!
