//! An insertion-ordered map from file ids to values.
//!
//! The metadata, document and pending-change stores of both replicas are
//! instances of this map. It is backed by a vector of entries with unique
//! keys; its view is a mathematical `Map`, and `keys_seq` exposes the
//! insertion order, which the work calculator relies on for stable
//! enumeration.

use vstd::prelude::*;

verus! {

pub struct IdMap<V> {
    entries: Vec<(u64, V)>,
}

/// The map denoted by an entry sequence; later entries shadow earlier ones,
/// though under the uniqueness invariant no shadowing ever happens.
pub open spec fn assoc_map<V: View>(s: Seq<(u64, V)>) -> Map<u64, V::V>
    decreases s.len(),
{
    if s.len() == 0 {
        Map::empty()
    } else {
        assoc_map(s.drop_last()).insert(s.last().0, s.last().1@)
    }
}

/// The keys of an entry sequence, in entry order.
pub open spec fn keys_of<V>(s: Seq<(u64, V)>) -> Seq<u64> {
    s.map_values(|p: (u64, V)| p.0)
}

proof fn lemma_keys_facts<V>(s: Seq<(u64, V)>)
    ensures
        keys_of(s).len() == s.len(),
        forall|i: int| 0 <= i < s.len() ==> keys_of(s)[i] == s[i].0,
{
}

proof fn lemma_assoc_dom<V: View>(s: Seq<(u64, V)>)
    ensures
        forall|k: u64| #[trigger] assoc_map(s).contains_key(k) <==> keys_of(s).contains(k),
    decreases s.len(),
{
    if s.len() > 0 {
        lemma_assoc_dom(s.drop_last());
        lemma_keys_facts(s);
        lemma_keys_facts(s.drop_last());
        let kd = keys_of(s.drop_last());
        assert forall|k: u64| #[trigger] assoc_map(s).contains_key(k) implies keys_of(s).contains(k) by {
            if k == s.last().0 {
                assert(keys_of(s)[s.len() - 1] == k);
            } else {
                assert(assoc_map(s) == assoc_map(s.drop_last()).insert(s.last().0, s.last().1@));
                assert(assoc_map(s.drop_last()).contains_key(k));
                assert(kd.contains(k));
                let i = choose|i: int| 0 <= i < kd.len() && kd[i] == k;
                assert(keys_of(s)[i] == kd[i]);
                assert(keys_of(s)[i] == k);
            }
        }
        assert forall|k: u64| keys_of(s).contains(k) implies #[trigger] assoc_map(s).contains_key(k) by {
            let ks = keys_of(s);
            let i = choose|i: int| 0 <= i < ks.len() && ks[i] == k;
            assert(assoc_map(s) == assoc_map(s.drop_last()).insert(s.last().0, s.last().1@));
            if i < s.len() - 1 {
                assert(kd[i] == ks[i]);
                assert(kd.contains(k));
                assert(assoc_map(s.drop_last()).contains_key(k));
            } else {
                assert(k == s.last().0);
            }
        }
    }
}

proof fn lemma_assoc_at<V: View>(s: Seq<(u64, V)>, i: int)
    requires
        keys_of(s).no_duplicates(),
        0 <= i < s.len(),
    ensures
        assoc_map(s).contains_key(s[i].0),
        assoc_map(s)[s[i].0] == s[i].1@,
    decreases s.len(),
{
    if i == s.len() - 1 {
    } else {
        lemma_keys_facts(s);
        lemma_keys_facts(s.drop_last());
        assert(keys_of(s.drop_last()) =~= keys_of(s).drop_last());
        lemma_assoc_at(s.drop_last(), i);
        assert(keys_of(s)[i] != keys_of(s)[s.len() - 1]);
    }
}

proof fn lemma_assoc_update<V: View>(s: Seq<(u64, V)>, i: int, v: V)
    requires
        keys_of(s).no_duplicates(),
        0 <= i < s.len(),
    ensures
        assoc_map(s.update(i, (s[i].0, v))) =~= assoc_map(s).insert(s[i].0, v@),
    decreases s.len(),
{
    let t = s.update(i, (s[i].0, v));
    lemma_keys_facts(s);
    lemma_keys_facts(s.drop_last());
    if i == s.len() - 1 {
        assert(t.drop_last() =~= s.drop_last());
    } else {
        assert(keys_of(s.drop_last()) =~= keys_of(s).drop_last());
        lemma_assoc_update(s.drop_last(), i, v);
        assert(t.drop_last() =~= s.drop_last().update(i, (s[i].0, v)));
        assert(keys_of(s)[i] != keys_of(s)[s.len() - 1]);
    }
}

proof fn lemma_assoc_remove<V: View>(s: Seq<(u64, V)>, i: int)
    requires
        keys_of(s).no_duplicates(),
        0 <= i < s.len(),
    ensures
        assoc_map(s.remove(i)) =~= assoc_map(s).remove(s[i].0),
    decreases s.len(),
{
    lemma_keys_facts(s);
    lemma_keys_facts(s.drop_last());
    if i == s.len() - 1 {
        assert(s.remove(i) =~= s.drop_last());
        lemma_assoc_dom(s.drop_last());
        assert(keys_of(s.drop_last()) =~= keys_of(s).drop_last());
        assert(!keys_of(s.drop_last()).contains(s.last().0)) by {
            let kd = keys_of(s.drop_last());
            if kd.contains(s.last().0) {
                let j = choose|j: int| 0 <= j < kd.len() && kd[j] == s.last().0;
                assert(keys_of(s)[j] == keys_of(s)[s.len() - 1]);
            }
        }
    } else {
        assert(keys_of(s.drop_last()) =~= keys_of(s).drop_last());
        lemma_assoc_remove(s.drop_last(), i);
        assert(s.remove(i).drop_last() =~= s.drop_last().remove(i));
        assert(s.remove(i).last() == s.last());
        assert(keys_of(s)[i] != keys_of(s)[s.len() - 1]);
    }
}

impl<V: View> View for IdMap<V> {
    type V = Map<u64, V::V>;

    closed spec fn view(&self) -> Map<u64, V::V> {
        assoc_map(self.entries@)
    }
}

impl<V> IdMap<V> {
    /// The keys in insertion order.
    pub closed spec fn keys_seq(&self) -> Seq<u64> {
        keys_of(self.entries@)
    }

    #[verifier::type_invariant]
    spec fn inv(&self) -> bool {
        keys_of(self.entries@).no_duplicates()
    }
}

impl<V: View> IdMap<V> {

    pub fn new() -> (r: IdMap<V>)
        ensures
            r@ == Map::<u64, V::V>::empty(),
            r.keys_seq() == Seq::<u64>::empty(),
    {
        let r = IdMap { entries: Vec::new() };
        proof {
            assert(keys_of(r.entries@) =~= Seq::<u64>::empty());
        }
        r
    }

    pub fn len(&self) -> (r: usize)
        ensures
            r == self.keys_seq().len(),
    {
        self.entries.len()
    }

    pub fn is_empty(&self) -> (r: bool)
        ensures
            r == (self.keys_seq().len() == 0),
            r == (self@ =~= Map::<u64, V::V>::empty()),
    {
        proof {
            use_type_invariant(self);
            lemma_assoc_dom(self.entries@);
            lemma_keys_facts(self.entries@);
            if self.entries@.len() > 0 {
                assert(keys_of(self.entries@)[0] == self.entries@[0].0);
                assert(keys_of(self.entries@).contains(self.entries@[0].0));
                assert(self@.contains_key(self.entries@[0].0));
            } else {
                assert(self@ =~= Map::<u64, V::V>::empty());
            }
        }
        self.entries.len() == 0
    }

    fn find(&self, k: u64) -> (r: Option<usize>)
        ensures
            match r {
                Some(i) => i < self.entries@.len() && self.entries@[i as int].0 == k,
                None => !self.keys_seq().contains(k),
            },
    {
        let n = self.entries.len();
        let mut i: usize = 0;
        while i < n
            invariant
                n == self.entries@.len(),
                i <= n,
                forall|j: int| 0 <= j < i ==> self.entries@[j].0 != k,
            decreases n - i,
        {
            if self.entries[i].0 == k {
                return Some(i);
            }
            i = i + 1;
        }
        proof {
            lemma_keys_facts(self.entries@);
            let ks = keys_of(self.entries@);
            if ks.contains(k) {
                let j = choose|j: int| 0 <= j < ks.len() && ks[j] == k;
                assert(self.entries@[j].0 == k);
            }
        }
        None
    }

    pub fn contains_key(&self, k: u64) -> (r: bool)
        ensures
            r == self@.contains_key(k),
            r == self.keys_seq().contains(k),
    {
        proof {
            use_type_invariant(self);
            lemma_assoc_dom(self.entries@);
            lemma_keys_facts(self.entries@);
        }
        let r = self.find(k);
        proof {
            if r is Some {
                let i = r->Some_0;
                assert(keys_of(self.entries@)[i as int] == k);
                assert(self.keys_seq().contains(k));
            }
        }
        r.is_some()
    }

    pub fn get(&self, k: u64) -> (r: Option<&V>)
        ensures
            match r {
                Some(v) => self@.contains_key(k) && v@ == self@[k],
                None => !self@.contains_key(k),
            },
            r is Some == self@.contains_key(k),
    {
        proof {
            use_type_invariant(self);
            lemma_assoc_dom(self.entries@);
        }
        match self.find(k) {
            Some(i) => {
                proof {
                    lemma_assoc_at(self.entries@, i as int);
                }
                Some(&self.entries[i].1)
            },
            None => None,
        }
    }

    pub fn insert(&mut self, k: u64, v: V)
        ensures
            final(self)@ == old(self)@.insert(k, v@),
            old(self)@.contains_key(k) ==> final(self).keys_seq() == old(self).keys_seq(),
            !old(self)@.contains_key(k) ==> final(self).keys_seq() == old(self).keys_seq().push(k),
    {
        proof {
            use_type_invariant(&*self);
            lemma_assoc_dom(self.entries@);
            lemma_keys_facts(self.entries@);
        }
        let ghost s0 = self.entries@;
        let found = self.find(k);
        let mut es: Vec<(u64, V)> = Vec::new();
        proof {
            assert(keys_of(es@) =~= Seq::<u64>::empty());
        }
        core::mem::swap(&mut es, &mut self.entries);
        match found {
            Some(i) => {
                es[i] = (k, v);
                proof {
                    lemma_keys_facts(es@);
                    assert(es@ =~= s0.update(i as int, (s0[i as int].0, v)));
                    lemma_assoc_update(s0, i as int, v);
                    assert(keys_of(es@) =~= keys_of(s0));
                    assert(keys_of(s0)[i as int] == k);
                    assert(old(self)@.contains_key(k));
                }
            },
            None => {
                es.push((k, v));
                proof {
                    lemma_keys_facts(es@);
                    assert(es@.drop_last() =~= s0);
                    assert(keys_of(es@) =~= keys_of(s0).push(k));
                    assert(keys_of(s0).push(k).drop_last() =~= keys_of(s0));
                }
            },
        }
        self.entries = es;
        proof {
            assert(self@ =~= old(self)@.insert(k, v@));
        }
    }

    pub fn remove(&mut self, k: u64)
        ensures
            final(self)@ == old(self)@.remove(k),
            final(self).keys_seq() == old(self).keys_seq().remove_value(k),
    {
        proof {
            use_type_invariant(&*self);
            lemma_assoc_dom(self.entries@);
            lemma_keys_facts(self.entries@);
        }
        let ghost s0 = self.entries@;
        let found = self.find(k);
        match found {
            Some(i) => {
                let mut es: Vec<(u64, V)> = Vec::new();
                proof {
                    assert(keys_of(es@) =~= Seq::<u64>::empty());
                }
                core::mem::swap(&mut es, &mut self.entries);
                es.remove(i);
                proof {
                    assert(es@ =~= s0.remove(i as int));
                    assert(keys_of(s0.remove(i as int)) =~= keys_of(s0).remove(i as int));
                }
                self.entries = es;
                proof {
                    lemma_assoc_remove(s0, i as int);
                    assert(self@ =~= old(self)@.remove(k));
                    keys_of(s0).index_of_first_ensures(k);
                    let j = keys_of(s0).index_of_first(k).unwrap();
                    assert(keys_of(s0)[i as int] == k);
                    assert(j == i);
                }
            },
            None => {
                proof {
                    assert(!self@.contains_key(k));
                    assert(self@ =~= old(self)@.remove(k));
                    keys_of(s0).index_of_first_ensures(k);
                }
            },
        }
    }

    /// The keys in insertion order, as a fresh vector.
    pub fn keys(&self) -> (r: Vec<u64>)
        ensures
            r@ == self.keys_seq(),
            r@.no_duplicates(),
            forall|k: u64| r@.contains(k) <==> self@.contains_key(k),
    {
        proof {
            use_type_invariant(self);
            lemma_assoc_dom(self.entries@);
            lemma_keys_facts(self.entries@);
        }
        let n = self.entries.len();
        let mut r: Vec<u64> = Vec::new();
        let mut i: usize = 0;
        while i < n
            invariant
                n == self.entries@.len(),
                i <= n,
                r@ == keys_of(self.entries@).subrange(0, i as int),
            decreases n - i,
        {
            r.push(self.entries[i].0);
            i = i + 1;
            proof {
                assert(r@ =~= keys_of(self.entries@).subrange(0, i as int));
            }
        }
        proof {
            assert(r@ =~= keys_of(self.entries@));
        }
        r
    }
}

} // verus!
