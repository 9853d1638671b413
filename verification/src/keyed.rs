//! Small maps held as a vector of entries with distinct keys.

use vstd::prelude::*;

verus! {

/// Keys that can be compared for equality in executable code.
pub trait SameKey: Copy {
    fn same(&self, other: &Self) -> (r: bool)
        ensures
            r == (*self == *other),
    ;
}

impl SameKey for u16 {
    fn same(&self, other: &Self) -> (r: bool) {
        *self == *other
    }
}

pub open spec fn distinct_keys<K, V>(s: Seq<(K, V)>) -> bool {
    forall|i: int, j: int| 0 <= i < j < s.len() ==> #[trigger] s[i].0 != #[trigger] s[j].0
}

/// The map whose entries are those of `s`.
pub open spec fn to_map<K, V>(s: Seq<(K, V)>) -> Map<K, V>
    decreases s.len(),
{
    if s.len() == 0 {
        Map::empty()
    } else {
        to_map(s.drop_last()).insert(s.last().0, s.last().1)
    }
}

pub proof fn lemma_to_map<K, V>(s: Seq<(K, V)>)
    requires
        distinct_keys(s),
    ensures
        to_map(s).dom().finite(),
        to_map(s).len() == s.len(),
        forall|k: K| to_map(s).dom().contains(k) <==> exists|i: int| 0 <= i < s.len() && s[i].0 == k,
        forall|i: int| 0 <= i < s.len() ==> #[trigger] to_map(s)[s[i].0] == s[i].1,
    decreases s.len(),
{
    if s.len() > 0 {
        let t = s.drop_last();
        assert(distinct_keys(t)) by {
            assert forall|i: int, j: int| 0 <= i < j < t.len() implies #[trigger] t[i].0 != #[trigger] t[j].0 by {
                assert(t[i] == s[i] && t[j] == s[j]);
            }
        }
        lemma_to_map(t);
        let n = s.len() - 1;
        if to_map(t).dom().contains(s.last().0) {
            let i = choose|i: int| 0 <= i < t.len() && t[i].0 == s.last().0;
            assert(s[i].0 == s[n].0);
        }
        assert forall|k: K| to_map(s).dom().contains(k) <==> exists|i: int| 0 <= i < s.len() && s[i].0 == k by {
            if to_map(s).dom().contains(k) && k != s.last().0 {
                let i = choose|i: int| 0 <= i < t.len() && t[i].0 == k;
                assert(s[i].0 == k);
            }
            if exists|i: int| 0 <= i < s.len() && s[i].0 == k {
                let i = choose|i: int| 0 <= i < s.len() && s[i].0 == k;
                if i < n {
                    assert(t[i].0 == k);
                }
            }
        }
        assert forall|i: int| 0 <= i < s.len() implies #[trigger] to_map(s)[s[i].0] == s[i].1 by {
            if i < n {
                assert(t[i] == s[i]);
                assert(s[i].0 != s[n].0);
            }
        }
    }
}

pub proof fn lemma_to_map_remove<K, V>(s: Seq<(K, V)>, i: int)
    requires
        distinct_keys(s),
        0 <= i < s.len(),
    ensures
        distinct_keys(s.remove(i)),
        to_map(s.remove(i)) == to_map(s).remove(s[i].0),
{
    let r = s.remove(i);
    assert(distinct_keys(r)) by {
        assert forall|a: int, b: int| 0 <= a < b < r.len() implies #[trigger] r[a].0 != #[trigger] r[b].0 by {
            let a2 = if a < i { a } else { a + 1 };
            let b2 = if b < i { b } else { b + 1 };
            assert(r[a] == s[a2] && r[b] == s[b2]);
        }
    }
    lemma_to_map(s);
    lemma_to_map(r);
    assert forall|k: K| to_map(r).dom().contains(k) <==> to_map(s).remove(s[i].0).dom().contains(k) by {
        if to_map(r).dom().contains(k) {
            let a = choose|a: int| 0 <= a < r.len() && r[a].0 == k;
            let a2 = if a < i { a } else { a + 1 };
            assert(s[a2].0 == k);
        }
        if to_map(s).remove(s[i].0).dom().contains(k) {
            let a = choose|a: int| 0 <= a < s.len() && s[a].0 == k;
            assert(a != i);
            if a < i {
                assert(r[a].0 == k);
            } else {
                assert(r[a - 1].0 == k);
            }
        }
    }
    assert forall|k: K| #[trigger] to_map(r).dom().contains(k) implies to_map(r)[k] == to_map(s)[k] by {
        let a = choose|a: int| 0 <= a < r.len() && r[a].0 == k;
        let a2 = if a < i { a } else { a + 1 };
        assert(r[a] == s[a2]);
    }
    assert(to_map(r) =~= to_map(s).remove(s[i].0));
}

pub proof fn lemma_to_map_update<K, V>(s: Seq<(K, V)>, i: int, v: V)
    requires
        distinct_keys(s),
        0 <= i < s.len(),
    ensures
        distinct_keys(s.update(i, (s[i].0, v))),
        to_map(s.update(i, (s[i].0, v))) == to_map(s).insert(s[i].0, v),
{
    let r = s.update(i, (s[i].0, v));
    assert(distinct_keys(r)) by {
        assert forall|a: int, b: int| 0 <= a < b < r.len() implies #[trigger] r[a].0 != #[trigger] r[b].0 by {
            assert(r[a].0 == s[a].0 && r[b].0 == s[b].0);
        }
    }
    lemma_to_map(s);
    lemma_to_map(r);
    assert forall|k: K| to_map(r).dom().contains(k) <==> to_map(s).insert(s[i].0, v).dom().contains(k) by {
        if to_map(r).dom().contains(k) {
            let a = choose|a: int| 0 <= a < r.len() && r[a].0 == k;
            assert(s[a].0 == k);
        }
        if to_map(s).dom().contains(k) {
            let a = choose|a: int| 0 <= a < s.len() && s[a].0 == k;
            assert(r[a].0 == k);
        }
        assert(r[i].0 == s[i].0);
    }
    assert forall|k: K| #[trigger] to_map(r).dom().contains(k) implies to_map(r)[k] == to_map(s).insert(
        s[i].0,
        v,
    )[k] by {
        let a = choose|a: int| 0 <= a < r.len() && r[a].0 == k;
        if a != i {
            assert(r[a] == s[a]);
        }
    }
    assert(to_map(r) =~= to_map(s).insert(s[i].0, v));
}

/// A map over a vector of entries whose keys are distinct.
#[derive(Clone, Debug)]
pub struct KeyedVec<K, V> {
    items: Vec<(K, V)>,
}

impl<K, V> View for KeyedVec<K, V> {
    type V = Map<K, V>;

    closed spec fn view(&self) -> Map<K, V> {
        to_map(self.items@)
    }
}

impl<K: SameKey, V: Copy> KeyedVec<K, V> {
    pub closed spec fn wf(&self) -> bool {
        distinct_keys(self.items@)
    }

    pub fn new() -> (r: Self)
        ensures
            r.wf(),
            r@ == Map::<K, V>::empty(),
    {
        KeyedVec { items: Vec::new() }
    }

    pub fn len(&self) -> (r: usize)
        requires
            self.wf(),
        ensures
            r == self@.len(),
            self@.dom().finite(),
    {
        proof {
            lemma_to_map(self.items@);
        }
        self.items.len()
    }

    fn position(&self, k: &K) -> (r: Option<usize>)
        requires
            self.wf(),
        ensures
            match r {
                Some(i) => i < self.items@.len() && self.items@[i as int].0 == *k,
                None => !self@.dom().contains(*k),
            },
    {
        proof {
            lemma_to_map(self.items@);
        }
        let mut i: usize = 0;
        while i < self.items.len()
            invariant
                0 <= i <= self.items@.len(),
                forall|j: int| 0 <= j < i ==> self.items@[j].0 != *k,
            decreases self.items@.len() - i,
        {
            if self.items[i].0.same(k) {
                return Some(i);
            }
            i = i + 1;
        }
        None
    }

    pub fn contains(&self, k: &K) -> (r: bool)
        requires
            self.wf(),
        ensures
            r == self@.dom().contains(*k),
    {
        proof {
            lemma_to_map(self.items@);
        }
        self.position(k).is_some()
    }

    pub fn get(&self, k: &K) -> (r: Option<V>)
        requires
            self.wf(),
        ensures
            r == (if self@.dom().contains(*k) {
                Some(self@[*k])
            } else {
                None
            }),
    {
        proof {
            lemma_to_map(self.items@);
        }
        match self.position(k) {
            Some(i) => Some(self.items[i].1),
            None => None,
        }
    }

    /// Sets the value of `k`; gives the value it replaced.
    pub fn insert(&mut self, k: K, v: V) -> (r: Option<V>)
        requires
            old(self).wf(),
        ensures
            final(self).wf(),
            final(self)@ == old(self)@.insert(k, v),
            r == (if old(self)@.dom().contains(k) {
                Some(old(self)@[k])
            } else {
                None
            }),
    {
        proof {
            lemma_to_map(self.items@);
        }
        match self.position(&k) {
            Some(i) => {
                let previous = self.items[i].1;
                proof {
                    lemma_to_map_update(self.items@, i as int, v);
                }
                self.items.set(i, (k, v));
                Some(previous)
            },
            None => {
                let ghost s = self.items@;
                self.items.push((k, v));
                proof {
                    assert(self.items@.drop_last() =~= s);
                    assert forall|a: int, b: int| 0 <= a < b < self.items@.len() implies #[trigger] self.items@[a].0
                        != #[trigger] self.items@[b].0 by {
                        if b == s.len() {
                            assert(s[a].0 != k);
                        } else {
                            assert(self.items@[a] == s[a] && self.items@[b] == s[b]);
                        }
                    }
                }
                None
            },
        }
    }

    /// Removes `k`; gives the value it had.
    pub fn remove(&mut self, k: &K) -> (r: Option<V>)
        requires
            old(self).wf(),
        ensures
            final(self).wf(),
            final(self)@ == old(self)@.remove(*k),
            r == (if old(self)@.dom().contains(*k) {
                Some(old(self)@[*k])
            } else {
                None
            }),
    {
        proof {
            lemma_to_map(self.items@);
        }
        match self.position(k) {
            Some(i) => {
                proof {
                    lemma_to_map_remove(self.items@, i as int);
                }
                let (_, v) = self.items.remove(i);
                Some(v)
            },
            None => {
                assert(self@.remove(*k) =~= self@);
                None
            },
        }
    }

    /// The keys, each once.
    pub fn keys(&self) -> (r: Vec<K>)
        requires
            self.wf(),
        ensures
            r@.no_duplicates(),
            forall|k: K| r@.contains(k) <==> self@.dom().contains(k),
    {
        proof {
            lemma_to_map(self.items@);
        }
        let mut out: Vec<K> = Vec::new();
        let mut i: usize = 0;
        while i < self.items.len()
            invariant
                0 <= i <= self.items@.len(),
                distinct_keys(self.items@),
                out@.len() == i,
                forall|j: int| 0 <= j < i ==> out@[j] == self.items@[j].0,
            decreases self.items@.len() - i,
        {
            out.push(self.items[i].0);
            i = i + 1;
        }
        proof {
            assert forall|a: int, b: int| 0 <= a < out@.len() && 0 <= b < out@.len() && a != b implies out@[a]
                != out@[b] by {
                if a < b {
                    assert(self.items@[a].0 != self.items@[b].0);
                } else {
                    assert(self.items@[b].0 != self.items@[a].0);
                }
            }
            assert forall|k: K| out@.contains(k) <==> self@.dom().contains(k) by {
                if out@.contains(k) {
                    let j = choose|j: int| 0 <= j < out@.len() && out@[j] == k;
                    assert(self.items@[j].0 == k);
                }
                if self@.dom().contains(k) {
                    let j = choose|j: int| 0 <= j < self.items@.len() && self.items@[j].0 == k;
                    assert(out@[j] == k);
                }
            }
        }
        out
    }
}

} // verus!
