//! A small map from names to values, kept as a vector of entries with
//! distinct names.

use vstd::prelude::*;

verus! {

/// Entries keyed by name; no two entries share a name.
pub struct NamedTable<V> {
    entries: Vec<(String, V)>,
}

pub open spec fn names_of_strings(v: Seq<String>) -> Seq<Seq<char>> {
    v.map_values(|s: String| s@)
}

impl<V> View for NamedTable<V> {
    type V = Map<Seq<char>, V>;

    closed spec fn view(&self) -> Map<Seq<char>, V> {
        Map::new(|k: Seq<char>| self.has(k), |k: Seq<char>| self.entries@[self.index_of(k)].1)
    }
}

impl<V> NamedTable<V> {
    closed spec fn has(&self, k: Seq<char>) -> bool {
        exists|i: int| 0 <= i < self.entries@.len() && #[trigger] self.entries@[i].0@ == k
    }

    closed spec fn index_of(&self, k: Seq<char>) -> int {
        choose|i: int| 0 <= i < self.entries@.len() && #[trigger] self.entries@[i].0@ == k
    }

    pub closed spec fn wf(&self) -> bool {
        forall|i: int, j: int|
            0 <= i < j < self.entries@.len() ==> #[trigger] self.entries@[i].0@
                != #[trigger] self.entries@[j].0@
    }

    proof fn lemma_at(&self, i: int)
        requires
            self.wf(),
            0 <= i < self.entries@.len(),
        ensures
            self@.contains_key(self.entries@[i].0@),
            self@[self.entries@[i].0@] == self.entries@[i].1,
    {
        let k = self.entries@[i].0@;
        assert(self.has(k));
        let j = self.index_of(k);
        assert(self.entries@[j].0@ == k);
        if j < i {
            assert(self.entries@[j].0@ != self.entries@[i].0@);
        } else if i < j {
            assert(self.entries@[i].0@ != self.entries@[j].0@);
        }
    }

    pub fn new() -> (r: NamedTable<V>)
        ensures
            r.wf(),
            r@ == Map::<Seq<char>, V>::empty(),
    {
        let r = NamedTable { entries: Vec::new() };
        assert(r@ =~= Map::<Seq<char>, V>::empty());
        r
    }

    fn find(&self, k: &str) -> (r: Option<usize>)
        requires
            self.wf(),
        ensures
            match r {
                Some(i) => i < self.entries@.len() && self.entries@[i as int].0@ == k@,
                None => !self@.contains_key(k@),
            },
    {
        let want = String::from_str(k);
        let mut i: usize = 0;
        while i < self.entries.len()
            invariant
                want@ == k@,
                i <= self.entries@.len(),
                forall|j: int| 0 <= j < i ==> (#[trigger] self.entries@[j]).0@ != k@,
            decreases self.entries@.len() - i,
        {
            if self.entries[i].0 == want {
                return Some(i);
            }
            i = i + 1;
        }
        None
    }

    /// Whether an entry is named `k`.
    pub fn contains(&self, k: &str) -> (r: bool)
        requires
            self.wf(),
        ensures
            r == self@.contains_key(k@),
    {
        match self.find(k) {
            Some(i) => {
                proof {
                    self.lemma_at(i as int);
                }
                true
            },
            None => false,
        }
    }

    /// The value named `k`, if any.
    pub fn get(&self, k: &str) -> (r: Option<&V>)
        requires
            self.wf(),
        ensures
            r.is_some() == self@.contains_key(k@),
            r matches Some(v) ==> *v == self@[k@],
    {
        match self.find(k) {
            Some(i) => {
                proof {
                    self.lemma_at(i as int);
                }
                Some(&self.entries[i].1)
            },
            None => None,
        }
    }

    /// Removes the entry named `k` and hands back its value.
    pub fn remove(&mut self, k: &str) -> (r: Option<V>)
        requires
            old(self).wf(),
        ensures
            final(self).wf(),
            final(self)@ == old(self)@.remove(k@),
            r.is_some() == old(self)@.contains_key(k@),
            r matches Some(v) ==> v == old(self)@[k@],
    {
        match self.find(k) {
            None => {
                assert(self@ =~= old(self)@.remove(k@));
                None
            },
            Some(i) => {
                proof {
                    self.lemma_at(i as int);
                }
                let ghost pre = *self;
                let (_, v) = self.entries.remove(i);
                proof {
                    assert(self.entries@ == pre.entries@.remove(i as int));
                    assert(self.wf()) by {
                        assert forall|a: int, b: int|
                            0 <= a < b < self.entries@.len() implies #[trigger] self.entries@[a].0@
                            != #[trigger] self.entries@[b].0@ by {
                            let a0 = if a < i { a } else { a + 1 };
                            let b0 = if b < i { b } else { b + 1 };
                            assert(pre.entries@[a0].0@ != pre.entries@[b0].0@);
                        }
                    }
                    assert forall|n: Seq<char>| #[trigger] self@.contains_key(n) == pre@.remove(k@).contains_key(n)
                        && (self@.contains_key(n) ==> self@[n] == pre@.remove(k@)[n]) by {
                        if self.has(n) {
                            let j = choose|j: int| 0 <= j < self.entries@.len() && #[trigger] self.entries@[j].0@ == n;
                            let j0 = if j < i { j } else { j + 1 };
                            assert(pre.entries@[j0] == self.entries@[j]);
                            self.lemma_at(j);
                            pre.lemma_at(j0);
                            if n == k@ {
                                if j0 < i {
                                    assert(pre.entries@[j0].0@ != pre.entries@[i as int].0@);
                                } else {
                                    assert(pre.entries@[i as int].0@ != pre.entries@[j0].0@);
                                }
                            }
                        }
                        if pre.has(n) && n != k@ {
                            let j0 = choose|j: int| 0 <= j < pre.entries@.len() && #[trigger] pre.entries@[j].0@ == n;
                            assert(j0 != i);
                            let j = if j0 < i { j0 } else { j0 - 1 };
                            assert(self.entries@[j] == pre.entries@[j0]);
                            assert(self.has(n));
                        }
                    }
                    assert(self@ =~= pre@.remove(k@));
                }
                Some(v)
            },
        }
    }

    /// Sets the value named `k`, handing back the value it replaces, if any.
    pub fn insert(&mut self, k: String, v: V) -> (r: Option<V>)
        requires
            old(self).wf(),
        ensures
            final(self).wf(),
            final(self)@ == old(self)@.insert(k@, v),
            r.is_some() == old(self)@.contains_key(k@),
            r matches Some(p) ==> p == old(self)@[k@],
    {
        let prev = self.remove(k.as_str());
        let ghost mid = *self;
        self.entries.push((k, v));
        proof {
            let last = self.entries@.len() - 1;
            assert(self.entries@ == mid.entries@.push((k, v)));
            assert(self.wf()) by {
                assert forall|a: int, b: int|
                    0 <= a < b < self.entries@.len() implies #[trigger] self.entries@[a].0@
                    != #[trigger] self.entries@[b].0@ by {
                    if b == last {
                        if mid.entries@[a].0@ == k@ {
                            mid.lemma_at(a);
                        }
                    } else {
                        assert(mid.entries@[a].0@ != mid.entries@[b].0@);
                    }
                }
            }
            self.lemma_at(last);
            assert forall|n: Seq<char>| #[trigger] self@.contains_key(n) == mid@.insert(k@, v).contains_key(n)
                && (self@.contains_key(n) ==> self@[n] == mid@.insert(k@, v)[n]) by {
                if n != k@ {
                    if self.has(n) {
                        let j = choose|j: int| 0 <= j < self.entries@.len() && #[trigger] self.entries@[j].0@ == n;
                        assert(j != last);
                        assert(mid.entries@[j] == self.entries@[j]);
                        self.lemma_at(j);
                        mid.lemma_at(j);
                    }
                    if mid.has(n) {
                        let j = choose|j: int| 0 <= j < mid.entries@.len() && #[trigger] mid.entries@[j].0@ == n;
                        assert(self.entries@[j] == mid.entries@[j]);
                        assert(self.has(n));
                    }
                }
            }
            assert(self@ =~= mid@.insert(k@, v));
            assert(old(self)@.remove(k@).insert(k@, v) =~= old(self)@.insert(k@, v));
        }
        prev
    }

    /// The names of all entries, each once.
    pub fn names(&self) -> (r: Vec<String>)
        requires
            self.wf(),
        ensures
            names_of_strings(r@).no_duplicates(),
            names_of_strings(r@).to_set() == self@.dom(),
            r@.len() == self@.dom().len(),
    {
        let mut out: Vec<String> = Vec::new();
        let mut i: usize = 0;
        while i < self.entries.len()
            invariant
                self.wf(),
                i <= self.entries@.len(),
                out@.len() == i,
                forall|j: int| 0 <= j < i ==> (#[trigger] out@[j])@ == self.entries@[j].0@,
            decreases self.entries@.len() - i,
        {
            out.push(self.entries[i].0.clone());
            i = i + 1;
        }
        proof {
            let ns = names_of_strings(out@);
            assert forall|a: int, b: int| 0 <= a < ns.len() && 0 <= b < ns.len() && a != b implies ns[a] != ns[b] by {
                if a < b {
                    assert(self.entries@[a].0@ != self.entries@[b].0@);
                } else {
                    assert(self.entries@[b].0@ != self.entries@[a].0@);
                }
            }
            assert forall|n: Seq<char>| ns.to_set().contains(n) == self@.dom().contains(n) by {
                if ns.to_set().contains(n) {
                    let j = choose|j: int| 0 <= j < ns.len() && ns[j] == n;
                    self.lemma_at(j);
                }
                if self@.dom().contains(n) {
                    let j = choose|j: int| 0 <= j < self.entries@.len() && #[trigger] self.entries@[j].0@ == n;
                    assert(ns[j] == n);
                }
            }
            assert(ns.to_set() =~= self@.dom());
            ns.unique_seq_to_set();
        }
        out
    }

    /// Removes every entry.
    pub fn clear(&mut self)
        ensures
            final(self).wf(),
            final(self)@ == Map::<Seq<char>, V>::empty(),
    {
        self.entries.clear();
        assert(self@ =~= Map::<Seq<char>, V>::empty());
    }
}

} // verus!
