//! A map keyed by strings, held as a list of distinct keys (device ids,
//! protection domains, search tokens).
use vstd::prelude::*;

verus! {

/// Map keyed by strings, held as a list of distinct keys.
#[derive(Debug)]
pub struct StrMap<V> {
    entries: Vec<(String, V)>,
}

impl<V> StrMap<V> {
    pub closed spec fn spec_entries(&self) -> Seq<(String, V)> {
        self.entries@
    }

    /// Entry at a position of the list.
    pub fn entry_at(&self, i: usize) -> (r: &(String, V))
        requires
            i < self.spec_entries().len(),
        ensures
            *r == self.spec_entries()[i as int],
    {
        &self.entries[i]
    }

    pub closed spec fn keys_unique(&self) -> bool {
        forall|i: int, j: int|
            0 <= i < j < self.entries@.len() ==> (#[trigger] self.entries@[i]).0@ != (
            #[trigger] self.entries@[j]).0@
    }

    /// Domain → state.
    pub closed spec fn view(&self) -> Map<Seq<char>, V> {
        Map::new(
            |k: Seq<char>| exists|i: int| 0 <= i < self.entries@.len() && self.entries@[i].0@ == k,
            |k: Seq<char>|
                self.entries@[choose|i: int| 0 <= i < self.entries@.len() && self.entries@[i].0@ == k].1,
        )
    }

    pub closed spec fn wf(&self) -> bool {
        self.keys_unique()
    }

    pub fn new() -> (t: Self)
        ensures
            t.wf(),
            t.view() == Map::<Seq<char>, V>::empty(),
    {
        let t = StrMap { entries: Vec::new() };
        proof {
            assert(t.view() =~= Map::<Seq<char>, V>::empty());
        }
        t
    }


    pub fn len(&self) -> (n: usize)
        ensures
            n == self.spec_entries().len(),
    {
        self.entries.len()
    }

    /// Value stored under a key.
    pub fn get(&self, key: &String) -> (r: Option<&V>)
        requires
            self.wf(),
        ensures
            match r {
                Some(v) => self.view().dom().contains(key@) && self.view()[key@] == *v,
                None => !self.view().dom().contains(key@),
            },
    {
        match self.find(key) {
            Some(i) => {
                proof {
                    self.lemma_lookup(i as int);
                }
                Some(&self.entries[i].1)
            },
            None => None,
        }
    }

    pub fn find(&self, key: &String) -> (r: Option<usize>)
        requires
            self.wf(),
        ensures
            match r {
                Some(i) => i < self.spec_entries().len() && self.spec_entries()[i as int].0@ == key@,
                None => !self.view().dom().contains(key@),
            },
    {
        let mut i: usize = 0;
        while i < self.entries.len()
            invariant
                i <= self.entries@.len(),
                forall|j: int| 0 <= j < i ==> self.entries@[j].0@ != key@,
            decreases self.entries@.len() - i,
        {
            if self.entries[i].0 == *key {
                return Some(i);
            }
            i = i + 1;
        }
        None
    }

    pub proof fn lemma_lookup(&self, i: int)
        requires
            self.wf(),
            0 <= i < self.spec_entries().len(),
        ensures
            self.view().dom().contains(self.spec_entries()[i].0@),
            self.view()[self.spec_entries()[i].0@] == self.spec_entries()[i].1,
    {
        let k = self.entries@[i].0@;
        let j = choose|j: int| 0 <= j < self.entries@.len() && self.entries@[j].0@ == k;
        assert(0 <= j < self.entries@.len() && self.entries@[j].0@ == k);
        if j != i {
            if i < j {
                assert(self.entries@[i].0@ != self.entries@[j].0@);
            } else {
                assert(self.entries@[j].0@ != self.entries@[i].0@);
            }
        }
    }

    /// Two positions of the list hold different keys.
    pub proof fn lemma_distinct(&self, i: int, j: int)
        requires
            self.wf(),
            0 <= i < j < self.spec_entries().len(),
        ensures
            self.spec_entries()[i].0@ != self.spec_entries()[j].0@,
    {
        assert(self.entries@[i].0@ != self.entries@[j].0@);
    }

    /// Position of a key of the map in the list.
    pub proof fn index_of(&self, k: Seq<char>) -> (i: int)
        requires
            self.view().dom().contains(k),
        ensures
            0 <= i < self.spec_entries().len(),
            self.spec_entries()[i].0@ == k,
    {
        choose|i: int| 0 <= i < self.entries@.len() && self.entries@[i].0@ == k
    }

    pub fn insert(&mut self, key: String, st: V)
        requires
            old(self).wf(),
        ensures
            final(self).wf(),
            final(self).view() == old(self).view().insert(key@, st),
    {
        let ghost old_entries = self.entries@;
        let idx = self.find(&key);
        match idx {
            Some(i) => {
                let ghost k = key@;
                self.entries.set(i, (key, st));
                proof {
                    assert forall|a: int, b: int|
                        0 <= a < b < self.entries@.len() implies (#[trigger] self.entries@[a]).0@
                        != (#[trigger] self.entries@[b]).0@ by {
                        if a != i as int && b != i as int {
                            assert(old_entries[a].0@ != old_entries[b].0@);
                        } else if a == i as int {
                            assert(old_entries[a].0@ != old_entries[b].0@);
                        } else {
                            assert(old_entries[a].0@ != old_entries[b].0@);
                        }
                    }
                    assert forall|kk: Seq<char>| #[trigger] self.view().dom().contains(kk) <==> old(
                        self,
                    ).view().insert(k, st).dom().contains(kk) by {
                        if old(self).view().dom().contains(kk) && kk != k {
                            let j = choose|j: int|
                                0 <= j < old_entries.len() && old_entries[j].0@ == kk;
                            assert(self.entries@[j].0@ == kk);
                        }
                        if kk == k {
                            assert(self.entries@[i as int].0@ == kk);
                        }
                        if self.view().dom().contains(kk) {
                            let j = choose|j: int|
                                0 <= j < self.entries@.len() && self.entries@[j].0@ == kk;
                            if j != i as int {
                                assert(old_entries[j].0@ == kk);
                            }
                        }
                    }
                    assert forall|kk: Seq<char>| #[trigger]
                        self.view().dom().contains(kk) implies self.view()[kk] == old(
                        self,
                    ).view().insert(k, st)[kk] by {
                        let j = choose|j: int|
                            0 <= j < self.entries@.len() && self.entries@[j].0@ == kk;
                        self.lemma_lookup(j);
                        if j != i as int {
                            old(self).lemma_lookup(j);
                        }
                    }
                    assert(self.view() =~= old(self).view().insert(k, st));
                }
            },
            None => {
                let ghost k = key@;
                self.entries.push((key, st));
                proof {
                    let n = old_entries.len() as int;
                    assert forall|a: int, b: int|
                        0 <= a < b < self.entries@.len() implies (#[trigger] self.entries@[a]).0@
                        != (#[trigger] self.entries@[b]).0@ by {
                        if b == n {
                            assert(old(self).view().dom().contains(old_entries[a].0@));
                        } else {
                            assert(old_entries[a].0@ != old_entries[b].0@);
                        }
                    }
                    assert forall|kk: Seq<char>| #[trigger] self.view().dom().contains(kk) <==> old(
                        self,
                    ).view().insert(k, st).dom().contains(kk) by {
                        if old(self).view().dom().contains(kk) {
                            let j = choose|j: int|
                                0 <= j < old_entries.len() && old_entries[j].0@ == kk;
                            assert(self.entries@[j].0@ == kk);
                        }
                        if kk == k {
                            assert(self.entries@[n].0@ == kk);
                        }
                        if self.view().dom().contains(kk) {
                            let j = choose|j: int|
                                0 <= j < self.entries@.len() && self.entries@[j].0@ == kk;
                            if j != n {
                                assert(old_entries[j].0@ == kk);
                            }
                        }
                    }
                    assert forall|kk: Seq<char>| #[trigger]
                        self.view().dom().contains(kk) implies self.view()[kk] == old(
                        self,
                    ).view().insert(k, st)[kk] by {
                        let j = choose|j: int|
                            0 <= j < self.entries@.len() && self.entries@[j].0@ == kk;
                        self.lemma_lookup(j);
                        if j != n {
                            old(self).lemma_lookup(j);
                        }
                    }
                    assert(self.view() =~= old(self).view().insert(k, st));
                }
            },
        }
    }

    pub fn remove(&mut self, key: &String)
        requires
            old(self).wf(),
        ensures
            final(self).wf(),
            final(self).view() == old(self).view().remove(key@),
    {
        let ghost old_entries = self.entries@;
        match self.find(key) {
            Some(i) => {
                self.entries.remove(i);
                proof {
                    let ii = i as int;
                    assert forall|a: int, b: int|
                        0 <= a < b < self.entries@.len() implies (#[trigger] self.entries@[a]).0@
                        != (#[trigger] self.entries@[b]).0@ by {
                        let oa = if a < ii { a } else { a + 1 };
                        let ob = if b < ii { b } else { b + 1 };
                        assert(self.entries@[a] == old_entries[oa]);
                        assert(self.entries@[b] == old_entries[ob]);
                        assert(old_entries[oa].0@ != old_entries[ob].0@);
                    }
                    assert forall|kk: Seq<char>| #[trigger] self.view().dom().contains(kk) <==> old(
                        self,
                    ).view().remove(key@).dom().contains(kk) by {
                        if old(self).view().dom().contains(kk) && kk != key@ {
                            let j = choose|j: int|
                                0 <= j < old_entries.len() && old_entries[j].0@ == kk;
                            let nj = if j < ii { j } else { j - 1 };
                            assert(j != ii);
                            assert(self.entries@[nj].0@ == kk);
                        }
                        if self.view().dom().contains(kk) {
                            let j = choose|j: int|
                                0 <= j < self.entries@.len() && self.entries@[j].0@ == kk;
                            let oj = if j < ii { j } else { j + 1 };
                            assert(old_entries[oj].0@ == kk);
                            if kk == key@ {
                                if oj < ii {
                                    assert(old_entries[oj].0@ != old_entries[ii].0@);
                                } else {
                                    assert(old_entries[ii].0@ != old_entries[oj].0@);
                                }
                            }
                        }
                    }
                    assert forall|kk: Seq<char>| #[trigger]
                        self.view().dom().contains(kk) implies self.view()[kk] == old(
                        self,
                    ).view().remove(key@)[kk] by {
                        let j = choose|j: int|
                            0 <= j < self.entries@.len() && self.entries@[j].0@ == kk;
                        let oj = if j < ii { j } else { j + 1 };
                        self.lemma_lookup(j);
                        old(self).lemma_lookup(oj);
                    }
                    assert(self.view() =~= old(self).view().remove(key@));
                }
            },
            None => {
                proof {
                    assert(self.view() =~= old(self).view().remove(key@));
                }
            },
        }
    }
}

impl<V: Copy> StrMap<V> {
    /// An independent copy with the same entries.
    pub fn duplicate(&self) -> (r: Self)
        ensures
            r.spec_entries() == self.spec_entries(),
            r.view() == self.view(),
            r.wf() == self.wf(),
    {
        let mut entries: Vec<(String, V)> = Vec::new();
        let mut i: usize = 0;
        while i < self.entries.len()
            invariant
                i <= self.entries@.len(),
                entries@ == self.entries@.take(i as int),
            decreases self.entries@.len() - i,
        {
            let k = self.entries[i].0.clone();
            let v = self.entries[i].1;
            entries.push((k, v));
            proof {
                assert(self.entries@.take(i as int).push(self.entries@[i as int]) =~= self.entries@.take(i + 1));
            }
            i = i + 1;
        }
        proof {
            assert(self.entries@.take(i as int) =~= self.entries@);
        }
        StrMap { entries }
    }
}

/// Keys of a list of entries.
pub open spec fn entry_keys<V>(s: Seq<(String, V)>) -> Set<Seq<char>> {
    Set::new(|k: Seq<char>| exists|i: int| 0 <= i < s.len() && s[i].0@ == k)
}

proof fn lemma_entry_keys_len<V>(s: Seq<(String, V)>)
    requires
        forall|i: int, j: int| 0 <= i < j < s.len() ==> (#[trigger] s[i]).0@ != (#[trigger] s[j]).0@,
    ensures
        entry_keys(s).finite(),
        entry_keys(s).len() == s.len(),
    decreases s.len(),
{
    if s.len() == 0 {
        assert(entry_keys(s) =~= Set::<Seq<char>>::empty());
    } else {
        let t = s.drop_last();
        let k = s.last().0@;
        assert forall|i: int, j: int| 0 <= i < j < t.len() implies (#[trigger] t[i]).0@ != (#[trigger] t[j]).0@ by {
            assert(s[i].0@ != s[j].0@);
        }
        lemma_entry_keys_len(t);
        assert(entry_keys(s) =~= entry_keys(t).insert(k)) by {
            assert forall|x: Seq<char>| entry_keys(s).contains(x) implies entry_keys(t).insert(k).contains(x) by {
                let i = choose|i: int| 0 <= i < s.len() && s[i].0@ == x;
                if i < s.len() - 1 {
                    assert(t[i].0@ == x);
                }
            }
            assert forall|x: Seq<char>| entry_keys(t).insert(k).contains(x) implies entry_keys(s).contains(x) by {
                if x == k {
                    assert(s[s.len() - 1].0@ == x);
                } else {
                    let i = choose|i: int| 0 <= i < t.len() && t[i].0@ == x;
                    assert(s[i].0@ == x);
                }
            }
        }
        assert(!entry_keys(t).contains(k)) by {
            if entry_keys(t).contains(k) {
                let i = choose|i: int| 0 <= i < t.len() && t[i].0@ == k;
                assert(s[i].0@ != s[s.len() - 1].0@);
            }
        }
    }
}

impl<V> StrMap<V> {
    /// The map has as many keys as the list has entries.
    pub proof fn lemma_dom_len(&self)
        requires
            self.wf(),
        ensures
            self.view().dom().finite(),
            self.view().dom().len() == self.spec_entries().len(),
    {
        lemma_entry_keys_len(self.entries@);
        assert(self.view().dom() =~= entry_keys(self.entries@));
    }
}

} // verus!
