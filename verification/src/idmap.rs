//! A map keyed by `u64` ids, held as a list of entries in strictly increasing
//! key order (so walking it visits ids in ascending order).
use vstd::prelude::*;

verus! {

/// Map keyed by `u64`, entries kept in strictly increasing key order.
#[derive(Debug)]
pub struct IdMap<V> {
    entries: Vec<(u64, V)>,
}

/// Keys of a list of entries are strictly increasing.
pub open spec fn keys_increasing<V>(s: Seq<(u64, V)>) -> bool {
    forall|i: int, j: int| 0 <= i < j < s.len() ==> (#[trigger] s[i]).0 < (#[trigger] s[j]).0
}

/// The map that a strictly increasing list of entries stands for.
pub open spec fn entries_map<V>(s: Seq<(u64, V)>) -> Map<u64, V> {
    Map::new(
        |k: u64| exists|i: int| 0 <= i < s.len() && s[i].0 == k,
        |k: u64| s[choose|i: int| 0 <= i < s.len() && s[i].0 == k].1,
    )
}

/// Looking an entry's key up in the map gives that entry's value.
pub proof fn lemma_entries_lookup<V>(s: Seq<(u64, V)>, i: int)
    requires
        keys_increasing(s),
        0 <= i < s.len(),
    ensures
        entries_map(s).dom().contains(s[i].0),
        entries_map(s)[s[i].0] == s[i].1,
{
    let k = s[i].0;
    let j = choose|j: int| 0 <= j < s.len() && s[j].0 == k;
    assert(0 <= j < s.len() && s[j].0 == k);
    if j < i {
        assert(s[j].0 < s[i].0);
    } else if i < j {
        assert(s[i].0 < s[j].0);
    }
}

impl<V> IdMap<V> {
    /// The entries, in increasing key order.
    pub closed spec fn spec_entries(&self) -> Seq<(u64, V)> {
        self.entries@
    }

    pub open spec fn wf(&self) -> bool {
        keys_increasing(self.spec_entries())
    }

    /// id → value.
    pub open spec fn view(&self) -> Map<u64, V> {
        entries_map(self.spec_entries())
    }

    pub fn new() -> (t: Self)
        ensures
            t.wf(),
            t.spec_entries().len() == 0,
            t.view() == Map::<u64, V>::empty(),
    {
        let t = IdMap { entries: Vec::new() };
        proof {
            assert(t.view() =~= Map::<u64, V>::empty());
        }
        t
    }

    pub fn len(&self) -> (n: usize)
        ensures
            n == self.spec_entries().len(),
    {
        self.entries.len()
    }

    /// Entry at a position of the ordered list.
    pub fn entry_at(&self, i: usize) -> (r: &(u64, V))
        requires
            i < self.spec_entries().len(),
        ensures
            *r == self.spec_entries()[i as int],
    {
        &self.entries[i]
    }

    /// Every key of the map occurs in the list, and the list has no other keys.
    pub proof fn lemma_dom(&self)
        requires
            self.wf(),
        ensures
            forall|i: int|
                0 <= i < self.spec_entries().len() ==> #[trigger] self.view().dom().contains(
                    self.spec_entries()[i].0,
                ) && self.view()[self.spec_entries()[i].0] == self.spec_entries()[i].1,
            forall|k: u64|
                #[trigger] self.view().dom().contains(k) ==> exists|i: int|
                    0 <= i < self.spec_entries().len() && self.spec_entries()[i].0 == k,
            self.view().dom().finite(),
            self.view().dom().len() == self.spec_entries().len(),
    {
        let s = self.entries@;
        assert forall|i: int| 0 <= i < s.len() implies #[trigger] self.view().dom().contains(
            s[i].0,
        ) && self.view()[s[i].0] == s[i].1 by {
            lemma_entries_lookup(s, i);
        }
        lemma_keys_dom_len(s);
    }

    /// Position of a key in the list, if present.
    pub fn find(&self, key: u64) -> (r: Option<usize>)
        requires
            self.wf(),
        ensures
            match r {
                Some(i) => i < self.spec_entries().len() && self.spec_entries()[i as int].0 == key,
                None => !self.view().dom().contains(key),
            },
    {
        let mut i: usize = 0;
        while i < self.entries.len()
            invariant
                i <= self.entries@.len(),
                forall|j: int| 0 <= j < i ==> self.entries@[j].0 != key,
            decreases self.entries@.len() - i,
        {
            if self.entries[i].0 == key {
                return Some(i);
            }
            i = i + 1;
        }
        None
    }

    pub fn contains_key(&self, key: u64) -> (b: bool)
        requires
            self.wf(),
        ensures
            b == self.view().dom().contains(key),
    {
        match self.find(key) {
            Some(i) => {
                proof {
                    lemma_entries_lookup(self.entries@, i as int);
                }
                true
            },
            None => false,
        }
    }

    /// Value stored under a key.
    pub fn get(&self, key: u64) -> (r: Option<&V>)
        requires
            self.wf(),
        ensures
            match r {
                Some(v) => self.view().dom().contains(key) && self.view()[key] == *v,
                None => !self.view().dom().contains(key),
            },
    {
        match self.find(key) {
            Some(i) => {
                proof {
                    lemma_entries_lookup(self.entries@, i as int);
                }
                Some(&self.entries[i].1)
            },
            None => None,
        }
    }

    /// First position whose key is not below `key`.
    fn lower_bound(&self, key: u64) -> (r: usize)
        requires
            self.wf(),
        ensures
            r <= self.spec_entries().len(),
            forall|j: int| 0 <= j < r ==> self.spec_entries()[j].0 < key,
            r < self.spec_entries().len() ==> self.spec_entries()[r as int].0 >= key,
    {
        let mut i: usize = 0;
        while i < self.entries.len() && self.entries[i].0 < key
            invariant
                i <= self.entries@.len(),
                forall|j: int| 0 <= j < i ==> self.entries@[j].0 < key,
            decreases self.entries@.len() - i,
        {
            i = i + 1;
        }
        i
    }

    /// Store a value under a key, replacing what was there.
    pub fn insert(&mut self, key: u64, v: V)
        requires
            old(self).wf(),
        ensures
            final(self).wf(),
            final(self).view() == old(self).view().insert(key, v),
    {
        let ghost old_s = self.entries@;
        let i = self.lower_bound(key);
        if i < self.entries.len() && self.entries[i].0 == key {
            let ghost vv = v;
            self.entries.set(i, (key, v));
            proof {
                let s = self.entries@;
                assert(s == old_s.update(i as int, (key, vv)));
                assert forall|a: int, b: int| 0 <= a < b < s.len() implies (#[trigger] s[a]).0 < (
                #[trigger] s[b]).0 by {
                    assert(old_s[a].0 < old_s[b].0);
                }
                lemma_update_map(old_s, i as int, key, vv);
            }
        } else {
            let ghost vv = v;
            self.entries.insert(i, (key, v));
            proof {
                let s = self.entries@;
                assert(s == old_s.insert(i as int, (key, vv)));
                lemma_insert_map(old_s, i as int, key, vv);
            }
        }
    }

    /// Take out the value stored under a key.
    pub fn remove(&mut self, key: u64) -> (r: Option<V>)
        requires
            old(self).wf(),
        ensures
            final(self).wf(),
            final(self).view() == old(self).view().remove(key),
            match r {
                Some(v) => old(self).view().dom().contains(key) && old(self).view()[key] == v,
                None => !old(self).view().dom().contains(key),
            },
    {
        let ghost old_s = self.entries@;
        match self.find(key) {
            Some(i) => {
                proof {
                    lemma_entries_lookup(old_s, i as int);
                }
                let e = self.entries.remove(i);
                proof {
                    lemma_remove_map(old_s, i as int);
                }
                Some(e.1)
            },
            None => {
                proof {
                    assert(self.view() =~= old(self).view().remove(key));
                }
                None
            },
        }
    }
}

proof fn lemma_keys_dom_len<V>(s: Seq<(u64, V)>)
    requires
        keys_increasing(s),
    ensures
        entries_map(s).dom().finite(),
        entries_map(s).dom().len() == s.len(),
    decreases s.len(),
{
    if s.len() == 0 {
        assert(entries_map(s).dom() =~= Set::<u64>::empty());
    } else {
        let t = s.drop_last();
        let k = s.last().0;
        lemma_keys_dom_len(t);
        assert forall|a: int, b: int| 0 <= a < b < t.len() implies (#[trigger] t[a]).0 < (
        #[trigger] t[b]).0 by {
            assert(s[a].0 < s[b].0);
        }
        assert(entries_map(s).dom() =~= entries_map(t).dom().insert(k)) by {
            assert forall|x: u64| entries_map(s).dom().contains(x) implies entries_map(
                t,
            ).dom().insert(k).contains(x) by {
                let j = choose|j: int| 0 <= j < s.len() && s[j].0 == x;
                if j < s.len() - 1 {
                    assert(t[j].0 == x);
                }
            }
            assert forall|x: u64| entries_map(t).dom().insert(k).contains(x) implies entries_map(
                s,
            ).dom().contains(x) by {
                if x == k {
                    assert(s[s.len() - 1].0 == x);
                } else {
                    let j = choose|j: int| 0 <= j < t.len() && t[j].0 == x;
                    assert(s[j].0 == x);
                }
            }
        }
        assert(!entries_map(t).dom().contains(k)) by {
            if entries_map(t).dom().contains(k) {
                let j = choose|j: int| 0 <= j < t.len() && t[j].0 == k;
                assert(s[j].0 < s[s.len() - 1].0);
            }
        }
    }
}

proof fn lemma_update_map<V>(s: Seq<(u64, V)>, i: int, key: u64, v: V)
    requires
        keys_increasing(s),
        0 <= i < s.len(),
        s[i].0 == key,
    ensures
        entries_map(s.update(i, (key, v))) == entries_map(s).insert(key, v),
{
    let t = s.update(i, (key, v));
    assert forall|a: int, b: int| 0 <= a < b < t.len() implies (#[trigger] t[a]).0 < (
    #[trigger] t[b]).0 by {
        assert(s[a].0 < s[b].0);
    }
    assert forall|k: u64| #[trigger] entries_map(t).dom().contains(k) <==> entries_map(s).insert(
        key,
        v,
    ).dom().contains(k) by {
        if entries_map(s).dom().contains(k) {
            let j = choose|j: int| 0 <= j < s.len() && s[j].0 == k;
            assert(t[j].0 == k);
        }
        if entries_map(t).dom().contains(k) {
            let j = choose|j: int| 0 <= j < t.len() && t[j].0 == k;
            assert(s[j].0 == k);
        }
        if k == key {
            assert(t[i].0 == k);
        }
    }
    assert forall|k: u64| #[trigger] entries_map(t).dom().contains(k) implies entries_map(t)[k]
        == entries_map(s).insert(key, v)[k] by {
        let j = choose|j: int| 0 <= j < t.len() && t[j].0 == k;
        lemma_entries_lookup(t, j);
        if j != i {
            lemma_entries_lookup(s, j);
        }
    }
    assert(entries_map(t) =~= entries_map(s).insert(key, v));
}

proof fn lemma_insert_map<V>(s: Seq<(u64, V)>, i: int, key: u64, v: V)
    requires
        keys_increasing(s),
        0 <= i <= s.len(),
        forall|j: int| 0 <= j < i ==> s[j].0 < key,
        i < s.len() ==> s[i].0 > key,
    ensures
        keys_increasing(s.insert(i, (key, v))),
        entries_map(s.insert(i, (key, v))) == entries_map(s).insert(key, v),
{
    let t = s.insert(i, (key, v));
    assert forall|a: int, b: int| 0 <= a < b < t.len() implies (#[trigger] t[a]).0 < (
    #[trigger] t[b]).0 by {
        if b < i {
            assert(s[a].0 < s[b].0);
        } else if b == i {
            assert(s[a].0 < key);
        } else if a < i {
            assert(s[a].0 < key);
            assert(s[i].0 <= s[b - 1].0);
        } else if a == i {
            assert(s[i].0 <= s[b - 1].0);
        } else {
            assert(s[a - 1].0 < s[b - 1].0);
        }
    }
    assert forall|k: u64| #[trigger] entries_map(t).dom().contains(k) <==> entries_map(s).insert(
        key,
        v,
    ).dom().contains(k) by {
        if entries_map(s).dom().contains(k) {
            let j = choose|j: int| 0 <= j < s.len() && s[j].0 == k;
            if j < i {
                assert(t[j].0 == k);
            } else {
                assert(t[j + 1].0 == k);
            }
        }
        if entries_map(t).dom().contains(k) {
            let j = choose|j: int| 0 <= j < t.len() && t[j].0 == k;
            if j < i {
                assert(s[j].0 == k);
            } else if j > i {
                assert(s[j - 1].0 == k);
            }
        }
        if k == key {
            assert(t[i].0 == k);
        }
    }
    assert forall|k: u64| #[trigger] entries_map(t).dom().contains(k) implies entries_map(t)[k]
        == entries_map(s).insert(key, v)[k] by {
        let j = choose|j: int| 0 <= j < t.len() && t[j].0 == k;
        lemma_entries_lookup(t, j);
        if j < i {
            lemma_entries_lookup(s, j);
        } else if j > i {
            lemma_entries_lookup(s, j - 1);
        }
    }
    assert(entries_map(t) =~= entries_map(s).insert(key, v));
}

proof fn lemma_remove_map<V>(s: Seq<(u64, V)>, i: int)
    requires
        keys_increasing(s),
        0 <= i < s.len(),
    ensures
        keys_increasing(s.remove(i)),
        entries_map(s.remove(i)) == entries_map(s).remove(s[i].0),
{
    let t = s.remove(i);
    let key = s[i].0;
    assert forall|a: int, b: int| 0 <= a < b < t.len() implies (#[trigger] t[a]).0 < (
    #[trigger] t[b]).0 by {
        let oa = if a < i { a } else { a + 1 };
        let ob = if b < i { b } else { b + 1 };
        assert(s[oa].0 < s[ob].0);
    }
    assert forall|k: u64| #[trigger] entries_map(t).dom().contains(k) <==> entries_map(
        s,
    ).remove(key).dom().contains(k) by {
        if entries_map(s).dom().contains(k) && k != key {
            let j = choose|j: int| 0 <= j < s.len() && s[j].0 == k;
            if j < i {
                assert(t[j].0 == k);
            } else {
                assert(j != i);
                assert(t[j - 1].0 == k);
            }
        }
        if entries_map(t).dom().contains(k) {
            let j = choose|j: int| 0 <= j < t.len() && t[j].0 == k;
            let oj = if j < i { j } else { j + 1 };
            assert(s[oj].0 == k);
            if oj < i {
                assert(s[oj].0 < s[i].0);
            } else {
                assert(s[i].0 < s[oj].0);
            }
        }
    }
    assert forall|k: u64| #[trigger] entries_map(t).dom().contains(k) implies entries_map(t)[k]
        == entries_map(s).remove(key)[k] by {
        let j = choose|j: int| 0 <= j < t.len() && t[j].0 == k;
        let oj = if j < i { j } else { j + 1 };
        lemma_entries_lookup(t, j);
        lemma_entries_lookup(s, oj);
    }
    assert(entries_map(t) =~= entries_map(s).remove(key));
}

/// The map a list of (key, value) pairs gives when inserted in order (a later
/// pair for a key replaces an earlier one).
pub open spec fn pairs_map<V>(s: Seq<(u64, V)>) -> Map<u64, V>
    decreases s.len(),
{
    if s.len() == 0 {
        Map::empty()
    } else {
        pairs_map(s.drop_last()).insert(s.last().0, s.last().1)
    }
}

/// Every value of `pairs_map` comes from one of the pairs.
pub proof fn lemma_pairs_map_from<V>(s: Seq<(u64, V)>, k: u64)
    requires
        pairs_map(s).dom().contains(k),
    ensures
        exists|i: int| 0 <= i < s.len() && s[i] == (k, pairs_map(s)[k]),
    decreases s.len(),
{
    if s.last().0 == k {
        assert(s[s.len() - 1] == (k, pairs_map(s)[k]));
    } else {
        lemma_pairs_map_from(s.drop_last(), k);
        let i = choose|i: int| 0 <= i < s.drop_last().len() && s.drop_last()[i] == (k, pairs_map(s.drop_last())[k]);
        assert(s[i] == s.drop_last()[i]);
    }
}

impl<V> IdMap<V> {
    /// A map holding the given pairs, inserted in order.
    pub fn from_pairs(v: Vec<(u64, V)>) -> (m: Self)
        ensures
            m.wf(),
            m.view() == pairs_map(v@),
    {
        let ghost orig = v@;
        let n = v.len();
        let mut v = v;
        let mut m: IdMap<V> = IdMap::new();
        let mut k: usize = 0;
        while v.len() > 0
            invariant
                m.wf(),
                k <= orig.len(),
                orig.len() == n,
                v@ == orig.skip(k as int),
                m.view() == pairs_map(orig.take(k as int)),
            decreases v@.len(),
        {
            let e = v.remove(0);
            proof {
                assert(e == orig[k as int]);
                assert(orig.take(k + 1).drop_last() =~= orig.take(k as int));
                assert(orig.take(k + 1).last() == orig[k as int]);
            }
            m.insert(e.0, e.1);
            k = k + 1;
            proof {
                assert(v@ =~= orig.skip(k as int));
            }
        }
        proof {
            assert(orig.take(k as int) =~= orig);
        }
        m
    }
}

} // verus!
