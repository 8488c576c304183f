//! Per-file vector clocks (device id → counter): causal history of a file,
//! used to tell an update from a concurrent edit when syncing.
use vstd::prelude::*;

use crate::strmap::StrMap;

verus! {

/// A device's counter, absent devices counting as zero.
pub open spec fn vc_get(m: Map<Seq<char>, u64>, k: Seq<char>) -> nat {
    if m.dom().contains(k) {
        m[k] as nat
    } else {
        0
    }
}

/// `a` dominates `b`: no counter of `b` exceeds `a`'s, and some counter of
/// `a` exceeds `b`'s.
pub open spec fn spec_dominates(a: Map<Seq<char>, u64>, b: Map<Seq<char>, u64>) -> bool {
    &&& forall|k: Seq<char>| #[trigger] b.dom().contains(k) ==> vc_get(a, k) >= b[k]
    &&& exists|k: Seq<char>| #[trigger] a.dom().contains(k) && vc_get(b, k) < a[k]
}

/// Pointwise maximum over the union of the devices.
pub open spec fn spec_vc_merge(l: Map<Seq<char>, u64>, r: Map<Seq<char>, u64>) -> Map<
    Seq<char>,
    u64,
> {
    Map::new(
        |k: Seq<char>| l.dom().contains(k) || r.dom().contains(k),
        |k: Seq<char>|
            if vc_get(l, k) >= vc_get(r, k) {
                vc_get(l, k) as u64
            } else {
                vc_get(r, k) as u64
            },
    )
}

/// Counter of a device in a clock (zero when absent).
pub fn vc_lookup(vc: &StrMap<u64>, device: &String) -> (n: u64)
    requires
        vc.wf(),
    ensures
        n == vc_get(vc.view(), device@),
{
    match vc.get(device) {
        Some(v) => *v,
        None => 0,
    }
}

/// Increments this device's counter.
pub fn vc_bump(vc: &mut StrMap<u64>, device: &str)
    requires
        old(vc).wf(),
        vc_get(old(vc).view(), device@) < u64::MAX,
    ensures
        final(vc).wf(),
        final(vc).view() == old(vc).view().insert(
            device@,
            (vc_get(old(vc).view(), device@) + 1) as u64,
        ),
{
    let key = device.to_owned();
    let next = vc_lookup(vc, &key) + 1;
    vc.insert(key, next);
}

/// Merges a remote clock in: every counter becomes the larger of the two.
pub fn vc_merge(local: &mut StrMap<u64>, remote: &StrMap<u64>)
    requires
        old(local).wf(),
        remote.wf(),
    ensures
        final(local).wf(),
        final(local).view() == spec_vc_merge(old(local).view(), remote.view()),
{
    let ghost l0 = local.view();
    let n = remote.len();
    let mut i: usize = 0;
    while i < n
        invariant
            n == remote.spec_entries().len(),
            remote.wf(),
            local.wf(),
            i <= n,
            forall|k: Seq<char>| #[trigger]
                local.view().dom().contains(k) <==> (l0.dom().contains(k) || exists|j: int|
                    0 <= j < i && remote.spec_entries()[j].0@ == k),
            forall|k: Seq<char>| #[trigger]
                local.view().dom().contains(k) ==> local.view()[k] == (if exists|j: int|
                    0 <= j < i && remote.spec_entries()[j].0@ == k {
                    spec_vc_merge(l0, remote.view())[k]
                } else {
                    l0[k]
                }),
        decreases n - i,
    {
        let e = remote.entry_at(i);
        let cur = vc_lookup(local, &e.0);
        proof {
            remote.lemma_lookup(i as int);
            assert(cur == vc_get(l0, e.0@)) by {
                if exists|j: int| 0 <= j < i && remote.spec_entries()[j].0@ == e.0@ {
                    let j = choose|j: int| 0 <= j < i && remote.spec_entries()[j].0@ == e.0@;
                    remote.lemma_distinct(j, i as int);
                }
            }
        }
        if e.1 > cur {
            local.insert(e.0.clone(), e.1);
        } else {
            local.insert(e.0.clone(), cur);
        }
        i = i + 1;
    }
    proof {
        assert forall|k: Seq<char>| #[trigger] local.view().dom().contains(k) implies spec_vc_merge(
            l0,
            remote.view(),
        ).dom().contains(k) by {
            if exists|j: int| 0 <= j < n && remote.spec_entries()[j].0@ == k {
                let j = choose|j: int| 0 <= j < n && remote.spec_entries()[j].0@ == k;
                remote.lemma_lookup(j);
            }
        }
        assert forall|k: Seq<char>| #[trigger]
            spec_vc_merge(l0, remote.view()).dom().contains(k) implies local.view().dom().contains(
            k,
        ) by {
            if remote.view().dom().contains(k) {
                let j = remote.index_of(k);
                assert(remote.spec_entries()[j].0@ == k);
            }
        }
        assert forall|k: Seq<char>| #[trigger] local.view().dom().contains(k) implies local.view()[k]
            == spec_vc_merge(l0, remote.view())[k] by {
            if !exists|j: int| 0 <= j < n && remote.spec_entries()[j].0@ == k {
                assert(!remote.view().dom().contains(k)) by {
                    if remote.view().dom().contains(k) {
                        let j = remote.index_of(k);
                        assert(remote.spec_entries()[j].0@ == k);
                    }
                }
            }
        }
        assert(local.view() =~= spec_vc_merge(l0, remote.view()));
    }
}

/// Dominance of one clock over another (`a == b` never dominates).
pub fn dominates(a: &StrMap<u64>, b: &StrMap<u64>) -> (r: bool)
    requires
        a.wf(),
        b.wf(),
    ensures
        r == spec_dominates(a.view(), b.view()),
{
    let mut ge = true;
    let mut i: usize = 0;
    while i < b.len()
        invariant
            a.wf(),
            b.wf(),
            i <= b.spec_entries().len(),
            ge == forall|j: int| 0 <= j < i ==> vc_get(a.view(), #[trigger] b.spec_entries()[j].0@)
                >= b.spec_entries()[j].1,
        decreases b.spec_entries().len() - i,
    {
        let e = b.entry_at(i);
        let x = vc_lookup(a, &e.0);
        if x < e.1 {
            ge = false;
        }
        i = i + 1;
    }
    let mut gt = false;
    let mut i: usize = 0;
    while i < a.len()
        invariant
            a.wf(),
            b.wf(),
            i <= a.spec_entries().len(),
            gt == exists|j: int| 0 <= j < i && vc_get(b.view(), #[trigger] a.spec_entries()[j].0@)
                < a.spec_entries()[j].1,
        decreases a.spec_entries().len() - i,
    {
        let e = a.entry_at(i);
        let y = vc_lookup(b, &e.0);
        if y < e.1 {
            gt = true;
        }
        i = i + 1;
    }
    proof {
        assert(ge == forall|k: Seq<char>| #[trigger]
            b.view().dom().contains(k) ==> vc_get(a.view(), k) >= b.view()[k]) by {
            if ge {
                assert forall|k: Seq<char>| #[trigger] b.view().dom().contains(k) implies vc_get(
                    a.view(),
                    k,
                ) >= b.view()[k] by {
                    let j = b.index_of(k);
                    b.lemma_lookup(j);
                }
            } else {
                let j = choose|j: int|
                    0 <= j < b.spec_entries().len() && !(vc_get(
                        a.view(),
                        #[trigger] b.spec_entries()[j].0@,
                    ) >= b.spec_entries()[j].1);
                b.lemma_lookup(j);
            }
        }
        assert(gt == exists|k: Seq<char>| #[trigger]
            a.view().dom().contains(k) && vc_get(b.view(), k) < a.view()[k]) by {
            if gt {
                let j = choose|j: int|
                    0 <= j < a.spec_entries().len() && vc_get(
                        b.view(),
                        #[trigger] a.spec_entries()[j].0@,
                    ) < a.spec_entries()[j].1;
                a.lemma_lookup(j);
            } else {
                if exists|k: Seq<char>| #[trigger]
                    a.view().dom().contains(k) && vc_get(b.view(), k) < a.view()[k] {
                    let k = choose|k: Seq<char>| #[trigger]
                        a.view().dom().contains(k) && vc_get(b.view(), k) < a.view()[k];
                    let j = a.index_of(k);
                    a.lemma_lookup(j);
                }
            }
        }
    }
    ge && gt
}

/// No clock dominates itself.
pub proof fn dominance_irreflexive(a: Map<Seq<char>, u64>)
    ensures
        !spec_dominates(a, a),
{
}

/// Two clocks never dominate each other.
pub proof fn dominance_asymmetric(a: Map<Seq<char>, u64>, b: Map<Seq<char>, u64>)
    ensures
        !(spec_dominates(a, b) && spec_dominates(b, a)),
{
    if spec_dominates(a, b) && spec_dominates(b, a) {
        let k = choose|k: Seq<char>| #[trigger] a.dom().contains(k) && vc_get(b, k) < a[k];
        if b.dom().contains(k) {
        } else {
        }
    }
}

/// A merged clock has every counter of both inputs: it equals or dominates each.
pub proof fn merge_covers_both(l: Map<Seq<char>, u64>, r: Map<Seq<char>, u64>)
    ensures
        forall|k: Seq<char>| #[trigger] l.dom().contains(k) ==> vc_get(spec_vc_merge(l, r), k) >= l[k],
        forall|k: Seq<char>| #[trigger] r.dom().contains(k) ==> vc_get(spec_vc_merge(l, r), k) >= r[k],
        !spec_dominates(l, spec_vc_merge(l, r)),
        !spec_dominates(r, spec_vc_merge(l, r)),
{
}

/// After a local edit, the new clock dominates the old one.
pub proof fn bump_dominates(a: Map<Seq<char>, u64>, d: Seq<char>)
    requires
        vc_get(a, d) < u64::MAX,
    ensures
        spec_dominates(a.insert(d, (vc_get(a, d) + 1) as u64), a),
{
    let a2 = a.insert(d, (vc_get(a, d) + 1) as u64);
    assert(a2.dom().contains(d) && vc_get(a, d) < a2[d]);
}

/// Whether two clocks are the same map (same devices, same counters).
pub fn vc_equal(a: &StrMap<u64>, b: &StrMap<u64>) -> (r: bool)
    requires
        a.wf(),
        b.wf(),
    ensures
        r == (a.view() == b.view()),
{
    let mut i: usize = 0;
    while i < a.len()
        invariant
            a.wf(),
            b.wf(),
            i <= a.spec_entries().len(),
            forall|j: int|
                #![trigger a.spec_entries()[j]]
                0 <= j < i ==> b.view().dom().contains(a.spec_entries()[j].0@) && b.view()[a.spec_entries()[j].0@]
                    == a.spec_entries()[j].1,
        decreases a.spec_entries().len() - i,
    {
        let e = a.entry_at(i);
        match b.get(&e.0) {
            Some(v) => {
                if *v != e.1 {
                    proof {
                        a.lemma_lookup(i as int);
                        assert(a.view()[e.0@] != b.view()[e.0@]);
                    }
                    return false;
                }
            },
            None => {
                proof {
                    a.lemma_lookup(i as int);
                    assert(a.view().dom().contains(e.0@));
                }
                return false;
            },
        }
        i = i + 1;
    }
    let mut j: usize = 0;
    while j < b.len()
        invariant
            a.wf(),
            b.wf(),
            j <= b.spec_entries().len(),
            forall|t: int|
                #![trigger b.spec_entries()[t]]
                0 <= t < j ==> a.view().dom().contains(b.spec_entries()[t].0@),
        decreases b.spec_entries().len() - j,
    {
        let e = b.entry_at(j);
        if a.get(&e.0).is_none() {
            proof {
                b.lemma_lookup(j as int);
                assert(b.view().dom().contains(e.0@));
            }
            return false;
        }
        j = j + 1;
    }
    proof {
        assert forall|k: Seq<char>| #[trigger] a.view().dom().contains(k) implies b.view().dom().contains(k)
            && b.view()[k] == a.view()[k] by {
            let t = a.index_of(k);
            a.lemma_lookup(t);
        }
        assert forall|k: Seq<char>| #[trigger] b.view().dom().contains(k) implies a.view().dom().contains(k) by {
            let t = b.index_of(k);
        }
        assert(a.view() =~= b.view());
    }
    true
}

} // verus!
