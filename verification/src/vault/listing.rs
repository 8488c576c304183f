//! Name order of folder listings: entries sorted by the bytes of their name
//! (the order of `str`), equal names by ascending id.
use vstd::prelude::*;
use vstd::utf8::encode_utf8;

verus! {

/// Strict byte-wise lexicographic order.
pub open spec fn bytes_lt(a: Seq<u8>, b: Seq<u8>) -> bool
    decreases a.len(),
{
    if b.len() == 0 {
        false
    } else if a.len() == 0 {
        true
    } else if a[0] != b[0] {
        a[0] < b[0]
    } else {
        bytes_lt(a.drop_first(), b.drop_first())
    }
}

/// Listing order of (name bytes, id) keys.
pub open spec fn key_lt(a: (Seq<u8>, u64), b: (Seq<u8>, u64)) -> bool {
    bytes_lt(a.0, b.0) || (a.0 == b.0 && a.1 < b.1)
}

/// `ids` are in listing order under the names that `name` gives them.
pub open spec fn name_ordered(ids: Seq<u64>, name: spec_fn(u64) -> Seq<char>) -> bool {
    forall|i: int, j: int|
        0 <= i < j < ids.len() ==> key_lt(
            (encode_utf8(name(#[trigger] ids[i])), ids[i]),
            (encode_utf8(name(#[trigger] ids[j])), ids[j]),
        )
}

/// Key of an item to be listed.
pub open spec fn item_key(e: (u64, Vec<u8>)) -> (Seq<u8>, u64) {
    (e.1@, e.0)
}

/// `order` lists positions of `items` in strictly increasing key order.
pub open spec fn sorted_positions(items: Seq<(u64, Vec<u8>)>, order: Seq<usize>) -> bool {
    &&& forall|k: int| 0 <= k < order.len() ==> #[trigger] order[k] < items.len()
    &&& forall|i: int, j: int|
        0 <= i < j < order.len() ==> key_lt(
            item_key(items[#[trigger] order[i] as int]),
            item_key(items[#[trigger] order[j] as int]),
        )
}

pub proof fn lemma_bytes_lt_irrefl(a: Seq<u8>)
    ensures
        !bytes_lt(a, a),
    decreases a.len(),
{
    if a.len() > 0 {
        lemma_bytes_lt_irrefl(a.drop_first());
    }
}

pub proof fn lemma_bytes_lt_trans(a: Seq<u8>, b: Seq<u8>, c: Seq<u8>)
    requires
        bytes_lt(a, b),
        bytes_lt(b, c),
    ensures
        bytes_lt(a, c),
    decreases a.len(),
{
    if a.len() > 0 && b.len() > 0 && c.len() > 0 && a[0] == b[0] && b[0] == c[0] {
        lemma_bytes_lt_trans(a.drop_first(), b.drop_first(), c.drop_first());
    }
}

pub proof fn lemma_bytes_lt_total(a: Seq<u8>, b: Seq<u8>)
    requires
        a != b,
    ensures
        bytes_lt(a, b) || bytes_lt(b, a),
    decreases a.len(),
{
    if a.len() > 0 && b.len() > 0 && a[0] == b[0] {
        if a.drop_first() == b.drop_first() {
            assert(a =~= seq![a[0]] + a.drop_first());
            assert(b =~= seq![b[0]] + b.drop_first());
        }
        lemma_bytes_lt_total(a.drop_first(), b.drop_first());
    } else if a.len() == 0 && b.len() == 0 {
        assert(a =~= b);
    }
}

/// `key_lt` is a strict total order.
pub proof fn lemma_key_order(a: (Seq<u8>, u64), b: (Seq<u8>, u64), c: (Seq<u8>, u64))
    ensures
        !key_lt(a, a),
        key_lt(a, b) && key_lt(b, c) ==> key_lt(a, c),
        a != b ==> key_lt(a, b) || key_lt(b, a),
        key_lt(a, b) ==> !key_lt(b, a),
{
    lemma_bytes_lt_irrefl(a.0);
    lemma_bytes_lt_irrefl(b.0);
    if key_lt(a, b) && key_lt(b, c) {
        if bytes_lt(a.0, b.0) && bytes_lt(b.0, c.0) {
            lemma_bytes_lt_trans(a.0, b.0, c.0);
        }
    }
    if a.0 != b.0 {
        lemma_bytes_lt_total(a.0, b.0);
    }
    if bytes_lt(a.0, b.0) && bytes_lt(b.0, a.0) {
        lemma_bytes_lt_trans(a.0, b.0, a.0);
    }
}

proof fn lemma_bytes_lt_skip(a: Seq<u8>, b: Seq<u8>, i: int)
    requires
        0 <= i < a.len(),
        i < b.len(),
        a.take(i) == b.take(i),
        a[i] == b[i],
    ensures
        bytes_lt(a.skip(i), b.skip(i)) == bytes_lt(a.skip(i + 1), b.skip(i + 1)),
{
    assert(a.skip(i).drop_first() =~= a.skip(i + 1));
    assert(b.skip(i).drop_first() =~= b.skip(i + 1));
}

/// `bytes_lt` on slices.
pub fn bytes_less(a: &[u8], b: &[u8]) -> (r: bool)
    ensures
        r == bytes_lt(a@, b@),
{
    let mut i: usize = 0;
    proof {
        assert(a@.skip(0) =~= a@);
        assert(b@.skip(0) =~= b@);
    }
    while i < a.len() && i < b.len()
        invariant
            i <= a@.len(),
            i <= b@.len(),
            a@.take(i as int) == b@.take(i as int),
            bytes_lt(a@, b@) == bytes_lt(a@.skip(i as int), b@.skip(i as int)),
        decreases a@.len() - i,
    {
        if a[i] != b[i] {
            return a[i] < b[i];
        }
        proof {
            lemma_bytes_lt_skip(a@, b@, i as int);
            assert(a@.take(i + 1) =~= a@.take(i as int).push(a@[i as int]));
            assert(b@.take(i + 1) =~= b@.take(i as int).push(b@[i as int]));
        }
        i = i + 1;
    }
    i < b.len()
}

fn key_less(x: &(u64, Vec<u8>), y: &(u64, Vec<u8>)) -> (r: bool)
    ensures
        r == key_lt(item_key(*x), item_key(*y)),
{
    if bytes_less(x.1.as_slice(), y.1.as_slice()) {
        true
    } else if bytes_less(y.1.as_slice(), x.1.as_slice()) {
        false
    } else {
        proof {
            if x.1@ != y.1@ {
                lemma_bytes_lt_total(x.1@, y.1@);
            }
        }
        x.0 < y.0
    }
}

/// Positions of `items` in listing order: every position once, by name
/// bytes and then by id.
pub fn order_by_name(items: &Vec<(u64, Vec<u8>)>) -> (order: Vec<usize>)
    requires
        forall|i: int, j: int| 0 <= i < j < items@.len() ==> (#[trigger] items@[i]).0 != (#[trigger] items@[j]).0,
    ensures
        sorted_positions(items@, order@),
        forall|p: usize| p < items@.len() <==> order@.contains(p),
        order@.len() == items@.len(),
{
    let mut order: Vec<usize> = Vec::new();
    let n = items.len();
    let mut q: usize = 0;
    while q < n
        invariant
            n == items@.len(),
            q <= n,
            forall|i: int, j: int| 0 <= i < j < items@.len() ==> (#[trigger] items@[i]).0 != (#[trigger] items@[j]).0,
            sorted_positions(items@, order@),
            forall|p: usize| order@.contains(p) <==> p < q,
            order@.len() == q,
        decreases n - q,
    {
        let mut pos: usize = 0;
        while pos < order.len() && !key_less(&items[q], &items[order[pos]])
            invariant
                n == items@.len(),
                q < n,
                pos <= order@.len(),
                sorted_positions(items@, order@),
                forall|p: usize| order@.contains(p) <==> p < q,
                forall|k: int|
                    0 <= k < pos ==> key_lt(
                        item_key(items@[#[trigger] order@[k] as int]),
                        item_key(items@[q as int]),
                    ),
                forall|i: int, j: int| 0 <= i < j < items@.len() ==> (#[trigger] items@[i]).0 != (#[trigger] items@[j]).0,
            decreases order@.len() - pos,
        {
            proof {
                let o = order@[pos as int];
                assert(order@.contains(o));
                lemma_key_order(item_key(items@[o as int]), item_key(items@[q as int]), item_key(items@[q as int]));
                assert(items@[o as int].0 != items@[q as int].0);
            }
            pos = pos + 1;
        }
        let ghost old_order = order@;
        order.insert(pos, q);
        proof {
            let s = order@;
            assert(s =~= old_order.insert(pos as int, q));
            assert forall|k: int| 0 <= k < s.len() implies #[trigger] s[k] < items@.len() by {
                if k < pos {
                    assert(s[k] == old_order[k]);
                } else if k > pos {
                    assert(s[k] == old_order[k - 1]);
                }
            }
            assert forall|i: int, j: int| 0 <= i < j < s.len() implies key_lt(
                item_key(items@[#[trigger] s[i] as int]),
                item_key(items@[#[trigger] s[j] as int]),
            ) by {
                let kq = item_key(items@[q as int]);
                if j < pos {
                    assert(s[i] == old_order[i] && s[j] == old_order[j]);
                } else if j == pos {
                    assert(s[i] == old_order[i]);
                } else if i == pos {
                    assert(s[j] == old_order[j - 1]);
                    if pos < j - 1 {
                        let kp = item_key(items@[old_order[pos as int] as int]);
                        lemma_key_order(kq, kp, item_key(items@[old_order[j - 1] as int]));
                    }
                } else if i < pos {
                    assert(s[i] == old_order[i] && s[j] == old_order[j - 1]);
                    let ki = item_key(items@[old_order[i] as int]);
                    let kp = item_key(items@[old_order[pos as int] as int]);
                    lemma_key_order(ki, kq, kp);
                    lemma_key_order(ki, kp, item_key(items@[old_order[j - 1] as int]));
                } else {
                    assert(s[i] == old_order[i - 1] && s[j] == old_order[j - 1]);
                }
            }
            assert forall|p: usize| s.contains(p) <==> p < q + 1 by {
                if s.contains(p) {
                    let k = choose|k: int| 0 <= k < s.len() && s[k] == p;
                    if k < pos {
                        assert(old_order[k] == p);
                        assert(old_order.contains(p));
                    } else if k > pos {
                        assert(old_order[k - 1] == p);
                        assert(old_order.contains(p));
                    }
                }
                if p < q {
                    assert(old_order.contains(p));
                    let k = choose|k: int| 0 <= k < old_order.len() && old_order[k] == p;
                    if k < pos {
                        assert(s[k] == p);
                    } else {
                        assert(s[k + 1] == p);
                    }
                } else if p == q {
                    assert(s[pos as int] == q);
                }
            }
        }
        q = q + 1;
    }
    order
}

/// Name bytes of the item with id `x`.
pub open spec fn name_of(items: Seq<(u64, Vec<u8>)>, x: u64) -> Seq<u8> {
    items[choose|k: int| 0 <= k < items.len() && items[k].0 == x].1@
}

/// Ids of `items` in listing order: by name bytes, then by id.
pub fn ids_by_name(items: &Vec<(u64, Vec<u8>)>) -> (r: Vec<u64>)
    requires
        forall|i: int, j: int| 0 <= i < j < items@.len() ==> (#[trigger] items@[i]).0 != (#[trigger] items@[j]).0,
    ensures
        forall|x: u64| r@.contains(x) <==> exists|k: int| 0 <= k < items@.len() && (#[trigger] items@[k]).0 == x,
        forall|i: int, j: int|
            0 <= i < j < r@.len() ==> key_lt(
                (name_of(items@, #[trigger] r@[i]), r@[i]),
                (name_of(items@, #[trigger] r@[j]), r@[j]),
            ),
{
    let order = order_by_name(items);
    let n = items.len();
    let mut r: Vec<u64> = Vec::new();
    let mut k: usize = 0;
    while k < order.len()
        invariant
            k <= order@.len(),
            r@.len() == k,
            n == items@.len(),
            sorted_positions(items@, order@),
            forall|t: int| 0 <= t < k ==> r@[t] == items@[#[trigger] order@[t] as int].0,
        decreases order@.len() - k,
    {
        r.push(items[order[k]].0);
        k = k + 1;
    }
    proof {
        assert forall|t: int| 0 <= t < r@.len() implies name_of(items@, #[trigger] r@[t]) == items@[order@[t] as int].1@ by {
            let o = order@[t] as int;
            let c = choose|c: int| 0 <= c < items@.len() && items@[c].0 == r@[t];
            assert(0 <= o < items@.len() && items@[o].0 == r@[t]);
            if c != o {
                if c < o {
                    assert(items@[c].0 != items@[o].0);
                } else {
                    assert(items@[o].0 != items@[c].0);
                }
            }
        }
        assert forall|x: u64| r@.contains(x) <==> exists|k: int| 0 <= k < items@.len() && (#[trigger] items@[k]).0 == x by {
            if r@.contains(x) {
                let t = choose|t: int| 0 <= t < r@.len() && r@[t] == x;
                let o = order@[t] as int;
                assert(items@[o].0 == x);
            }
            if exists|k: int| 0 <= k < items@.len() && (#[trigger] items@[k]).0 == x {
                let k = choose|k: int| 0 <= k < items@.len() && (#[trigger] items@[k]).0 == x;
                let ku = k as usize;
                assert(ku as int == k);
                assert(order@.contains(ku));
                let t = choose|t: int| 0 <= t < order@.len() && order@[t] == ku;
                assert(r@[t] == items@[order@[t] as int].0);
                assert(r@[t] == x);
                assert(r@.contains(x));
            }
        }
    }
    r
}

} // verus!
