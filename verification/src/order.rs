//! Lists of positions in the order of a relation.

use vstd::prelude::*;

verus! {

/// Of two different positions one comes before the other, and no circle of positions comes before
/// itself.
pub open spec fn strict_total_order(before: spec_fn(int, int) -> bool) -> bool {
    &&& forall|i: int, j: int| #[trigger] before(i, j) ==> !before(j, i)
    &&& forall|i: int, j: int, k: int| #[trigger]
        before(i, j) && #[trigger] before(j, k) ==> before(i, k)
    &&& forall|i: int, j: int| i != j ==> #[trigger] before(i, j) || before(j, i)
}

/// Each position of `list` comes before those after it.
pub open spec fn ordered_by(before: spec_fn(int, int) -> bool, list: Seq<usize>) -> bool {
    forall|p: int, q: int|
        0 <= p < q < list.len() ==> before(#[trigger] list[p] as int, #[trigger] list[q] as int)
}

/// Putting a position before the first of `list` that it comes before keeps the order.
pub proof fn lemma_insert_ordered(
    before: spec_fn(int, int) -> bool,
    list: Seq<usize>,
    p: int,
    k: usize,
)
    requires
        strict_total_order(before),
        ordered_by(before, list),
        !list.contains(k),
        0 <= p <= list.len(),
        forall|q: int| 0 <= q < p ==> !before(k as int, #[trigger] list[q] as int),
        p < list.len() ==> before(k as int, list[p] as int),
    ensures
        ordered_by(before, list.insert(p, k)),
        forall|i: usize| #[trigger]
            list.insert(p, k).contains(i) <==> list.contains(i) || i == k,
{
    let longer = list.insert(p, k);
    assert forall|a: int, b: int| 0 <= a < b < longer.len() implies before(
        #[trigger] longer[a] as int,
        #[trigger] longer[b] as int,
    ) by {
        if b == p {
            assert(longer[a] == list[a]);
            assert(list.contains(list[a]));
            assert(!before(k as int, list[a] as int));
            assert(before(list[a] as int, k as int) || before(k as int, list[a] as int));
        } else if a == p {
            assert(longer[b] == list[b - 1]);
            if b - 1 > p {
                assert(before(list[p] as int, list[b - 1] as int));
            }
        } else {
            let a0 = if a < p { a } else { a - 1 };
            let b0 = if b < p { b } else { b - 1 };
            assert(longer[a] == list[a0]);
            assert(longer[b] == list[b0]);
        }
    }
    assert forall|i: usize| #[trigger]
        longer.contains(i) <==> list.contains(i) || i == k by {
        if list.contains(i) {
            let q = choose|q: int| 0 <= q < list.len() && list[q] == i;
            assert(longer[if q < p { q } else { q + 1 }] == i);
        }
        if i == k {
            assert(longer[p] == k);
        }
        if longer.contains(i) {
            let q = choose|q: int| 0 <= q < longer.len() && longer[q] == i;
            if q != p {
                assert(list[if q < p { q } else { q - 1 }] == i);
            }
        }
    }
}

/// An ordered list holds no position twice.
pub proof fn lemma_ordered_no_duplicates(before: spec_fn(int, int) -> bool, list: Seq<usize>)
    requires
        strict_total_order(before),
        ordered_by(before, list),
    ensures
        list.no_duplicates(),
{
    assert forall|p: int, q: int| 0 <= p < list.len() && 0 <= q < list.len() && p
        != q implies list[p] != list[q] by {
        if p < q {
            assert(before(list[p] as int, list[q] as int));
        } else {
            assert(before(list[q] as int, list[p] as int));
        }
    }
}

/// Two ordered lists of the same positions are the same.
pub proof fn lemma_ordered_unique(
    before: spec_fn(int, int) -> bool,
    a: Seq<usize>,
    b: Seq<usize>,
)
    requires
        strict_total_order(before),
        ordered_by(before, a),
        ordered_by(before, b),
        forall|i: usize| #[trigger] a.contains(i) == b.contains(i),
    ensures
        a == b,
    decreases a.len(),
{
    if a.len() == 0 {
        if b.len() > 0 {
            assert(b.contains(b[0]));
            assert(a.contains(b[0]));
        }
    } else {
        let m = a.len() - 1;
        assert(a.contains(a[m]));
        assert(b.contains(a[m]));
        let q = choose|q: int| 0 <= q < b.len() && b[q] == a[m];
        let n = b.len() - 1;
        assert(b.contains(b[n]));
        assert(a.contains(b[n]));
        let p = choose|p: int| 0 <= p < a.len() && a[p] == b[n];
        if q < n {
            assert(before(b[q] as int, b[n] as int));
            if p < m {
                assert(before(a[p] as int, a[m] as int));
            }
        }
        assert(a[m] == b[n]);
        let x = a.drop_last();
        let y = b.drop_last();
        assert forall|i: usize| #[trigger] x.contains(i) == y.contains(i) by {
            if x.contains(i) {
                let k = choose|k: int| 0 <= k < x.len() && x[k] == i;
                assert(before(a[k] as int, a[m] as int));
                assert(a.contains(i));
                let l = choose|l: int| 0 <= l < b.len() && b[l] == i;
                assert(y[l] == i);
            }
            if y.contains(i) {
                let k = choose|k: int| 0 <= k < y.len() && y[k] == i;
                assert(before(b[k] as int, b[n] as int));
                assert(b.contains(i));
                assert(a.contains(i));
                let l = choose|l: int| 0 <= l < a.len() && a[l] == i;
                assert(x[l] == i);
            }
        }
        lemma_ordered_unique(before, x, y);
        assert(a == x.push(a[m]));
        assert(b == y.push(b[n]));
    }
}

} // verus!
