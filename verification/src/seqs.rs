//! Small reusable facts about sequences of plain values: distinctness,
//! disjointness, bounds, and the shape of `swap_remove`.

use vstd::prelude::*;

verus! {

/// All elements pairwise distinct.
pub open spec fn distinct_seq<T>(a: Seq<T>) -> bool {
    forall|i: int, j: int| 0 <= i < j < a.len() ==> a[i] != a[j]
}

/// No element of `a` equals an element of `b`.
pub open spec fn disjoint_seq<T>(a: Seq<T>, b: Seq<T>) -> bool {
    forall|i: int, j: int| 0 <= i < a.len() && 0 <= j < b.len() ==> a[i] != b[j]
}

/// Every element lies in `[1, hi]`.
pub open spec fn ids_bounded(a: Seq<u64>, hi: u64) -> bool {
    forall|i: int| 0 <= i < a.len() ==> 1 <= #[trigger] a[i] <= hi
}

/// The sequence after `swap_remove(i)`: the last element moves into the
/// hole and the length shrinks by one.
pub open spec fn swap_removed<T>(a: Seq<T>, i: int) -> Seq<T> {
    a.update(i, a.last()).drop_last()
}

pub proof fn lemma_distinct_push<T>(a: Seq<T>, x: T)
    requires
        distinct_seq(a),
        !a.contains(x),
    ensures
        distinct_seq(a.push(x)),
{
    let b = a.push(x);
    assert forall|i: int, j: int| 0 <= i < j < b.len() implies b[i] != b[j] by {
        if j < a.len() {
            assert(a[i] != a[j]);
        } else {
            assert(b[j] == x);
            assert(b[i] == a[i]);
            assert(a.contains(a[i]));
        }
    }
}

pub proof fn lemma_swap_removed_elems<T>(a: Seq<T>, i: int)
    requires
        0 <= i < a.len(),
    ensures
        swap_removed(a, i).len() == a.len() - 1,
        forall|j: int| 0 <= j < a.len() - 1 ==> a.contains(#[trigger] swap_removed(a, i)[j]),
        distinct_seq(a) ==> distinct_seq(swap_removed(a, i)),
        forall|j: int| 0 <= j < a.len() - 1 && j != i ==> swap_removed(a, i)[j] == a[j],
        i < a.len() - 1 ==> swap_removed(a, i)[i] == a[a.len() - 1],
{
    let b = swap_removed(a, i);
    assert forall|j: int| 0 <= j < a.len() - 1 implies a.contains(#[trigger] b[j]) by {
        if j == i {
            assert(b[j] == a[a.len() - 1]);
        } else {
            assert(b[j] == a[j]);
        }
    }
    if distinct_seq(a) {
        assert forall|p: int, q: int| 0 <= p < q < b.len() implies b[p] != b[q] by {
            if p == i {
                assert(b[p] == a[a.len() - 1] && b[q] == a[q]);
            } else if q == i {
                assert(b[q] == a[a.len() - 1] && b[p] == a[p]);
            } else {
                assert(b[p] == a[p] && b[q] == a[q]);
            }
        }
    }
}

/// A family drawn from `a` stays disjoint from whatever `a` was disjoint
/// from, in both orders.
pub proof fn lemma_disjoint_left_subset<T>(a: Seq<T>, b: Seq<T>, a2: Seq<T>)
    requires
        disjoint_seq(a, b) || disjoint_seq(b, a),
        forall|i: int| 0 <= i < a2.len() ==> a.contains(#[trigger] a2[i]),
    ensures
        disjoint_seq(a2, b),
        disjoint_seq(b, a2),
{
    assert forall|i: int, j: int| 0 <= i < a2.len() && 0 <= j < b.len() implies a2[i] != b[j]
        && b[j] != a2[i] by {
        let p = choose|p: int| 0 <= p < a.len() && a[p] == a2[i];
        assert(a[p] != b[j] || b[j] != a[p]);
    }
}

pub proof fn lemma_ids_bounded_of_contains(a: Seq<u64>, a2: Seq<u64>, hi: u64)
    requires
        ids_bounded(a, hi),
        forall|i: int| 0 <= i < a2.len() ==> a.contains(#[trigger] a2[i]),
    ensures
        ids_bounded(a2, hi),
{
    assert forall|i: int| 0 <= i < a2.len() implies 1 <= #[trigger] a2[i] <= hi by {
        let p = choose|p: int| 0 <= p < a.len() && a[p] == a2[i];
        assert(1 <= a[p] <= hi);
    }
}

/// A bounded sequence contains no id above the bound.
pub proof fn lemma_bounded_excludes(a: Seq<u64>, hi: u64, x: u64)
    requires
        ids_bounded(a, hi),
        x > hi,
    ensures
        !a.contains(x),
{
    if a.contains(x) {
        let i = choose|i: int| 0 <= i < a.len() && a[i] == x;
        assert(1 <= a[i] <= hi);
    }
}


/// Occurrences of `x` in `a`.
pub open spec fn count_eq<T>(a: Seq<T>, x: T) -> int
    decreases a.len(),
{
    if a.len() == 0 {
        0
    } else {
        count_eq(a.drop_last(), x) + if a.last() == x {
            1int
        } else {
            0
        }
    }
}

pub proof fn lemma_count_zero<T>(a: Seq<T>, x: T)
    requires
        forall|i: int| 0 <= i < a.len() ==> a[i] != x,
    ensures
        count_eq(a, x) == 0,
    decreases a.len(),
{
    if a.len() > 0 {
        lemma_count_zero(a.drop_last(), x);
    }
}

pub proof fn lemma_count_distinct<T>(a: Seq<T>, x: T)
    requires
        distinct_seq(a),
    ensures
        0 <= count_eq(a, x) <= 1,
    decreases a.len(),
{
    if a.len() > 0 {
        assert(distinct_seq(a.drop_last())) by {
            assert(forall|i: int|
                0 <= i < a.drop_last().len() ==> a.drop_last()[i] == a[i]);
        }
        lemma_count_distinct(a.drop_last(), x);
        if a.last() == x {
            lemma_count_zero(a.drop_last(), x);
        }
    }
}

pub proof fn lemma_count_contains<T>(a: Seq<T>, x: T)
    ensures
        (count_eq(a, x) >= 1) <==> a.contains(x),
        count_eq(a, x) >= 0,
    decreases a.len(),
{
    if a.len() > 0 {
        lemma_count_contains(a.drop_last(), x);
        if a.contains(x) {
            let i = choose|i: int| 0 <= i < a.len() && a[i] == x;
            if i < a.len() - 1 {
                assert(a.drop_last()[i] == x);
                assert(a.drop_last().contains(x));
            }
        }
        if a.drop_last().contains(x) {
            let i = choose|i: int| 0 <= i < a.drop_last().len() && a.drop_last()[i] == x;
            assert(a[i] == x);
        }
    }
}

pub proof fn lemma_distinct_concat<T>(a: Seq<T>, b: Seq<T>)
    requires
        distinct_seq(a),
        distinct_seq(b),
        disjoint_seq(a, b),
    ensures
        distinct_seq(a + b),
{
    assert forall|i: int, j: int| 0 <= i < j < (a + b).len() implies (a + b)[i] != (a + b)[j] by {
        if j < a.len() {
            assert((a + b)[i] == a[i] && (a + b)[j] == a[j]);
        } else if i >= a.len() {
            assert((a + b)[i] == b[i - a.len()] && (a + b)[j] == b[j - a.len()]);
        } else {
            assert((a + b)[i] == a[i] && (a + b)[j] == b[j - a.len()]);
        }
    }
}

pub proof fn lemma_disjoint_concat_left<T>(a: Seq<T>, b: Seq<T>, c: Seq<T>)
    requires
        disjoint_seq(a, c),
        disjoint_seq(b, c),
    ensures
        disjoint_seq(a + b, c),
{
    assert forall|i: int, j: int|
        0 <= i < (a + b).len() && 0 <= j < c.len() implies (a + b)[i] != c[j] by {
        if i < a.len() {
            assert((a + b)[i] == a[i]);
        } else {
            assert((a + b)[i] == b[i - a.len()]);
        }
    }
}

pub proof fn lemma_bounded_concat(a: Seq<u64>, b: Seq<u64>, hi: u64)
    requires
        ids_bounded(a, hi),
        ids_bounded(b, hi),
    ensures
        ids_bounded(a + b, hi),
{
    assert forall|i: int| 0 <= i < (a + b).len() implies 1 <= #[trigger] (a + b)[i] <= hi by {
        if i < a.len() {
            assert((a + b)[i] == a[i]);
        } else {
            assert((a + b)[i] == b[i - a.len()]);
        }
    }
}


/// Distinctness of a concatenation splits into distinctness of the
/// parts and their disjointness.
pub proof fn lemma_distinct_concat_split<T>(a: Seq<T>, b: Seq<T>)
    requires
        distinct_seq(a + b),
    ensures
        distinct_seq(a),
        distinct_seq(b),
        disjoint_seq(a, b),
        disjoint_seq(b, a),
{
    assert forall|i: int, j: int| 0 <= i < j < a.len() implies a[i] != a[j] by {
        assert((a + b)[i] == a[i] && (a + b)[j] == a[j]);
    }
    assert forall|i: int, j: int| 0 <= i < j < b.len() implies b[i] != b[j] by {
        assert((a + b)[a.len() + i] == b[i] && (a + b)[a.len() + j] == b[j]);
    }
    assert forall|i: int, j: int|
        0 <= i < a.len() && 0 <= j < b.len() implies a[i] != b[j] && b[j] != a[i] by {
        assert((a + b)[i] == a[i] && (a + b)[a.len() + j] == b[j]);
    }
}

/// Disjointness from a concatenation on the left splits per part.
pub proof fn lemma_disjoint_concat_left_split<T>(a: Seq<T>, b: Seq<T>, c: Seq<T>)
    requires
        disjoint_seq(a + b, c),
    ensures
        disjoint_seq(a, c),
        disjoint_seq(b, c),
{
    assert forall|i: int, j: int|
        0 <= i < a.len() && 0 <= j < c.len() implies a[i] != c[j] by {
        assert((a + b)[i] == a[i]);
    }
    assert forall|i: int, j: int|
        0 <= i < b.len() && 0 <= j < c.len() implies b[i] != c[j] by {
        assert((a + b)[a.len() + i] == b[i]);
    }
}

/// A bound over a concatenation bounds each part.
pub proof fn lemma_bounded_concat_split(a: Seq<u64>, b: Seq<u64>, hi: u64)
    requires
        ids_bounded(a + b, hi),
    ensures
        ids_bounded(a, hi),
        ids_bounded(b, hi),
{
    assert forall|i: int| 0 <= i < a.len() implies 1 <= #[trigger] a[i] <= hi by {
        assert((a + b)[i] == a[i]);
    }
    assert forall|i: int| 0 <= i < b.len() implies 1 <= #[trigger] b[i] <= hi by {
        assert((a + b)[a.len() + i] == b[i]);
    }
}

} // verus!
