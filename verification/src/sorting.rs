//! Stable sorting, specified once and shared by the statistics and the
//! ranking step.
//!
//! `sort_stable` is the mathematical model: an insertion sort that places
//! each element after every earlier element it does not strictly precede,
//! so elements with equal keys keep their relative order.

use vstd::prelude::*;
use vstd::relations::sorted_by;

verus! {

/// A total preorder: any two elements are comparable, and the relation is
/// transitive.  Antisymmetry is not required, so distinct elements may
/// share a key.
pub open spec fn total_preorder<A>(leq: spec_fn(A, A) -> bool) -> bool {
    &&& forall|a: A, b: A| #[trigger] leq(a, b) || #[trigger] leq(b, a)
    &&& forall|a: A, b: A, c: A| #[trigger] leq(a, b) && #[trigger] leq(b, c) ==> leq(a, c)
}

/// Inserts `x` into the sorted sequence `s`, after every element `y` with
/// `leq(y, x)`.
pub open spec fn insert_stable<A>(leq: spec_fn(A, A) -> bool, s: Seq<A>, x: A) -> Seq<A>
    decreases s.len(),
{
    if s.len() == 0 {
        seq![x]
    } else if leq(s.last(), x) {
        s.push(x)
    } else {
        insert_stable(leq, s.drop_last(), x).push(s.last())
    }
}

/// Stable insertion sort of `s` under `leq`.
pub open spec fn sort_stable<A>(leq: spec_fn(A, A) -> bool, s: Seq<A>) -> Seq<A>
    decreases s.len(),
{
    if s.len() == 0 {
        s
    } else {
        insert_stable(leq, sort_stable(leq, s.drop_last()), s.last())
    }
}

pub proof fn lemma_insert_stable_len<A>(leq: spec_fn(A, A) -> bool, s: Seq<A>, x: A)
    ensures
        insert_stable(leq, s, x).len() == s.len() + 1,
    decreases s.len(),
{
    if s.len() != 0 && !leq(s.last(), x) {
        lemma_insert_stable_len(leq, s.drop_last(), x);
    }
}

pub proof fn lemma_sort_stable_len<A>(leq: spec_fn(A, A) -> bool, s: Seq<A>)
    ensures
        sort_stable(leq, s).len() == s.len(),
    decreases s.len(),
{
    if s.len() != 0 {
        lemma_sort_stable_len(leq, s.drop_last());
        lemma_insert_stable_len(leq, sort_stable(leq, s.drop_last()), s.last());
    }
}

/// Every element of the insertion result is `x` or comes from `s`.
pub proof fn lemma_insert_stable_contains<A>(leq: spec_fn(A, A) -> bool, s: Seq<A>, x: A)
    ensures
        forall|i: int|
            0 <= i < insert_stable(leq, s, x).len() ==> insert_stable(leq, s, x)[i] == x
                || s.contains(#[trigger] insert_stable(leq, s, x)[i]),
    decreases s.len(),
{
    let r = insert_stable(leq, s, x);
    if s.len() == 0 {
    } else if leq(s.last(), x) {
        assert forall|i: int| 0 <= i < r.len() implies r[i] == x || s.contains(#[trigger] r[i]) by {
            if i < s.len() {
                assert(s.contains(r[i]));
            }
        }
    } else {
        lemma_insert_stable_contains(leq, s.drop_last(), x);
        let inner = insert_stable(leq, s.drop_last(), x);
        assert forall|i: int| 0 <= i < r.len() implies r[i] == x || s.contains(#[trigger] r[i]) by {
            if i < inner.len() {
                assert(inner[i] == x || s.drop_last().contains(inner[i]));
                if s.drop_last().contains(inner[i]) {
                    let j = choose|j: int|
                        0 <= j < s.drop_last().len() && s.drop_last()[j] == inner[i];
                    assert(s[j] == inner[i]);
                }
            } else {
                assert(r[i] == s.last());
                assert(s[s.len() - 1] == s.last());
            }
        }
    }
}

/// Every element of the sorted result comes from `s`.
pub proof fn lemma_sort_stable_contains<A>(leq: spec_fn(A, A) -> bool, s: Seq<A>)
    ensures
        forall|i: int|
            0 <= i < sort_stable(leq, s).len() ==> s.contains(#[trigger] sort_stable(leq, s)[i]),
    decreases s.len(),
{
    if s.len() != 0 {
        let sorted_prefix = sort_stable(leq, s.drop_last());
        lemma_sort_stable_contains(leq, s.drop_last());
        lemma_insert_stable_contains(leq, sorted_prefix, s.last());
        let r = sort_stable(leq, s);
        assert forall|i: int| 0 <= i < r.len() implies s.contains(#[trigger] r[i]) by {
            assert(r[i] == s.last() || sorted_prefix.contains(r[i]));
            if r[i] == s.last() {
                assert(s[s.len() - 1] == s.last());
            } else {
                let j = choose|j: int| 0 <= j < sorted_prefix.len() && sorted_prefix[j] == r[i];
                assert(s.drop_last().contains(sorted_prefix[j]));
                let k = choose|k: int|
                    0 <= k < s.drop_last().len() && s.drop_last()[k] == sorted_prefix[j];
                assert(s[k] == r[i]);
            }
        }
    }
}

pub proof fn lemma_insert_stable_sorted<A>(leq: spec_fn(A, A) -> bool, s: Seq<A>, x: A)
    requires
        total_preorder(leq),
        sorted_by(s, leq),
    ensures
        sorted_by(insert_stable(leq, s, x), leq),
    decreases s.len(),
{
    let r = insert_stable(leq, s, x);
    if s.len() == 0 {
    } else if leq(s.last(), x) {
        assert forall|i: int, j: int| 0 <= i < j < r.len() implies leq(r[i], r[j]) by {
            if j == r.len() - 1 {
                if i < s.len() - 1 {
                    assert(leq(s[i], s.last()));
                }
            }
        }
    } else {
        assert(sorted_by(s.drop_last(), leq));
        lemma_insert_stable_sorted(leq, s.drop_last(), x);
        let inner = insert_stable(leq, s.drop_last(), x);
        lemma_insert_stable_contains(leq, s.drop_last(), x);
        assert forall|i: int, j: int| 0 <= i < j < r.len() implies leq(r[i], r[j]) by {
            if j == r.len() - 1 {
                // The final element is `s.last()`; everything in `inner`
                // is `x` or an element of the sorted prefix.
                assert(inner[i] == x || s.drop_last().contains(inner[i]));
                if inner[i] == x {
                    assert(leq(x, s.last()));
                } else {
                    let k = choose|k: int|
                        0 <= k < s.drop_last().len() && s.drop_last()[k] == inner[i];
                    assert(leq(s[k], s[s.len() - 1]));
                }
            }
        }
    }
}

pub proof fn lemma_sort_stable_sorted<A>(leq: spec_fn(A, A) -> bool, s: Seq<A>)
    requires
        total_preorder(leq),
    ensures
        sorted_by(sort_stable(leq, s), leq),
    decreases s.len(),
{
    if s.len() != 0 {
        lemma_sort_stable_sorted(leq, s.drop_last());
        lemma_insert_stable_sorted(leq, sort_stable(leq, s.drop_last()), s.last());
    }
}

/// Where the insertion lands: if every element before `j` precedes `x` and
/// the element at `j` (if there is one) does not, `x` goes exactly to
/// position `j`.
pub proof fn lemma_insert_stable_at<A>(leq: spec_fn(A, A) -> bool, s: Seq<A>, x: A, j: int)
    requires
        total_preorder(leq),
        sorted_by(s, leq),
        0 <= j <= s.len(),
        forall|k: int| 0 <= k < j ==> leq(#[trigger] s[k], x),
        j < s.len() ==> !leq(s[j], x),
    ensures
        insert_stable(leq, s, x) == s.subrange(0, j) + seq![x] + s.subrange(j, s.len() as int),
    decreases s.len(),
{
    if s.len() == 0 {
        assert(insert_stable(leq, s, x) =~= s.subrange(0, j) + seq![x] + s.subrange(
            j,
            s.len() as int,
        ));
    } else if leq(s.last(), x) {
        // `x` precedes no element: the position must be the very end.
        if j < s.len() {
            assert(leq(s[j], s[s.len() - 1]));
            assert(false);
        }
        assert(s.push(x) =~= s.subrange(0, j) + seq![x] + s.subrange(j, s.len() as int));
    } else {
        if j == s.len() {
            assert(leq(s[s.len() - 1], x));
            assert(false);
        }
        lemma_insert_stable_at(leq, s.drop_last(), x, j);
        assert(insert_stable(leq, s.drop_last(), x).push(s.last()) =~= s.subrange(0, j) + seq![x]
            + s.subrange(j, s.len() as int));
    }
}

/// `filter` commutes with `push`.
proof fn lemma_filter_push<A>(s: Seq<A>, pred: spec_fn(A) -> bool, x: A)
    ensures
        (s.push(x)).filter(pred) == if pred(x) {
            s.filter(pred).push(x)
        } else {
            s.filter(pred)
        },
{
    reveal(Seq::filter);
    assert((s.push(x)).drop_last() =~= s);
}

/// Inserting `x` after every earlier element of its key class appends it
/// to the filtered view, and leaves the filtered view alone otherwise.
proof fn lemma_insert_stable_filter<A>(
    leq: spec_fn(A, A) -> bool,
    pred: spec_fn(A) -> bool,
    s: Seq<A>,
    x: A,
)
    requires
        total_preorder(leq),
        forall|i: int| pred(x) && 0 <= i < s.len() && #[trigger] pred(s[i]) ==> leq(s[i], x),
    ensures
        insert_stable(leq, s, x).filter(pred) == if pred(x) {
            s.filter(pred).push(x)
        } else {
            s.filter(pred)
        },
    decreases s.len(),
{
    reveal(Seq::filter);
    if s.len() == 0 {
        assert(seq![x].drop_last() =~= Seq::<A>::empty());
        assert(Seq::<A>::empty().filter(pred) =~= Seq::<A>::empty());
        if pred(x) {
            assert(seq![x].filter(pred) =~= s.filter(pred).push(x));
        } else {
            assert(seq![x].filter(pred) =~= s.filter(pred));
        }
    } else if leq(s.last(), x) {
        lemma_filter_push(s, pred, x);
    } else {
        let inner = insert_stable(leq, s.drop_last(), x);
        assert(forall|i: int|
            pred(x) && 0 <= i < s.drop_last().len() && #[trigger] pred(s.drop_last()[i])
                ==> leq(s.drop_last()[i], x));
        lemma_insert_stable_filter(leq, pred, s.drop_last(), x);
        lemma_filter_push(inner, pred, s.last());
        lemma_filter_push(s.drop_last(), pred, s.last());
        assert(s.drop_last().push(s.last()) =~= s);
        if pred(x) && pred(s.last()) {
            // Then `s.last()` would precede `x`, contradicting this branch.
            assert(pred(s[s.len() - 1]));
            assert(leq(s.last(), x));
            assert(false);
        }
    }
}

/// Stability: for any predicate that selects one key class (all selected
/// elements compare `leq` both ways), sorting does not disturb the
/// relative order of the selected elements.
pub proof fn lemma_sort_stable_filter<A>(
    leq: spec_fn(A, A) -> bool,
    pred: spec_fn(A) -> bool,
    s: Seq<A>,
)
    requires
        total_preorder(leq),
        forall|a: A, b: A| #[trigger] pred(a) && #[trigger] pred(b) ==> leq(a, b),
    ensures
        sort_stable(leq, s).filter(pred) == s.filter(pred),
    decreases s.len(),
{
    if s.len() != 0 {
        let sp = sort_stable(leq, s.drop_last());
        lemma_sort_stable_filter(leq, pred, s.drop_last());
        lemma_sort_stable_contains(leq, s.drop_last());
        assert(forall|i: int|
            pred(s.last()) && 0 <= i < sp.len() && #[trigger] pred(sp[i]) ==> leq(sp[i], s.last()));
        lemma_insert_stable_filter(leq, pred, sp, s.last());
        lemma_filter_push(s.drop_last(), pred, s.last());
        assert(s.drop_last().push(s.last()) =~= s);
    }
}

/// Numeric order on probe timings.
pub open spec fn u64_le() -> spec_fn(u64, u64) -> bool {
    |a: u64, b: u64| a <= b
}

pub proof fn lemma_u64_le_total_preorder()
    ensures
        total_preorder(u64_le()),
{
}

/// Sorts a vector of timings ascending; the result is exactly the stable
/// sort of the input.
pub fn sort_u64_vec(v: &mut Vec<u64>)
    ensures
        final(v)@ == sort_stable(u64_le(), old(v)@),
{
    let ghost orig = v@;
    let ghost leq = u64_le();
    proof {
        lemma_u64_le_total_preorder();
    }
    let mut i: usize = 0;
    while i < v.len()
        invariant
            i <= v@.len(),
            v@.len() == orig.len(),
            v@.subrange(i as int, orig.len() as int) == orig.subrange(i as int, orig.len() as int),
            v@.subrange(0, i as int) == sort_stable(leq, orig.subrange(0, i as int)),
            leq == u64_le(),
            total_preorder(leq),
        decreases v@.len() - i,
    {
        let ghost prefix = v@.subrange(0, i as int);
        proof {
            lemma_sort_stable_sorted(leq, orig.subrange(0, i as int));
        }
        let x = v[i];
        proof {
            assert(v@[i as int] == v@.subrange(i as int, orig.len() as int)[0]);
            assert(x == orig[i as int]);
        }
        let mut j: usize = i;
        while j > 0 && v[j - 1] > x
            invariant
                j <= i,
                i < v@.len(),
                leq == u64_le(),
                forall|k: int| j <= k < i ==> !leq(#[trigger] v@[k], x),
            decreases j,
        {
            j = j - 1;
        }
        proof {
            assert(sorted_by(prefix, leq));
            assert forall|k: int| 0 <= k < j implies leq(#[trigger] prefix[k], x) by {
                assert(leq(v@[j - 1], x));
                if k < j - 1 {
                    assert(leq(prefix[k], prefix[j - 1]));
                }
            }
            assert(j < i ==> !leq(prefix[j as int], x));
            lemma_insert_stable_at(leq, prefix, x, j as int);
        }
        let ghost before = v@;
        let y = v.remove(i);
        let ghost mid = v@;
        v.insert(j, y);
        proof {
            assert(mid == before.remove(i as int));
            assert(v@ == mid.insert(j as int, x));
            assert forall|m: int| 0 <= m < before.len() implies v@[m] == (if m < j {
                before[m]
            } else if m == j {
                x
            } else if m <= i {
                before[m - 1]
            } else {
                before[m]
            }) by {
                assert(mid == before.subrange(0, i as int) + before.subrange(
                    i + 1,
                    before.len() as int,
                ));
                assert(v@ == mid.subrange(0, j as int).push(x) + mid.subrange(
                    j as int,
                    mid.len() as int,
                ));
            }
            let next = orig.subrange(0, i + 1);
            assert(next.drop_last() =~= orig.subrange(0, i as int));
            assert(next.last() == orig[i as int]);
            assert(v@.subrange(0, i + 1) =~= prefix.subrange(0, j as int) + seq![x]
                + prefix.subrange(j as int, i as int));
            assert(v@.subrange(0, i + 1) == sort_stable(leq, next));
            assert forall|m: int| i + 1 <= m < orig.len() implies v@[m] == orig[m] by {
                assert(before[m] == before.subrange(i as int, orig.len() as int)[m - i]);
                assert(orig[m] == orig.subrange(i as int, orig.len() as int)[m - i]);
            }
            assert(v@.subrange(i + 1, orig.len() as int) =~= orig.subrange(
                i + 1,
                orig.len() as int,
            ));
        }
        i = i + 1;
    }
    proof {
        assert(orig.subrange(0, orig.len() as int) =~= orig);
        assert(v@.subrange(0, orig.len() as int) =~= v@);
    }
}

} // verus!
