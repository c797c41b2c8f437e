//! The order on group identities and on candidates, and the order of the
//! posts in an ingress queue.

use vstd::prelude::*;
use vstd::laws_cmp::{
    obeys_cmp, obeys_cmp_ord, obeys_cmp_partial_ord, obeys_partial_cmp_spec_properties,
};
use vstd::laws_eq::obeys_concrete_eq;
use vstd::std_specs::btree::increasing_seq;
use vstd::std_specs::cmp::{OrdSpec, PartialEqSpec, PartialOrdSpec};
use crate::plain::plain;

verus! {

/// `a` comes before `b` in the order of `T`.
pub open spec fn before<T: Ord>(a: T, b: T) -> bool {
    a.cmp_spec(&b) is Less
}

/// `before` is a strict total order on `T`.
pub open spec fn strictly_ordered<T: Ord>() -> bool {
    &&& forall|a: T| !#[trigger] before(a, a)
    &&& forall|a: T, b: T, c: T| #[trigger]
        before(a, b) && #[trigger] before(b, c) ==> before(a, c)
    &&& forall|a: T, b: T| #[trigger] before(a, b) || a == b || before(b, a)
}

/// A type that compares as std asks of `Ord`, and whose `==` is equality, is
/// strictly and totally ordered by `before`.
pub proof fn lemma_strictly_ordered<T: Ord + Clone>()
    requires
        obeys_cmp::<T>(),
        plain::<T>(),
    ensures
        strictly_ordered::<T>(),
{
    reveal(obeys_concrete_eq);
    reveal(obeys_partial_cmp_spec_properties);
    reveal(obeys_cmp_partial_ord);
    reveal(obeys_cmp_ord);
    assert forall|a: T| !#[trigger] before(a, a) by {
        assert(a.partial_cmp_spec(&a) == Some(a.cmp_spec(&a)));
        assert(a.eq_spec(&a));
    }
    assert forall|a: T, b: T, c: T| #[trigger] before(a, b) && #[trigger] before(b, c) implies before(
        a,
        c,
    ) by {
        assert(a.partial_cmp_spec(&b) == Some(a.cmp_spec(&b)));
        assert(b.partial_cmp_spec(&c) == Some(b.cmp_spec(&c)));
        assert(a.partial_cmp_spec(&c) == Some(a.cmp_spec(&c)));
    }
    assert forall|a: T, b: T| #[trigger] before(a, b) || a == b || before(b, a) by {
        assert(a.partial_cmp_spec(&b) == Some(a.cmp_spec(&b)));
        assert(b.partial_cmp_spec(&a) == Some(b.cmp_spec(&a)));
        if a.cmp_spec(&b) is Equal {
            assert(a.eq_spec(&b));
        }
    }
}

/// Whether `a` comes before `b`.
pub(crate) fn comes_before<T: Ord>(a: &T, b: &T) -> (earlier: bool)
    requires
        obeys_cmp::<T>(),
    ensures
        earlier == before(*a, *b),
{
    proof {
        reveal(obeys_cmp_partial_ord);
        reveal(obeys_cmp_ord);
        assert(a.partial_cmp_spec(b) == Some(a.cmp_spec(b)));
    }
    *a < *b
}

/// Every element of `s` comes before the ones after it.
pub open spec fn increasing<T: Ord>(s: Seq<T>) -> bool {
    forall|i: int, j: int| 0 <= i < j < s.len() ==> before(#[trigger] s[i], #[trigger] s[j])
}

/// Two increasing sequences with the same elements are one sequence.
pub proof fn lemma_increasing_is_unique<T: Ord>(a: Seq<T>, b: Seq<T>)
    requires
        strictly_ordered::<T>(),
        increasing(a),
        increasing(b),
        forall|x: T| a.contains(x) <==> b.contains(x),
    ensures
        a == b,
    decreases a.len(),
{
    if a.len() == 0 {
        if b.len() > 0 {
            assert(b.contains(b[0]));
        }
        assert(a =~= b);
    } else {
        let top = a.last();
        assert(a.contains(top));
        assert(b.contains(top));
        assert(b.contains(b.last()));
        assert(a.contains(b.last()));
        let i = choose|i: int| 0 <= i < a.len() && a[i] == b.last();
        let j = choose|j: int| 0 <= j < b.len() && b[j] == top;
        if j < b.len() - 1 {
            assert(before(b[j], b[b.len() - 1]));
            if i < a.len() - 1 {
                assert(before(a[i], a[a.len() - 1]));
            }
        }
        assert(b.last() == top);
        let rest_a = a.drop_last();
        let rest_b = b.drop_last();
        assert forall|x: T| rest_a.contains(x) <==> rest_b.contains(x) by {
            if rest_a.contains(x) {
                let k = choose|k: int| 0 <= k < rest_a.len() && rest_a[k] == x;
                assert(a[k] == x);
                assert(before(a[k], a[a.len() - 1]));
                assert(a.contains(x));
                let m = choose|m: int| 0 <= m < b.len() && b[m] == x;
                assert(rest_b[m] == x);
            }
            if rest_b.contains(x) {
                let k = choose|k: int| 0 <= k < rest_b.len() && rest_b[k] == x;
                assert(b[k] == x);
                assert(before(b[k], b[b.len() - 1]));
                assert(b.contains(x));
                let m = choose|m: int| 0 <= m < a.len() && a[m] == x;
                assert(rest_a[m] == x);
            }
        }
        assert(increasing(rest_a)) by {
            assert forall|i: int, j: int| 0 <= i < j < rest_a.len() implies before(
                #[trigger] rest_a[i],
                #[trigger] rest_a[j],
            ) by {
                assert(before(a[i], a[j]));
            }
        }
        assert(increasing(rest_b)) by {
            assert forall|i: int, j: int| 0 <= i < j < rest_b.len() implies before(
                #[trigger] rest_b[i],
                #[trigger] rest_b[j],
            ) by {
                assert(before(b[i], b[j]));
            }
        }
        lemma_increasing_is_unique(rest_a, rest_b);
        assert(a =~= rest_a.push(top));
        assert(b =~= rest_b.push(top));
    }
}

/// One rank comes before another: it is less deep, or as deep and of a
/// lesser chain.
pub open spec fn ranks_before(a: (int, u32), b: (int, u32)) -> bool {
    a.0 < b.0 || (a.0 == b.0 && a.1 < b.1)
}

/// Keys of an ordered map from ranks compare as std asks of `Ord`.
pub proof fn lemma_ranks_are_ordered()
    ensures
        obeys_cmp::<(i64, u32)>(),
{
}

/// Keys that an ordered map from ranks hands out in its order are in the
/// order of the ranks.
pub proof fn lemma_ranks_in_order(keys: Seq<&(i64, u32)>)
    requires
        increasing_seq(keys),
    ensures
        forall|i: int, j: int|
            0 <= i < j < keys.len() ==> ranks_before(
                ((#[trigger] keys[i]).0 + 0, keys[i].1),
                ((#[trigger] keys[j]).0 + 0, keys[j].1),
            ),
{
    lemma_ranks_are_ordered();
    assert(obeys_cmp::<&(i64, u32)>());
    assert forall|i: int, j: int| 0 <= i < j < keys.len() implies ranks_before(
        ((#[trigger] keys[i]).0 + 0, keys[i].1),
        ((#[trigger] keys[j]).0 + 0, keys[j].1),
    ) by {
        assert(before::<&(i64, u32)>(keys[i], keys[j]));
    }
}

} // verus!
