//! What the table asks of the values it is handed.
//!
//! Validator identities, digests, candidates, group identities and signatures
//! are chosen by whoever supplies the [`Context`](crate::Context). The table
//! never looks inside them: it compares them, copies them, and uses some of
//! them as keys. The predicates here say what "compares" and "copies" must
//! mean for the table's reasoning to hold.

use vstd::prelude::*;
use vstd::laws_eq::obeys_concrete_eq;

verus! {

/// `==` on `T` decides equality, and a clone of a value is that value.
pub open spec fn plain<T: Eq + Clone>() -> bool {
    &&& obeys_concrete_eq::<T>()
    &&& forall|a: T, b: T| #[trigger] cloned(a, b) ==> a == b
}

/// Whether two values are the same.
pub(crate) fn same<T: Eq + Clone>(a: &T, b: &T) -> (equal: bool)
    requires
        plain::<T>(),
    ensures
        equal == (*a == *b),
{
    proof {
        reveal(obeys_concrete_eq);
    }
    *a == *b
}

/// A copy of a value.
pub(crate) fn duplicate<T: Eq + Clone>(a: &T) -> (copy: T)
    requires
        plain::<T>(),
    ensures
        copy == *a,
{
    let copy = a.clone();
    assert(cloned(*a, copy));
    copy
}

} // verus!
