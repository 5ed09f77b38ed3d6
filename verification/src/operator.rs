//! The combining operation: an executable function object, and the
//! mathematical functions that describe it.
use vstd::prelude::*;

verus! {

/// Whether `plus` can be called on every pair of values.
pub open spec fn accepts_all<T, F: Fn(T, T) -> T>(plus: F) -> bool {
    forall|a: T, b: T| #[trigger] call_requires(plus, (a, b))
}

/// Whether `plus` computes `op`: whatever a call of `plus` on `a` and `b`
/// returns is `op(a, b)`.
pub open spec fn computes<T, F: Fn(T, T) -> T>(plus: F, op: spec_fn(T, T) -> T) -> bool {
    forall|a: T, b: T, r: T| #[trigger] call_ensures(plus, (a, b), r) ==> r == op(a, b)
}

/// `op(op(a, b), c)` is `op(a, op(b, c))`.
#[verifier::opaque]
pub open spec fn is_associative<T>(op: spec_fn(T, T) -> T) -> bool {
    forall|a: T, b: T, c: T| #[trigger] op(op(a, b), c) == op(a, op(b, c))
}

/// `op(a, b)` is `op(b, a)`.
#[verifier::opaque]
pub open spec fn is_commutative<T>(op: spec_fn(T, T) -> T) -> bool {
    forall|a: T, b: T| #[trigger] op(a, b) == op(b, a)
}

/// `op(zero, a)` is `a`.
#[verifier::opaque]
pub open spec fn is_left_identity<T>(op: spec_fn(T, T) -> T, zero: T) -> bool {
    forall|a: T| #[trigger] op(zero, a) == a
}

/// Calls `plus` on `a` and `b`: the result is `op(a, b)` for every function
/// `op` that `plus` computes.
pub fn apply<T: Copy, F: Fn(T, T) -> T>(plus: &F, a: T, b: T) -> (r: T)
    requires
        accepts_all(*plus),
    ensures
        call_ensures(*plus, (a, b), r),
        forall|op: spec_fn(T, T) -> T| #[trigger] computes(*plus, op) ==> r == op(a, b),
{
    plus(a, b)
}

} // verus!
