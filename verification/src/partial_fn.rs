//! The partial function itself.
//!
//! A partial function is made once, of two procedures that agree, and is
//! not changed afterwards. That the two agree is an invariant of the type:
//! `call` and `is_defined_at` ask nothing of their caller.

use vstd::prelude::*;
use core::marker::PhantomData;
use crate::procedure::pure_at;

verus! {

/// Two procedures agree when both are pure everywhere and the second
/// answers `true` exactly where the first returns a value.
pub open spec fn consistent<A, B, E: Fn(A) -> Option<B>, D: Fn(A) -> bool>(
    eval: E,
    defined: D,
) -> bool {
    &&& forall|a: A| #[trigger] pure_at(eval, a)
    &&& forall|a: A| #[trigger] pure_at(defined, a)
    &&& forall|a: A, out: Option<B>, yes: bool|
        call_ensures(eval, (a,), out) && call_ensures(defined, (a,), yes) ==> yes
            == out.is_some()
}

/// A function from `A` to `B` that is defined on a part of `A`.
#[verifier::reject_recursive_types(A)]
#[verifier::reject_recursive_types(B)]
pub struct PartialFn<A, B, E: Fn(A) -> Option<B>, D: Fn(A) -> bool> {
    eval: E,
    defined: D,
    types: PhantomData<(A, B)>,
}

impl<A, B, E: Fn(A) -> Option<B>, D: Fn(A) -> bool> PartialFn<A, B, E, D> {
    /// The procedure that evaluates the function.
    pub closed spec fn evaluator(&self) -> E {
        self.eval
    }

    /// The procedure that answers membership in the domain.
    pub closed spec fn membership(&self) -> D {
        self.defined
    }

    /// The central invariant: the two procedures agree on every input.
    #[verifier::type_invariant]
    pub open spec fn wf(&self) -> bool {
        consistent(self.evaluator(), self.membership())
    }

    /// Evaluation at `a` may give `out`: a value, or `None` outside the
    /// domain.
    pub open spec fn maps(&self, a: A, out: Option<B>) -> bool {
        call_ensures(self.evaluator(), (a,), out)
    }

    /// The membership test at `a` may answer `yes`.
    pub open spec fn answers(&self, a: A, yes: bool) -> bool {
        call_ensures(self.membership(), (a,), yes)
    }

    /// Makes a partial function of two procedures that already agree.
    pub fn new(eval: E, defined: D) -> (pf: Self)
        requires
            consistent(eval, defined),
        ensures
            pf.wf(),
            pf.evaluator() == eval,
            pf.membership() == defined,
    {
        PartialFn { eval, defined, types: PhantomData }
    }

    /// Evaluates the function at `arg`: the value there, or `None` where the
    /// function is not defined. The result is the only one that evaluation
    /// gives at `arg`, and it is a value exactly where the membership test
    /// answers `true`.
    pub fn call(&self, arg: A) -> (out: Option<B>)
        ensures
            self.maps(arg, out),
            forall|other: Option<B>| self.maps(arg, other) ==> other == out,
            forall|yes: bool| self.answers(arg, yes) ==> yes == out.is_some(),
    {
        proof {
            use_type_invariant(self);
            assert(pure_at(self.eval, arg));
        }
        (self.eval)(arg)
    }

    /// Tells whether the function is defined at `arg`, without evaluating
    /// it. The answer is the only one that the membership test gives at
    /// `arg`, and it is `true` exactly where evaluation gives a value.
    pub fn is_defined_at(&self, arg: A) -> (yes: bool)
        ensures
            self.answers(arg, yes),
            forall|other: bool| self.answers(arg, other) ==> other == yes,
            forall|out: Option<B>| self.maps(arg, out) ==> yes == out.is_some(),
    {
        proof {
            use_type_invariant(self);
            assert(pure_at(self.defined, arg));
        }
        (self.defined)(arg)
    }
}

/// Consistency: whatever `call` and `is_defined_at` return for one input,
/// the second is `true` exactly when the first is a value.
pub proof fn lemma_membership_agrees_with_call<A, B, E: Fn(A) -> Option<B>, D: Fn(A) -> bool>(
    pf: PartialFn<A, B, E, D>,
    a: A,
    out: Option<B>,
    yes: bool,
)
    requires
        call_ensures(PartialFn::<A, B, E, D>::call, (&pf, a), out),
        call_ensures(PartialFn::<A, B, E, D>::is_defined_at, (&pf, a), yes),
    ensures
        yes <==> out.is_some(),
{
}

/// Purity of `call`: any two results of it on one input are equal.
pub proof fn lemma_call_repeats<A, B, E: Fn(A) -> Option<B>, D: Fn(A) -> bool>(
    pf: PartialFn<A, B, E, D>,
    a: A,
    first: Option<B>,
    second: Option<B>,
)
    requires
        call_ensures(PartialFn::<A, B, E, D>::call, (&pf, a), first),
        call_ensures(PartialFn::<A, B, E, D>::call, (&pf, a), second),
    ensures
        first == second,
{
}

/// Purity of `is_defined_at`: any two answers of it on one input are equal.
pub proof fn lemma_is_defined_at_repeats<A, B, E: Fn(A) -> Option<B>, D: Fn(A) -> bool>(
    pf: PartialFn<A, B, E, D>,
    a: A,
    first: bool,
    second: bool,
)
    requires
        call_ensures(PartialFn::<A, B, E, D>::is_defined_at, (&pf, a), first),
        call_ensures(PartialFn::<A, B, E, D>::is_defined_at, (&pf, a), second),
    ensures
        first == second,
{
}

} // verus!
