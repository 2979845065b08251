//! One guarded clause: alternative patterns, an optional guard and a
//! transform.
//!
//! A pattern looks at the raw input and either binds variables or does not
//! match. The alternatives of a clause are tried in the order in which they
//! are listed, and the first that matches binds. The guard, where there is
//! one, is asked about those bindings; the transform makes the result from
//! them. Nothing is evaluated before it is needed: an alternative only after
//! all earlier ones failed, the guard only on bindings of a pattern that
//! matched, the transform only on bindings that the guard let pass. The
//! conditions under which a clause may be used ask no more of its
//! procedures than that.

use vstd::prelude::*;
use core::marker::PhantomData;
use crate::model::ClauseModel;
use crate::procedure::pure_at;

verus! {

/// A clause over inputs `A`, bindings `X` and results `B`.
pub struct Clause<A, X, B, P, G, T> {
    patterns: Vec<P>,
    guard: Option<G>,
    transform: T,
    types: PhantomData<(A, X, B)>,
}

impl<A, X, B, P, G, T> Clause<A, X, B, P, G, T> where
    P: Fn(&A) -> Option<X>,
    G: Fn(&X) -> bool,
    T: Fn(X) -> B,
 {
    /// The alternative patterns, in the order in which they are tried.
    pub closed spec fn patterns(&self) -> Seq<P> {
        self.patterns@
    }

    /// The guard, if the clause has one.
    pub closed spec fn guard(&self) -> Option<G> {
        self.guard
    }

    /// The transform.
    pub closed spec fn transform(&self) -> T {
        self.transform
    }

    /// Alternative `i` may fail to match `a`.
    pub open spec fn misses(&self, i: int, a: A) -> bool {
        call_ensures(self.patterns()[i], (&a,), None::<X>)
    }

    /// Every alternative before `i` may fail to match `a`.
    pub open spec fn all_miss_before(&self, i: int, a: A) -> bool {
        forall|j: int| 0 <= j < i ==> #[trigger] self.misses(j, a)
    }

    /// Alternative `i` may be the first that matches `a`, binding `x`.
    pub open spec fn binds_at(&self, i: int, a: A, x: X) -> bool {
        &&& 0 <= i < self.patterns().len()
        &&& self.all_miss_before(i, a)
        &&& call_ensures(self.patterns()[i], (&a,), Some(x))
    }

    /// The clause may take the bindings `found` from `a`: those of the
    /// first alternative that matches, or `None` where none does.
    pub open spec fn binds(&self, a: A, found: Option<X>) -> bool {
        match found {
            Some(x) => exists|i: int| self.binds_at(i, a, x),
            None => self.all_miss_before(self.patterns().len() as int, a),
        }
    }

    /// The guard may answer `pass` on the bindings `x`. A clause without a
    /// guard lets everything pass.
    pub open spec fn passes(&self, x: X, pass: bool) -> bool {
        match self.guard() {
            Some(g) => call_ensures(g, (&x,), pass),
            None => pass,
        }
    }

    /// The test of pattern and guard on `a` may end with `admitted`: the
    /// bindings of a pattern that matched and that the guard let pass, or
    /// `None` where no pattern matched or the guard refused.
    pub open spec fn admits(&self, a: A, admitted: Option<X>) -> bool {
        match admitted {
            Some(x) => self.binds(a, Some(x)) && self.passes(x, true),
            None => self.binds(a, None) || exists|x: X|
                self.binds(a, Some(x)) && self.passes(x, false),
        }
    }

    /// The transform may make `b` of the bindings `x`.
    pub open spec fn makes(&self, x: X, b: B) -> bool {
        call_ensures(self.transform(), (x,), b)
    }

    /// The patterns can be tried on `a`: each alternative is pure at `a`
    /// unless an earlier one matches.
    pub open spec fn matchable_at(&self, a: A) -> bool {
        forall|i: int|
            0 <= i < self.patterns().len() && self.all_miss_before(i, a) ==> #[trigger] pure_at(
                self.patterns()[i],
                &a,
            )
    }

    /// Pattern and guard can be tested on `a`: the patterns can be tried
    /// there, and the guard is pure at whatever they bind. Nothing is asked
    /// of the guard elsewhere, and nothing of the transform.
    pub open spec fn testable_at(&self, a: A) -> bool {
        &&& self.matchable_at(a)
        &&& forall|x: X|
            self.guard() is Some && #[trigger] self.binds(a, Some(x)) ==> pure_at(
                self.guard().unwrap(),
                &x,
            )
    }

    /// The clause can be evaluated on `a`: it can be tested there, and the
    /// transform is pure at the bindings with which the clause admits `a`.
    /// Nothing is asked of the transform elsewhere.
    pub open spec fn evaluable_at(&self, a: A) -> bool {
        &&& self.testable_at(a)
        &&& forall|x: X| #[trigger] self.admits(a, Some(x)) ==> pure_at(self.transform(), x)
    }

    /// Makes a clause of its alternatives, its guard and its transform.
    pub fn new(patterns: Vec<P>, guard: Option<G>, transform: T) -> (clause: Self)
        ensures
            clause.patterns() == patterns@,
            clause.guard() == guard,
            clause.transform() == transform,
    {
        Clause { patterns, guard, transform, types: PhantomData }
    }

    /// Tries the alternatives in order on `a` and returns the bindings of
    /// the first that matches.
    pub fn bind(&self, a: &A) -> (found: Option<X>)
        requires
            self.matchable_at(*a),
        ensures
            self.binds(*a, found),
    {
        let mut i: usize = 0;
        while i < self.patterns.len()
            invariant
                i <= self.patterns.len(),
                self.matchable_at(*a),
                self.all_miss_before(i as int, *a),
            decreases self.patterns.len() - i,
        {
            assert(pure_at(self.patterns()[i as int], a));
            let bound = (self.patterns[i])(a);
            if let Some(x) = bound {
                assert(self.binds_at(i as int, *a, x));
                return Some(x);
            }
            i += 1;
        }
        None
    }

    /// Tests pattern and guard on `a`: the bindings with which the clause
    /// admits `a`, or `None`. The guard is asked only when a pattern
    /// matched, and the transform never.
    pub fn test(&self, a: &A) -> (admitted: Option<X>)
        requires
            self.testable_at(*a),
        ensures
            self.admits(*a, admitted),
    {
        match self.bind(a) {
            Some(x) => {
                let pass = match &self.guard {
                    Some(g) => g(&x),
                    None => true,
                };
                if pass {
                    Some(x)
                } else {
                    assert(self.binds(*a, Some(x)) && self.passes(x, false));
                    None
                }
            },
            None => None,
        }
    }

    /// Hands the bindings `x` to the transform.
    pub fn apply(&self, x: X) -> (made: B)
        requires
            pure_at(self.transform(), x),
        ensures
            self.makes(x, made),
    {
        (self.transform)(x)
    }

    /// Where the patterns can be tried, the bindings are determined: the
    /// clause cannot take two different bindings from one input, nor match
    /// it and fail to match it.
    pub proof fn lemma_binds_once(&self, a: A, first: Option<X>, second: Option<X>)
        requires
            self.matchable_at(a),
            self.binds(a, first),
            self.binds(a, second),
        ensures
            first == second,
    {
        match (first, second) {
            (Some(x), Some(y)) => {
                let i = choose|i: int| self.binds_at(i, a, x);
                let k = choose|k: int| self.binds_at(k, a, y);
                assert(pure_at(self.patterns()[i], &a));
                assert(pure_at(self.patterns()[k], &a));
                if i < k {
                    assert(self.misses(i, a));
                } else if k < i {
                    assert(self.misses(k, a));
                }
            },
            (Some(x), None) => {
                let i = choose|i: int| self.binds_at(i, a, x);
                assert(self.misses(i, a));
                assert(pure_at(self.patterns()[i], &a));
            },
            (None, Some(y)) => {
                let k = choose|k: int| self.binds_at(k, a, y);
                assert(self.misses(k, a));
                assert(pure_at(self.patterns()[k], &a));
            },
            (None, None) => {},
        }
    }

    /// Where pattern and guard can be tested, the test is determined: the
    /// clause cannot admit one input with two different bindings, nor admit
    /// it and reject it.
    pub proof fn lemma_admits_once(&self, a: A, first: Option<X>, second: Option<X>)
        requires
            self.testable_at(a),
            self.admits(a, first),
            self.admits(a, second),
        ensures
            first == second,
    {
        let found = self.bound_of(a, first);
        let again = self.bound_of(a, second);
        self.lemma_binds_once(a, found, again);
    }

    /// The bindings behind the outcome `admitted` of a test on `a`.
    spec fn bound_of(&self, a: A, admitted: Option<X>) -> Option<X> {
        match admitted {
            Some(x) => Some(x),
            None => if self.binds(a, None) {
                None
            } else {
                Some(choose|x: X| self.binds(a, Some(x)) && self.passes(x, false))
            },
        }
    }

    /// The guard is asked only after a pattern matched: where no pattern
    /// matches `a`, the clause can be tested on `a` whatever its guard is,
    /// and the test rejects `a`.
    pub proof fn lemma_guard_unasked(&self, a: A)
        requires
            self.matchable_at(a),
            self.binds(a, None),
        ensures
            self.testable_at(a),
            forall|admitted: Option<X>| self.admits(a, admitted) ==> admitted is None,
    {
        assert forall|x: X| !(#[trigger] self.binds(a, Some(x))) by {
            if self.binds(a, Some(x)) {
                self.lemma_binds_once(a, Some(x), None);
            }
        }
    }

    /// The transform is asked only after the guard let the bindings pass:
    /// where the test rejects `a`, the clause can be evaluated on `a`
    /// whatever its transform is.
    pub proof fn lemma_transform_unasked(&self, a: A)
        requires
            self.testable_at(a),
            self.admits(a, None),
        ensures
            self.evaluable_at(a),
    {
        assert forall|x: X| !(#[trigger] self.admits(a, Some(x))) by {
            if self.admits(a, Some(x)) {
                self.lemma_admits_once(a, Some(x), None);
            }
        }
    }

    /// The test does not depend on the transform: a clause with the same
    /// patterns and the same guard can be tested on the same inputs, with
    /// the same outcomes, whatever its transform makes and of whatever
    /// type.
    pub proof fn lemma_test_ignores_transform<C, U: Fn(X) -> C>(
        &self,
        other: Clause<A, X, C, P, G, U>,
        a: A,
    )
        requires
            self.patterns() == other.patterns(),
            self.guard() == other.guard(),
        ensures
            self.testable_at(a) == other.testable_at(a),
            forall|admitted: Option<X>| self.admits(a, admitted) == other.admits(a, admitted),
    {
        assert forall|i: int| self.all_miss_before(i, a) == other.all_miss_before(i, a) by {
            assert forall|j: int| self.misses(j, a) == other.misses(j, a) by {}
        }
        assert forall|found: Option<X>| self.binds(a, found) == other.binds(a, found) by {
            if let Some(x) = found {
                assert forall|i: int| self.binds_at(i, a, x) == other.binds_at(i, a, x) by {}
            }
        }
        assert forall|x: X, pass: bool| self.passes(x, pass) == other.passes(x, pass) by {}
    }

    /// The clause follows the model `m`: it has as many alternatives and a
    /// guard where the model has one, and whatever one of its procedures
    /// returns is the value of the model's function.
    pub open spec fn follows(&self, m: ClauseModel<A, X, B>) -> bool {
        &&& m.patterns.len() == self.patterns().len()
        &&& forall|i: int, a: A, r: Option<X>|
            0 <= i < self.patterns().len() && #[trigger] call_ensures(
                self.patterns()[i],
                (&a,),
                r,
            ) ==> r == m.alternative(i, a)
        &&& self.guard() is Some <==> m.guard is Some
        &&& forall|x: X, r: bool|
            self.guard() is Some && #[trigger] call_ensures(self.guard().unwrap(), (&x,), r) ==> r
                == m.passes(x)
        &&& forall|x: X, b: B| #[trigger]
            call_ensures(self.transform(), (x,), b) ==> b == (m.transform)(x)
    }

    /// The bindings that a clause may take are those of the model it
    /// follows.
    pub proof fn lemma_binds_follows(&self, m: ClauseModel<A, X, B>, a: A, found: Option<X>)
        requires
            self.follows(m),
            self.binds(a, found),
        ensures
            found == m.bindings(a),
    {
        match found {
            Some(x) => {
                let i = choose|i: int| self.binds_at(i, a, x);
                assert forall|j: int| 0 <= j < i implies (#[trigger] m.alternative(j, a))
                    is None by {
                    assert(self.misses(j, a));
                }
                m.lemma_bindings_of_first(i, a);
            },
            None => {
                if exists|i: int| m.binds_first(i, a) {
                    let i = choose|i: int| m.binds_first(i, a);
                    assert(self.misses(i, a));
                }
            },
        }
    }

    /// The outcome of a test is that of the model that the clause follows.
    pub proof fn lemma_admits_follows(&self, m: ClauseModel<A, X, B>, a: A, admitted: Option<X>)
        requires
            self.follows(m),
            self.admits(a, admitted),
        ensures
            admitted == m.admits(a),
    {
        self.lemma_binds_follows(m, a, self.bound_of(a, admitted));
    }
}

} // verus!
