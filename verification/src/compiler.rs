//! The clause compiler: from an ordered list of clauses to the two
//! procedures of a partial function.
//!
//! The first clause that admits an input decides it. Both procedures go
//! through the list by the same search, so they cannot disagree; the
//! membership procedure stops there, and only the evaluation procedure goes
//! on to the transform of the clause that was found.

use vstd::prelude::*;
use crate::clause::Clause;
use crate::model::{
    decides, in_domain, lemma_defined_iff_valued, lemma_first_decides, value, ClauseModel,
};
use crate::partial_fn::consistent;
use crate::procedure::pure_at;

verus! {

/// An ordered list of clauses over the same inputs, bindings and results.
pub struct ClauseList<A, X, B, P, G, T> {
    clauses: Vec<Clause<A, X, B, P, G, T>>,
}

impl<A, X, B, P, G, T> View for ClauseList<A, X, B, P, G, T> {
    type V = Seq<Clause<A, X, B, P, G, T>>;

    closed spec fn view(&self) -> Self::V {
        self.clauses@
    }
}

impl<A, X, B, P, G, T> ClauseList<A, X, B, P, G, T> where
    P: Fn(&A) -> Option<X>,
    G: Fn(&X) -> bool,
    T: Fn(X) -> B,
 {
    /// Every clause before `k` may reject `a`.
    pub open spec fn none_before(&self, k: int, a: A) -> bool {
        forall|j: int| 0 <= j < k ==> (#[trigger] self@[j]).admits(a, None)
    }

    /// Clause `k` may be the first that admits `a`, with the bindings `x`.
    pub open spec fn finds_at(&self, k: int, a: A, x: X) -> bool {
        &&& 0 <= k < self@.len()
        &&& self.none_before(k, a)
        &&& self@[k].admits(a, Some(x))
    }

    /// The search for `a` may end with `hit`: the index of the first clause
    /// that admits `a` and the bindings it took, or `None` where no clause
    /// admits `a`.
    pub open spec fn finds(&self, a: A, hit: Option<(usize, X)>) -> bool {
        match hit {
            Some((k, x)) => self.finds_at(k as int, a, x),
            None => self.none_before(self@.len() as int, a),
        }
    }

    /// Membership of `a` may be answered with `yes`: `true` where some
    /// clause is the first to admit `a`, `false` where none admits it.
    pub open spec fn defines(&self, a: A, yes: bool) -> bool {
        if yes {
            exists|k: int, x: X| self.finds_at(k, a, x)
        } else {
            self.none_before(self@.len() as int, a)
        }
    }

    /// Evaluation at `a` may give `out`: what the transform of the first
    /// clause that admits `a` makes of its bindings, or `None` where no
    /// clause admits `a`.
    pub open spec fn yields(&self, a: A, out: Option<B>) -> bool {
        match out {
            Some(b) => exists|k: int, x: X| self.finds_at(k, a, x) && self@[k].makes(x, b),
            None => self.none_before(self@.len() as int, a),
        }
    }

    /// Membership of `a` can be decided: each clause can be tested on `a`
    /// unless an earlier one admits it. Nothing is asked of any transform.
    pub open spec fn testable_at(&self, a: A) -> bool {
        forall|k: int|
            0 <= k < self@.len() && self.none_before(k, a) ==> (#[trigger] self@[k]).testable_at(
                a,
            )
    }

    /// The list can be evaluated on `a`: each clause can be evaluated on
    /// `a` unless an earlier one admits it.
    pub open spec fn evaluable_at(&self, a: A) -> bool {
        forall|k: int|
            0 <= k < self@.len() && self.none_before(k, a) ==> (#[trigger] self@[k]).evaluable_at(
                a,
            )
    }

    /// Takes the clauses in the order in which they are to be tried.
    pub fn new(clauses: Vec<Clause<A, X, B, P, G, T>>) -> (list: Self)
        ensures
            list@ == clauses@,
    {
        ClauseList { clauses }
    }

    /// Searches the list in order for the first clause that admits `a`, and
    /// returns its index with the bindings it took. No clause after it is
    /// tested, and no transform is evaluated.
    pub fn find(&self, a: &A) -> (hit: Option<(usize, X)>)
        requires
            self.testable_at(*a),
        ensures
            self.finds(*a, hit),
    {
        let mut k: usize = 0;
        while k < self.clauses.len()
            invariant
                k <= self.clauses.len(),
                self.testable_at(*a),
                self.none_before(k as int, *a),
            decreases self.clauses.len() - k,
        {
            assert(self@[k as int].testable_at(*a));
            if let Some(x) = self.clauses[k].test(a) {
                return Some((k, x));
            }
            k += 1;
        }
        None
    }

    /// The membership procedure: whether some clause admits `a`. It makes
    /// the same search as `evaluate` and evaluates no transform.
    pub fn defined_at(&self, a: &A) -> (yes: bool)
        requires
            self.testable_at(*a),
        ensures
            self.defines(*a, yes),
    {
        self.find(a).is_some()
    }

    /// The evaluation procedure: the result of the first clause that admits
    /// `a`, or `None` where no clause does.
    pub fn evaluate(&self, a: &A) -> (out: Option<B>)
        requires
            self.evaluable_at(*a),
        ensures
            self.yields(*a, out),
    {
        proof {
            self.lemma_testable_where_evaluable(*a);
        }
        match self.find(a) {
            Some((k, x)) => Some(self.clauses[k].apply(x)),
            None => None,
        }
    }

    /// A list that can be evaluated on `a` can be tested there.
    pub proof fn lemma_testable_where_evaluable(&self, a: A)
        requires
            self.evaluable_at(a),
        ensures
            self.testable_at(a),
    {
        assert forall|k: int| 0 <= k < self@.len() && self.none_before(k, a) implies (
        #[trigger] self@[k]).testable_at(a) by {
            assert(self@[k].evaluable_at(a));
        }
    }

    /// Where membership can be decided, the search is determined: it cannot
    /// end at two different clauses or with two different bindings, nor
    /// both find a clause and find none.
    pub proof fn lemma_finds_once(
        &self,
        a: A,
        first: Option<(usize, X)>,
        second: Option<(usize, X)>,
    )
        requires
            self.testable_at(a),
            self.finds(a, first),
            self.finds(a, second),
        ensures
            first == second,
    {
        match (first, second) {
            (Some((i, x)), Some((k, y))) => {
                self.lemma_finds_at_once(a, i as int, x, k as int, y);
            },
            (Some((i, x)), None) => {
                self@[i as int].lemma_admits_once(a, Some(x), None);
            },
            (None, Some((k, y))) => {
                self@[k as int].lemma_admits_once(a, Some(y), None);
            },
            (None, None) => {},
        }
    }

    /// Where membership can be decided, at most one clause is the first
    /// that admits `a`, and with the same bindings.
    pub proof fn lemma_finds_at_once(&self, a: A, i: int, x: X, k: int, y: X)
        requires
            self.testable_at(a),
            self.finds_at(i, a, x),
            self.finds_at(k, a, y),
        ensures
            i == k,
            x == y,
    {
        if i < k {
            self@[i].lemma_admits_once(a, Some(x), None);
        } else if k < i {
            self@[k].lemma_admits_once(a, Some(y), None);
        } else {
            self@[i].lemma_admits_once(a, Some(x), Some(y));
        }
    }

    /// First match wins: where clause `k` admits `a` and no clause before
    /// it does, evaluation gives what the transform of clause `k` makes of
    /// its bindings, whatever the clauses after `k` would do with `a`.
    pub proof fn lemma_first_match_wins(&self, a: A, k: int, x: X, out: Option<B>)
        requires
            self.testable_at(a),
            self.finds_at(k, a, x),
            self.yields(a, out),
        ensures
            out is Some,
            self@[k].makes(x, out.unwrap()),
    {
        match out {
            Some(b) => {
                let (c, y) = choose|c: int, y: X| self.finds_at(c, a, y) && self@[c].makes(y, b);
                self.lemma_finds_at_once(a, k, x, c, y);
            },
            None => {
                self@[k].lemma_admits_once(a, Some(x), None);
            },
        }
    }

    /// Consistency: where membership can be decided, its answer is `true`
    /// exactly when evaluation gives a value.
    pub proof fn lemma_defines_agrees_with_yields(&self, a: A, yes: bool, out: Option<B>)
        requires
            self.testable_at(a),
            self.defines(a, yes),
            self.yields(a, out),
        ensures
            yes <==> out is Some,
    {
        if yes && out is None {
            let (k, x) = choose|k: int, x: X| self.finds_at(k, a, x);
            self.lemma_first_match_wins(a, k, x, out);
        }
        if !yes && out is Some {
            let b = out.unwrap();
            let (k, x) = choose|k: int, x: X| self.finds_at(k, a, x) && self@[k].makes(x, b);
            self@[k].lemma_admits_once(a, Some(x), None);
        }
    }

    /// Purity of evaluation: where the list can be evaluated, any two
    /// results for one input are equal.
    pub proof fn lemma_yields_once(&self, a: A, first: Option<B>, second: Option<B>)
        requires
            self.evaluable_at(a),
            self.yields(a, first),
            self.yields(a, second),
        ensures
            first == second,
    {
        self.lemma_testable_where_evaluable(a);
        match first {
            Some(b) => {
                let (k, x) = choose|k: int, x: X| self.finds_at(k, a, x) && self@[k].makes(x, b);
                self.lemma_first_match_wins(a, k, x, second);
            },
            None => {
                if second is Some {
                    self.lemma_defines_agrees_with_yields(a, false, second);
                }
            },
        }
    }

    /// Purity of membership: where it can be decided, any two answers for
    /// one input are equal.
    pub proof fn lemma_defines_once(&self, a: A, first: bool, second: bool)
        requires
            self.testable_at(a),
            self.defines(a, first),
            self.defines(a, second),
        ensures
            first == second,
    {
        if first != second {
            let (k, x) = choose|k: int, x: X| self.finds_at(k, a, x);
            self@[k].lemma_admits_once(a, Some(x), None);
        }
    }

    /// Once a clause admits `a`, no later clause is asked: where clause
    /// `k` admits `a` and the clauses up to `k` can be tested on `a`, the
    /// list can be tested on `a`, whatever the clauses after `k` are.
    pub proof fn lemma_later_clauses_unasked(&self, a: A, k: int, x: X)
        requires
            self.finds_at(k, a, x),
            forall|j: int|
                0 <= j <= k && self.none_before(j, a) ==> (#[trigger] self@[j]).testable_at(a),
        ensures
            self.testable_at(a),
    {
        assert forall|j: int| k < j < self@.len() implies !self.none_before(j, a) by {
            if self.none_before(j, a) {
                self@[k].lemma_admits_once(a, Some(x), None);
            }
        }
    }

    /// Membership does not depend on the transforms: a list with the same
    /// patterns and guards, clause by clause, can be tested on the same
    /// inputs and gives the same answers, whatever its transforms make.
    pub proof fn lemma_membership_ignores_transforms<C, U: Fn(X) -> C>(
        &self,
        other: ClauseList<A, X, C, P, G, U>,
        a: A,
    )
        requires
            self@.len() == other@.len(),
            forall|k: int|
                0 <= k < self@.len() ==> (#[trigger] self@[k]).patterns() == other@[k].patterns()
                    && self@[k].guard() == other@[k].guard(),
        ensures
            self.testable_at(a) == other.testable_at(a),
            forall|yes: bool| self.defines(a, yes) == other.defines(a, yes),
    {
        assert forall|k: int| 0 <= k < self@.len() implies (forall|admitted: Option<X>|
            (#[trigger] self@[k]).admits(a, admitted) == other@[k].admits(a, admitted))
            && self@[k].testable_at(a) == other@[k].testable_at(a) by {
            self@[k].lemma_test_ignores_transform(other@[k], a);
        }
        assert forall|k: int| 0 <= k <= self@.len() implies self.none_before(k, a)
            == other.none_before(k, a) by {
            if self.none_before(k, a) {
                assert forall|j: int| 0 <= j < k implies (#[trigger] other@[j]).admits(
                    a,
                    None,
                ) by {
                    assert(self@[j].admits(a, None));
                }
            }
            if other.none_before(k, a) {
                assert forall|j: int| 0 <= j < k implies (#[trigger] self@[j]).admits(a, None) by {
                    assert(other@[j].admits(a, None));
                }
            }
        }
        assert forall|k: int, x: X| self.finds_at(k, a, x) == other.finds_at(k, a, x) by {}
        if self.testable_at(a) {
            assert forall|k: int|
                0 <= k < other@.len() && other.none_before(k, a) implies (
            #[trigger] other@[k]).testable_at(a) by {
                assert(self@[k].testable_at(a));
            }
        }
        if other.testable_at(a) {
            assert forall|k: int|
                0 <= k < self@.len() && self.none_before(k, a) implies (
            #[trigger] self@[k]).testable_at(a) by {
                assert(other@[k].testable_at(a));
            }
        }
        assert forall|yes: bool| self.defines(a, yes) == other.defines(a, yes) by {
            if yes && self.defines(a, yes) {
                let (k, x) = choose|k: int, x: X| self.finds_at(k, a, x);
                assert(other.finds_at(k, a, x));
            }
            if yes && other.defines(a, yes) {
                let (k, x) = choose|k: int, x: X| other.finds_at(k, a, x);
                assert(self.finds_at(k, a, x));
            }
        }
    }

    /// The list follows the models `ms`: clause by clause, in the same
    /// order.
    pub open spec fn follows(&self, ms: Seq<ClauseModel<A, X, B>>) -> bool {
        &&& ms.len() == self@.len()
        &&& forall|k: int| 0 <= k < self@.len() ==> (#[trigger] self@[k]).follows(ms[k])
    }

    /// What evaluation may give is the value of the models that the list
    /// follows.
    pub proof fn lemma_yields_follows(&self, ms: Seq<ClauseModel<A, X, B>>, a: A, out: Option<B>)
        requires
            self.follows(ms),
            self.yields(a, out),
        ensures
            out == value(ms, a),
    {
        match out {
            Some(b) => {
                let (k, x) = choose|k: int, x: X| self.finds_at(k, a, x) && self@[k].makes(x, b);
                self.lemma_finds_at_follows(ms, a, k, x);
                lemma_first_decides(ms, k, a);
            },
            None => {
                self.lemma_none_follows(ms, a);
                lemma_defined_iff_valued(ms, a);
            },
        }
    }

    /// What membership may answer is whether the models that the list
    /// follows are defined.
    pub proof fn lemma_defines_follows(&self, ms: Seq<ClauseModel<A, X, B>>, a: A, yes: bool)
        requires
            self.follows(ms),
            self.defines(a, yes),
        ensures
            yes == in_domain(ms, a),
    {
        if yes {
            let (k, x) = choose|k: int, x: X| self.finds_at(k, a, x);
            self.lemma_finds_at_follows(ms, a, k, x);
            lemma_first_decides(ms, k, a);
            lemma_defined_iff_valued(ms, a);
        } else {
            self.lemma_none_follows(ms, a);
        }
    }

    /// Where the search may end at clause `k`, clause `k` decides in the
    /// models, with the same bindings.
    proof fn lemma_finds_at_follows(&self, ms: Seq<ClauseModel<A, X, B>>, a: A, k: int, x: X)
        requires
            self.follows(ms),
            self.finds_at(k, a, x),
        ensures
            decides(ms, k, a),
            ms[k].admits(a) == Some(x),
    {
        self@[k].lemma_admits_follows(ms[k], a, Some(x));
        assert forall|j: int| 0 <= j < k implies (#[trigger] ms[j]).admits(a) is None by {
            self@[j].lemma_admits_follows(ms[j], a, None);
        }
    }

    /// Where the search may find nothing, no model admits `a`.
    proof fn lemma_none_follows(&self, ms: Seq<ClauseModel<A, X, B>>, a: A)
        requires
            self.follows(ms),
            self.none_before(self@.len() as int, a),
        ensures
            !in_domain(ms, a),
    {
        assert forall|j: int| 0 <= j < ms.len() implies (#[trigger] ms[j]).admits(a) is None by {
            self@[j].lemma_admits_follows(ms[j], a, None);
        }
    }

    /// Compiles the list into the two procedures of a partial function:
    /// the evaluation procedure and the membership procedure. Both make the
    /// same search through the list, and they agree.
    pub fn compile<'a>(&'a self) -> (procedures: (
        impl Fn(A) -> Option<B> + 'a,
        impl Fn(A) -> bool + 'a,
    ))
        requires
            forall|a: A| self.evaluable_at(a),
        ensures
            consistent(procedures.0, procedures.1),
            forall|a: A, out: Option<B>|
                call_ensures(procedures.0, (a,), out) ==> self.yields(a, out),
            forall|a: A, yes: bool|
                call_ensures(procedures.1, (a,), yes) ==> self.defines(a, yes),
    {
        let eval = move |a: A| -> (out: Option<B>)
            ensures
                self.yields(a, out),
            { self.evaluate(&a) };
        let defined = move |a: A| -> (yes: bool)
            ensures
                self.defines(a, yes),
            {
                proof {
                    self.lemma_testable_where_evaluable(a);
                }
                self.defined_at(&a)
            };
        proof {
            assert forall|a: A| #[trigger] pure_at(eval, a) by {
                assert forall|r1: Option<B>, r2: Option<B>|
                    call_ensures(eval, (a,), r1) && call_ensures(eval, (a,), r2) implies r1
                    == r2 by {
                    self.lemma_yields_once(a, r1, r2);
                }
            }
            assert forall|a: A| #[trigger] pure_at(defined, a) by {
                self.lemma_testable_where_evaluable(a);
                assert forall|r1: bool, r2: bool|
                    call_ensures(defined, (a,), r1) && call_ensures(defined, (a,), r2) implies r1
                    == r2 by {
                    self.lemma_defines_once(a, r1, r2);
                }
            }
            assert forall|a: A, out: Option<B>, yes: bool|
                call_ensures(eval, (a,), out) && call_ensures(defined, (a,), yes) implies yes
                == out.is_some() by {
                self.lemma_testable_where_evaluable(a);
                self.lemma_defines_agrees_with_yields(a, yes, out);
            }
        }
        (eval, defined)
    }
}

} // verus!
