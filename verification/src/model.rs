//! The meaning of clauses as mathematics.
//!
//! A clause model holds a function in place of each procedure of a clause.
//! What a list of such models computes is written here once, with no
//! procedure in sight: the bindings of the first alternative that matches,
//! the first clause that admits an input, the value there. The clauses of
//! the library are held to these models where their procedures compute the
//! functions of a model.

use vstd::prelude::*;

verus! {

/// A clause in which each procedure is a function.
#[verifier::reject_recursive_types(A)]
#[verifier::reject_recursive_types(X)]
pub ghost struct ClauseModel<A, X, B> {
    /// What each alternative binds, or `None` where it does not match.
    pub patterns: Seq<spec_fn(A) -> Option<X>>,
    /// Whether the guard lets bindings pass, if there is a guard.
    pub guard: Option<spec_fn(X) -> bool>,
    /// What the transform makes of bindings.
    pub transform: spec_fn(X) -> B,
}

impl<A, X, B> ClauseModel<A, X, B> {
    /// What alternative `i` binds on `a`.
    pub open spec fn alternative(&self, i: int, a: A) -> Option<X> {
        (self.patterns[i])(a)
    }

    /// No alternative before `i` matches `a`.
    pub open spec fn none_before(&self, i: int, a: A) -> bool {
        forall|j: int| 0 <= j < i ==> (#[trigger] self.alternative(j, a)) is None
    }

    /// Alternative `i` is the first that matches `a`.
    pub open spec fn binds_first(&self, i: int, a: A) -> bool {
        &&& 0 <= i < self.patterns.len()
        &&& self.alternative(i, a) is Some
        &&& self.none_before(i, a)
    }

    /// The bindings that the clause takes from `a`: those of the first
    /// alternative that matches, or `None` where none does.
    pub open spec fn bindings(&self, a: A) -> Option<X> {
        if exists|i: int| self.binds_first(i, a) {
            self.alternative(choose|i: int| self.binds_first(i, a), a)
        } else {
            None
        }
    }

    /// The guard lets `x` pass. A clause without a guard lets everything
    /// pass.
    pub open spec fn passes(&self, x: X) -> bool {
        match self.guard {
            Some(g) => g(x),
            None => true,
        }
    }

    /// The bindings with which the clause admits `a`: a pattern matches and
    /// the guard lets its bindings pass.
    pub open spec fn admits(&self, a: A) -> Option<X> {
        match self.bindings(a) {
            Some(x) => if self.passes(x) {
                Some(x)
            } else {
                None
            },
            None => None,
        }
    }

    /// The result of the clause on `a`, where it admits `a`.
    pub open spec fn result(&self, a: A) -> Option<B> {
        match self.admits(a) {
            Some(x) => Some((self.transform)(x)),
            None => None,
        }
    }

    /// At most one alternative is the first that matches.
    pub proof fn lemma_binds_first_is_unique(&self, i: int, k: int, a: A)
        requires
            self.binds_first(i, a),
            self.binds_first(k, a),
        ensures
            i == k,
    {
    }

    /// The first alternative that matches gives the bindings.
    pub proof fn lemma_bindings_of_first(&self, i: int, a: A)
        requires
            self.binds_first(i, a),
        ensures
            self.bindings(a) == self.alternative(i, a),
    {
        let k = choose|k: int| self.binds_first(k, a);
        self.lemma_binds_first_is_unique(i, k, a);
    }
}

/// No clause before `k` admits `a`.
pub open spec fn none_admits_before<A, X, B>(
    clauses: Seq<ClauseModel<A, X, B>>,
    k: int,
    a: A,
) -> bool {
    forall|j: int| 0 <= j < k ==> (#[trigger] clauses[j]).admits(a) is None
}

/// Clause `k` is the first that admits `a`.
pub open spec fn decides<A, X, B>(clauses: Seq<ClauseModel<A, X, B>>, k: int, a: A) -> bool {
    &&& 0 <= k < clauses.len()
    &&& clauses[k].admits(a) is Some
    &&& none_admits_before(clauses, k, a)
}

/// The index of the first clause that admits `a`, if any does.
pub open spec fn first_match<A, X, B>(clauses: Seq<ClauseModel<A, X, B>>, a: A) -> Option<int> {
    if exists|k: int| decides(clauses, k, a) {
        Some(choose|k: int| decides(clauses, k, a))
    } else {
        None
    }
}

/// The value of the list at `a`: the result of the first clause that
/// admits `a`, or `None` where no clause does.
pub open spec fn value<A, X, B>(clauses: Seq<ClauseModel<A, X, B>>, a: A) -> Option<B> {
    match first_match(clauses, a) {
        Some(k) => clauses[k].result(a),
        None => None,
    }
}

/// The list is defined at `a`: some clause admits `a`.
pub open spec fn in_domain<A, X, B>(clauses: Seq<ClauseModel<A, X, B>>, a: A) -> bool {
    exists|k: int| 0 <= k < clauses.len() && (#[trigger] clauses[k]).admits(a) is Some
}

/// At most one clause is the first that admits `a`.
pub proof fn lemma_decides_is_unique<A, X, B>(
    clauses: Seq<ClauseModel<A, X, B>>,
    i: int,
    k: int,
    a: A,
)
    requires
        decides(clauses, i, a),
        decides(clauses, k, a),
    ensures
        i == k,
{
}

/// First match wins: where clause `k` admits `a` and no clause before it
/// does, the value at `a` is the result of clause `k`, whatever the clauses
/// after `k` would make of `a`.
pub proof fn lemma_first_decides<A, X, B>(clauses: Seq<ClauseModel<A, X, B>>, k: int, a: A)
    requires
        decides(clauses, k, a),
    ensures
        first_match(clauses, a) == Some(k),
        value(clauses, a) == clauses[k].result(a),
        value(clauses, a) is Some,
{
    let c = choose|c: int| decides(clauses, c, a);
    lemma_decides_is_unique(clauses, k, c, a);
}

/// Below any clause that admits `a` stands a first one that does.
proof fn lemma_first_exists<A, X, B>(clauses: Seq<ClauseModel<A, X, B>>, k: int, a: A)
    requires
        0 <= k < clauses.len(),
        clauses[k].admits(a) is Some,
    ensures
        exists|c: int| decides(clauses, c, a),
    decreases k,
{
    if none_admits_before(clauses, k, a) {
        assert(decides(clauses, k, a));
    } else {
        let j = choose|j: int| 0 <= j < k && !((#[trigger] clauses[j]).admits(a) is None);
        lemma_first_exists(clauses, j, a);
    }
}

/// Consistency: the list is defined at `a` exactly when it has a value
/// there.
pub proof fn lemma_defined_iff_valued<A, X, B>(clauses: Seq<ClauseModel<A, X, B>>, a: A)
    ensures
        in_domain(clauses, a) <==> value(clauses, a) is Some,
        in_domain(clauses, a) <==> first_match(clauses, a) is Some,
{
    if in_domain(clauses, a) {
        let k = choose|k: int| 0 <= k < clauses.len() && (#[trigger] clauses[k]).admits(a) is Some;
        lemma_first_exists(clauses, k, a);
    }
}

} // verus!
