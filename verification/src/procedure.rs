//! What is asked of the executable procedures that the library is handed.
//!
//! To the verifier a procedure is a relation between arguments and the
//! results that it may return. The library asks that a procedure be pure
//! where it is called: that it may be called there, and that it returns the
//! same result whenever it is called there.

use vstd::prelude::*;

verus! {

/// `f` may be called at `s`, and any two results that it may return there
/// are equal.
pub open spec fn pure_at<S, R, F: Fn(S) -> R>(f: F, s: S) -> bool {
    &&& call_requires(f, (s,))
    &&& forall|r1: R, r2: R|
        call_ensures(f, (s,), r1) && call_ensures(f, (s,), r2) ==> r1 == r2
}

} // verus!
