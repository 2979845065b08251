//! Partial functions: unary functions that are defined on a part of their
//! input type only.
//!
//! A [`PartialFn`] couples an evaluation procedure with a membership
//! procedure that answers, without evaluating the function, whether an
//! input lies in its domain. The two always agree. The procedures are
//! either written by hand, or they are the two into which a [`ClauseList`]
//! compiles an ordered list of guarded [`Clause`]s, of which the first that
//! admits an input decides.

pub mod procedure;
pub mod model;
pub mod clause;
pub mod compiler;
pub mod partial_fn;

pub use clause::Clause;
pub use compiler::ClauseList;
pub use partial_fn::PartialFn;
