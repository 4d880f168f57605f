//! Error taxonomy of the execution core.
//!
//! Every fallible operation surfaces one of these variants; conditions that
//! indicate a planner or type-invariant bug are not represented here but are
//! excluded by preconditions instead.

use vstd::prelude::*;

verus! {

/// The error type returned by relations and expression evaluation.
#[derive(Debug)]
pub enum ExecutionError {
    /// A recognized but unsupported data type or function variant was
    /// requested; the caller may choose a different plan.
    NotImplemented(String),
    /// A runtime evaluation failure while computing an expression against a
    /// batch; propagated, never retried.
    ExecutionError(String),
    /// A structural or planning invariant was violated; indicates a bug
    /// upstream in plan construction.
    General(String),
}

impl ExecutionError {
    /// Render the error as text for callers outside the library.
    pub fn message(&self) -> (r: &String)
        ensures
            r@ == self.text(),
    {
        match self {
            ExecutionError::NotImplemented(s) => s,
            ExecutionError::ExecutionError(s) => s,
            ExecutionError::General(s) => s,
        }
    }

    /// The text carried by the error, whichever variant holds it.
    pub open spec fn text(&self) -> Seq<char> {
        match self {
            ExecutionError::NotImplemented(s) => s@,
            ExecutionError::ExecutionError(s) => s@,
            ExecutionError::General(s) => s@,
        }
    }
}

} // verus!
