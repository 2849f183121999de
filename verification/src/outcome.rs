use vstd::prelude::*;
use crate::status::{DbErrorKind, classify_sqlx_error, sqlx_error_kind};

verus! {

/// What the database answered to the last action of a handler, reduced to
/// what the handler decides on.
#[derive(Debug, Clone, Copy, PartialEq, Eq, Structural)]
pub enum Outcome {
    /// The call succeeded: a transaction began or committed, a statement ran,
    /// or the one row that a query must return came back.
    Done,
    /// The call failed.
    Failed(DbErrorKind),
    /// A query for at most one row found none.
    Absent,
    /// A bundle record came back, with its id and whether it is fulfilled.
    Record { id: i64, fulfilled: bool },
    /// The available quantity of an item came back; `exceeds` tells whether
    /// the quantity requested of it is greater.
    Available { exceeds: bool },
    /// A query returned this many rows.
    Rows(usize),
    /// A statement changed this many rows.
    Affected(u64),
}

impl Outcome {
    /// Whether the call failed.
    pub fn is_failed(&self) -> (b: bool)
        ensures
            b == (*self is Failed),
    {
        match self {
            Outcome::Failed(_) => true,
            _ => false,
        }
    }

    /// The outcome of a call that failed with `error`.
    pub fn failure(error: &sqlx::Error) -> (outcome: Outcome)
        ensures
            outcome == Outcome::Failed(sqlx_error_kind(*error)),
    {
        Outcome::Failed(classify_sqlx_error(error))
    }
}

} // verus!
