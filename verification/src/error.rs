//! The conditions under which the engine declines a call.

use vstd::prelude::*;

verus! {

/// Why a call was declined. Each of them leaves the engine as it was.
#[derive(Clone, Copy, Debug, PartialEq, Eq, Structural)]
pub enum QuizError {
    /// The bank has no question in the requested category.
    UnknownCategory,
    /// The user has been issued every question of the category.
    Exhausted,
    /// No instance, question or user is there under what was given.
    NotFound,
    /// The instance has been judged before.
    AlreadyConsumed,
    /// The identifier drawn for a new instance already names an instance.
    InstanceIdInUse,
}

} // verus!
