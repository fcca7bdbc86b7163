//! The pending-answer ledger: for each issued instance id, the answer key
//! and whether the instance has been judged.

use std::collections::HashMap;
use vstd::prelude::*;
use crate::error::QuizError;

verus! {

broadcast use vstd::std_specs::hash::group_hash_axioms;

/// The record kept for one issued instance.
#[derive(Clone, Copy, Debug, PartialEq, Eq, Structural)]
pub struct PendingAnswer {
    pub correct: u8,
    pub consumed: bool,
}

/// The ledger after `id` has been registered with the answer key `correct`.
/// An id that is already there keeps its record.
pub open spec fn registered(
    ledger: Map<u128, PendingAnswer>,
    id: u128,
    correct: u8,
) -> Map<u128, PendingAnswer> {
    if ledger.contains_key(id) {
        ledger
    } else {
        ledger.insert(id, PendingAnswer { correct, consumed: false })
    }
}

/// What judging `proposed` against the instance `id` returns: whether the
/// proposal is right, and the right option.
pub open spec fn verdict(ledger: Map<u128, PendingAnswer>, id: u128, proposed: u8) -> Result<
    (bool, u8),
    QuizError,
> {
    if !ledger.contains_key(id) {
        Err(QuizError::NotFound)
    } else if ledger[id].consumed {
        Err(QuizError::AlreadyConsumed)
    } else {
        Ok((proposed == ledger[id].correct, ledger[id].correct))
    }
}

/// The ledger after a judgment of the instance `id`: a pending record becomes
/// consumed, and nothing else changes.
pub open spec fn judged(ledger: Map<u128, PendingAnswer>, id: u128) -> Map<u128, PendingAnswer> {
    if ledger.contains_key(id) && !ledger[id].consumed {
        ledger.insert(id, PendingAnswer { correct: ledger[id].correct, consumed: true })
    } else {
        ledger
    }
}

/// For each issued instance id, its record. A record is never removed.
pub struct AnswerLedger {
    entries: HashMap<u128, PendingAnswer>,
}

impl View for AnswerLedger {
    type V = Map<u128, PendingAnswer>;

    closed spec fn view(&self) -> Map<u128, PendingAnswer> {
        self.entries@
    }
}

impl AnswerLedger {
    /// A ledger without records.
    pub fn new() -> (ledger: AnswerLedger)
        ensures
            ledger@ == Map::<u128, PendingAnswer>::empty(),
    {
        AnswerLedger { entries: HashMap::new() }
    }

    /// Whether `id` names an issued instance.
    pub fn contains(&self, id: u128) -> (found: bool)
        ensures
            found == self@.contains_key(id),
    {
        self.entries.contains_key(&id)
    }

    /// Records the answer key of a new instance. Returns whether the record
    /// was added: an id that is already in the ledger is left as it is.
    pub fn register(&mut self, id: u128, correct: u8) -> (added: bool)
        ensures
            added == !old(self)@.contains_key(id),
            final(self)@ == registered(old(self)@, id, correct),
    {
        if self.entries.contains_key(&id) {
            false
        } else {
            self.entries.insert(id, PendingAnswer { correct, consumed: false });
            true
        }
    }

    /// Judges `proposed` against the instance `id`, once: the first judgment
    /// of an instance consumes it.
    pub fn judge(&mut self, id: u128, proposed: u8) -> (outcome: Result<(bool, u8), QuizError>)
        ensures
            outcome == verdict(old(self)@, id, proposed),
            final(self)@ == judged(old(self)@, id),
    {
        let pending = match self.entries.get(&id) {
            None => {
                return Err(QuizError::NotFound);
            },
            Some(record) => *record,
        };
        if pending.consumed {
            return Err(QuizError::AlreadyConsumed);
        }
        self.entries.insert(id, PendingAnswer { correct: pending.correct, consumed: true });
        Ok((proposed == pending.correct, pending.correct))
    }
}

} // verus!
