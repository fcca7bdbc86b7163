//! The quiz engine: assignment and judgment over one bank, one tracker and
//! one ledger.

use vstd::prelude::*;
use crate::bank::{ids_distinct, keys_in_range, QuestionBank};
use crate::error::QuizError;
use crate::ident::{fresh_id, is_version4};
use crate::ledger::{judged, verdict, AnswerLedger, PendingAnswer};
use crate::question::{InstanceView, QuestionInstance, QuestionView};
use crate::tracker::{pick, record, AssignmentTracker};

verus! {

/// What an engine is, for contracts: the questions of its bank, a pair for
/// each user and each question id issued to them, and the ledger.
#[verifier::ext_equal]
pub struct EngineState {
    pub bank: Seq<QuestionView>,
    pub issued: Set<(u128, u64)>,
    pub ledger: Map<u128, PendingAnswer>,
}

impl EngineState {
    /// The engine over `bank` before any call.
    pub open spec fn fresh(bank: Seq<QuestionView>) -> EngineState {
        EngineState { bank, issued: Set::empty(), ledger: Map::empty() }
    }

    /// What holds of every engine: no two questions of its bank share an
    /// id, and the answer key of each is the index of one of its options.
    pub open spec fn valid(self) -> bool {
        ids_distinct(self.bank) && keys_in_range(self.bank)
    }

    /// The ids of the questions of `category` that have been issued to
    /// `user`.
    pub open spec fn record(self, user: u128, category: Seq<char>) -> Set<u64> {
        record(self.bank, self.issued, user, category)
    }

    /// What assigning a question of `category` to `user` returns when the
    /// instance id drawn for it is `id`. The question is the first of the
    /// category that the user has not seen.
    pub open spec fn assign_reply(self, user: u128, category: Seq<char>, id: u128) -> Result<
        InstanceView,
        QuizError,
    > {
        match pick(self.bank, self.issued, user, category) {
            Err(e) => Err(e),
            Ok(i) => if self.ledger.contains_key(id) {
                Err(QuizError::InstanceIdInUse)
            } else {
                Ok(self.bank[i].instance(id))
            },
        }
    }

    /// The engine after that call: where it returned an instance, the
    /// question is recorded as issued to `user` and its answer key stands in
    /// the ledger under `id`; where it failed, nothing has changed.
    pub open spec fn assigned(self, user: u128, category: Seq<char>, id: u128) -> EngineState {
        match pick(self.bank, self.issued, user, category) {
            Err(_) => self,
            Ok(i) => if self.ledger.contains_key(id) {
                self
            } else {
                EngineState {
                    bank: self.bank,
                    issued: self.issued.insert((user, self.bank[i].id)),
                    ledger: self.ledger.insert(
                        id,
                        PendingAnswer { correct: self.bank[i].correct, consumed: false },
                    ),
                }
            },
        }
    }

    /// What judging `proposed` against the instance `id` returns.
    pub open spec fn judge_reply(self, id: u128, proposed: u8) -> Result<(bool, u8), QuizError> {
        verdict(self.ledger, id, proposed)
    }

    /// The engine after a judgment of the instance `id`.
    pub open spec fn judged(self, id: u128) -> EngineState {
        EngineState { bank: self.bank, issued: self.issued, ledger: judged(self.ledger, id) }
    }
}

/// The engine. Every call takes it by exclusive reference, so that two calls
/// never overlap: callers that share one engine put it behind one lock.
pub struct QuizEngine {
    bank: QuestionBank,
    tracker: AssignmentTracker,
    ledger: AnswerLedger,
}

impl View for QuizEngine {
    type V = EngineState;

    closed spec fn view(&self) -> EngineState {
        EngineState { bank: self.bank@, issued: self.tracker@, ledger: self.ledger@ }
    }
}

impl QuizEngine {
    /// An engine over `bank` that has issued nothing.
    pub fn new(bank: QuestionBank) -> (engine: QuizEngine)
        ensures
            engine@ == EngineState::fresh(bank@),
            engine@.valid(),
    {
        bank.recall_invariant();
        QuizEngine { bank, tracker: AssignmentTracker::new(), ledger: AnswerLedger::new() }
    }

    /// The bank of this engine.
    pub fn bank(&self) -> (bank: &QuestionBank)
        ensures
            bank@ == self@.bank,
            self@.valid(),
    {
        self.bank.recall_invariant();
        &self.bank
    }

    /// Assigns to `user` the first question of `category` that they have not
    /// seen, as the instance `id`. Fails, and changes nothing, where the bank
    /// has no such category, where the user has seen all of it, or, after
    /// these, where `id` already names an instance.
    pub fn assign_with_id(
        &mut self,
        user: u128,
        category: &str,
        id: u128,
    ) -> (reply: Result<QuestionInstance, QuizError>)
        ensures
            match old(self)@.assign_reply(user, category@, id) {
                Ok(shown) => reply matches Ok(inst) && inst@ == shown,
                Err(e) => reply matches Err(refusal) && refusal == e,
            },
            final(self)@ == old(self)@.assigned(user, category@, id),
            final(self)@.valid(),
    {
        self.bank.recall_invariant();
        if self.ledger.contains(id) {
            return match self.tracker.find_unseen(&self.bank, user, category) {
                Ok(_) => Err(QuizError::InstanceIdInUse),
                Err(e) => Err(e),
            };
        }
        match self.tracker.pick_unseen(&self.bank, user, category) {
            Err(e) => Err(e),
            Ok(q) => {
                self.ledger.register(id, q.correct);
                Ok(q.instance(id))
            },
        }
    }

    /// Assigns to `user` the first question of `category` that they have not
    /// seen, under an instance id drawn at random, which is a version-4
    /// identifier. Fails, and changes nothing, where the bank has no such
    /// category or the user has seen all of it. Otherwise the call succeeds
    /// unless the id drawn already names an instance: it can be declined
    /// with `InstanceIdInUse` only while the ledger holds a version-4 id.
    pub fn assign_question(
        &mut self,
        user: u128,
        category: &str,
    ) -> (reply: Result<QuestionInstance, QuizError>)
        ensures
            match reply {
                Ok(inst) => {
                    &&& is_version4(inst.id)
                    &&& old(self)@.assign_reply(user, category@, inst.id) matches Ok(shown)
                    &&& inst@ == shown
                    &&& final(self)@ == old(self)@.assigned(user, category@, inst.id)
                },
                Err(e) => {
                    &&& final(self)@ == old(self)@
                    &&& match pick(old(self)@.bank, old(self)@.issued, user, category@) {
                        Ok(_) => {
                            &&& e == QuizError::InstanceIdInUse
                            &&& exists|id: u128|
                                is_version4(id) && #[trigger] old(self)@.ledger.contains_key(id)
                        },
                        Err(refusal) => e == refusal,
                    }
                },
            },
            final(self)@.valid(),
    {
        let id = fresh_id();
        self.assign_with_id(user, category, id)
    }

    /// Judges `proposed` against the instance `id` and tells whether it is
    /// right and which option is. An instance is judged once: the first
    /// judgment consumes it, and a failed call changes nothing.
    pub fn judge_answer(&mut self, id: u128, proposed: u8) -> (reply: Result<(bool, u8), QuizError>)
        ensures
            reply == old(self)@.judge_reply(id, proposed),
            final(self)@ == old(self)@.judged(id),
            final(self)@.valid(),
    {
        self.bank.recall_invariant();
        self.ledger.judge(id, proposed)
    }
}

} // verus!
