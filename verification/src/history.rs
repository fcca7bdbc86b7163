//! Sequences of calls on an engine, and what every such sequence keeps.

use vstd::prelude::*;
use crate::engine::EngineState;
use crate::error::QuizError;
use crate::question::InstanceView;
use crate::bank::in_category;
use crate::tracker::{exhausted, is_next, lemma_next_exists, next_unseen, pick, unseen};

verus! {

/// A call on the engine. An assignment carries the instance id that was
/// drawn for it.
pub enum Call {
    Assign { user: u128, category: Seq<char>, id: u128 },
    Judge { id: u128, proposed: u8 },
}

/// What a call returns.
pub enum Reply {
    Assigned(Result<InstanceView, QuizError>),
    Judged(Result<(bool, u8), QuizError>),
}

impl Call {
    /// The call judges the instance `id`.
    pub open spec fn judges(self, id: u128) -> bool {
        self matches Call::Judge { id: judged, .. } && judged == id
    }

    /// The call is an assignment for which the instance id `id` was drawn.
    pub open spec fn draws(self, id: u128) -> bool {
        self matches Call::Assign { id: drawn, .. } && drawn == id
    }

    /// The call asks for a question of `category` for `user`.
    pub open spec fn asks(self, user: u128, category: Seq<char>) -> bool {
        self matches Call::Assign { user: u, category: c, .. } && u == user && c == category
    }
}

impl EngineState {
    /// What `call` returns in this state.
    pub open spec fn reply(self, call: Call) -> Reply {
        match call {
            Call::Assign { user, category, id } => Reply::Assigned(
                self.assign_reply(user, category, id),
            ),
            Call::Judge { id, proposed } => Reply::Judged(self.judge_reply(id, proposed)),
        }
    }

    /// `call` succeeds in this state.
    pub open spec fn accepts(self, call: Call) -> bool {
        match self.reply(call) {
            Reply::Assigned(r) => r is Ok,
            Reply::Judged(r) => r is Ok,
        }
    }

    /// The state after `call`.
    pub open spec fn after(self, call: Call) -> EngineState {
        match call {
            Call::Assign { user, category, id } => self.assigned(user, category, id),
            Call::Judge { id, .. } => self.judged(id),
        }
    }

    /// The state after `calls`, made one after the other.
    pub open spec fn after_all(self, calls: Seq<Call>) -> EngineState
        decreases calls.len(),
    {
        if calls.len() == 0 {
            self
        } else {
            self.after_all(calls.drop_last()).after(calls.last())
        }
    }

    /// The state in which the call at `k` of `calls` is made.
    pub open spec fn before(self, calls: Seq<Call>, k: int) -> EngineState {
        self.after_all(calls.take(k))
    }

    /// The place in the bank of the question that an assignment to `user` in
    /// `category` hands out in this state, where it succeeds.
    pub open spec fn place(self, user: u128, category: Seq<char>) -> int {
        next_unseen(self.bank, self.issued, user, category)
    }

    /// Whatever was issued or registered in this state is so in `later`, with
    /// the same answer key, and what was consumed stays consumed.
    pub open spec fn kept_by(self, later: EngineState) -> bool {
        &&& later.bank == self.bank
        &&& self.issued.subset_of(later.issued)
        &&& forall|id: u128| #[trigger]
            self.ledger.contains_key(id) ==> {
                &&& later.ledger.contains_key(id)
                &&& later.ledger[id].correct == self.ledger[id].correct
                &&& self.ledger[id].consumed ==> later.ledger[id].consumed
            }
    }
}

/// The state before the call at `k + 1` is the state before the call at `k`,
/// after that call.
pub proof fn lemma_before_next(s: EngineState, calls: Seq<Call>, k: int)
    requires
        0 <= k < calls.len(),
    ensures
        s.before(calls, k + 1) == s.before(calls, k).after(calls[k]),
        s.before(calls, 0) == s,
        s.before(calls, calls.len() as int) == s.after_all(calls),
{
    assert(calls.take(k + 1).drop_last() =~= calls.take(k));
    assert(calls.take(calls.len() as int) =~= calls);
    assert(calls.take(0).len() == 0);
}

/// A successful assignment hands out a question that the user had not seen
/// in the category, under an id that named no instance.
pub proof fn lemma_assignment(s: EngineState, user: u128, category: Seq<char>, id: u128)
    requires
        s.assign_reply(user, category, id) is Ok,
    ensures
        unseen(s.bank, s.issued, user, category, s.place(user, category)),
        !s.ledger.contains_key(id),
        pick(s.bank, s.issued, user, category) == Ok::<int, QuizError>(s.place(user, category)),
        s.assign_reply(user, category, id) == Ok::<InstanceView, QuizError>(
            s.bank[s.place(user, category)].instance(id),
        ),
{
    assert(!exhausted(s.bank, s.issued, user, category));
    let i = choose|i: int| unseen(s.bank, s.issued, user, category, i);
    lemma_next_exists(s.bank, s.issued, user, category, i);
}

/// An assignment is owed where a question of the category is unseen and the
/// id names no instance yet: it then hands out the first unseen question.
pub proof fn lemma_assignment_owed(
    s: EngineState,
    user: u128,
    category: Seq<char>,
    id: u128,
    i: int,
)
    requires
        unseen(s.bank, s.issued, user, category, i),
        !s.ledger.contains_key(id),
    ensures
        s.assign_reply(user, category, id) == Ok::<InstanceView, QuizError>(
            s.bank[s.place(user, category)].instance(id),
        ),
        is_next(s.bank, s.issued, user, category, s.place(user, category)),
        0 <= s.place(user, category) <= i,
{
    lemma_next_exists(s.bank, s.issued, user, category, i);
    assert(in_category(s.bank, category, i));
}

/// No call takes anything back: what was issued stays issued, a registered
/// instance stays registered with its answer key, and a consumed one stays
/// consumed.
pub proof fn lemma_call_keeps(s: EngineState, call: Call)
    ensures
        s.kept_by(s.after(call)),
        !s.accepts(call) ==> s.after(call) == s,
{
    match call {
        Call::Assign { user, category, id } => {
            if s.assign_reply(user, category, id) is Ok {
                lemma_assignment(s, user, category, id);
            }
        },
        Call::Judge { id, proposed } => {},
    }
}

/// What holds before an earlier call of a sequence still holds before a
/// later one.
pub proof fn lemma_history_keeps(s: EngineState, calls: Seq<Call>, i: int, j: int)
    requires
        0 <= i <= j <= calls.len(),
    ensures
        s.before(calls, i).kept_by(s.before(calls, j)),
    decreases j - i,
{
    if i < j {
        lemma_history_keeps(s, calls, i, j - 1);
        lemma_before_next(s, calls, j - 1);
        lemma_call_keeps(s.before(calls, j - 1), calls[j - 1]);
    }
}

/// The bank never changes, so a valid engine stays valid.
pub proof fn lemma_history_valid(s: EngineState, calls: Seq<Call>, k: int)
    requires
        0 <= k <= calls.len(),
        s.valid(),
    ensures
        s.before(calls, k).bank == s.bank,
        s.before(calls, k).valid(),
{
    lemma_history_keeps(s, calls, 0, k);
    assert(calls.take(0).len() == 0);
}

/// The record of an instance stays as it is over calls that do not judge it.
pub proof fn lemma_pending_until_judged(
    s: EngineState,
    calls: Seq<Call>,
    i: int,
    j: int,
    id: u128,
)
    requires
        0 <= i <= j <= calls.len(),
        s.before(calls, i).ledger.contains_key(id),
        forall|k: int| i <= k < j ==> !calls[k].judges(id),
    ensures
        s.before(calls, j).ledger.contains_key(id),
        s.before(calls, j).ledger[id] == s.before(calls, i).ledger[id],
    decreases j - i,
{
    if i < j {
        lemma_pending_until_judged(s, calls, i, j - 1, id);
        lemma_before_next(s, calls, j - 1);
        let mid = s.before(calls, j - 1);
        match calls[j - 1] {
            Call::Assign { user, category, id: drawn } => {
                if mid.assign_reply(user, category, drawn) is Ok {
                    lemma_assignment(mid, user, category, drawn);
                }
            },
            Call::Judge { id: other, proposed } => {
                assert(!calls[j - 1].judges(id));
            },
        }
    }
}

} // verus!
