//! What holds of every sequence of calls on an engine.

use vstd::prelude::*;
use crate::bank::{has_category, in_category, lemma_of_category_empty};
use crate::counting::{
    category_size, lemma_count_after_issue, lemma_count_none_seen, lemma_count_zero,
};
use crate::engine::EngineState;
use crate::error::QuizError;
use crate::history::{
    lemma_assignment, lemma_before_next, lemma_call_keeps, lemma_history_keeps,
    lemma_history_valid, lemma_pending_until_judged, Call, Reply,
};
use crate::ledger::PendingAnswer;
use crate::question::{InstanceView, QuestionView};
use crate::tracker::{
    exhausted, is_next, lemma_next_exists, lemma_next_unique, next_unseen, pick, unseen,
};

verus! {

/// An id that named no instance at the start, and under which no assignment
/// of the sequence succeeded, names no instance at any point of it.
proof fn lemma_unissued_absent(s: EngineState, calls: Seq<Call>, id: u128, j: int)
    requires
        0 <= j <= calls.len(),
        !s.ledger.contains_key(id),
        forall|k: int|
            0 <= k < calls.len() && #[trigger] calls[k].draws(id) ==> !s.before(calls, k).accepts(
                calls[k],
            ),
    ensures
        !s.before(calls, j).ledger.contains_key(id),
    decreases j,
{
    if j == 0 {
        assert(calls.take(0).len() == 0);
    } else {
        lemma_unissued_absent(s, calls, id, j - 1);
        lemma_before_next(s, calls, j - 1);
        let mid = s.before(calls, j - 1);
        lemma_call_keeps(mid, calls[j - 1]);
        if calls[j - 1].draws(id) {
            assert(!mid.accepts(calls[j - 1]));
        }
    }
}

/// Judging an instance id that was never issued returns `NotFound`, whatever
/// is proposed and whatever calls came before: here the id named no instance
/// at the start, and no assignment of `calls` succeeded under it.
pub proof fn lemma_unissued_not_found(s: EngineState, calls: Seq<Call>, id: u128, proposed: u8)
    requires
        !s.ledger.contains_key(id),
        forall|k: int|
            0 <= k < calls.len() && #[trigger] calls[k].draws(id) ==> !s.before(calls, k).accepts(
                calls[k],
            ),
    ensures
        s.after_all(calls).judge_reply(id, proposed) == Err::<(bool, u8), QuizError>(
            QuizError::NotFound,
        ),
{
    lemma_unissued_absent(s, calls, id, calls.len() as int);
    assert(calls.take(calls.len() as int) =~= calls);
}

/// The first judgment of an instance is accepted, and its verdict compares
/// the proposal with the answer key of the question behind the instance:
/// the call at `a` assigned the instance `id`, the call at `j` judges it, and
/// no call between them does. In a valid engine that key is the index of
/// one of the question's options, so that nothing else is ever judged right.
pub proof fn lemma_first_judgment(
    s: EngineState,
    calls: Seq<Call>,
    a: int,
    j: int,
    user: u128,
    category: Seq<char>,
    id: u128,
    proposed: u8,
)
    requires
        0 <= a < j < calls.len(),
        calls[a] == (Call::Assign { user, category, id }),
        s.before(calls, a).accepts(calls[a]),
        calls[j] == (Call::Judge { id, proposed }),
        forall|k: int| a < k < j ==> !calls[k].judges(id),
    ensures
        ({
            let asked = s.before(calls, a);
            let question = asked.bank[asked.place(user, category)];
            let key = question.correct;
            &&& s.before(calls, j).reply(calls[j]) == Reply::Judged(Ok((proposed == key, key)))
            &&& s.valid() ==> key < question.options.len()
        }),
{
    let asked = s.before(calls, a);
    lemma_assignment(asked, user, category, id);
    if s.valid() {
        lemma_history_valid(s, calls, a);
    }
    lemma_before_next(s, calls, a);
    lemma_pending_until_judged(s, calls, a + 1, j, id);
}

/// An instance is judged once: after the call at `i` has judged the instance
/// `id`, the call at `j`, which judges it again, returns `AlreadyConsumed`,
/// whatever calls lie between them.
pub proof fn lemma_second_judgment(
    s: EngineState,
    calls: Seq<Call>,
    i: int,
    j: int,
    id: u128,
    first: u8,
    second: u8,
)
    requires
        0 <= i < j < calls.len(),
        calls[i] == (Call::Judge { id, proposed: first }),
        s.before(calls, i).accepts(calls[i]),
        calls[j] == (Call::Judge { id, proposed: second }),
    ensures
        s.before(calls, j).reply(calls[j]) == Reply::Judged(Err(QuizError::AlreadyConsumed)),
{
    lemma_before_next(s, calls, i);
    lemma_history_keeps(s, calls, i + 1, j);
    assert(s.before(calls, i + 1).ledger.contains_key(id));
}

/// Two assignments that succeed never hand out the same instance id, and
/// never the same question to one user.
pub proof fn lemma_assignments_distinct(
    s: EngineState,
    calls: Seq<Call>,
    i: int,
    j: int,
    first: (u128, Seq<char>, u128),
    second: (u128, Seq<char>, u128),
)
    requires
        0 <= i < j < calls.len(),
        calls[i] == (Call::Assign { user: first.0, category: first.1, id: first.2 }),
        calls[j] == (Call::Assign { user: second.0, category: second.1, id: second.2 }),
        s.before(calls, i).accepts(calls[i]),
        s.before(calls, j).accepts(calls[j]),
    ensures
        first.2 != second.2,
        first.0 == second.0 ==> ({
            let a = s.before(calls, i);
            let b = s.before(calls, j);
            &&& a.place(first.0, first.1) != b.place(second.0, second.1)
            &&& a.bank[a.place(first.0, first.1)].id != b.bank[b.place(second.0, second.1)].id
        }),
{
    let a = s.before(calls, i);
    let b = s.before(calls, j);
    lemma_assignment(a, first.0, first.1, first.2);
    lemma_assignment(b, second.0, second.1, second.2);
    lemma_before_next(s, calls, i);
    lemma_history_keeps(s, calls, i, i + 1);
    lemma_history_keeps(s, calls, i + 1, j);
    let mid = s.before(calls, i + 1);
    assert(mid.ledger.contains_key(first.2));
    assert(mid.issued.contains((first.0, a.bank[a.place(first.0, first.1)].id)));
}

/// The record of a user in a category gains the id of each question that
/// they are assigned there, which it did not hold before, and is changed by
/// no other call.
pub proof fn lemma_record_grows(s: EngineState, call: Call, user: u128, category: Seq<char>)
    requires
        s.valid(),
    ensures
        ({
            let before = s.record(user, category);
            let after = s.after(call).record(user, category);
            let id = s.bank[s.place(user, category)].id;
            if call.asks(user, category) && s.accepts(call) {
                !before.contains(id) && after == before.insert(id)
            } else {
                after == before
            }
        }),
{
    let before = s.record(user, category);
    let after = s.after(call).record(user, category);
    match call {
        Call::Assign { user: who, category: asked, id: drawn } => {
            if s.assign_reply(who, asked, drawn) is Ok {
                lemma_assignment(s, who, asked, drawn);
                let p = s.place(who, asked);
                assert(in_category(s.bank, asked, p));
                if who == user && asked == category {
                    assert(after =~= before.insert(s.bank[p].id));
                } else {
                    assert forall|id: u64| after.contains(id) implies before.contains(id) by {
                        if id == s.bank[p].id && who == user {
                            let i = choose|i: int|
                                in_category(s.bank, category, i) && s.bank[i].id == id;
                            assert(i == p);
                        }
                    }
                    assert(after =~= before);
                }
            } else {
                assert(after =~= before);
            }
        },
        Call::Judge { id, proposed } => {
            assert(after =~= before);
        },
    }
}

/// How many calls of `calls` asked for a question of `category` for `user`
/// and got one.
pub open spec fn successes(s: EngineState, calls: Seq<Call>, user: u128, category: Seq<char>) -> nat
    decreases calls.len(),
{
    if calls.len() == 0 {
        0
    } else {
        let earlier = successes(s, calls.drop_last(), user, category);
        if calls.last().asks(user, category) && s.after_all(calls.drop_last()).accepts(
            calls.last(),
        ) {
            earlier + 1
        } else {
            earlier
        }
    }
}

/// Each question that `user` gets of `category` is one fewer left for them:
/// the successes of a sequence and what is left after it add up to what was
/// left before it.
pub proof fn lemma_budget(s: EngineState, calls: Seq<Call>, user: u128, category: Seq<char>)
    requires
        s.valid(),
    ensures
        successes(s, calls, user, category) + s.after_all(calls).remaining(user, category)
            == s.remaining(user, category),
    decreases calls.len(),
{
    if calls.len() > 0 {
        let front = calls.drop_last();
        let mid = s.after_all(front);
        lemma_budget(s, front, user, category);
        lemma_history_valid(s, front, front.len() as int);
        assert(front.take(front.len() as int) =~= front);
        match calls.last() {
            Call::Assign { user: who, category: asked, id } => {
                if mid.assign_reply(who, asked, id) is Ok {
                    lemma_assignment(mid, who, asked, id);
                    lemma_count_after_issue(
                        mid.bank,
                        mid.issued,
                        user,
                        category,
                        who,
                        mid.place(who, asked),
                        mid.bank.len() as int,
                    );
                }
            },
            Call::Judge { id, proposed } => {},
        }
    }
}

/// A user gets at most as many questions of a category as the bank has in
/// it, whatever the calls.
pub proof fn lemma_at_most_all(
    bank: Seq<QuestionView>,
    calls: Seq<Call>,
    user: u128,
    category: Seq<char>,
)
    requires
        EngineState::fresh(bank).valid(),
    ensures
        successes(EngineState::fresh(bank), calls, user, category) <= category_size(bank, category),
{
    let s = EngineState::fresh(bank);
    lemma_budget(s, calls, user, category);
    lemma_count_none_seen(bank, s.issued, user, category, bank.len() as int);
    assert(bank.take(bank.len() as int) =~= bank);
}

/// Once a user has got as many questions of a category as the bank has in
/// it, every later call that asks for one more returns `Exhausted`: the
/// first `k` calls hold that many successes, and the call at `j` comes after
/// them. The category has at least one question.
pub proof fn lemma_then_exhausted(
    bank: Seq<QuestionView>,
    calls: Seq<Call>,
    user: u128,
    category: Seq<char>,
    k: int,
    j: int,
)
    requires
        EngineState::fresh(bank).valid(),
        category_size(bank, category) > 0,
        0 <= k <= j < calls.len(),
        successes(EngineState::fresh(bank), calls.take(k), user, category) == category_size(
            bank,
            category,
        ),
        calls[j].asks(user, category),
    ensures
        EngineState::fresh(bank).before(calls, j).reply(calls[j]) == Reply::Assigned(
            Err(QuizError::Exhausted),
        ),
{
    let s = EngineState::fresh(bank);
    let full = s.before(calls, k);
    let now = s.before(calls, j);
    lemma_budget(s, calls.take(k), user, category);
    lemma_count_none_seen(bank, s.issued, user, category, bank.len() as int);
    assert(bank.take(bank.len() as int) =~= bank);
    lemma_history_valid(s, calls, k);
    lemma_history_keeps(s, calls, k, j);
    lemma_count_zero(full.bank, full.issued, user, category, bank.len() as int);
    assert forall|i: int| !unseen(now.bank, now.issued, user, category, i) by {
        if in_category(bank, category, i) {
            assert(!unseen(full.bank, full.issued, user, category, i));
            assert(full.issued.contains((user, bank[i].id)));
        }
    }
    lemma_of_category_empty(bank, category);
}

/// The assignments to `user` in `category` under the instance ids `ids`, in
/// their order.
pub open spec fn assignments(user: u128, category: Seq<char>, ids: Seq<u128>) -> Seq<Call> {
    Seq::new(ids.len(), |k: int| Call::Assign { user, category, id: ids[k] })
}

/// Over the first `k` of such assignments each succeeds and takes one from
/// what is left, and the ledger gains their ids and no others.
proof fn lemma_dealing(s: EngineState, user: u128, category: Seq<char>, ids: Seq<u128>, k: int)
    requires
        s.valid(),
        0 <= k <= ids.len() <= s.remaining(user, category),
        forall|a: int, b: int| 0 <= a < b < ids.len() ==> ids[a] != ids[b],
        forall|a: int| 0 <= a < ids.len() ==> !s.ledger.contains_key(ids[a]),
    ensures
        forall|m: int|
            0 <= m < k ==> (#[trigger] s.before(assignments(user, category, ids), m)).accepts(
                assignments(user, category, ids)[m],
            ),
        s.before(assignments(user, category, ids), k).remaining(user, category) + k
            == s.remaining(user, category),
        forall|id: u128| #[trigger]
            s.before(assignments(user, category, ids), k).ledger.contains_key(id)
                ==> s.ledger.contains_key(id) || exists|m: int| 0 <= m < k && ids[m] == id,
    decreases k,
{
    let calls = assignments(user, category, ids);
    if k == 0 {
        assert(calls.take(0).len() == 0);
    } else {
        lemma_dealing(s, user, category, ids, k - 1);
        lemma_before_next(s, calls, k - 1);
        lemma_history_valid(s, calls, k - 1);
        let mid = s.before(calls, k - 1);
        let id = ids[k - 1];
        lemma_count_zero(mid.bank, mid.issued, user, category, mid.bank.len() as int);
        let i = choose|i: int|
            0 <= i < mid.bank.len() && unseen(mid.bank, mid.issued, user, category, i);
        assert(in_category(mid.bank, category, i));
        assert(!exhausted(mid.bank, mid.issued, user, category));
        if mid.ledger.contains_key(id) {
            let m = choose|m: int| 0 <= m < k - 1 && ids[m] == id;
            assert(ids[m] != ids[k - 1]);
        }
        assert(mid.assign_reply(user, category, id) is Ok);
        lemma_assignment(mid, user, category, id);
        lemma_count_after_issue(
            mid.bank,
            mid.issued,
            user,
            category,
            user,
            mid.place(user, category),
            mid.bank.len() as int,
        );
        let next = s.before(calls, k);
        assert forall|other: u128| #[trigger] next.ledger.contains_key(other) implies (
        s.ledger.contains_key(other) || exists|m: int| 0 <= m < k && ids[m] == other) by {
            if other == id {
                assert(ids[k - 1] == other);
            } else {
                assert(mid.ledger.contains_key(other));
                if !s.ledger.contains_key(other) {
                    let m = choose|m: int| 0 <= m < k - 1 && ids[m] == other;
                    assert(0 <= m < k && ids[m] == other);
                }
            }
        }
        assert forall|m: int| 0 <= m < k implies (#[trigger] s.before(calls, m)).accepts(
            calls[m],
        ) by {
            if m == k - 1 {
            }
        }
    }
}

/// Where a category has as many questions as there are callers, and a user
/// who has seen none of them asks once for each caller, under instance ids
/// that differ and name no instance yet, then in whatever order the calls
/// are served each gets a question, no two get the same, and no question of
/// the category is left out. Afterwards the record of the user holds every
/// question of the category, the ledger has gained one pending record for
/// each call, under its id and with the answer key of its question, and
/// nothing else, and one more call returns `Exhausted`.
pub proof fn lemma_every_question_dealt(
    s: EngineState,
    user: u128,
    category: Seq<char>,
    ids: Seq<u128>,
)
    requires
        s.valid(),
        forall|i: int| #[trigger]
            in_category(s.bank, category, i) ==> !s.issued.contains((user, s.bank[i].id)),
        ids.len() == category_size(s.bank, category),
        forall|a: int, b: int| 0 <= a < b < ids.len() ==> ids[a] != ids[b],
        forall|a: int| 0 <= a < ids.len() ==> !s.ledger.contains_key(ids[a]),
    ensures
        ({
            let calls = assignments(user, category, ids);
            let end = s.after_all(calls);
            &&& forall|k: int|
                0 <= k < ids.len() ==> (#[trigger] s.before(calls, k)).accepts(calls[k])
            &&& forall|k: int, l: int|
                0 <= k < l < ids.len() ==> (#[trigger] s.before(calls, k)).place(user, category)
                    != (#[trigger] s.before(calls, l)).place(user, category)
            &&& forall|i: int| #[trigger]
                in_category(end.bank, category, i) ==> end.issued.contains((user, end.bank[i].id))
                    && end.record(user, category).contains(end.bank[i].id)
            &&& forall|id: u128|
                end.ledger.contains_key(id) <==> s.ledger.contains_key(id) || ids.contains(id)
            &&& forall|id: u128| #[trigger]
                s.ledger.contains_key(id) ==> end.ledger[id] == s.ledger[id]
            &&& forall|k: int|
                0 <= k < ids.len() ==> end.ledger[#[trigger] ids[k]] == (PendingAnswer {
                    correct: s.bank[s.before(calls, k).place(user, category)].correct,
                    consumed: false,
                })
            &&& ids.len() > 0 ==> forall|id: u128| #[trigger]
                end.assign_reply(user, category, id) == Err::<InstanceView, QuizError>(
                    QuizError::Exhausted,
                )
        }),
{
    let calls = assignments(user, category, ids);
    let end = s.after_all(calls);
    let n = ids.len() as int;
    lemma_history_keeps(s, calls, 0, n);
    assert(calls.take(0).len() == 0);
    assert forall|id: u128| #[trigger] s.ledger.contains_key(id) implies end.ledger[id]
        == s.ledger[id] by {
        assert(calls.take(n) =~= calls);
        lemma_pending_until_judged(s, calls, 0, n, id);
    }
    assert forall|k: int| 0 <= k < ids.len() implies end.ledger.contains_key(ids[k])
        && end.ledger[#[trigger] ids[k]] == (PendingAnswer {
        correct: s.bank[s.before(calls, k).place(user, category)].correct,
        consumed: false,
    }) by {
        lemma_count_none_seen(s.bank, s.issued, user, category, s.bank.len() as int);
        assert(s.bank.take(s.bank.len() as int) =~= s.bank);
        lemma_dealing(s, user, category, ids, n);
        let asked = s.before(calls, k);
        assert(asked.accepts(calls[k]));
        lemma_assignment(asked, user, category, ids[k]);
        lemma_before_next(s, calls, k);
        lemma_history_valid(s, calls, k);
        assert(calls.take(n) =~= calls);
        lemma_pending_until_judged(s, calls, k + 1, n, ids[k]);
    }
    lemma_count_none_seen(s.bank, s.issued, user, category, s.bank.len() as int);
    assert(s.bank.take(s.bank.len() as int) =~= s.bank);
    lemma_dealing(s, user, category, ids, n);
    assert forall|k: int, l: int| 0 <= k < l < ids.len() implies (#[trigger] s.before(
        calls,
        k,
    )).place(user, category) != (#[trigger] s.before(calls, l)).place(user, category) by {
        lemma_assignments_distinct(
            s,
            calls,
            k,
            l,
            (user, category, ids[k]),
            (user, category, ids[l]),
        );
    }
    assert(calls.take(n) =~= calls);
    lemma_count_zero(end.bank, end.issued, user, category, end.bank.len() as int);
    assert forall|i: int| #[trigger] in_category(end.bank, category, i) implies end.issued.contains(
        (user, end.bank[i].id),
    ) && end.record(user, category).contains(end.bank[i].id) by {
        assert(!unseen(end.bank, end.issued, user, category, i));
    }
    assert forall|id: u128|
        end.ledger.contains_key(id) <==> s.ledger.contains_key(id) || ids.contains(id) by {
        if ids.contains(id) {
            let k = choose|k: int| 0 <= k < ids.len() && ids[k] == id;
            assert(end.ledger.contains_key(ids[k]));
        }
        if end.ledger.contains_key(id) && !s.ledger.contains_key(id) {
            let m = choose|m: int| 0 <= m < n && ids[m] == id;
            assert(ids[m] == id);
        }
    }
    if ids.len() > 0 {
        lemma_history_valid(s, calls, n);
        lemma_of_category_empty(s.bank, category);
        assert(exhausted(end.bank, end.issued, user, category)) by {
            assert forall|i: int| !unseen(end.bank, end.issued, user, category, i) by {
                if in_category(end.bank, category, i) {
                }
            }
        }
    }
}

impl EngineState {
    /// The two engines differ at most in answer keys: their banks hold the
    /// same questions but for `correct`, the same questions have been issued
    /// to the same users, and the same instance ids are in the ledger.
    pub open spec fn same_but_keys(self, other: EngineState) -> bool {
        &&& self.bank.len() == other.bank.len()
        &&& forall|i: int|
            0 <= i < self.bank.len() ==> (#[trigger] self.bank[i]).same_but_key(other.bank[i])
        &&& self.issued == other.issued
        &&& self.ledger.dom() == other.ledger.dom()
    }
}

/// Two engines that differ at most in answer keys pick alike.
proof fn lemma_same_pick(a: EngineState, b: EngineState, user: u128, category: Seq<char>)
    requires
        a.same_but_keys(b),
    ensures
        pick(a.bank, a.issued, user, category) == pick(b.bank, b.issued, user, category),
{
    assert forall|i: int|
        unseen(a.bank, a.issued, user, category, i) == unseen(
            b.bank,
            b.issued,
            user,
            category,
            i,
        ) by {
        if 0 <= i < a.bank.len() {
            assert(a.bank[i].same_but_key(b.bank[i]));
        }
    }
    assert forall|i: int| in_category(a.bank, category, i) == in_category(b.bank, category, i) by {
        if 0 <= i < a.bank.len() {
            assert(a.bank[i].same_but_key(b.bank[i]));
        }
    }
    if has_category(a.bank, category) {
        let i = choose|i: int| in_category(a.bank, category, i);
        assert(in_category(b.bank, category, i));
    }
    if has_category(b.bank, category) {
        let i = choose|i: int| in_category(b.bank, category, i);
        assert(in_category(a.bank, category, i));
    }
    if pick(a.bank, a.issued, user, category) is Ok {
        let i = choose|i: int| unseen(a.bank, a.issued, user, category, i);
        lemma_next_exists(a.bank, a.issued, user, category, i);
        let n = next_unseen(a.bank, a.issued, user, category);
        assert(is_next(b.bank, b.issued, user, category, n));
        lemma_next_unique(b.bank, b.issued, user, category, n);
    }
}

/// No answer key shows in what an assignment returns: two engines that
/// differ at most in answer keys return the same to the same call, and
/// differ at most in answer keys afterwards.
pub proof fn lemma_answer_key_hidden(
    a: EngineState,
    b: EngineState,
    user: u128,
    category: Seq<char>,
    id: u128,
)
    requires
        a.same_but_keys(b),
    ensures
        a.assign_reply(user, category, id) == b.assign_reply(user, category, id),
        a.assigned(user, category, id).same_but_keys(b.assigned(user, category, id)),
{
    lemma_same_pick(a, b, user, category);
    assert(a.ledger.contains_key(id) == b.ledger.contains_key(id)) by {
        assert(a.ledger.dom().contains(id) == b.ledger.dom().contains(id));
    }
    if a.assign_reply(user, category, id) is Ok {
        lemma_assignment(a, user, category, id);
        let i = a.place(user, category);
        assert(a.bank[i].same_but_key(b.bank[i]));
        assert(a.assigned(user, category, id).ledger.dom() =~= b.assigned(
            user,
            category,
            id,
        ).ledger.dom());
    }
}

/// Nor does one show over a sequence of calls: whatever the calls, two
/// engines that differ at most in answer keys return the same to every
/// assignment among them.
pub proof fn lemma_answer_keys_stay_hidden(
    a: EngineState,
    b: EngineState,
    calls: Seq<Call>,
    k: int,
)
    requires
        a.same_but_keys(b),
        0 <= k <= calls.len(),
    ensures
        a.before(calls, k).same_but_keys(b.before(calls, k)),
        k < calls.len() && calls[k] is Assign ==> a.before(calls, k).reply(calls[k]) == b.before(
            calls,
            k,
        ).reply(calls[k]),
    decreases k,
{
    if k == 0 {
        assert(calls.take(0).len() == 0);
    } else {
        lemma_answer_keys_stay_hidden(a, b, calls, k - 1);
        lemma_before_next(a, calls, k - 1);
        lemma_before_next(b, calls, k - 1);
        let x = a.before(calls, k - 1);
        let y = b.before(calls, k - 1);
        match calls[k - 1] {
            Call::Assign { user, category, id } => {
                lemma_answer_key_hidden(x, y, user, category, id);
            },
            Call::Judge { id, proposed } => {
                assert(x.judged(id).ledger.dom() =~= x.ledger.dom());
                assert(y.judged(id).ledger.dom() =~= y.ledger.dom());
            },
        }
    }
    if k < calls.len() {
        match calls[k] {
            Call::Assign { user, category, id } => {
                lemma_answer_key_hidden(a.before(calls, k), b.before(calls, k), user, category, id);
            },
            Call::Judge { id, proposed } => {},
        }
    }
}

} // verus!
