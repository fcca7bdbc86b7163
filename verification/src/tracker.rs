//! The assignment tracker: which questions each user has been issued, so
//! that no user is shown a question twice.

use std::collections::HashMap;
use std::collections::HashSet;
use vstd::prelude::*;
use crate::bank::{has_category, in_category, QuestionBank};
use crate::error::QuizError;
use crate::question::{Question, QuestionView};

verus! {

broadcast use vstd::std_specs::hash::group_hash_axioms;

/// The question at `i` belongs to `category` and has not been issued to
/// `user`. `issued` holds a pair for each user and each id issued to them.
pub open spec fn unseen(
    bank: Seq<QuestionView>,
    issued: Set<(u128, u64)>,
    user: u128,
    category: Seq<char>,
    i: int,
) -> bool {
    in_category(bank, category, i) && !issued.contains((user, bank[i].id))
}

/// The ids of the questions of `category` that have been issued to `user`.
pub open spec fn record(
    bank: Seq<QuestionView>,
    issued: Set<(u128, u64)>,
    user: u128,
    category: Seq<char>,
) -> Set<u64> {
    Set::new(
        |id: u64|
            issued.contains((user, id)) && exists|i: int|
                in_category(bank, category, i) && bank[i].id == id,
    )
}

/// `user` has been issued every question of `category`.
pub open spec fn exhausted(
    bank: Seq<QuestionView>,
    issued: Set<(u128, u64)>,
    user: u128,
    category: Seq<char>,
) -> bool {
    forall|i: int| !unseen(bank, issued, user, category, i)
}

/// The question at `i` is the first of the bank that `user` has not seen in
/// `category`.
pub open spec fn is_next(
    bank: Seq<QuestionView>,
    issued: Set<(u128, u64)>,
    user: u128,
    category: Seq<char>,
    i: int,
) -> bool {
    &&& unseen(bank, issued, user, category, i)
    &&& forall|j: int| 0 <= j < i ==> !unseen(bank, issued, user, category, j)
}

/// The place in the bank of the first question that `user` has not seen in
/// `category`, where there is one.
pub open spec fn next_unseen(
    bank: Seq<QuestionView>,
    issued: Set<(u128, u64)>,
    user: u128,
    category: Seq<char>,
) -> int {
    choose|i: int| is_next(bank, issued, user, category, i)
}

/// What a pick for `user` in `category` returns: the place of the question,
/// or why there is none.
pub open spec fn pick(
    bank: Seq<QuestionView>,
    issued: Set<(u128, u64)>,
    user: u128,
    category: Seq<char>,
) -> Result<int, QuizError> {
    if !has_category(bank, category) {
        Err(QuizError::UnknownCategory)
    } else if exhausted(bank, issued, user, category) {
        Err(QuizError::Exhausted)
    } else {
        Ok(next_unseen(bank, issued, user, category))
    }
}

/// The issuances after a pick for `user` in `category`: the question picked
/// is added, and a pick that fails adds nothing.
pub open spec fn picked(
    bank: Seq<QuestionView>,
    issued: Set<(u128, u64)>,
    user: u128,
    category: Seq<char>,
) -> Set<(u128, u64)> {
    match pick(bank, issued, user, category) {
        Ok(i) => issued.insert((user, bank[i].id)),
        Err(_) => issued,
    }
}

/// At most one place is that of the first unseen question, and
/// `next_unseen` is that place.
pub proof fn lemma_next_unique(
    bank: Seq<QuestionView>,
    issued: Set<(u128, u64)>,
    user: u128,
    category: Seq<char>,
    i: int,
)
    requires
        is_next(bank, issued, user, category, i),
    ensures
        next_unseen(bank, issued, user, category) == i,
        pick(bank, issued, user, category) == Ok::<int, QuizError>(i),
{
    let n = next_unseen(bank, issued, user, category);
    assert(is_next(bank, issued, user, category, n));
    if n < i {
        assert(!unseen(bank, issued, user, category, n));
    } else if i < n {
        assert(!unseen(bank, issued, user, category, i));
    }
    assert(in_category(bank, category, i));
}

/// Where a question is unseen, one of them is the first.
pub proof fn lemma_next_exists(
    bank: Seq<QuestionView>,
    issued: Set<(u128, u64)>,
    user: u128,
    category: Seq<char>,
    i: int,
)
    requires
        unseen(bank, issued, user, category, i),
    ensures
        is_next(bank, issued, user, category, next_unseen(bank, issued, user, category)),
        0 <= next_unseen(bank, issued, user, category) <= i,
    decreases i,
{
    if forall|j: int| 0 <= j < i ==> !unseen(bank, issued, user, category, j) {
        assert(is_next(bank, issued, user, category, i));
        lemma_next_unique(bank, issued, user, category, i);
    } else {
        let j = choose|j: int| 0 <= j < i && unseen(bank, issued, user, category, j);
        lemma_next_exists(bank, issued, user, category, j);
    }
}

/// For each user, the ids of the questions that they have been issued.
/// Nothing is ever taken out of it.
pub struct AssignmentTracker {
    by_user: HashMap<u128, HashSet<u64>>,
}

impl View for AssignmentTracker {
    type V = Set<(u128, u64)>;

    closed spec fn view(&self) -> Set<(u128, u64)> {
        Set::new(
            |p: (u128, u64)| self.by_user@.contains_key(p.0) && self.by_user@[p.0]@.contains(p.1),
        )
    }
}

impl AssignmentTracker {
    /// A tracker in which nothing has been issued to anybody.
    pub fn new() -> (tracker: AssignmentTracker)
        ensures
            tracker@ == Set::<(u128, u64)>::empty(),
    {
        let tracker = AssignmentTracker { by_user: HashMap::new() };
        assert(tracker@ =~= Set::<(u128, u64)>::empty());
        tracker
    }

    /// Whether the question with the id `question` has been issued to `user`.
    pub fn has_seen(&self, user: u128, question: u64) -> (seen: bool)
        ensures
            seen == self@.contains((user, question)),
    {
        match self.by_user.get(&user) {
            Some(ids) => ids.contains(&question),
            None => false,
        }
    }

    /// Looks for the first question of `category` that `user` has not been
    /// issued, and records nothing.
    pub fn find_unseen<'a>(
        &self,
        bank: &'a QuestionBank,
        user: u128,
        category: &str,
    ) -> (found: Result<&'a Question, QuizError>)
        ensures
            match pick(bank@, self@, user, category@) {
                Ok(i) => found matches Ok(q) && q@ == bank@[i],
                Err(e) => found matches Err(refusal) && refusal == e,
            },
    {
        let wanted = category.to_owned();
        let n = bank.len();
        let mut known = false;
        let mut i: usize = 0;
        while i < n
            invariant
                i <= n == bank@.len(),
                wanted@ == category@,
                known <==> exists|j: int| 0 <= j < i && in_category(bank@, category@, j),
                forall|j: int| 0 <= j < i ==> !unseen(bank@, self@, user, category@, j),
            decreases n - i,
        {
            if bank.is_in_category(i, &wanted) {
                let q = bank.at(i);
                if !self.has_seen(user, q.id) {
                    proof {
                        assert(is_next(bank@, self@, user, category@, i as int));
                        lemma_next_unique(bank@, self@, user, category@, i as int);
                    }
                    return Ok(q);
                }
                known = true;
                assert(in_category(bank@, category@, i as int));
            }
            i += 1;
        }
        if known {
            Err(QuizError::Exhausted)
        } else {
            Err(QuizError::UnknownCategory)
        }
    }

    /// Records that the question with the id `question` has been issued to
    /// `user`.
    pub fn mark(&mut self, user: u128, question: u64)
        ensures
            final(self)@ == old(self)@.insert((user, question)),
    {
        let mut ids = match self.by_user.remove(&user) {
            Some(ids) => ids,
            None => HashSet::new(),
        };
        ids.insert(question);
        self.by_user.insert(user, ids);
        assert(final(self)@ =~= old(self)@.insert((user, question)));
    }

    /// Picks the first question of `category` that `user` has not been
    /// issued and records it as issued, in one step. Where the bank has no
    /// such category, or `user` has seen all of it, nothing is recorded.
    pub fn pick_unseen<'a>(
        &mut self,
        bank: &'a QuestionBank,
        user: u128,
        category: &str,
    ) -> (found: Result<&'a Question, QuizError>)
        ensures
            match pick(bank@, old(self)@, user, category@) {
                Ok(i) => found matches Ok(q) && q@ == bank@[i],
                Err(e) => found matches Err(refusal) && refusal == e,
            },
            final(self)@ == picked(bank@, old(self)@, user, category@),
    {
        match self.find_unseen(bank, user, category) {
            Ok(q) => {
                self.mark(user, q.id);
                Ok(q)
            },
            Err(e) => Err(e),
        }
    }
}

} // verus!
