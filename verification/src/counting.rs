//! Counting the questions of a category that a user has yet to see.

use vstd::prelude::*;
use crate::bank::{ids_distinct, in_category, lemma_filter_push, of_category};
use crate::engine::EngineState;
use crate::question::QuestionView;
use crate::tracker::unseen;

verus! {

/// How many of the first `n` questions of the bank belong to `category` and
/// have not been issued to `user`.
pub open spec fn unseen_count(
    bank: Seq<QuestionView>,
    issued: Set<(u128, u64)>,
    user: u128,
    category: Seq<char>,
    n: int,
) -> nat
    decreases n,
{
    if n <= 0 {
        0
    } else {
        let rest = unseen_count(bank, issued, user, category, n - 1);
        if unseen(bank, issued, user, category, n - 1) {
            rest + 1
        } else {
            rest
        }
    }
}

/// How many questions the bank has in `category`.
pub open spec fn category_size(bank: Seq<QuestionView>, category: Seq<char>) -> nat {
    of_category(bank, category).len()
}

impl EngineState {
    /// How many questions of `category` are left for `user`.
    pub open spec fn remaining(self, user: u128, category: Seq<char>) -> nat {
        unseen_count(self.bank, self.issued, user, category, self.bank.len() as int)
    }
}

/// Issuing the question at `i` to `who` takes one from the count of `user`
/// in `category` if it was theirs to see, and nothing otherwise.
pub proof fn lemma_count_after_issue(
    bank: Seq<QuestionView>,
    issued: Set<(u128, u64)>,
    user: u128,
    category: Seq<char>,
    who: u128,
    i: int,
    n: int,
)
    requires
        ids_distinct(bank),
        0 <= i < bank.len(),
        0 <= n <= bank.len(),
        !issued.contains((who, bank[i].id)),
    ensures
        unseen_count(bank, issued.insert((who, bank[i].id)), user, category, n) + (if who == user
            && bank[i].category == category && i < n {
            1nat
        } else {
            0nat
        }) == unseen_count(bank, issued, user, category, n),
    decreases n,
{
    if n > 0 {
        lemma_count_after_issue(bank, issued, user, category, who, i, n - 1);
        if i != n - 1 {
            assert(bank[i].id != bank[n - 1].id);
        }
    }
}

/// The count is zero exactly if none of the first `n` questions is unseen.
pub proof fn lemma_count_zero(
    bank: Seq<QuestionView>,
    issued: Set<(u128, u64)>,
    user: u128,
    category: Seq<char>,
    n: int,
)
    ensures
        unseen_count(bank, issued, user, category, n) == 0 <==> forall|i: int|
            0 <= i < n ==> !unseen(bank, issued, user, category, i),
    decreases n,
{
    if n > 0 {
        lemma_count_zero(bank, issued, user, category, n - 1);
        if unseen_count(bank, issued, user, category, n) == 0 {
            assert forall|i: int| 0 <= i < n implies !unseen(bank, issued, user, category, i) by {
                if i < n - 1 {
                }
            }
        }
    }
}

/// Where `user` has seen nothing of `category`, the count over the first `n`
/// questions is the number of questions of the category among them.
pub proof fn lemma_count_none_seen(
    bank: Seq<QuestionView>,
    issued: Set<(u128, u64)>,
    user: u128,
    category: Seq<char>,
    n: int,
)
    requires
        0 <= n <= bank.len(),
        forall|i: int| #[trigger]
            in_category(bank, category, i) ==> !issued.contains((user, bank[i].id)),
    ensures
        unseen_count(bank, issued, user, category, n) == category_size(bank.take(n), category),
    decreases n,
{
    let pred = |q: QuestionView| q.category == category;
    if n == 0 {
        reveal(Seq::filter);
        assert(bank.take(0).len() == 0);
    } else {
        lemma_count_none_seen(bank, issued, user, category, n - 1);
        assert(bank.take(n - 1).push(bank[n - 1]) =~= bank.take(n));
        lemma_filter_push(bank.take(n - 1), bank[n - 1], pred);
        assert(in_category(bank, category, n - 1) == pred(bank[n - 1]));
    }
}

} // verus!
