//! The question bank: the questions of all categories, fixed once built.

use std::collections::HashSet;
use vstd::prelude::*;
use crate::error::QuizError;
use crate::question::{Question, QuestionView};

verus! {

broadcast use vstd::std_specs::hash::group_hash_axioms;

/// The questions of a list, each by its view.
pub open spec fn views(questions: Seq<Question>) -> Seq<QuestionView> {
    Seq::new(questions.len(), |i: int| questions[i]@)
}

/// The questions that a list of references points to, each by its view.
pub open spec fn ref_views(questions: Seq<&Question>) -> Seq<QuestionView> {
    Seq::new(questions.len(), |i: int| questions[i]@)
}

/// No two questions of the bank share an id.
pub open spec fn ids_distinct(bank: Seq<QuestionView>) -> bool {
    forall|i: int, j: int| 0 <= i < j < bank.len() ==> bank[i].id != bank[j].id
}

/// The answer key of every question is the index of one of its options.
pub open spec fn keys_in_range(bank: Seq<QuestionView>) -> bool {
    forall|i: int| 0 <= i < bank.len() ==> (#[trigger] bank[i]).correct < bank[i].options.len()
}

/// The bank has a question at `i`, and it belongs to `category`.
pub open spec fn in_category(bank: Seq<QuestionView>, category: Seq<char>, i: int) -> bool {
    0 <= i < bank.len() && bank[i].category == category
}

/// The bank has at least one question in `category`.
pub open spec fn has_category(bank: Seq<QuestionView>, category: Seq<char>) -> bool {
    exists|i: int| in_category(bank, category, i)
}

/// The questions of `category`, in the order of the bank.
pub open spec fn of_category(bank: Seq<QuestionView>, category: Seq<char>) -> Seq<QuestionView> {
    bank.filter(|q: QuestionView| q.category == category)
}

/// The bank has a question with the id `id`.
pub open spec fn has_id(bank: Seq<QuestionView>, id: u64) -> bool {
    exists|i: int| 0 <= i < bank.len() && bank[i].id == id
}

/// Filtering a list that ends in `last` filters what comes before it and
/// keeps `last` if it passes.
pub proof fn lemma_filter_push<A>(s: Seq<A>, last: A, pred: spec_fn(A) -> bool)
    ensures
        s.push(last).filter(pred) == if pred(last) {
            s.filter(pred).push(last)
        } else {
            s.filter(pred)
        },
{
    reveal(Seq::filter);
    assert(s.push(last).drop_last() =~= s);
}

/// A category's questions are empty exactly if the bank has none in it.
pub proof fn lemma_of_category_empty(bank: Seq<QuestionView>, category: Seq<char>)
    ensures
        of_category(bank, category).len() == 0 <==> !has_category(bank, category),
    decreases bank.len(),
{
    let pred = |q: QuestionView| q.category == category;
    if bank.len() == 0 {
        reveal(Seq::filter);
        assert forall|i: int| !in_category(bank, category, i) by {}
    } else {
        let front = bank.drop_last();
        lemma_of_category_empty(front, category);
        assert(front.push(bank.last()) =~= bank);
        lemma_filter_push(front, bank.last(), pred);
        if has_category(bank, category) {
            let i = choose|i: int| in_category(bank, category, i);
            if i < bank.len() - 1 {
                assert(in_category(front, category, i));
            }
        }
        if has_category(front, category) {
            let i = choose|i: int| in_category(front, category, i);
            assert(in_category(bank, category, i));
        }
        if pred(bank.last()) {
            assert(in_category(bank, category, bank.len() - 1));
        }
    }
}

/// The questions of all categories, in a fixed order. No two of them share
/// an id, and the answer key of each is the index of one of its options.
pub struct QuestionBank {
    questions: Vec<Question>,
}

impl View for QuestionBank {
    type V = Seq<QuestionView>;

    closed spec fn view(&self) -> Seq<QuestionView> {
        views(self.questions@)
    }
}

impl QuestionBank {
    #[verifier::type_invariant]
    spec fn well_formed(self) -> bool {
        ids_distinct(self@) && keys_in_range(self@)
    }

    /// Builds the bank from `questions`, in their order. There is no bank
    /// where two of them share an id, nor where the answer key of one is not
    /// the index of one of its options.
    pub fn new(questions: Vec<Question>) -> (bank: Option<QuestionBank>)
        ensures
            bank is Some <==> ids_distinct(views(questions@)) && keys_in_range(views(questions@)),
            bank matches Some(b) ==> b@ == views(questions@),
    {
        let ghost all = views(questions@);
        let mut seen: HashSet<u64> = HashSet::new();
        let mut i: usize = 0;
        while i < questions.len()
            invariant
                i <= questions.len(),
                all == views(questions@),
                forall|a: int, b: int| 0 <= a < b < i ==> all[a].id != all[b].id,
                forall|a: int| 0 <= a < i ==> (#[trigger] all[a]).correct < all[a].options.len(),
                forall|id: u64|
                    seen@.contains(id) <==> exists|a: int| 0 <= a < i && all[a].id == id,
            decreases questions.len() - i,
        {
            if questions[i].correct as usize >= questions[i].options.len() {
                assert(all[i as int].correct >= all[i as int].options.len());
                return None;
            }
            let id = questions[i].id;
            if seen.contains(&id) {
                proof {
                    let a = choose|a: int| 0 <= a < i && all[a].id == id;
                    assert(all[a].id == all[i as int].id);
                }
                return None;
            }
            seen.insert(id);
            assert forall|other: u64| seen@.contains(other) implies exists|a: int|
                0 <= a < i + 1 && all[a].id == other by {
                if other == id {
                    assert(all[i as int].id == other);
                } else {
                    let a = choose|a: int| 0 <= a < i && all[a].id == other;
                    assert(0 <= a < i + 1 && all[a].id == other);
                }
            }
            i += 1;
        }
        Some(QuestionBank { questions })
    }

    /// Makes the invariant of the bank known where a proof needs it. Does
    /// nothing when run.
    pub(crate) fn recall_invariant(&self)
        ensures
            ids_distinct(self@),
            keys_in_range(self@),
    {
        proof {
            use_type_invariant(self);
        }
    }

    /// The number of questions.
    pub fn len(&self) -> (n: usize)
        ensures
            n == self@.len(),
    {
        self.questions.len()
    }

    /// Whether the question at `i` belongs to the category `wanted`.
    pub(crate) fn is_in_category(&self, i: usize, wanted: &String) -> (yes: bool)
        requires
            i < self@.len(),
        ensures
            yes == in_category(self@, wanted@, i as int),
    {
        self.questions[i].category == *wanted
    }

    /// The question at `i`.
    pub(crate) fn at(&self, i: usize) -> (q: &Question)
        requires
            i < self@.len(),
        ensures
            q@ == self@[i as int],
    {
        &self.questions[i]
    }

    /// The questions of `category`, in the order of the bank, or
    /// `UnknownCategory` where the bank has none.
    pub fn questions_by_category(&self, category: &str) -> (found: Result<
        Vec<&Question>,
        QuizError,
    >)
        ensures
            found is Ok <==> has_category(self@, category@),
            found matches Ok(list) ==> ref_views(list@) == of_category(self@, category@),
            found matches Err(e) ==> e == QuizError::UnknownCategory,
    {
        let wanted = category.to_owned();
        let ghost pred = |q: QuestionView| q.category == category@;
        let mut list: Vec<&Question> = Vec::new();
        let mut i: usize = 0;
        proof {
            reveal(Seq::filter);
            assert(self@.take(0).filter(pred) =~= ref_views(list@));
        }
        while i < self.questions.len()
            invariant
                i <= self.questions.len(),
                self.questions.len() == self@.len(),
                wanted@ == category@,
                pred == |q: QuestionView| q.category == category@,
                ref_views(list@) == self@.take(i as int).filter(pred),
            decreases self.questions.len() - i,
        {
            let ghost before = ref_views(list@);
            proof {
                assert(self@.take(i as int).push(self@[i as int]) =~= self@.take(i + 1));
                lemma_filter_push(self@.take(i as int), self@[i as int], pred);
            }
            if self.is_in_category(i, &wanted) {
                list.push(&self.questions[i]);
                assert(ref_views(list@) =~= before.push(self@[i as int]));
            }
            i += 1;
        }
        proof {
            assert(self@.take(i as int) =~= self@);
            lemma_of_category_empty(self@, category@);
        }
        if list.len() == 0 {
            Err(QuizError::UnknownCategory)
        } else {
            Ok(list)
        }
    }

    /// The question with the id `id`, of which there is at most one, or
    /// `NotFound` where the bank has none.
    pub fn question_by_id(&self, id: u64) -> (found: Result<&Question, QuizError>)
        ensures
            ids_distinct(self@),
            found is Ok <==> has_id(self@, id),
            found matches Ok(q) ==> q.id == id && self@.contains(q@) && q.correct
                < q.options.len(),
            found matches Err(e) ==> e == QuizError::NotFound,
    {
        proof {
            use_type_invariant(self);
        }
        let mut i: usize = 0;
        while i < self.questions.len()
            invariant
                i <= self.questions.len(),
                self.questions.len() == self@.len(),
                ids_distinct(self@),
                keys_in_range(self@),
                forall|j: int| 0 <= j < i ==> self@[j].id != id,
            decreases self.questions.len() - i,
        {
            if self.questions[i].id == id {
                assert(self@[i as int] == self.questions[i as int]@);
                return Ok(&self.questions[i]);
            }
            i += 1;
        }
        Err(QuizError::NotFound)
    }
}

} // verus!
