//! Questions as the bank holds them, and the instances handed to callers.

use vstd::prelude::*;

verus! {

/// A question of the bank. `correct` is the index of the right option in
/// `options`: a bank takes no question whose `correct` is beyond them.
#[derive(Debug, Clone)]
pub struct Question {
    pub id: u64,
    pub category: String,
    pub prompt: String,
    pub options: Vec<String>,
    pub correct: u8,
}

/// One issuance of a question to a caller. It has no field for the answer key.
#[derive(Debug, Clone)]
pub struct QuestionInstance {
    pub id: u128,
    pub category: String,
    pub prompt: String,
    pub options: Vec<String>,
}

/// What a `Question` is, for contracts.
pub struct QuestionView {
    pub id: u64,
    pub category: Seq<char>,
    pub prompt: Seq<char>,
    pub options: Seq<Seq<char>>,
    pub correct: u8,
}

/// What a `QuestionInstance` is, for contracts.
pub struct InstanceView {
    pub id: u128,
    pub category: Seq<char>,
    pub prompt: Seq<char>,
    pub options: Seq<Seq<char>>,
}

/// The texts of a list of strings, in order.
pub open spec fn texts(strings: Seq<String>) -> Seq<Seq<char>> {
    Seq::new(strings.len(), |i: int| strings[i]@)
}

impl View for Question {
    type V = QuestionView;

    open spec fn view(&self) -> QuestionView {
        QuestionView {
            id: self.id,
            category: self.category@,
            prompt: self.prompt@,
            options: texts(self.options@),
            correct: self.correct,
        }
    }
}

impl View for QuestionInstance {
    type V = InstanceView;

    open spec fn view(&self) -> InstanceView {
        InstanceView {
            id: self.id,
            category: self.category@,
            prompt: self.prompt@,
            options: texts(self.options@),
        }
    }
}

impl QuestionView {
    /// The instance that shows this question under the instance id `id`:
    /// category, prompt and options, and nothing of `correct`.
    pub open spec fn instance(self, id: u128) -> InstanceView {
        InstanceView { id, category: self.category, prompt: self.prompt, options: self.options }
    }

    /// Two questions that differ at most in their answer key.
    pub open spec fn same_but_key(self, other: QuestionView) -> bool {
        &&& self.id == other.id
        &&& self.category == other.category
        &&& self.prompt == other.prompt
        &&& self.options == other.options
    }
}

/// A copy of a list of strings.
pub fn copy_texts(strings: &Vec<String>) -> (copy: Vec<String>)
    ensures
        texts(copy@) == texts(strings@),
{
    let mut copy: Vec<String> = Vec::new();
    let mut i: usize = 0;
    while i < strings.len()
        invariant
            i <= strings.len(),
            copy.len() == i,
            forall|j: int| 0 <= j < i ==> copy[j]@ == strings[j]@,
        decreases strings.len() - i,
    {
        copy.push(strings[i].clone());
        i += 1;
    }
    assert(texts(copy@) =~= texts(strings@));
    copy
}

impl Question {
    /// Builds the instance of this question that goes out under `id`.
    pub fn instance(&self, id: u128) -> (inst: QuestionInstance)
        ensures
            inst@ == self@.instance(id),
    {
        QuestionInstance {
            id,
            category: self.category.clone(),
            prompt: self.prompt.clone(),
            options: copy_texts(&self.options),
        }
    }
}

} // verus!
