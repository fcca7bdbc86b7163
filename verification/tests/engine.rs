use cardquest::bank::QuestionBank;
use cardquest::engine::QuizEngine;
use cardquest::error::QuizError;
use cardquest::question::{Question, QuestionInstance};
use uuid::Uuid;

fn question(id: u64, category: &str, prompt: &str, options: &[&str], correct: u8) -> Question {
    Question {
        id,
        category: category.to_string(),
        prompt: prompt.to_string(),
        options: options.iter().map(|o| o.to_string()).collect(),
        correct,
    }
}

fn geography() -> Vec<Question> {
    vec![
        question(1, "geography", "Capital of France?", &["Paris", "Rome", "Oslo"], 0),
        question(2, "geography", "Longest river?", &["Amazon", "Danube", "Nile"], 2),
    ]
}

fn mixed() -> Vec<Question> {
    vec![
        question(10, "history", "Year of the moon landing?", &["1959", "1969"], 1),
        question(1, "geography", "Capital of France?", &["Paris", "Rome", "Oslo"], 0),
        question(11, "history", "First Roman emperor?", &["Augustus", "Nero", "Trajan"], 0),
        question(2, "geography", "Longest river?", &["Amazon", "Danube", "Nile"], 2),
        question(3, "geography", "Largest ocean?", &["Arctic", "Pacific"], 1),
    ]
}

fn engine(questions: Vec<Question>) -> QuizEngine {
    QuizEngine::new(QuestionBank::new(questions).expect("ids are distinct"))
}

fn shows(instance: &QuestionInstance, q: &Question) -> bool {
    instance.category == q.category && instance.prompt == q.prompt && instance.options == q.options
}

const U1: u128 = 0x0000_0000_0000_0000_0000_0000_0000_00a1;
const U2: u128 = 0x0000_0000_0000_0000_0000_0000_0000_00a2;

#[test]
fn scenario_geography_two_questions() {
    let bank = geography();
    let mut quiz = engine(geography());
    let first = quiz.assign_question(U1, "geography").unwrap();
    let second = quiz.assign_question(U1, "geography").unwrap();
    assert_ne!(first.id, second.id);
    let first_is_q1 = shows(&first, &bank[0]);
    let second_is_q1 = shows(&second, &bank[0]);
    assert!(first_is_q1 != second_is_q1);
    assert!(shows(&first, &bank[0]) || shows(&first, &bank[1]));
    assert!(shows(&second, &bank[0]) || shows(&second, &bank[1]));
    assert_eq!(quiz.assign_question(U1, "geography").unwrap_err(), QuizError::Exhausted);

    let q1_instance = if first_is_q1 { first.id } else { second.id };
    assert_eq!(quiz.judge_answer(q1_instance, 0), Ok((true, 0)));
    assert_eq!(quiz.judge_answer(q1_instance, 0), Err(QuizError::AlreadyConsumed));
}

#[test]
fn questions_come_in_bank_order() {
    let bank = mixed();
    let mut quiz = engine(mixed());
    let a = quiz.assign_with_id(U1, "geography", 100).unwrap();
    let b = quiz.assign_with_id(U1, "geography", 101).unwrap();
    let c = quiz.assign_with_id(U1, "geography", 102).unwrap();
    assert_eq!(a.id, 100);
    assert_eq!(b.id, 101);
    assert_eq!(c.id, 102);
    assert!(shows(&a, &bank[1]));
    assert!(shows(&b, &bank[3]));
    assert!(shows(&c, &bank[4]));
    assert_eq!(a.prompt, "Capital of France?");
    assert_eq!(a.options, vec!["Paris".to_string(), "Rome".to_string(), "Oslo".to_string()]);
    assert_eq!(a.category, "geography");
}

#[test]
fn at_most_as_many_successes_as_questions() {
    let mut quiz = engine(mixed());
    let mut successes = 0;
    let mut ids = Vec::new();
    let mut prompts = Vec::new();
    for _ in 0..10 {
        match quiz.assign_question(U1, "geography") {
            Ok(instance) => {
                successes += 1;
                assert!(!ids.contains(&instance.id));
                assert!(!prompts.contains(&instance.prompt));
                ids.push(instance.id);
                prompts.push(instance.prompt);
            }
            Err(e) => {
                assert_eq!(e, QuizError::Exhausted);
                assert_eq!(successes, 3);
            }
        }
    }
    assert_eq!(successes, 3);
}

#[test]
fn exhaustion_is_per_user_and_per_category() {
    let mut quiz = engine(mixed());
    for id in 0..3u128 {
        assert!(quiz.assign_with_id(U1, "geography", id).is_ok());
    }
    assert_eq!(quiz.assign_with_id(U1, "geography", 50).unwrap_err(), QuizError::Exhausted);
    let other_user = quiz.assign_with_id(U2, "geography", 51).unwrap();
    assert_eq!(other_user.prompt, "Capital of France?");
    let other_category = quiz.assign_with_id(U1, "history", 52).unwrap();
    assert_eq!(other_category.prompt, "Year of the moon landing?");
}

#[test]
fn an_unknown_category_is_an_error() {
    let mut quiz = engine(mixed());
    assert_eq!(quiz.assign_question(U1, "chemistry").unwrap_err(), QuizError::UnknownCategory);
    assert_eq!(quiz.assign_with_id(U1, "", 1).unwrap_err(), QuizError::UnknownCategory);
    let mut empty = engine(Vec::new());
    assert_eq!(empty.assign_question(U1, "geography").unwrap_err(), QuizError::UnknownCategory);
}

#[test]
fn categories_are_compared_exactly() {
    let mut quiz = engine(mixed());
    assert_eq!(quiz.assign_with_id(U1, "Geography", 1).unwrap_err(), QuizError::UnknownCategory);
    assert_eq!(quiz.assign_with_id(U1, "geography ", 1).unwrap_err(), QuizError::UnknownCategory);
    assert_eq!(quiz.assign_with_id(U1, "geo", 1).unwrap_err(), QuizError::UnknownCategory);
}

#[test]
fn an_instance_id_in_use_is_declined_and_changes_nothing() {
    let mut quiz = engine(geography());
    let first = quiz.assign_with_id(U1, "geography", 7).unwrap();
    assert_eq!(first.prompt, "Capital of France?");
    assert_eq!(quiz.assign_with_id(U1, "geography", 7).unwrap_err(), QuizError::InstanceIdInUse);
    assert_eq!(quiz.assign_with_id(U2, "geography", 7).unwrap_err(), QuizError::InstanceIdInUse);
    // the declined calls issued nothing: the second question is still next
    let second = quiz.assign_with_id(U1, "geography", 8).unwrap();
    assert_eq!(second.prompt, "Longest river?");
    // and the first record is as it was
    assert_eq!(quiz.judge_answer(7, 0), Ok((true, 0)));
}

#[test]
fn exhaustion_and_unknown_category_come_before_an_id_in_use() {
    let mut quiz = engine(geography());
    quiz.assign_with_id(U1, "geography", 7).unwrap();
    quiz.assign_with_id(U1, "geography", 8).unwrap();
    assert_eq!(quiz.assign_with_id(U1, "geography", 7).unwrap_err(), QuizError::Exhausted);
    assert_eq!(quiz.assign_with_id(U1, "chemistry", 7).unwrap_err(), QuizError::UnknownCategory);
}

#[test]
fn judging_an_id_never_issued_is_not_found() {
    let mut quiz = engine(geography());
    assert_eq!(quiz.judge_answer(0, 0), Err(QuizError::NotFound));
    assert_eq!(quiz.judge_answer(u128::MAX, 255), Err(QuizError::NotFound));
    let issued = quiz.assign_question(U1, "geography").unwrap();
    let other = issued.id ^ 1;
    assert_eq!(quiz.judge_answer(other, 0), Err(QuizError::NotFound));
    // a question's own id is no instance id
    assert_eq!(quiz.judge_answer(1, 0), Err(QuizError::NotFound));
    // the miss consumed nothing
    assert_eq!(quiz.judge_answer(issued.id, 0), Ok((true, 0)));
}

#[test]
fn judging_twice_is_rejected() {
    let mut quiz = engine(geography());
    let a = quiz.assign_with_id(U1, "geography", 1).unwrap();
    let b = quiz.assign_with_id(U1, "geography", 2).unwrap();
    assert_eq!(quiz.judge_answer(a.id, 1), Ok((false, 0)));
    assert_eq!(quiz.judge_answer(a.id, 0), Err(QuizError::AlreadyConsumed));
    assert_eq!(quiz.judge_answer(a.id, 1), Err(QuizError::AlreadyConsumed));
    // the other instance is still pending
    assert_eq!(quiz.judge_answer(b.id, 2), Ok((true, 2)));
    assert_eq!(quiz.judge_answer(b.id, 2), Err(QuizError::AlreadyConsumed));
}

#[test]
fn verdict_compares_with_the_answer_key_of_every_question() {
    let bank = mixed();
    for proposed in 0..4u8 {
        let mut quiz = engine(mixed());
        let mut next_id = 0u128;
        for category in ["history", "geography"] {
            loop {
                let instance = match quiz.assign_with_id(U1, category, next_id) {
                    Ok(instance) => instance,
                    Err(e) => {
                        assert_eq!(e, QuizError::Exhausted);
                        break;
                    }
                };
                next_id += 1;
                let q = bank.iter().find(|q| q.prompt == instance.prompt).unwrap();
                assert_eq!(
                    quiz.judge_answer(instance.id, proposed),
                    Ok((proposed == q.correct, q.correct))
                );
            }
        }
        assert_eq!(next_id, 5);
    }
}

#[test]
fn an_instance_shows_the_question_without_its_key() {
    // two banks that differ only in the answer keys hand out the same instances
    let mut other_keys = mixed();
    for q in other_keys.iter_mut() {
        q.correct = (q.correct + 1) % 2;
    }
    let mut a = engine(mixed());
    let mut b = engine(other_keys);
    for id in 0..3u128 {
        let x = a.assign_with_id(U1, "geography", id).unwrap();
        let y = b.assign_with_id(U1, "geography", id).unwrap();
        assert_eq!(x.id, y.id);
        assert_eq!(x.category, y.category);
        assert_eq!(x.prompt, y.prompt);
        assert_eq!(x.options, y.options);
    }
    // the instance id is not the question's id
    let mut c = engine(geography());
    let inst = c.assign_with_id(U1, "geography", 99).unwrap();
    assert_eq!(inst.id, 99);
}

#[test]
fn as_many_callers_as_questions_each_get_another() {
    let bank = mixed();
    let mut quiz = engine(mixed());
    let callers: [u128; 3] = [31, 17, 23];
    let mut prompts = Vec::new();
    for id in callers {
        let instance = quiz.assign_with_id(U1, "geography", id).expect("one question each");
        assert!(!prompts.contains(&instance.prompt));
        prompts.push(instance.prompt);
    }
    for q in bank.iter().filter(|q| q.category == "geography") {
        assert!(prompts.contains(&q.prompt));
    }
    assert_eq!(quiz.assign_with_id(U1, "geography", 40).unwrap_err(), QuizError::Exhausted);
}

#[test]
fn drawn_instance_ids_are_random_uuids() {
    let mut quiz = engine(mixed());
    let a = quiz.assign_question(U1, "geography").unwrap();
    let b = quiz.assign_question(U1, "geography").unwrap();
    let c = quiz.assign_question(U2, "history").unwrap();
    for id in [a.id, b.id, c.id] {
        let uuid = Uuid::from_u128(id);
        assert_eq!(uuid.get_version_num(), 4);
        assert_eq!(uuid.get_variant(), uuid::Variant::RFC4122);
        assert_eq!((id >> 76) & 0xf, 4);
        assert_eq!((id >> 62) & 0x3, 2);
    }
    assert_ne!(a.id, b.id);
    assert_ne!(a.id, c.id);
    assert_ne!(b.id, c.id);
}

#[test]
fn the_engine_keeps_its_bank() {
    let mut quiz = engine(mixed());
    assert_eq!(quiz.bank().len(), 5);
    quiz.assign_question(U1, "geography").unwrap();
    assert_eq!(quiz.bank().len(), 5);
    assert_eq!(quiz.bank().question_by_id(11).unwrap().prompt, "First Roman emperor?");
}

#[test]
fn with_an_empty_ledger_the_draw_cannot_collide() {
    for user in 0..20u128 {
        let mut quiz = engine(mixed());
        let instance = quiz.assign_question(user, "history").expect("nothing is in use yet");
        assert_eq!(instance.prompt, "Year of the moon landing?");
        assert_eq!(Uuid::from_u128(instance.id).get_version_num(), 4);
    }
}

#[test]
fn a_proposal_beyond_the_options_is_never_right() {
    let mut quiz = engine(geography());
    let first = quiz.assign_with_id(U1, "geography", 1).unwrap();
    let second = quiz.assign_with_id(U1, "geography", 2).unwrap();
    assert_eq!(first.options.len(), 3);
    assert_eq!(quiz.judge_answer(first.id, 3), Ok((false, 0)));
    assert_eq!(quiz.judge_answer(second.id, 255), Ok((false, 2)));
}
