use cardquest::bank::QuestionBank;
use cardquest::error::QuizError;
use cardquest::ledger::AnswerLedger;
use cardquest::question::Question;
use cardquest::tracker::AssignmentTracker;

fn q(id: u64, category: &str, correct: u8) -> Question {
    Question {
        id,
        category: category.to_string(),
        prompt: format!("prompt {}", id),
        options: vec!["x".to_string(), "y".to_string()],
        correct,
    }
}

fn bank() -> QuestionBank {
    QuestionBank::new(vec![q(1, "a", 0), q(2, "b", 1), q(3, "a", 1), q(4, "a", 0)]).unwrap()
}

#[test]
fn tracker_picks_each_question_once() {
    let bank = bank();
    let mut tracker = AssignmentTracker::new();
    assert_eq!(tracker.pick_unseen(&bank, 1, "a").unwrap().id, 1);
    assert_eq!(tracker.pick_unseen(&bank, 1, "a").unwrap().id, 3);
    assert_eq!(tracker.pick_unseen(&bank, 1, "a").unwrap().id, 4);
    assert_eq!(tracker.pick_unseen(&bank, 1, "a").unwrap_err(), QuizError::Exhausted);
    assert_eq!(tracker.pick_unseen(&bank, 1, "a").unwrap_err(), QuizError::Exhausted);
    assert_eq!(tracker.pick_unseen(&bank, 2, "a").unwrap().id, 1);
    assert_eq!(tracker.pick_unseen(&bank, 1, "b").unwrap().id, 2);
    assert_eq!(tracker.pick_unseen(&bank, 1, "b").unwrap_err(), QuizError::Exhausted);
    assert_eq!(tracker.pick_unseen(&bank, 1, "c").unwrap_err(), QuizError::UnknownCategory);
}

#[test]
fn tracker_find_records_nothing() {
    let bank = bank();
    let mut tracker = AssignmentTracker::new();
    assert_eq!(tracker.find_unseen(&bank, 1, "a").unwrap().id, 1);
    assert_eq!(tracker.find_unseen(&bank, 1, "a").unwrap().id, 1);
    assert!(!tracker.has_seen(1, 1));
    tracker.mark(1, 1);
    assert!(tracker.has_seen(1, 1));
    assert!(!tracker.has_seen(2, 1));
    assert!(!tracker.has_seen(1, 3));
    assert_eq!(tracker.find_unseen(&bank, 1, "a").unwrap().id, 3);
    tracker.mark(1, 4);
    tracker.mark(1, 4);
    assert_eq!(tracker.find_unseen(&bank, 1, "a").unwrap().id, 3);
    tracker.mark(1, 3);
    assert_eq!(tracker.find_unseen(&bank, 1, "a").unwrap_err(), QuizError::Exhausted);
    assert_eq!(tracker.find_unseen(&bank, 1, "zzz").unwrap_err(), QuizError::UnknownCategory);
    assert_eq!(tracker.find_unseen(&bank, 9, "b").unwrap().id, 2);
}

#[test]
fn ledger_registers_once_and_judges_once() {
    let mut ledger = AnswerLedger::new();
    assert!(!ledger.contains(10));
    assert!(ledger.register(10, 3));
    assert!(ledger.contains(10));
    // a second registration leaves the first record
    assert!(!ledger.register(10, 0));
    assert_eq!(ledger.judge(10, 0), Ok((false, 3)));
    assert_eq!(ledger.judge(10, 3), Err(QuizError::AlreadyConsumed));
    assert!(ledger.contains(10));
    assert!(!ledger.register(10, 3));
    assert_eq!(ledger.judge(10, 3), Err(QuizError::AlreadyConsumed));
}

#[test]
fn ledger_does_not_know_other_ids() {
    let mut ledger = AnswerLedger::new();
    assert_eq!(ledger.judge(1, 0), Err(QuizError::NotFound));
    assert!(ledger.register(1, 255));
    assert_eq!(ledger.judge(2, 255), Err(QuizError::NotFound));
    assert_eq!(ledger.judge(1, 255), Ok((true, 255)));
}
