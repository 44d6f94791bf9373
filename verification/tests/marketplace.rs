use task_market::state::State;
use task_market::types::{
    Choice, Error, Identity, TaskStatus, TaskType, INITIAL_TOKENS, MAX_CONTENT_SIZE, MAX_DURATION,
    MAX_NUMBER_ANSWERS, MAX_TASK_PAYLOAD, MIN_DURATION, SUBMISSION_COST,
};

const START: u64 = 1_631_075_074_000_000_000;

fn who(n: u8) -> Identity {
    Identity::new(vec![n])
}

fn market_with(participants: &[u8]) -> State {
    let mut state = State::new();
    for p in participants {
        assert_eq!(state.register(&who(*p)), Ok(()));
    }
    state
}

fn post(state: &mut State, caller: u8, reward: u64) -> u64 {
    state
        .submit_task(&who(caller), TaskType::TranslateText, vec![1, 2, 3], true, MIN_DURATION, reward, START)
        .unwrap()
}

#[test]
fn constants_have_their_values() {
    assert_eq!(INITIAL_TOKENS, 1000);
    assert_eq!(SUBMISSION_COST, 1);
    assert_eq!(MIN_DURATION, 60 * 1_000_000_000);
    assert_eq!(MAX_DURATION, 24 * 60 * 60 * 1_000_000_000);
    assert_eq!(MAX_TASK_PAYLOAD, 10 * 1024);
    assert_eq!(MAX_CONTENT_SIZE, 10 * 1024);
    assert_eq!(MAX_NUMBER_ANSWERS, 10);
}

#[test]
fn register_grants_the_initial_tokens() {
    let mut state = State::new();
    assert_eq!(state.get_balance(&who(1)), Err(Error::NotRegistered));
    assert_eq!(state.register(&who(1)), Ok(()));
    assert_eq!(state.get_balance(&who(1)), Ok(1000));
    assert_eq!(state.get_balance(&who(2)), Err(Error::NotRegistered));
    assert_eq!(state.supply(), 1000);
}

#[test]
fn register_twice_is_refused() {
    let mut state = market_with(&[1]);
    post(&mut state, 1, 10);
    assert_eq!(state.register(&who(1)), Err(Error::AlreadyRegistered));
    assert_eq!(state.get_balance(&who(1)), Ok(989));
}

#[test]
fn identities_are_compared_by_their_bytes() {
    let a = Identity::new(vec![1, 2, 3]);
    assert!(a.same(&Identity::new(vec![1, 2, 3])));
    assert!(!a.same(&Identity::new(vec![1, 2])));
    assert!(!a.same(&Identity::new(vec![1, 2, 4])));
    assert!(Identity::new(vec![]).same(&Identity::new(vec![])));
    assert_eq!(a.clone(), a);
    let mut state = market_with(&[]);
    assert_eq!(state.register(&Identity::new(vec![1, 2])), Ok(()));
    assert_eq!(state.register(&Identity::new(vec![1, 2, 3])), Ok(()));
    assert_eq!(state.register(&Identity::new(vec![1, 2])), Err(Error::AlreadyRegistered));
}

#[test]
fn submission_debits_fee_and_reward() {
    let mut state = market_with(&[1]);
    let id = state
        .submit_task(&who(1), TaskType::TranslateText, vec![9, 8], true, MIN_DURATION + 5, 50, START)
        .unwrap();
    assert_eq!(id, 0);
    assert_eq!(state.get_balance(&who(1)), Ok(949));
    assert_eq!(state.supply(), 999);
    let task = state.get_task(&who(1), 0).unwrap();
    assert_eq!(task.submitter, who(1));
    assert_eq!(task.task_type, TaskType::TranslateText);
    assert_eq!(task.payload, vec![9, 8]);
    assert_eq!(task.deadline, START + MIN_DURATION + 5);
    assert_eq!(task.reward, 50);
    assert!(task.answers.is_empty());
    assert_eq!(task.status, TaskStatus::Open);
    assert_eq!(post(&mut state, 1, 0), 1);
    assert_eq!(state.get_balance(&who(1)), Ok(948));
}

#[test]
fn duration_bounds_are_inclusive() {
    let mut state = market_with(&[1]);
    let submit = |state: &mut State, duration: u64| {
        state.submit_task(&who(1), TaskType::TranslateText, vec![], true, duration, 5, START)
    };
    assert_eq!(submit(&mut state, MIN_DURATION), Ok(0));
    assert_eq!(submit(&mut state, MAX_DURATION), Ok(1));
    assert_eq!(submit(&mut state, MIN_DURATION - 1), Err(Error::OutOfRange));
    assert_eq!(submit(&mut state, MAX_DURATION + 1), Err(Error::OutOfRange));
    assert_eq!(submit(&mut state, 0), Err(Error::OutOfRange));
    assert_eq!(submit(&mut state, u64::MAX), Err(Error::OutOfRange));
    assert_eq!(state.get_balance(&who(1)), Ok(1000 - 2 * 6));
    assert_eq!(state.get_all_tasks(&who(1)).unwrap().len(), 2);
}

#[test]
fn submission_is_refused_for_each_reason() {
    let mut state = market_with(&[1]);
    let ok = vec![0u8; MAX_TASK_PAYLOAD];
    let large = vec![0u8; MAX_TASK_PAYLOAD + 1];
    assert_eq!(
        state.submit_task(&who(2), TaskType::TranslateText, ok.clone(), true, MIN_DURATION, 1, START),
        Err(Error::NotRegistered)
    );
    assert_eq!(
        state.submit_task(&who(1), TaskType::EditImage, ok.clone(), true, MIN_DURATION, 1, START),
        Err(Error::Unsupported)
    );
    assert_eq!(
        state.submit_task(&who(1), TaskType::TranslateText, large.clone(), true, MIN_DURATION, 1, START),
        Err(Error::InvalidInput)
    );
    assert_eq!(
        state.submit_task(&who(1), TaskType::TranslateText, ok.clone(), false, MIN_DURATION, 1, START),
        Err(Error::InvalidInput)
    );
    assert_eq!(
        state.submit_task(&who(1), TaskType::TranslateText, ok.clone(), true, 1, 1, START),
        Err(Error::OutOfRange)
    );
    assert_eq!(
        state.submit_task(&who(1), TaskType::TranslateText, ok.clone(), true, MIN_DURATION, 1000, START),
        Err(Error::InsufficientFunds)
    );
    assert_eq!(
        state.submit_task(&who(1), TaskType::TranslateText, ok.clone(), true, MIN_DURATION, u64::MAX, START),
        Err(Error::InsufficientFunds)
    );
    assert_eq!(state.get_balance(&who(1)), Ok(1000));
    assert_eq!(state.get_all_tasks(&who(1)).unwrap().len(), 0);
    assert_eq!(
        state.submit_task(&who(1), TaskType::TranslateText, ok, true, MIN_DURATION, 999, START),
        Ok(0)
    );
    assert_eq!(state.get_balance(&who(1)), Ok(0));
    assert_eq!(
        state.submit_task(&who(1), TaskType::TranslateText, vec![], true, MIN_DURATION, 0, START),
        Err(Error::InsufficientFunds)
    );
}

#[test]
fn submission_checks_come_in_order() {
    let mut state = market_with(&[1]);
    let large = vec![0u8; MAX_TASK_PAYLOAD + 1];
    assert_eq!(
        state.submit_task(&who(2), TaskType::EditImage, large.clone(), false, 0, 5000, START),
        Err(Error::NotRegistered)
    );
    assert_eq!(
        state.submit_task(&who(1), TaskType::EditImage, large.clone(), false, 0, 5000, START),
        Err(Error::Unsupported)
    );
    assert_eq!(
        state.submit_task(&who(1), TaskType::TranslateText, large, false, 0, 5000, START),
        Err(Error::InvalidInput)
    );
    assert_eq!(
        state.submit_task(&who(1), TaskType::TranslateText, vec![], true, 0, 5000, START),
        Err(Error::OutOfRange)
    );
    post(&mut state, 1, 999);
    assert_eq!(
        state.submit_task(&who(1), TaskType::EditImage, vec![], true, MIN_DURATION, 0, START),
        Err(Error::InsufficientFunds)
    );
}

#[test]
fn answers_get_consecutive_identifiers() {
    let mut state = market_with(&[1, 2, 3]);
    post(&mut state, 1, 5);
    post(&mut state, 1, 5);
    assert_eq!(state.answer_task(&who(2), 1, vec![7], START + 1), Ok(0));
    assert_eq!(state.answer_task(&who(3), 0, vec![8], START + 2), Ok(1));
    assert_eq!(state.answer_task(&who(2), 0, vec![9], START + 3), Ok(2));
    let first = state.get_task(&who(1), 0).unwrap();
    assert_eq!(first.answers.len(), 2);
    assert_eq!(first.answers[0].answer_id, 1);
    assert_eq!(first.answers[0].answer.submitter, who(3));
    assert_eq!(first.answers[0].answer.submission_time, START + 2);
    assert_eq!(first.answers[0].answer.content, vec![8]);
    assert!(first.answers[0].answer.votes.is_empty());
    assert_eq!(first.answers[1].answer_id, 2);
    assert_eq!(first.answers[1].answer.submitter, who(2));
    let second = state.get_task(&who(1), 1).unwrap();
    assert_eq!(second.answers.len(), 1);
    assert_eq!(second.answers[0].answer_id, 0);
    assert_eq!(state.get_balance(&who(2)), Ok(1000));
    assert_eq!(state.get_balance(&who(3)), Ok(1000));
}

#[test]
fn answer_is_refused_for_each_reason() {
    let mut state = market_with(&[1, 2]);
    post(&mut state, 1, 5);
    let deadline = START + MIN_DURATION;
    assert_eq!(state.answer_task(&who(9), 0, vec![], START), Err(Error::NotRegistered));
    assert_eq!(state.answer_task(&who(2), 1, vec![], START), Err(Error::NotFound));
    assert_eq!(state.answer_task(&who(2), u64::MAX, vec![], START), Err(Error::NotFound));
    assert_eq!(state.answer_task(&who(2), 0, vec![], deadline), Err(Error::Expired));
    assert_eq!(state.answer_task(&who(2), 0, vec![], deadline + 1), Err(Error::Expired));
    assert_eq!(
        state.answer_task(&who(2), 0, vec![0u8; MAX_CONTENT_SIZE + 1], START),
        Err(Error::InvalidInput)
    );
    assert_eq!(state.get_task(&who(1), 0).unwrap().answers.len(), 0);
    assert_eq!(state.answer_task(&who(2), 0, vec![0u8; MAX_CONTENT_SIZE], deadline - 1), Ok(0));
    assert_eq!(state.answer_task(&who(2), 0, vec![], START), Err(Error::DuplicateSubmission));
    assert_eq!(state.get_task(&who(1), 0).unwrap().answers.len(), 1);
}

#[test]
fn a_task_takes_no_more_than_ten_answers() {
    let participants: Vec<u8> = (0..12).collect();
    let mut state = market_with(&participants);
    post(&mut state, 0, 5);
    for p in 1..=10u8 {
        assert_eq!(state.answer_task(&who(p), 0, vec![p], START), Ok(u64::from(p) - 1));
    }
    assert_eq!(state.answer_task(&who(11), 0, vec![], START), Err(Error::LimitReached));
    assert_eq!(state.answer_task(&who(1), 0, vec![], START), Err(Error::LimitReached));
    assert_eq!(
        state.answer_task(&who(11), 0, vec![], START + MIN_DURATION),
        Err(Error::LimitReached)
    );
    assert_eq!(state.get_task(&who(0), 0).unwrap().answers.len(), 10);
}

#[test]
fn a_second_answer_is_a_duplicate_and_changes_nothing() {
    let mut state = market_with(&[1, 2]);
    post(&mut state, 1, 5);
    assert_eq!(state.answer_task(&who(2), 0, vec![1], START), Ok(0));
    let before = state.get_task(&who(1), 0).unwrap();
    assert_eq!(state.answer_task(&who(2), 0, vec![2], START + 1), Err(Error::DuplicateSubmission));
    assert_eq!(state.get_task(&who(1), 0).unwrap(), before);
    assert_eq!(state.answer_task(&who(1), 0, vec![3], START + 1), Ok(1));
    post(&mut state, 1, 5);
    assert_eq!(state.answer_task(&who(2), 1, vec![4], START + 1), Ok(2));
}

#[test]
fn a_second_vote_is_a_duplicate_and_changes_nothing() {
    let mut state = market_with(&[1, 2, 3]);
    post(&mut state, 1, 5);
    state.answer_task(&who(2), 0, vec![1], START).unwrap();
    assert_eq!(state.vote(&who(3), 0, 0, Choice::Yes, START), Ok(()));
    let before = state.get_task(&who(1), 0).unwrap();
    assert_eq!(state.vote(&who(3), 0, 0, Choice::No, START), Err(Error::DuplicateSubmission));
    assert_eq!(state.vote(&who(3), 0, 0, Choice::Yes, START), Err(Error::DuplicateSubmission));
    assert_eq!(state.get_task(&who(1), 0).unwrap(), before);
    assert_eq!(before.answers[0].answer.votes.len(), 1);
    assert_eq!(before.answers[0].answer.votes[0].voter, who(3));
    assert_eq!(before.answers[0].answer.votes[0].choice, Choice::Yes);
    assert_eq!(state.vote(&who(2), 0, 0, Choice::No, START), Ok(()));
    let after = state.get_task(&who(1), 0).unwrap();
    assert_eq!(after.answers[0].answer.votes.len(), 2);
    assert_eq!(after.answers[0].answer.votes[1].voter, who(2));
    assert_eq!(after.answers[0].answer.votes[1].choice, Choice::No);
}

#[test]
fn vote_is_refused_for_each_reason() {
    let mut state = market_with(&[1, 2, 3]);
    post(&mut state, 1, 5);
    post(&mut state, 1, 5);
    state.answer_task(&who(2), 0, vec![1], START).unwrap();
    let deadline = START + MIN_DURATION;
    assert_eq!(state.vote(&who(9), 0, 0, Choice::Yes, START), Err(Error::NotRegistered));
    assert_eq!(state.vote(&who(3), 1, 0, Choice::Yes, START), Err(Error::NotFound));
    assert_eq!(state.vote(&who(3), 0, 2, Choice::Yes, START), Err(Error::NotFound));
    assert_eq!(state.vote(&who(3), 0, 1, Choice::Yes, START), Err(Error::NotFound));
    assert_eq!(state.vote(&who(3), 0, 0, Choice::Yes, deadline), Err(Error::Expired));
    assert_eq!(state.vote(&who(3), 0, 0, Choice::Yes, deadline + 7), Err(Error::Expired));
    assert!(state.get_task(&who(1), 0).unwrap().answers[0].answer.votes.is_empty());
    assert_eq!(state.vote(&who(3), 0, 0, Choice::Yes, deadline - 1), Ok(()));
    assert_eq!(state.vote(&who(3), 0, 0, Choice::Yes, deadline - 1), Err(Error::DuplicateSubmission));
}

#[test]
fn listing_shows_every_task() {
    let mut state = market_with(&[1, 2]);
    assert_eq!(state.get_all_tasks(&who(3)), Err(Error::NotRegistered));
    assert_eq!(state.get_all_tasks(&who(1)), Ok(vec![]));
    post(&mut state, 1, 5);
    post(&mut state, 2, 6);
    state.settlement_tick(START + MIN_DURATION);
    post(&mut state, 1, 7);
    let lines = state.get_all_tasks(&who(2)).unwrap();
    assert_eq!(lines.len(), 3);
    assert_eq!(lines[0].id, 0);
    assert_eq!(lines[0].submitter, who(1));
    assert_eq!(lines[0].task_type, TaskType::TranslateText);
    assert_eq!(lines[0].status, TaskStatus::Closed);
    assert_eq!(lines[1].id, 1);
    assert_eq!(lines[1].submitter, who(2));
    assert_eq!(lines[1].status, TaskStatus::Closed);
    assert_eq!(lines[2].id, 2);
    assert_eq!(lines[2].submitter, who(1));
    assert_eq!(lines[2].status, TaskStatus::Open);
}

#[test]
fn get_task_is_refused_for_each_reason() {
    let mut state = market_with(&[1]);
    post(&mut state, 1, 5);
    assert_eq!(state.get_task(&who(2), 0), Err(Error::NotRegistered));
    assert_eq!(state.get_task(&who(2), 5), Err(Error::NotRegistered));
    assert_eq!(state.get_task(&who(1), 1), Err(Error::NotFound));
    assert!(state.get_task(&who(1), 0).is_ok());
}
