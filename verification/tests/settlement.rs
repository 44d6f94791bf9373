use task_market::settlement::{reward_recipient, tally};
use task_market::state::State;
use task_market::types::Choice::{No, Yes};
use task_market::types::{
    Answer, Choice, Error, Identity, TaskInternal, TaskStatus, TaskType, Vote, MIN_DURATION,
};

const T0: u64 = 1_000_000;
const DEADLINE: u64 = T0 + MIN_DURATION;

fn person(n: u8) -> Identity {
    Identity::new(vec![n, n])
}

fn market(participants: u8) -> State {
    let mut state = State::new();
    for p in 0..participants {
        state.register(&person(p)).unwrap();
    }
    state
}

fn task(state: &mut State, caller: u8, reward: u64) -> u64 {
    state
        .submit_task(&person(caller), TaskType::TranslateText, vec![], true, MIN_DURATION, reward, T0)
        .unwrap()
}

fn balances(state: &State, participants: u8) -> Vec<u64> {
    (0..participants).map(|p| state.get_balance(&person(p)).unwrap()).collect()
}

fn votes(choices: &[Choice]) -> Vec<Vote> {
    let mut list = Vec::new();
    for (i, c) in choices.iter().enumerate() {
        list.push(Vote { voter: Identity::new(vec![i as u8]), choice: *c });
    }
    list
}

#[test]
fn the_voted_answer_earns_the_reward() {
    let (a, b, c) = (0u8, 1u8, 2u8);
    let mut state = State::new();
    state.register(&person(a)).unwrap();
    assert_eq!(state.get_balance(&person(a)), Ok(1000));
    let task_id = task(&mut state, a, 50);
    assert_eq!(state.get_balance(&person(a)), Ok(949));
    state.register(&person(b)).unwrap();
    let answer_id = state.answer_task(&person(b), task_id, vec![1], T0 + 1).unwrap();
    state.register(&person(c)).unwrap();
    state.vote(&person(c), answer_id, task_id, Choice::Yes, T0 + 2).unwrap();
    assert_eq!(balances(&state, 3), vec![949, 1000, 1000]);
    let supply = state.supply();
    assert_eq!(supply, 2999);
    state.settlement_tick(DEADLINE + 1);
    assert_eq!(balances(&state, 3), vec![949, 1050, 1000]);
    assert_eq!(state.supply(), supply);
    assert_eq!(state.get_task(&person(a), task_id).unwrap().status, TaskStatus::Closed);
}

#[test]
fn an_unanswered_task_is_refunded() {
    let mut state = market(1);
    task(&mut state, 0, 50);
    assert_eq!(state.get_balance(&person(0)), Ok(949));
    state.settlement_tick(DEADLINE - 1);
    assert_eq!(state.get_balance(&person(0)), Ok(949));
    assert_eq!(state.get_task(&person(0), 0).unwrap().status, TaskStatus::Open);
    state.settlement_tick(DEADLINE);
    assert_eq!(state.get_balance(&person(0)), Ok(999));
    assert_eq!(state.get_task(&person(0), 0).unwrap().status, TaskStatus::Closed);
}

#[test]
fn an_answered_task_without_votes_is_refunded() {
    let mut state = market(3);
    task(&mut state, 0, 70);
    state.answer_task(&person(1), 0, vec![1], T0).unwrap();
    state.answer_task(&person(2), 0, vec![2], T0).unwrap();
    state.settlement_tick(DEADLINE);
    assert_eq!(balances(&state, 3), vec![999, 1000, 1000]);
}

#[test]
fn tokens_are_only_burnt_by_the_fee() {
    let mut state = market(4);
    let total = |state: &State| balances(state, 4).iter().sum::<u64>();
    assert_eq!(total(&state), 4000);
    assert_eq!(state.supply(), 4000);
    task(&mut state, 0, 120);
    assert_eq!(total(&state), 4000 - 121);
    assert_eq!(state.supply(), 3999);
    state.answer_task(&person(1), 0, vec![1], T0).unwrap();
    state.vote(&person(2), 0, 0, Choice::Yes, T0).unwrap();
    state.vote(&person(3), 0, 0, Choice::No, T0).unwrap();
    assert_eq!(total(&state), 4000 - 121);
    state.settlement_tick(DEADLINE);
    assert_eq!(total(&state), 3999);
    assert_eq!(state.supply(), 3999);
    assert_eq!(balances(&state, 4), vec![879, 1120, 1000, 1000]);
    assert_eq!(state.register(&person(0)), Err(Error::AlreadyRegistered));
    assert_eq!(total(&state), 3999);
}

#[test]
fn a_second_settlement_changes_nothing() {
    let mut state = market(3);
    task(&mut state, 0, 50);
    task(&mut state, 1, 30);
    state.answer_task(&person(2), 0, vec![1], T0).unwrap();
    state.vote(&person(1), 0, 0, Choice::Yes, T0).unwrap();
    state.settlement_tick(DEADLINE);
    let after_first = balances(&state, 3);
    assert_eq!(after_first, vec![949, 999, 1050]);
    let first_task = state.get_task(&person(0), 0).unwrap();
    let second_task = state.get_task(&person(0), 1).unwrap();
    assert_eq!(first_task.status, TaskStatus::Closed);
    state.settlement_tick(DEADLINE);
    assert_eq!(balances(&state, 3), after_first);
    state.settlement_tick(DEADLINE + 1_000_000);
    state.settlement_tick(u64::MAX);
    assert_eq!(balances(&state, 3), after_first);
    assert_eq!(state.get_task(&person(0), 0).unwrap(), first_task);
    assert_eq!(state.get_task(&person(0), 1).unwrap(), second_task);
}

#[test]
fn a_later_settlement_pays_only_what_is_newly_due() {
    let mut state = market(2);
    task(&mut state, 0, 50);
    state
        .submit_task(&person(1), TaskType::TranslateText, vec![], true, 2 * MIN_DURATION, 30, T0)
        .unwrap();
    state.settlement_tick(DEADLINE);
    assert_eq!(balances(&state, 2), vec![999, 969]);
    state.settlement_tick(T0 + 2 * MIN_DURATION - 1);
    assert_eq!(balances(&state, 2), vec![999, 969]);
    state.settlement_tick(T0 + 2 * MIN_DURATION);
    assert_eq!(balances(&state, 2), vec![999, 999]);
}

#[test]
fn of_equal_scores_the_earlier_answer_wins() {
    let mut state = market(5);
    task(&mut state, 0, 40);
    let late = state.answer_task(&person(1), 0, vec![1], T0 + 500).unwrap();
    let early = state.answer_task(&person(2), 0, vec![2], T0 + 100).unwrap();
    state.vote(&person(3), late, 0, Choice::Yes, T0 + 600).unwrap();
    state.vote(&person(4), early, 0, Choice::Yes, T0 + 600).unwrap();
    state.settlement_tick(DEADLINE);
    assert_eq!(balances(&state, 5), vec![959, 1000, 1040, 1000, 1000]);
}

#[test]
fn of_equal_scores_and_times_the_first_answer_wins() {
    let mut state = market(5);
    task(&mut state, 0, 40);
    let first = state.answer_task(&person(1), 0, vec![1], T0 + 100).unwrap();
    let second = state.answer_task(&person(2), 0, vec![2], T0 + 100).unwrap();
    state.vote(&person(3), second, 0, Choice::Yes, T0 + 600).unwrap();
    state.vote(&person(4), first, 0, Choice::Yes, T0 + 600).unwrap();
    state.settlement_tick(DEADLINE);
    assert_eq!(balances(&state, 5), vec![959, 1040, 1000, 1000, 1000]);
}

#[test]
fn a_higher_score_beats_an_earlier_answer() {
    let mut state = market(6);
    task(&mut state, 0, 40);
    let early = state.answer_task(&person(1), 0, vec![1], T0 + 1).unwrap();
    let late = state.answer_task(&person(2), 0, vec![2], T0 + 2).unwrap();
    state.vote(&person(3), early, 0, Choice::Yes, T0 + 3).unwrap();
    state.vote(&person(3), late, 0, Choice::Yes, T0 + 3).unwrap();
    state.vote(&person(4), late, 0, Choice::Yes, T0 + 3).unwrap();
    state.vote(&person(5), early, 0, Choice::No, T0 + 3).unwrap();
    state.settlement_tick(DEADLINE);
    assert_eq!(balances(&state, 6), vec![959, 1000, 1040, 1000, 1000, 1000]);
}

#[test]
fn an_answer_voted_down_loses_to_one_without_votes() {
    let mut state = market(4);
    task(&mut state, 0, 40);
    let down = state.answer_task(&person(1), 0, vec![1], T0 + 1).unwrap();
    state.answer_task(&person(2), 0, vec![2], T0 + 2).unwrap();
    state.vote(&person(3), down, 0, Choice::No, T0 + 3).unwrap();
    state.settlement_tick(DEADLINE);
    assert_eq!(balances(&state, 4), vec![959, 1000, 1040, 1000]);
}

#[test]
fn a_single_answer_voted_down_still_earns_the_reward() {
    let mut state = market(3);
    task(&mut state, 0, 40);
    let only = state.answer_task(&person(1), 0, vec![1], T0 + 1).unwrap();
    state.vote(&person(2), only, 0, Choice::No, T0 + 3).unwrap();
    state.settlement_tick(DEADLINE);
    assert_eq!(balances(&state, 3), vec![959, 1040, 1000]);
}

#[test]
fn tasks_are_settled_independently() {
    let mut state = market(4);
    task(&mut state, 0, 10);
    task(&mut state, 1, 20);
    task(&mut state, 2, 30);
    let a0 = state.answer_task(&person(3), 0, vec![], T0).unwrap();
    let a1 = state.answer_task(&person(3), 1, vec![], T0).unwrap();
    state.answer_task(&person(0), 2, vec![], T0).unwrap();
    state.vote(&person(1), a0, 0, Choice::Yes, T0).unwrap();
    state.vote(&person(2), a1, 1, Choice::No, T0).unwrap();
    state.settlement_tick(DEADLINE + 5);
    assert_eq!(balances(&state, 4), vec![989, 979, 999, 1030]);
    let lines = state.get_all_tasks(&person(0)).unwrap();
    assert!(lines.iter().all(|l| l.status == TaskStatus::Closed));
}

#[test]
fn a_closed_task_takes_no_answers_or_votes() {
    let mut state = market(3);
    task(&mut state, 0, 10);
    let answer = state.answer_task(&person(1), 0, vec![], T0).unwrap();
    state.settlement_tick(DEADLINE);
    assert_eq!(state.answer_task(&person(2), 0, vec![], DEADLINE), Err(Error::Expired));
    assert_eq!(state.vote(&person(2), answer, 0, Choice::Yes, DEADLINE), Err(Error::Expired));
}

#[test]
fn tally_is_yes_less_no() {
    assert_eq!(tally(&votes(&[])), 0);
    assert_eq!(tally(&votes(&[Yes])), 1);
    assert_eq!(tally(&votes(&[No])), -1);
    assert_eq!(tally(&votes(&[Yes, No, Yes, Yes])), 2);
    assert_eq!(tally(&votes(&[No, No, Yes, No, No])), -3);
    assert_eq!(tally(&votes(&[Yes, No])), 0);
}

#[test]
fn recipient_is_found_among_listed_answers_only() {
    let answer = |who: u8, time: u64, choices: &[Choice]| Answer {
        submitter: person(who),
        submission_time: time,
        content: vec![],
        votes: votes(choices),
    };
    let answers = vec![
        answer(1, 10, &[Yes, Yes, Yes]),
        answer(2, 30, &[Yes, No]),
        answer(3, 20, &[Yes, No, Yes, No]),
        answer(4, 20, &[]),
        answer(5, 5, &[No]),
    ];
    let listing = |ids: Vec<u64>| TaskInternal {
        submitter: person(0),
        task_type: TaskType::TranslateText,
        payload: vec![],
        deadline: 100,
        reward: 1,
        answers: ids,
        status: TaskStatus::Open,
    };
    assert_eq!(reward_recipient(&answers, &listing(vec![])), person(0));
    assert_eq!(reward_recipient(&answers, &listing(vec![3])), person(0));
    assert_eq!(reward_recipient(&answers, &listing(vec![0, 1, 2, 3, 4])), person(1));
    assert_eq!(reward_recipient(&answers, &listing(vec![4, 3, 2, 1])), person(3));
    assert_eq!(reward_recipient(&answers, &listing(vec![1, 2, 3, 4])), person(3));
    assert_eq!(reward_recipient(&answers, &listing(vec![1, 3])), person(4));
    assert_eq!(reward_recipient(&answers, &listing(vec![3, 1])), person(4));
    assert_eq!(reward_recipient(&answers, &listing(vec![1, 4])), person(2));
    assert_eq!(reward_recipient(&answers, &listing(vec![4])), person(5));
}
