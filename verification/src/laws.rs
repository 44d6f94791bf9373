//! What holds of the marketplace whatever its users do.

use crate::model::{
    closed_task, due, has_answered, has_voted, payout, settled_tasks, StateView,
};
use crate::settlement::{
    any_vote, is_winner, lemma_winner_exists, recipient, score, winner,
};
use crate::sweep::lemma_payout_fits;
use crate::types::{
    AnswerView, Error, TaskInternalView, MAX_CONTENT_SIZE, MAX_NUMBER_ANSWERS,
};
use vstd::prelude::*;

verus! {

/// No two answers of one task have the same submitter.
pub proof fn law_one_answer_per_submitter(s: StateView, task_id: int, i: int, j: int)
    requires
        s.wf(),
        0 <= task_id < s.tasks.len(),
        0 <= i < s.tasks[task_id].answers.len(),
        0 <= j < s.tasks[task_id].answers.len(),
        i != j,
    ensures
        s.tasks[task_id].answers[i] != s.tasks[task_id].answers[j],
        ({
            let task = s.tasks[task_id];
            s.answers[task.answers[i] as int].submitter
                != s.answers[task.answers[j] as int].submitter
        }),
{
}

/// No two votes on one answer have the same voter.
pub proof fn law_one_vote_per_voter(s: StateView, answer_id: int, i: int, j: int)
    requires
        s.wf(),
        0 <= answer_id < s.answers.len(),
        0 <= i < s.answers[answer_id].votes.len(),
        0 <= j < s.answers[answer_id].votes.len(),
        i != j,
    ensures
        s.answers[answer_id].votes[i].voter != s.answers[answer_id].votes[j].voter,
{
}

/// A second answer of one participant to one task is refused, whatever else
/// holds of it, and it is refused as a duplicate where the task still takes
/// answers and the content is not too large.
pub proof fn law_second_answer_refused(
    s: StateView,
    caller: Seq<u8>,
    task_id: u64,
    content: Seq<u8>,
    now: u64,
)
    requires
        s.wf(),
        task_id < s.tasks.len(),
        has_answered(s.answers, s.tasks[task_id as int].answers, caller),
    ensures
        s.answer_error(caller, task_id, content, now) is Some,
        s.tasks[task_id as int].answers.len() < MAX_NUMBER_ANSWERS && !crate::model::expired(
            s.tasks[task_id as int].deadline,
            now,
        ) && content.len() <= MAX_CONTENT_SIZE ==> s.answer_error(caller, task_id, content, now)
            == Some(Error::DuplicateSubmission),
{
}

/// A second vote of one participant on one answer is refused, whatever else
/// holds of it, and it is refused as a duplicate where the answer belongs to
/// the task and the task's deadline has not passed.
pub proof fn law_second_vote_refused(
    s: StateView,
    caller: Seq<u8>,
    answer_id: u64,
    task_id: u64,
    now: u64,
)
    requires
        s.wf(),
        answer_id < s.answers.len(),
        has_voted(s.answers[answer_id as int].votes, caller),
    ensures
        s.vote_error(caller, answer_id, task_id, now) is Some,
        task_id < s.tasks.len() && s.tasks[task_id as int].answers.contains(answer_id)
            && !crate::model::expired(s.tasks[task_id as int].deadline, now) ==> s.vote_error(
            caller,
            answer_id,
            task_id,
            now,
        ) == Some(Error::DuplicateSubmission),
{
}

/// The winner has the highest score, and of two answers with the same score
/// the one that was submitted later does not win.
pub proof fn law_tie_break(answers: Seq<AnswerView>, ids: Seq<u64>, a: u64, b: u64)
    requires
        ids.contains(a),
        ids.contains(b),
    ensures
        score(answers[winner(answers, ids) as int].votes) >= score(answers[a as int].votes),
        score(answers[a as int].votes) == score(answers[b as int].votes)
            && answers[a as int].submission_time < answers[b as int].submission_time
            ==> winner(answers, ids) != b,
{
    lemma_winner_exists(answers, ids);
}

/// The winner depends on which answers a task has, not on the order in which
/// they are listed.
pub proof fn law_winner_ignores_order(answers: Seq<AnswerView>, ids: Seq<u64>, other: Seq<u64>)
    requires
        ids.len() > 0,
        forall|id: u64| ids.contains(id) <==> other.contains(id),
    ensures
        winner(answers, ids) == winner(answers, other),
        any_vote(answers, ids) == any_vote(answers, other),
{
    lemma_winner_exists(answers, ids);
    lemma_winner_exists(answers, other);
    if any_vote(answers, ids) {
        let k = choose|k: int|
            0 <= k < ids.len() && answers[#[trigger] ids[k] as int].votes.len() > 0;
        assert(other.contains(ids[k]));
    }
    if any_vote(answers, other) {
        let k = choose|k: int|
            0 <= k < other.len() && answers[#[trigger] other[k] as int].votes.len() > 0;
        assert(ids.contains(other[k]));
    }
}

/// The reward of a task on whose answers nobody voted goes back to the
/// task's submitter.
pub proof fn law_no_vote_refund(answers: Seq<AnswerView>, task: TaskInternalView)
    requires
        forall|k: int|
            0 <= k < task.answers.len() ==> answers[#[trigger] task.answers[k] as int].votes.len()
                == 0,
    ensures
        recipient(answers, task) == task.submitter,
{
}

/// The reward of a task with a vote goes to the submitter of an answer of the
/// task that no other answer of the task beats.
pub proof fn law_voted_reward(answers: Seq<AnswerView>, task: TaskInternalView)
    requires
        any_vote(answers, task.answers),
    ensures
        is_winner(answers, task.answers, winner(answers, task.answers)),
        recipient(answers, task) == answers[winner(answers, task.answers) as int].submitter,
{
    lemma_winner_exists(answers, task.answers);
}

/// A settlement pays nothing where no task is due.
pub proof fn lemma_payout_none_due(
    tasks: Seq<TaskInternalView>,
    answers: Seq<AnswerView>,
    now: u64,
    who: Seq<u8>,
)
    requires
        forall|t: int| 0 <= t < tasks.len() ==> !due(#[trigger] tasks[t], now),
    ensures
        payout(tasks, answers, now, who) == 0,
    decreases tasks.len(),
{
    if tasks.len() > 0 {
        lemma_payout_none_due(tasks.drop_last(), answers, now, who);
    }
}

/// A settlement right after a settlement at the same time changes nothing:
/// the tasks that the first one closed are not settled again.
pub proof fn law_settlement_idempotent(s: StateView, now: u64)
    ensures
        s.settled(now).settled(now) == s.settled(now),
{
    let once = s.settled(now);
    let twice = once.settled(now);
    assert forall|k: int| 0 <= k < once.ledger.len() implies twice.ledger[k] == once.ledger[k] by {
        lemma_payout_none_due(once.tasks, once.answers, now, once.ledger[k].owner);
    }
    assert(twice.ledger =~= once.ledger);
    assert(twice.tasks =~= once.tasks);
}

/// What a settlement at `first` pays and what a later settlement at `second`
/// then still pays is what one settlement at `second` pays.
pub proof fn lemma_payout_composes(
    tasks: Seq<TaskInternalView>,
    answers: Seq<AnswerView>,
    first: u64,
    second: u64,
    who: Seq<u8>,
)
    requires
        first <= second,
    ensures
        payout(tasks, answers, first, who) + payout(
            settled_tasks(tasks, first),
            answers,
            second,
            who,
        ) == payout(tasks, answers, second, who),
    decreases tasks.len(),
{
    if tasks.len() > 0 {
        assert(settled_tasks(tasks, first).drop_last() =~= settled_tasks(
            tasks.drop_last(),
            first,
        ));
        lemma_payout_composes(tasks.drop_last(), answers, first, second, who);
        let task = tasks.last();
        assert(settled_tasks(tasks, first).last() == if due(task, first) {
            closed_task(task)
        } else {
            task
        });
    }
}

/// A settlement followed by a settlement at the same or a later time, with
/// nothing in between, leaves the marketplace as the later settlement alone
/// would: no task is paid twice.
pub proof fn law_settlement_composes(s: StateView, first: u64, second: u64)
    requires
        s.wf(),
        first <= second,
    ensures
        s.settled(first).settled(second) == s.settled(second),
{
    let once = s.settled(first);
    let twice = once.settled(second);
    let direct = s.settled(second);
    assert(s.tasks.take(s.tasks.len() as int) =~= s.tasks);
    assert forall|k: int| 0 <= k < s.ledger.len() implies twice.ledger[k] == direct.ledger[k] by {
        let who = s.ledger[k].owner;
        lemma_payout_fits(s, first, s.tasks.len() as int, k);
        lemma_payout_fits(s, second, s.tasks.len() as int, k);
        lemma_payout_composes(s.tasks, s.answers, first, second, who);
    }
    assert(twice.ledger =~= direct.ledger);
    assert(twice.tasks =~= direct.tasks);
}

/// A settlement closes every task that is due, and leaves every other task
/// and every answer as they were.
pub proof fn law_settlement_closes_due(s: StateView, now: u64, t: int)
    requires
        0 <= t < s.tasks.len(),
    ensures
        s.settled(now).tasks.len() == s.tasks.len(),
        s.settled(now).answers == s.answers,
        due(s.tasks[t], now) ==> s.settled(now).tasks[t] == closed_task(s.tasks[t]),
        !due(s.tasks[t], now) ==> s.settled(now).tasks[t] == s.tasks[t],
        !due(s.settled(now).tasks[t], now),
{
}

/// A settlement leaves every ledger entry with its owner and adds to its
/// balance the rewards of the due tasks whose recipient the owner is; the sum
/// fits the balance type.
pub proof fn law_settlement_pays(s: StateView, now: u64, k: int)
    requires
        s.wf(),
        0 <= k < s.ledger.len(),
    ensures
        s.settled(now).ledger.len() == s.ledger.len(),
        s.settled(now).ledger[k].owner == s.ledger[k].owner,
        s.settled(now).ledger[k].balance == s.ledger[k].balance + payout(
            s.tasks,
            s.answers,
            now,
            s.ledger[k].owner,
        ),
{
    assert(s.tasks.take(s.tasks.len() as int) =~= s.tasks);
    lemma_payout_fits(s, now, s.tasks.len() as int, k);
}

} // verus!
