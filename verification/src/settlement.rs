//! How a settled task's reward finds its recipient.
//!
//! Every answer of the task has a score, the number of its Yes votes less the
//! number of its No votes.  The answer with the highest score wins; among
//! answers of equal score the one submitted earliest wins, and among those the
//! one with the smallest identifier.  The winner's submitter receives the
//! reward if any vote at all was cast on the task's answers; otherwise the
//! reward goes back to the task's submitter.

use crate::types::{
    answers_view, votes_view, Answer, AnswerView, Choice, Identity, TaskInternal, TaskInternalView,
    Vote, VoteView,
};
use vstd::prelude::*;

verus! {

/// The number of votes in `votes` that say `choice`.
pub open spec fn count(votes: Seq<VoteView>, choice: Choice) -> int
    decreases votes.len(),
{
    if votes.len() == 0 {
        0
    } else {
        count(votes.drop_last(), choice) + if votes.last().choice == choice {
            1int
        } else {
            0int
        }
    }
}

/// The Yes votes less the No votes.
pub open spec fn score(votes: Seq<VoteView>) -> int {
    count(votes, Choice::Yes) - count(votes, Choice::No)
}

/// Whether every identifier in `ids` names one of `count` answers.
pub open spec fn all_below(ids: Seq<u64>, count: nat) -> bool {
    forall|k: int| 0 <= k < ids.len() ==> #[trigger] ids[k] < count
}

/// Whether answer `a` is at least as good a claim to the reward as answer `b`.
pub open spec fn precedes(answers: Seq<AnswerView>, a: u64, b: u64) -> bool {
    let score_a = score(answers[a as int].votes);
    let score_b = score(answers[b as int].votes);
    let time_a = answers[a as int].submission_time;
    let time_b = answers[b as int].submission_time;
    ||| score_a > score_b
    ||| score_a == score_b && time_a < time_b
    ||| score_a == score_b && time_a == time_b && a <= b
}

/// Whether `w` is one of `ids` and precedes each of them.
pub open spec fn is_winner(answers: Seq<AnswerView>, ids: Seq<u64>, w: u64) -> bool {
    &&& ids.contains(w)
    &&& forall|k: int| 0 <= k < ids.len() ==> precedes(answers, w, #[trigger] ids[k])
}

/// The winning answer among `ids`, if `ids` is not empty.
pub open spec fn winner(answers: Seq<AnswerView>, ids: Seq<u64>) -> u64 {
    choose|w: u64| is_winner(answers, ids, w)
}

/// Whether any of the answers `ids` has a vote.
pub open spec fn any_vote(answers: Seq<AnswerView>, ids: Seq<u64>) -> bool {
    exists|k: int| 0 <= k < ids.len() && answers[#[trigger] ids[k] as int].votes.len() > 0
}

/// Who receives the reward of `task` when it is settled.
pub open spec fn recipient(answers: Seq<AnswerView>, task: TaskInternalView) -> Seq<u8> {
    if any_vote(answers, task.answers) {
        answers[winner(answers, task.answers) as int].submitter
    } else {
        task.submitter
    }
}

/// No two answers both win: the winner does not depend on the order in which
/// the identifiers are listed.
pub proof fn lemma_winner_unique(answers: Seq<AnswerView>, ids: Seq<u64>, v: u64, w: u64)
    requires
        is_winner(answers, ids, v),
        is_winner(answers, ids, w),
    ensures
        v == w,
{
}

/// An answer that wins is the one that `winner` names.
pub proof fn lemma_winner_is(answers: Seq<AnswerView>, ids: Seq<u64>, w: u64)
    requires
        is_winner(answers, ids, w),
    ensures
        winner(answers, ids) == w,
{
    lemma_winner_unique(answers, ids, winner(answers, ids), w);
}

/// Among one or more answers there is a winner.
pub proof fn lemma_winner_exists(answers: Seq<AnswerView>, ids: Seq<u64>)
    requires
        ids.len() > 0,
    ensures
        is_winner(answers, ids, winner(answers, ids)),
    decreases ids.len(),
{
    let last = ids.last();
    let rest = ids.drop_last();
    let n = ids.len() - 1;
    if rest.len() == 0 {
        assert(is_winner(answers, ids, last));
    } else {
        lemma_winner_exists(answers, rest);
        let w = winner(answers, rest);
        if precedes(answers, w, last) {
            assert forall|k: int| 0 <= k < ids.len() implies precedes(
                answers,
                w,
                #[trigger] ids[k],
            ) by {
                if k < n {
                    assert(precedes(answers, w, rest[k]));
                }
            }
            assert(is_winner(answers, ids, w));
        } else {
            assert forall|k: int| 0 <= k < ids.len() implies precedes(
                answers,
                last,
                #[trigger] ids[k],
            ) by {
                if k < n {
                    assert(precedes(answers, w, rest[k]));
                }
            }
            assert(is_winner(answers, ids, last));
        }
    }
}

/// The score of a list of votes.
pub fn tally(votes: &Vec<Vote>) -> (net: i128)
    ensures
        net == score(votes_view(votes@)),
{
    let ghost all = votes_view(votes@);
    let mut yes: usize = 0;
    let mut no: usize = 0;
    let mut i: usize = 0;
    while i < votes.len()
        invariant
            i <= votes.len(),
            all == votes_view(votes@),
            yes == count(all.take(i as int), Choice::Yes),
            no == count(all.take(i as int), Choice::No),
            yes + no == i,
        decreases votes.len() - i,
    {
        proof {
            assert(all.take(i as int + 1).drop_last() =~= all.take(i as int));
        }
        match votes[i].choice {
            Choice::Yes => {
                yes += 1;
            },
            Choice::No => {
                no += 1;
            },
        }
        i += 1;
    }
    assert(all.take(votes.len() as int) =~= all);
    yes as i128 - no as i128
}

/// Who receives the reward of `task` when it is settled.
pub fn reward_recipient(answers: &Vec<Answer>, task: &TaskInternal) -> (who: Identity)
    requires
        all_below(task@.answers, answers@.len()),
    ensures
        who@ == recipient(answers_view(answers@), task@),
{
    let ghost all = answers_view(answers@);
    let ghost ids = task@.answers;
    if task.answers.len() == 0 {
        return task.submitter.clone();
    }
    let first: u64 = task.answers[0];
    assert(first < answers.len());
    let mut best: u64 = first;
    let mut best_score: i128 = tally(&answers[first as usize].votes);
    let mut best_time: u64 = answers[first as usize].submission_time;
    let mut voted: bool = answers[first as usize].votes.len() > 0;
    let mut k: usize = 1;
    assert(is_winner(all, ids.take(1), best)) by {
        assert(ids.take(1)[0] == best);
    }
    while k < task.answers.len()
        invariant
            1 <= k <= task.answers.len(),
            all == answers_view(answers@),
            ids == task@.answers,
            all_below(ids, answers@.len()),
            best < answers@.len(),
            best_score == score(all[best as int].votes),
            best_time == all[best as int].submission_time,
            is_winner(all, ids.take(k as int), best),
            voted == any_vote(all, ids.take(k as int)),
        decreases task.answers.len() - k,
    {
        let id: u64 = task.answers[k];
        assert(id < answers.len());
        let answer = &answers[id as usize];
        let net: i128 = tally(&answer.votes);
        let ghost after = ids.take(k as int + 1);
        proof {
            assert(after.last() == id);
        }
        if answer.votes.len() > 0 {
            voted = true;
        }
        if net > best_score || (net == best_score && (answer.submission_time < best_time || (
            answer.submission_time == best_time && id < best))) {
            best = id;
            best_score = net;
            best_time = answer.submission_time;
        }
        proof {
            assert(after.contains(best));
        }
        k += 1;
    }
    proof {
        assert(ids.take(k as int) =~= ids);
        lemma_winner_is(all, ids, best);
    }
    if voted {
        answers[best as usize].submitter.clone()
    } else {
        task.submitter.clone()
    }
}

} // verus!
