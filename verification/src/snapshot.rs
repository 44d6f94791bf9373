//! The marketplace as plain data, to be kept through a restart.
//!
//! A snapshot holds the ledger, the tasks, the answers and the two counters
//! from which the next identifiers are taken.  Tasks and answers stand in the
//! order of their identifiers.  Restoring a snapshot checks all that the
//! operations rely on, so that a snapshot that was tampered with or cut short
//! is refused as a whole.

use crate::ledger::{
    accounts_view, copy_accounts, lemma_total_nonnegative, registered, Account, AccountView,
    Ledger,
};
use crate::model::{
    distinct_submitters, escrow, lemma_escrow_nonnegative, sound_answer, sound_task, StateView,
};
use crate::settlement::all_below;
use crate::state::State;
use crate::sweep::lemma_escrow_prefix;
use crate::types::{
    answers_view, answers_with_id_view, tasks_view, tasks_with_id_view, votes_view, Answer,
    AnswerWithId, AnswerWithIdView, Error, TaskInternal, TaskStatus, TaskWithId, TaskWithIdView,
};
use vstd::prelude::*;

verus! {

/// The whole state of a marketplace.
#[derive(Debug, PartialEq, Eq)]
pub struct Snapshot {
    pub next_task_id: u64,
    pub tasks: Vec<TaskWithId>,
    pub answers: Vec<AnswerWithId>,
    pub next_answer_id: u64,
    pub ledger: Vec<Account>,
}

/// A snapshot as a mathematical value.
pub struct SnapshotView {
    pub next_task_id: u64,
    pub tasks: Seq<TaskWithIdView>,
    pub answers: Seq<AnswerWithIdView>,
    pub next_answer_id: u64,
    pub ledger: Seq<AccountView>,
}

impl View for Snapshot {
    type V = SnapshotView;

    open spec fn view(&self) -> SnapshotView {
        SnapshotView {
            next_task_id: self.next_task_id,
            tasks: tasks_with_id_view(self.tasks@),
            answers: answers_with_id_view(self.answers@),
            next_answer_id: self.next_answer_id,
            ledger: accounts_view(self.ledger@),
        }
    }
}

impl SnapshotView {
    /// The marketplace that the snapshot describes.
    pub open spec fn state(self) -> StateView {
        StateView {
            ledger: self.ledger,
            tasks: Seq::new(self.tasks.len(), |t: int| self.tasks[t].task),
            answers: Seq::new(self.answers.len(), |a: int| self.answers[a].answer),
        }
    }

    /// Tasks and answers are numbered from zero on without a gap, and each
    /// counter is the next free number.
    pub open spec fn numbered(self) -> bool {
        &&& self.next_task_id == self.tasks.len()
        &&& self.next_answer_id == self.answers.len()
        &&& forall|t: int| 0 <= t < self.tasks.len() ==> (#[trigger] self.tasks[t]).task_id == t
        &&& forall|a: int|
            0 <= a < self.answers.len() ==> (#[trigger] self.answers[a]).answer_id == a
    }

    /// Whether the snapshot describes a well formed marketplace.
    pub open spec fn consistent(self) -> bool {
        self.numbered() && self.state().wf()
    }
}

impl StateView {
    /// The snapshot of the marketplace.
    pub open spec fn snapshot(self) -> SnapshotView {
        SnapshotView {
            next_task_id: self.tasks.len() as u64,
            tasks: Seq::new(
                self.tasks.len(),
                |t: int| TaskWithIdView { task_id: t as u64, task: self.tasks[t] },
            ),
            answers: Seq::new(
                self.answers.len(),
                |a: int| AnswerWithIdView { answer_id: a as u64, answer: self.answers[a] },
            ),
            next_answer_id: self.answers.len() as u64,
            ledger: self.ledger,
        }
    }
}

/// The snapshot of a well formed marketplace is consistent and describes that
/// marketplace, provided that the counters fit their type.
pub proof fn law_snapshot_round_trip(s: StateView)
    requires
        s.wf(),
        s.tasks.len() <= u64::MAX,
        s.answers.len() <= u64::MAX,
    ensures
        s.snapshot().consistent(),
        s.snapshot().state() == s,
{
    let back = s.snapshot().state();
    assert(back.tasks =~= s.tasks);
    assert(back.answers =~= s.answers);
}

/// Whether every identifier in `ids` names one of `count` answers.
pub fn ids_below(ids: &Vec<u64>, count: usize) -> (b: bool)
    ensures
        b == all_below(ids@, count as nat),
{
    let mut k: usize = 0;
    while k < ids.len()
        invariant
            k <= ids.len(),
            forall|j: int| 0 <= j < k ==> #[trigger] ids@[j] < count,
        decreases ids.len() - k,
    {
        if ids[k] >= count as u64 {
            return false;
        }
        k += 1;
    }
    true
}

/// Whether no two of the answers `ids` have one submitter.
pub fn submitters_distinct(answers: &Vec<Answer>, ids: &Vec<u64>) -> (b: bool)
    requires
        all_below(ids@, answers@.len()),
    ensures
        b == distinct_submitters(answers_view(answers@), ids@),
{
    let ghost all = answers_view(answers@);
    let mut j: usize = 0;
    while j < ids.len()
        invariant
            j <= ids.len(),
            all == answers_view(answers@),
            all_below(ids@, answers@.len()),
            forall|a: int, b: int|
                0 <= a < b < j ==> all[#[trigger] ids@[a] as int].submitter != all[
                #[trigger] ids@[b] as int].submitter,
        decreases ids.len() - j,
    {
        let later: u64 = ids[j];
        let mut i: usize = 0;
        while i < j
            invariant
                i <= j < ids.len(),
                all == answers_view(answers@),
                all_below(ids@, answers@.len()),
                later == ids@[j as int],
                later < answers.len(),
                forall|a: int|
                    0 <= a < i ==> all[#[trigger] ids@[a] as int].submitter
                        != all[later as int].submitter,
            decreases j - i,
        {
            let earlier: u64 = ids[i];
            if answers[earlier as usize].submitter.same(&answers[later as usize].submitter) {
                return false;
            }
            i += 1;
        }
        j += 1;
    }
    true
}

/// Whether the submitter of `task` is registered and its answers exist and
/// have one submitter each.
pub fn task_is_sound(ledger: &Ledger, answers: &Vec<Answer>, task: &TaskInternal) -> (b: bool)
    ensures
        b == sound_task(ledger@, answers_view(answers@), task@),
{
    ledger.is_registered(&task.submitter) && ids_below(&task.answers, answers.len())
        && submitters_distinct(answers, &task.answers)
}

/// Whether the submitter of `answer` and its voters are registered and no
/// voter voted twice.
pub fn answer_is_sound(ledger: &Ledger, answer: &Answer) -> (b: bool)
    ensures
        b == sound_answer(ledger@, answer@),
{
    if !ledger.is_registered(&answer.submitter) {
        return false;
    }
    let ghost votes = votes_view(answer.votes@);
    let mut j: usize = 0;
    while j < answer.votes.len()
        invariant
            j <= answer.votes.len(),
            votes == votes_view(answer.votes@),
            votes == answer@.votes,
            registered(ledger@, answer@.submitter),
            forall|a: int| 0 <= a < j ==> registered(ledger@, (#[trigger] votes[a]).voter),
            forall|a: int, b: int|
                0 <= a < b < j ==> (#[trigger] votes[a]).voter != (#[trigger] votes[b]).voter,
        decreases answer.votes.len() - j,
    {
        if !ledger.is_registered(&answer.votes[j].voter) {
            return false;
        }
        let mut i: usize = 0;
        while i < j
            invariant
                i <= j < answer.votes.len(),
                votes == votes_view(answer.votes@),
                votes == answer@.votes,
                forall|a: int| 0 <= a < i ==> (#[trigger] votes[a]).voter != votes[j as int].voter,
            decreases j - i,
        {
            assert(votes[i as int] == answer.votes@[i as int]@);
            if answer.votes[i].voter.same(&answer.votes[j].voter) {
                return false;
            }
            i += 1;
        }
        j += 1;
    }
    true
}

/// What the open tasks among `tasks` hold back, if it fits the balance type.
pub fn checked_escrow(tasks: &Vec<TaskInternal>) -> (result: Option<u64>)
    ensures
        match result {
            Some(sum) => sum == escrow(tasks_view(tasks@)),
            None => escrow(tasks_view(tasks@)) > u64::MAX,
        },
{
    let ghost all = tasks_view(tasks@);
    let mut sum: u64 = 0;
    let mut t: usize = 0;
    while t < tasks.len()
        invariant
            t <= tasks.len(),
            all == tasks_view(tasks@),
            sum == escrow(all.take(t as int)),
        decreases tasks.len() - t,
    {
        proof {
            lemma_escrow_prefix(all, t as int + 1);
            assert(all.take(t as int + 1).drop_last() =~= all.take(t as int));
        }
        match tasks[t].status {
            TaskStatus::Open => {
                let reward = tasks[t].reward;
                if reward > u64::MAX - sum {
                    return None;
                }
                sum = sum + reward;
            },
            TaskStatus::Closed => {},
        }
        t += 1;
    }
    assert(all.take(all.len() as int) =~= all);
    Some(sum)
}

/// Whether the tasks and the answers are sound and the supply fits the balance
/// type: whether a marketplace with this ledger, these tasks and these answers
/// is well formed.
pub fn records_are_sound(ledger: &Ledger, tasks: &Vec<TaskInternal>, answers: &Vec<Answer>) -> (b:
    bool)
    requires
        ledger.wf(),
    ensures
        b == (StateView {
            ledger: ledger@,
            tasks: tasks_view(tasks@),
            answers: answers_view(answers@),
        }).wf(),
{
    let ghost target = StateView {
        ledger: ledger@,
        tasks: tasks_view(tasks@),
        answers: answers_view(answers@),
    };
    let mut t: usize = 0;
    while t < tasks.len()
        invariant
            t <= tasks.len(),
            target.ledger == ledger@,
            target.tasks == tasks_view(tasks@),
            target.answers == answers_view(answers@),
            forall|j: int| 0 <= j < t ==> target.task_wf(#[trigger] target.tasks[j]),
        decreases tasks.len() - t,
    {
        assert(target.tasks[t as int] == tasks@[t as int]@);
        if !task_is_sound(ledger, answers, &tasks[t]) {
            return false;
        }
        t += 1;
    }
    let mut a: usize = 0;
    while a < answers.len()
        invariant
            a <= answers.len(),
            target.ledger == ledger@,
            target.tasks == tasks_view(tasks@),
            target.answers == answers_view(answers@),
            forall|j: int| 0 <= j < tasks.len() ==> target.task_wf(#[trigger] target.tasks[j]),
            forall|j: int| 0 <= j < a ==> target.answer_wf(#[trigger] target.answers[j]),
        decreases answers.len() - a,
    {
        assert(target.answers[a as int] == answers@[a as int]@);
        if !answer_is_sound(ledger, &answers[a]) {
            return false;
        }
        a += 1;
    }
    match checked_escrow(tasks) {
        Some(held) => held <= u64::MAX - ledger.total_balance(),
        None => {
            proof {
                lemma_total_nonnegative(target.ledger);
            }
            false
        },
    }
}

impl State {
    /// Whether the marketplace is well formed.  It is after every operation;
    /// this is the check to run on a marketplace of unknown making.
    pub fn is_well_formed(&self) -> (b: bool)
        ensures
            b == self.wf(),
    {
        let ledger = self.ledger();
        let tasks = self.tasks();
        let answers = self.answers();
        proof {
            lemma_escrow_nonnegative(self@.tasks);
            assert(self@ == (StateView {
                ledger: ledger@,
                tasks: tasks_view(tasks@),
                answers: answers_view(answers@),
            }));
        }
        ledger.is_sound() && records_are_sound(ledger, tasks, answers)
    }

    /// The snapshot of the marketplace.
    pub fn snapshot(&self) -> (snapshot: Snapshot)
        ensures
            snapshot@ == self@.snapshot(),
    {
        let stored_tasks = self.tasks();
        let stored_answers = self.answers();
        let mut tasks: Vec<TaskWithId> = Vec::new();
        let mut t: usize = 0;
        while t < stored_tasks.len()
            invariant
                t <= stored_tasks.len(),
                tasks.len() == t,
                forall|j: int|
                    0 <= j < t ==> (#[trigger] tasks@[j])@ == (TaskWithIdView {
                        task_id: j as u64,
                        task: stored_tasks@[j]@,
                    }),
            decreases stored_tasks.len() - t,
        {
            tasks.push(TaskWithId { task_id: t as u64, task: stored_tasks[t].clone() });
            t += 1;
        }
        let mut answers: Vec<AnswerWithId> = Vec::new();
        let mut a: usize = 0;
        while a < stored_answers.len()
            invariant
                a <= stored_answers.len(),
                answers.len() == a,
                forall|j: int|
                    0 <= j < a ==> (#[trigger] answers@[j])@ == (AnswerWithIdView {
                        answer_id: j as u64,
                        answer: stored_answers@[j]@,
                    }),
            decreases stored_answers.len() - a,
        {
            answers.push(AnswerWithId { answer_id: a as u64, answer: stored_answers[a].clone() });
            a += 1;
        }
        let snapshot = Snapshot {
            next_task_id: stored_tasks.len() as u64,
            tasks,
            answers,
            next_answer_id: stored_answers.len() as u64,
            ledger: self.ledger().accounts(),
        };
        proof {
            let expected = self@.snapshot();
            assert(snapshot@.tasks =~= expected.tasks);
            assert(snapshot@.answers =~= expected.answers);
        }
        snapshot
    }

    /// The marketplace that `snapshot` describes, if the snapshot is
    /// consistent.
    pub fn restore(snapshot: &Snapshot) -> (result: Result<State, Error>)
        ensures
            match result {
                Ok(state) => {
                    &&& snapshot@.consistent()
                    &&& state@ == snapshot@.state()
                    &&& state.wf()
                },
                Err(e) => e == Error::Inconsistency && !snapshot@.consistent(),
            },
    {
        let ghost target = snapshot@.state();
        if snapshot.next_task_id != snapshot.tasks.len() as u64 || snapshot.next_answer_id
            != snapshot.answers.len() as u64 {
            return Err(Error::Inconsistency);
        }
        let mut tasks: Vec<TaskInternal> = Vec::new();
        let mut t: usize = 0;
        while t < snapshot.tasks.len()
            invariant
                t <= snapshot.tasks.len(),
                tasks.len() == t,
                forall|j: int| 0 <= j < t ==> (#[trigger] snapshot@.tasks[j]).task_id == j,
                forall|j: int| 0 <= j < t ==> (#[trigger] tasks@[j])@ == snapshot@.tasks[j].task,
            decreases snapshot.tasks.len() - t,
        {
            assert(snapshot@.tasks[t as int] == snapshot.tasks@[t as int]@);
            if snapshot.tasks[t].task_id != t as u64 {
                return Err(Error::Inconsistency);
            }
            tasks.push(snapshot.tasks[t].task.clone());
            t += 1;
        }
        let mut answers: Vec<Answer> = Vec::new();
        let mut a: usize = 0;
        while a < snapshot.answers.len()
            invariant
                a <= snapshot.answers.len(),
                answers.len() == a,
                forall|j: int| 0 <= j < a ==> (#[trigger] snapshot@.answers[j]).answer_id == j,
                forall|j: int|
                    0 <= j < a ==> (#[trigger] answers@[j])@ == snapshot@.answers[j].answer,
            decreases snapshot.answers.len() - a,
        {
            assert(snapshot@.answers[a as int] == snapshot.answers@[a as int]@);
            if snapshot.answers[a].answer_id != a as u64 {
                return Err(Error::Inconsistency);
            }
            answers.push(snapshot.answers[a].answer.clone());
            a += 1;
        }
        assert(tasks_view(tasks@) =~= target.tasks);
        assert(answers_view(answers@) =~= target.answers);
        let ledger = match Ledger::from_accounts(copy_accounts(&snapshot.ledger)) {
            Some(ledger) => ledger,
            None => {
                proof {
                    lemma_escrow_nonnegative(target.tasks);
                }
                return Err(Error::Inconsistency);
            },
        };
        if !records_are_sound(&ledger, &tasks, &answers) {
            return Err(Error::Inconsistency);
        }
        Ok(State::assemble(ledger, tasks, answers))
    }
}

} // verus!
