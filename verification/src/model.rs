//! The marketplace as a mathematical value, and what each operation makes of it.

use crate::ledger::{balance, distinct_owners, registered, total, with_balance, AccountView};
use crate::settlement::{all_below, recipient};
use crate::types::{
    AnswerView, AnswerWithIdView, Choice, Error, ShortTaskView, TaskInternalView, TaskStatus,
    TaskType, TaskView, VoteView, INITIAL_TOKENS, MAX_CONTENT_SIZE, MAX_DURATION,
    MAX_NUMBER_ANSWERS, MAX_TASK_PAYLOAD, MIN_DURATION, SUBMISSION_COST,
};
use vstd::prelude::*;

verus! {

/// Whether a deadline has passed at the time `now`.
pub open spec fn expired(deadline: u64, now: u64) -> bool {
    deadline <= now
}

/// Whether a settlement at the time `now` closes `task`.
pub open spec fn due(task: TaskInternalView, now: u64) -> bool {
    task.status == TaskStatus::Open && expired(task.deadline, now)
}

/// `task` after its settlement.
pub open spec fn closed_task(task: TaskInternalView) -> TaskInternalView {
    TaskInternalView { status: TaskStatus::Closed, ..task }
}

/// `tasks` with every task closed that is due at the time `now`.
pub open spec fn settled_tasks(tasks: Seq<TaskInternalView>, now: u64) -> Seq<TaskInternalView> {
    Seq::new(
        tasks.len(),
        |t: int|
            if due(tasks[t], now) {
                closed_task(tasks[t])
            } else {
                tasks[t]
            },
    )
}

/// The rewards that the open tasks hold back.
pub open spec fn escrow(tasks: Seq<TaskInternalView>) -> int
    decreases tasks.len(),
{
    if tasks.len() == 0 {
        0
    } else {
        escrow(tasks.drop_last()) + if tasks.last().status == TaskStatus::Open {
            tasks.last().reward as int
        } else {
            0int
        }
    }
}

/// What a settlement at the time `now` pays to `who`.
pub open spec fn payout(
    tasks: Seq<TaskInternalView>,
    answers: Seq<AnswerView>,
    now: u64,
    who: Seq<u8>,
) -> int
    decreases tasks.len(),
{
    if tasks.len() == 0 {
        0
    } else {
        payout(tasks.drop_last(), answers, now, who) + if due(tasks.last(), now) && recipient(
            answers,
            tasks.last(),
        ) == who {
            tasks.last().reward as int
        } else {
            0int
        }
    }
}

/// Whether one of the answers `ids` was submitted by `who`.
pub open spec fn has_answered(answers: Seq<AnswerView>, ids: Seq<u64>, who: Seq<u8>) -> bool {
    exists|k: int| 0 <= k < ids.len() && answers[#[trigger] ids[k] as int].submitter == who
}

/// Whether one of `votes` was cast by `who`.
pub open spec fn has_voted(votes: Seq<VoteView>, who: Seq<u8>) -> bool {
    exists|k: int| 0 <= k < votes.len() && (#[trigger] votes[k]).voter == who
}

/// No two of the answers `ids` have one submitter.
pub open spec fn distinct_submitters(answers: Seq<AnswerView>, ids: Seq<u64>) -> bool {
    forall|i: int, j: int|
        0 <= i < j < ids.len() ==> answers[#[trigger] ids[i] as int].submitter
            != answers[#[trigger] ids[j] as int].submitter
}

/// No two of `votes` have one voter.
pub open spec fn distinct_voters(votes: Seq<VoteView>) -> bool {
    forall|i: int, j: int|
        0 <= i < j < votes.len() ==> (#[trigger] votes[i]).voter != (#[trigger] votes[j]).voter
}

/// Every one of `votes` was cast by a registered participant.
pub open spec fn voters_registered(ledger: Seq<AccountView>, votes: Seq<VoteView>) -> bool {
    forall|k: int| 0 <= k < votes.len() ==> registered(ledger, (#[trigger] votes[k]).voter)
}

/// The submitter of `task` is registered, and its answers exist and have one
/// submitter each.
pub open spec fn sound_task(
    ledger: Seq<AccountView>,
    answers: Seq<AnswerView>,
    task: TaskInternalView,
) -> bool {
    &&& registered(ledger, task.submitter)
    &&& all_below(task.answers, answers.len())
    &&& distinct_submitters(answers, task.answers)
}

/// The submitter of `answer` and its voters are registered, and no voter voted
/// twice.
pub open spec fn sound_answer(ledger: Seq<AccountView>, answer: AnswerView) -> bool {
    &&& registered(ledger, answer.submitter)
    &&& voters_registered(ledger, answer.votes)
    &&& distinct_voters(answer.votes)
}

/// The ledger, the tasks and the answers.  A task's identifier is its index in
/// `tasks`, an answer's identifier its index in `answers`.
pub struct StateView {
    pub ledger: Seq<AccountView>,
    pub tasks: Seq<TaskInternalView>,
    pub answers: Seq<AnswerView>,
}

impl StateView {
    /// The submitter of `task` is registered, and its answers exist and have
    /// one submitter each.
    pub open spec fn task_wf(self, task: TaskInternalView) -> bool {
        sound_task(self.ledger, self.answers, task)
    }

    /// The submitter of `answer` and its voters are registered, and no voter
    /// voted twice.
    pub open spec fn answer_wf(self, answer: AnswerView) -> bool {
        sound_answer(self.ledger, answer)
    }

    /// The tokens in existence: those in the ledger and those held back for
    /// the open tasks.
    pub open spec fn supply(self) -> int {
        total(self.ledger) + escrow(self.tasks)
    }

    /// What holds of the marketplace between any two operations.
    pub open spec fn wf(self) -> bool {
        &&& distinct_owners(self.ledger)
        &&& self.supply() <= u64::MAX
        &&& forall|t: int| 0 <= t < self.tasks.len() ==> self.task_wf(#[trigger] self.tasks[t])
        &&& forall|a: int|
            0 <= a < self.answers.len() ==> self.answer_wf(#[trigger] self.answers[a])
    }

    /// The marketplace after `who` has registered.
    pub open spec fn registered_with(self, who: Seq<u8>) -> StateView {
        StateView {
            ledger: self.ledger.push(AccountView { owner: who, balance: INITIAL_TOKENS }),
            ..self
        }
    }

    /// Why a submission is refused, if it is: the first check that fails.
    pub open spec fn submit_error(
        self,
        caller: Seq<u8>,
        task_type: TaskType,
        payload: Seq<u8>,
        payload_decodes: bool,
        duration: u64,
        reward: u64,
    ) -> Option<Error> {
        if !registered(self.ledger, caller) {
            Some(Error::NotRegistered)
        } else if balance(self.ledger, caller) < SUBMISSION_COST {
            Some(Error::InsufficientFunds)
        } else if task_type != TaskType::TranslateText {
            Some(Error::Unsupported)
        } else if payload.len() > MAX_TASK_PAYLOAD || !payload_decodes {
            Some(Error::InvalidInput)
        } else if duration < MIN_DURATION || duration > MAX_DURATION {
            Some(Error::OutOfRange)
        } else if balance(self.ledger, caller) < SUBMISSION_COST + reward {
            Some(Error::InsufficientFunds)
        } else {
            None
        }
    }

    /// The marketplace after an accepted submission.
    pub open spec fn submitted(
        self,
        caller: Seq<u8>,
        task_type: TaskType,
        payload: Seq<u8>,
        now: u64,
        duration: u64,
        reward: u64,
    ) -> StateView {
        StateView {
            ledger: with_balance(
                self.ledger,
                caller,
                (balance(self.ledger, caller) - SUBMISSION_COST - reward) as u64,
            ),
            tasks: self.tasks.push(
                TaskInternalView {
                    submitter: caller,
                    task_type,
                    payload,
                    deadline: (now + duration) as u64,
                    reward,
                    answers: Seq::empty(),
                    status: TaskStatus::Open,
                },
            ),
            ..self
        }
    }

    /// Why an answer is refused, if it is: the first check that fails.
    pub open spec fn answer_error(
        self,
        caller: Seq<u8>,
        task_id: u64,
        content: Seq<u8>,
        now: u64,
    ) -> Option<Error> {
        if !registered(self.ledger, caller) {
            Some(Error::NotRegistered)
        } else if task_id >= self.tasks.len() {
            Some(Error::NotFound)
        } else if self.tasks[task_id as int].answers.len() >= MAX_NUMBER_ANSWERS {
            Some(Error::LimitReached)
        } else if expired(self.tasks[task_id as int].deadline, now) {
            Some(Error::Expired)
        } else if content.len() > MAX_CONTENT_SIZE {
            Some(Error::InvalidInput)
        } else if has_answered(self.answers, self.tasks[task_id as int].answers, caller) {
            Some(Error::DuplicateSubmission)
        } else {
            None
        }
    }

    /// The marketplace after an accepted answer.
    pub open spec fn answered(
        self,
        caller: Seq<u8>,
        task_id: u64,
        content: Seq<u8>,
        now: u64,
    ) -> StateView {
        let task = self.tasks[task_id as int];
        StateView {
            tasks: self.tasks.update(
                task_id as int,
                TaskInternalView { answers: task.answers.push(self.answers.len() as u64), ..task },
            ),
            answers: self.answers.push(
                AnswerView {
                    submitter: caller,
                    submission_time: now,
                    content,
                    votes: Seq::empty(),
                },
            ),
            ..self
        }
    }

    /// Why a vote is refused, if it is: the first check that fails.
    pub open spec fn vote_error(
        self,
        caller: Seq<u8>,
        answer_id: u64,
        task_id: u64,
        now: u64,
    ) -> Option<Error> {
        if !registered(self.ledger, caller) {
            Some(Error::NotRegistered)
        } else if answer_id >= self.answers.len() {
            Some(Error::NotFound)
        } else if task_id >= self.tasks.len() {
            Some(Error::NotFound)
        } else if !self.tasks[task_id as int].answers.contains(answer_id) {
            Some(Error::NotFound)
        } else if expired(self.tasks[task_id as int].deadline, now) {
            Some(Error::Expired)
        } else if has_voted(self.answers[answer_id as int].votes, caller) {
            Some(Error::DuplicateSubmission)
        } else {
            None
        }
    }

    /// The marketplace after an accepted vote.
    pub open spec fn voted(self, caller: Seq<u8>, answer_id: u64, choice: Choice) -> StateView {
        let answer = self.answers[answer_id as int];
        StateView {
            answers: self.answers.update(
                answer_id as int,
                AnswerView {
                    votes: answer.votes.push(VoteView { voter: caller, choice }),
                    ..answer
                },
            ),
            ..self
        }
    }

    /// The task `task_id` with each of its answers spelt out.
    pub open spec fn hydrated(self, task_id: u64) -> TaskView {
        let task = self.tasks[task_id as int];
        TaskView {
            submitter: task.submitter,
            task_type: task.task_type,
            payload: task.payload,
            deadline: task.deadline,
            reward: task.reward,
            answers: Seq::new(
                task.answers.len(),
                |k: int|
                    AnswerWithIdView {
                        answer_id: task.answers[k],
                        answer: self.answers[task.answers[k] as int],
                    },
            ),
            status: task.status,
        }
    }

    /// One line for every task, in the order of the identifiers.
    pub open spec fn listing(self) -> Seq<ShortTaskView> {
        Seq::new(
            self.tasks.len(),
            |t: int|
                ShortTaskView {
                    id: t as u64,
                    submitter: self.tasks[t].submitter,
                    task_type: self.tasks[t].task_type,
                    status: self.tasks[t].status,
                },
        )
    }

    /// The marketplace after a settlement at the time `now`: every task that
    /// is due is closed, and every balance has grown by what the due tasks pay
    /// to its owner.
    pub open spec fn settled(self, now: u64) -> StateView {
        StateView {
            ledger: Seq::new(
                self.ledger.len(),
                |i: int|
                    AccountView {
                        owner: self.ledger[i].owner,
                        balance: (self.ledger[i].balance + payout(
                            self.tasks,
                            self.answers,
                            now,
                            self.ledger[i].owner,
                        )) as u64,
                    },
            ),
            tasks: settled_tasks(self.tasks, now),
            ..self
        }
    }
}

/// The open tasks never hold back a negative amount.
pub proof fn lemma_escrow_nonnegative(tasks: Seq<TaskInternalView>)
    ensures
        0 <= escrow(tasks),
    decreases tasks.len(),
{
    if tasks.len() > 0 {
        lemma_escrow_nonnegative(tasks.drop_last());
    }
}

/// A new task adds its reward to what the open tasks hold back, if it is open.
pub proof fn lemma_escrow_push(tasks: Seq<TaskInternalView>, task: TaskInternalView)
    ensures
        escrow(tasks.push(task)) == escrow(tasks) + if task.status == TaskStatus::Open {
            task.reward as int
        } else {
            0int
        },
{
    assert(tasks.push(task).drop_last() =~= tasks);
}

/// Whoever is registered stays registered when another participant registers.
pub proof fn lemma_registered_push(ledger: Seq<AccountView>, account: AccountView, who: Seq<u8>)
    ensures
        registered(ledger.push(account), who) <==> registered(ledger, who) || account.owner == who,
{
    let longer = ledger.push(account);
    if registered(ledger, who) {
        let i = choose|i: int| 0 <= i < ledger.len() && #[trigger] ledger[i].owner == who;
        assert(longer[i].owner == who);
    }
    if account.owner == who {
        assert(longer[ledger.len() as int].owner == who);
    }
}

/// A registration keeps the marketplace well formed and adds the grant to the supply.
pub proof fn lemma_registered_with_wf(s: StateView, who: Seq<u8>)
    requires
        s.wf(),
        !registered(s.ledger, who),
        s.supply() + INITIAL_TOKENS <= u64::MAX,
    ensures
        s.registered_with(who).wf(),
        s.registered_with(who).supply() == s.supply() + INITIAL_TOKENS,
{
    let account = AccountView { owner: who, balance: INITIAL_TOKENS };
    let r = s.registered_with(who);
    crate::ledger::lemma_total_push(s.ledger, account);
    assert(distinct_owners(r.ledger)) by {}
    assert forall|other: Seq<u8>| registered(s.ledger, other) implies registered(
        r.ledger,
        other,
    ) by {
        lemma_registered_push(s.ledger, account, other);
    }
}

/// A change of one balance leaves tasks and answers as well formed as they were.
pub proof fn lemma_records_wf_with_balance(s: StateView, who: Seq<u8>, amount: u64)
    requires
        s.wf(),
    ensures
        forall|task: TaskInternalView|
            s.task_wf(task) ==> (StateView {
                ledger: with_balance(s.ledger, who, amount),
                ..s
            }).task_wf(task),
        forall|answer: AnswerView|
            s.answer_wf(answer) ==> (StateView {
                ledger: with_balance(s.ledger, who, amount),
                ..s
            }).answer_wf(answer),
        distinct_owners(with_balance(s.ledger, who, amount)),
{
    crate::ledger::lemma_with_balance_owners(s.ledger, who, amount);
}

/// An accepted submission keeps the marketplace well formed and burns the fee.
pub proof fn lemma_submitted_wf(
    s: StateView,
    caller: Seq<u8>,
    task_type: TaskType,
    payload: Seq<u8>,
    payload_decodes: bool,
    now: u64,
    duration: u64,
    reward: u64,
)
    requires
        s.wf(),
        s.submit_error(caller, task_type, payload, payload_decodes, duration, reward) is None,
        now + duration <= u64::MAX,
    ensures
        s.submitted(caller, task_type, payload, now, duration, reward).wf(),
        s.submitted(caller, task_type, payload, now, duration, reward).supply() == s.supply()
            - SUBMISSION_COST,
        total(s.submitted(caller, task_type, payload, now, duration, reward).ledger) == total(
            s.ledger,
        ) - SUBMISSION_COST - reward,
{
    let r = s.submitted(caller, task_type, payload, now, duration, reward);
    let amount = (balance(s.ledger, caller) - SUBMISSION_COST - reward) as u64;
    lemma_records_wf_with_balance(s, caller, amount);
    crate::ledger::lemma_with_balance_owners(s.ledger, caller, amount);
    crate::ledger::lemma_total_with_balance(s.ledger, caller, amount);
    lemma_escrow_push(s.tasks, r.tasks.last());
}

/// What an open task holds back, and a closed one does not.
pub open spec fn held_back(task: TaskInternalView) -> int {
    if task.status == TaskStatus::Open {
        task.reward as int
    } else {
        0
    }
}

/// Replacing one task moves what is held back by the difference.
pub proof fn lemma_escrow_update(tasks: Seq<TaskInternalView>, t: int, task: TaskInternalView)
    requires
        0 <= t < tasks.len(),
    ensures
        escrow(tasks.update(t, task)) == escrow(tasks) - held_back(tasks[t]) + held_back(task),
    decreases tasks.len(),
{
    let changed = tasks.update(t, task);
    if t == tasks.len() - 1 {
        assert(changed.drop_last() =~= tasks.drop_last());
    } else {
        assert(changed.drop_last() =~= tasks.drop_last().update(t, task));
        lemma_escrow_update(tasks.drop_last(), t, task);
    }
}

/// An accepted answer keeps the marketplace well formed and moves no token.
pub proof fn lemma_answered_wf(
    s: StateView,
    caller: Seq<u8>,
    task_id: u64,
    content: Seq<u8>,
    now: u64,
)
    requires
        s.wf(),
        s.answer_error(caller, task_id, content, now) is None,
        s.answers.len() <= u64::MAX,
    ensures
        s.answered(caller, task_id, content, now).wf(),
        s.answered(caller, task_id, content, now).supply() == s.supply(),
{
    let r = s.answered(caller, task_id, content, now);
    let new_task = r.tasks[task_id as int];
    lemma_escrow_update(s.tasks, task_id as int, new_task);
    assert forall|t: int| 0 <= t < r.tasks.len() implies r.task_wf(#[trigger] r.tasks[t]) by {
        let before = s.tasks[t];
        let after = r.tasks[t];
        if t == task_id {
            assert forall|i: int, j: int| 0 <= i < j < after.answers.len() implies r.answers[
                #[trigger] after.answers[i] as int].submitter != r.answers[
                #[trigger] after.answers[j] as int].submitter by {
                if j < before.answers.len() {
                    assert(s.answers[before.answers[i] as int].submitter != s.answers[
                        before.answers[j] as int].submitter);
                }
            }
        } else {
            assert forall|i: int, j: int| 0 <= i < j < after.answers.len() implies r.answers[
                #[trigger] after.answers[i] as int].submitter != r.answers[
                #[trigger] after.answers[j] as int].submitter by {
                assert(s.answers[before.answers[i] as int].submitter != s.answers[
                    before.answers[j] as int].submitter);
            }
        }
    }
}

/// An accepted vote keeps the marketplace well formed and moves no token.
pub proof fn lemma_voted_wf(
    s: StateView,
    caller: Seq<u8>,
    answer_id: u64,
    task_id: u64,
    choice: Choice,
    now: u64,
)
    requires
        s.wf(),
        s.vote_error(caller, answer_id, task_id, now) is None,
    ensures
        s.voted(caller, answer_id, choice).wf(),
        s.voted(caller, answer_id, choice).supply() == s.supply(),
{
    let r = s.voted(caller, answer_id, choice);
    assert forall|t: int| 0 <= t < r.tasks.len() implies r.task_wf(#[trigger] r.tasks[t]) by {
        let task = s.tasks[t];
        assert forall|i: int, j: int| 0 <= i < j < task.answers.len() implies r.answers[
            #[trigger] task.answers[i] as int].submitter != r.answers[
            #[trigger] task.answers[j] as int].submitter by {
            assert(s.answers[task.answers[i] as int].submitter != s.answers[
                task.answers[j] as int].submitter);
        }
    }
    assert forall|a: int| 0 <= a < r.answers.len() implies r.answer_wf(
        #[trigger] r.answers[a],
    ) by {}
}

} // verus!
