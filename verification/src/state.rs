//! The marketplace and its operations.

use crate::history::Operation;
use crate::ledger::{balance, registered, AccountView, Ledger};
use crate::model::{
    escrow, has_answered, has_voted, lemma_answered_wf, lemma_escrow_nonnegative,
    lemma_registered_with_wf, lemma_submitted_wf, lemma_voted_wf, StateView,
};
use crate::settlement::reward_recipient;
use crate::sweep::{lemma_settled_step, lemma_settled_upto_ends, lemma_settled_upto_wf};
use crate::types::{
    answers_view, copy_bytes, short_tasks_view, tasks_view, votes_view, Answer, AnswerView,
    AnswerWithId, Choice, Error, Identity, ShortTask, Task, TaskInternal, TaskInternalView,
    TaskStatus, TaskType, Vote, VoteView, INITIAL_TOKENS, MAX_CONTENT_SIZE, MAX_DURATION,
    MAX_NUMBER_ANSWERS, MAX_TASK_PAYLOAD, MIN_DURATION, SUBMISSION_COST,
};
use vstd::prelude::*;

verus! {

/// The ledger, the tasks and the answers, changed only by the operations below.
pub struct State {
    ledger: Ledger,
    tasks: Vec<TaskInternal>,
    answers: Vec<Answer>,
}

impl Default for State {
    fn default() -> (state: State)
        ensures
            state.wf(),
            state@.ledger == Seq::<AccountView>::empty(),
            state@.tasks == Seq::<TaskInternalView>::empty(),
            state@.answers == Seq::<AnswerView>::empty(),
    {
        State::new()
    }
}

impl View for State {
    type V = StateView;

    closed spec fn view(&self) -> StateView {
        StateView {
            ledger: self.ledger@,
            tasks: tasks_view(self.tasks@),
            answers: answers_view(self.answers@),
        }
    }
}

impl State {
    /// What holds of the marketplace between any two operations.
    pub open spec fn wf(&self) -> bool {
        self@.wf()
    }

    /// A marketplace without participants, tasks or answers.
    pub fn new() -> (state: State)
        ensures
            state.wf(),
            state@.ledger == Seq::<AccountView>::empty(),
            state@.tasks == Seq::<TaskInternalView>::empty(),
            state@.answers == Seq::<AnswerView>::empty(),
    {
        State { ledger: Ledger::new(), tasks: Vec::new(), answers: Vec::new() }
    }

    /// The marketplace that holds the given ledger, tasks and answers.
    pub(crate) fn assemble(
        ledger: Ledger,
        tasks: Vec<TaskInternal>,
        answers: Vec<Answer>,
    ) -> (state: State)
        ensures
            state@.ledger == ledger@,
            state@.tasks == tasks_view(tasks@),
            state@.answers == answers_view(answers@),
    {
        State { ledger, tasks, answers }
    }

    /// The ledger.
    pub fn ledger(&self) -> (ledger: &Ledger)
        ensures
            ledger@ == self@.ledger,
    {
        &self.ledger
    }

    /// The stored tasks, in the order of their identifiers.
    pub fn tasks(&self) -> (tasks: &Vec<TaskInternal>)
        ensures
            tasks_view(tasks@) == self@.tasks,
    {
        &self.tasks
    }

    /// The answers, in the order of their identifiers.
    pub fn answers(&self) -> (answers: &Vec<Answer>)
        ensures
            answers_view(answers@) == self@.answers,
    {
        &self.answers
    }

    /// Registers `caller` with the initial grant.
    pub fn register(&mut self, caller: &Identity) -> (result: Result<(), Error>)
        requires
            old(self).wf(),
            !registered(old(self)@.ledger, caller@) ==> old(self)@.supply() + INITIAL_TOKENS
                <= u64::MAX,
        ensures
            final(self).wf(),
            final(self)@ == old(self)@.after((Operation::Register { caller: caller@ })),
            match result {
                Ok(_) => {
                    &&& !registered(old(self)@.ledger, caller@)
                    &&& final(self)@ == old(self)@.registered_with(caller@)
                },
                Err(e) => {
                    &&& e == Error::AlreadyRegistered
                    &&& registered(old(self)@.ledger, caller@)
                    &&& final(self)@ == old(self)@
                },
            },
    {
        proof {
            lemma_escrow_nonnegative(self@.tasks);
        }
        let result = self.ledger.register(caller);
        proof {
            if result.is_ok() {
                lemma_registered_with_wf(old(self)@, caller@);
            }
        }
        result
    }

    /// The balance of `caller`.
    pub fn get_balance(&self, caller: &Identity) -> (result: Result<u64, Error>)
        requires
            self.wf(),
        ensures
            match result {
                Ok(amount) => registered(self@.ledger, caller@) && amount == balance(
                    self@.ledger,
                    caller@,
                ),
                Err(e) => e == Error::NotRegistered && !registered(self@.ledger, caller@),
            },
    {
        proof {
            lemma_escrow_nonnegative(self@.tasks);
        }
        self.ledger.balance_of(caller)
    }

    /// Posts a task of `caller` that stays open for `duration` from `now` on
    /// and pays `reward`.  `payload_decodes` says whether `payload` holds what
    /// a task of this type asks for.  The fee and the reward leave the
    /// caller's balance; the new task's identifier is returned.
    pub fn submit_task(
        &mut self,
        caller: &Identity,
        task_type: TaskType,
        payload: Vec<u8>,
        payload_decodes: bool,
        duration: u64,
        reward: u64,
        now: u64,
    ) -> (result: Result<u64, Error>)
        requires
            old(self).wf(),
            duration <= MAX_DURATION ==> now + duration <= u64::MAX,
        ensures
            final(self).wf(),
            final(self)@ == old(self)@.after(
                (Operation::SubmitTask {
                    caller: caller@,
                    task_type,
                    payload: payload@,
                    payload_decodes,
                    duration,
                    reward,
                    now,
                }),
            ),
            match result {
                Ok(task_id) => {
                    &&& old(self)@.submit_error(
                        caller@,
                        task_type,
                        payload@,
                        payload_decodes,
                        duration,
                        reward,
                    ) is None
                    &&& task_id == old(self)@.tasks.len()
                    &&& final(self)@ == old(self)@.submitted(
                        caller@,
                        task_type,
                        payload@,
                        now,
                        duration,
                        reward,
                    )
                },
                Err(e) => {
                    &&& old(self)@.submit_error(
                        caller@,
                        task_type,
                        payload@,
                        payload_decodes,
                        duration,
                        reward,
                    ) == Some(e)
                    &&& final(self)@ == old(self)@
                },
            },
    {
        proof {
            lemma_escrow_nonnegative(self@.tasks);
        }
        let held: u64 = match self.ledger.balance_of(caller) {
            Ok(amount) => amount,
            Err(_) => {
                return Err(Error::NotRegistered);
            },
        };
        if held < SUBMISSION_COST {
            return Err(Error::InsufficientFunds);
        }
        match task_type {
            TaskType::TranslateText => {},
            TaskType::EditImage => {
                return Err(Error::Unsupported);
            },
        }
        if payload.len() > MAX_TASK_PAYLOAD || !payload_decodes {
            return Err(Error::InvalidInput);
        }
        if duration < MIN_DURATION || duration > MAX_DURATION {
            return Err(Error::OutOfRange);
        }
        if held - SUBMISSION_COST < reward {
            return Err(Error::InsufficientFunds);
        }
        let ghost payload_view = payload@;
        let debited = self.ledger.debit(caller, SUBMISSION_COST + reward);
        assert(debited.is_ok());
        let task_id: u64 = self.tasks.len() as u64;
        let task = TaskInternal {
            submitter: caller.clone(),
            task_type,
            payload,
            deadline: now + duration,
            reward,
            answers: Vec::new(),
            status: TaskStatus::Open,
        };
        self.tasks.push(task);
        proof {
            let after = old(self)@.submitted(
                caller@,
                task_type,
                payload_view,
                now,
                duration,
                reward,
            );
            assert(self@.tasks =~= after.tasks);
            lemma_submitted_wf(
                old(self)@,
                caller@,
                task_type,
                payload_view,
                payload_decodes,
                now,
                duration,
                reward,
            );
        }
        Ok(task_id)
    }

    /// Whether `caller` submitted one of the answers of the task at `index`.
    fn already_answered(&self, index: usize, caller: &Identity) -> (b: bool)
        requires
            self.wf(),
            index < self@.tasks.len(),
        ensures
            b == has_answered(self@.answers, self@.tasks[index as int].answers, caller@),
    {
        let ghost all = self@.answers;
        let ghost ids = self@.tasks[index as int].answers;
        let task = &self.tasks[index];
        let mut k: usize = 0;
        while k < task.answers.len()
            invariant
                k <= task.answers.len(),
                index < self@.tasks.len(),
                ids == task.answers@,
                ids == self@.tasks[index as int].answers,
                all == self@.answers,
                all == answers_view(self.answers@),
                forall|j: int| 0 <= j < ids.len() ==> #[trigger] ids[j] < self.answers@.len(),
                forall|j: int| 0 <= j < k ==> all[#[trigger] ids[j] as int].submitter != caller@,
            decreases task.answers.len() - k,
        {
            let id: u64 = task.answers[k];
            assert(id < self.answers.len());
            if self.answers[id as usize].submitter.same(caller) {
                return true;
            }
            k += 1;
        }
        false
    }

    /// Records an answer of `caller` to the task `task_id`, submitted at the
    /// time `now`, and returns the new answer's identifier.
    pub fn answer_task(
        &mut self,
        caller: &Identity,
        task_id: u64,
        content: Vec<u8>,
        now: u64,
    ) -> (result: Result<u64, Error>)
        requires
            old(self).wf(),
        ensures
            final(self).wf(),
            final(self)@ == old(self)@.after(
                (Operation::AnswerTask { caller: caller@, task_id, content: content@, now }),
            ),
            match result {
                Ok(answer_id) => {
                    &&& old(self)@.answer_error(caller@, task_id, content@, now) is None
                    &&& answer_id == old(self)@.answers.len()
                    &&& final(self)@ == old(self)@.answered(caller@, task_id, content@, now)
                },
                Err(e) => {
                    &&& old(self)@.answer_error(caller@, task_id, content@, now) == Some(e)
                    &&& final(self)@ == old(self)@
                },
            },
    {
        if !self.ledger.is_registered(caller) {
            return Err(Error::NotRegistered);
        }
        if task_id >= self.tasks.len() as u64 {
            return Err(Error::NotFound);
        }
        let index: usize = task_id as usize;
        if self.tasks[index].answers.len() >= MAX_NUMBER_ANSWERS {
            return Err(Error::LimitReached);
        }
        if self.tasks[index].deadline <= now {
            return Err(Error::Expired);
        }
        if content.len() > MAX_CONTENT_SIZE {
            return Err(Error::InvalidInput);
        }
        if self.already_answered(index, caller) {
            return Err(Error::DuplicateSubmission);
        }
        let ghost content_view = content@;
        let answer_id: u64 = self.answers.len() as u64;
        let answer = Answer {
            submitter: caller.clone(),
            submission_time: now,
            content,
            votes: Vec::new(),
        };
        assert(answer@.votes =~= Seq::<VoteView>::empty());
        self.answers.push(answer);
        self.tasks[index].answers.push(answer_id);
        proof {
            let after = old(self)@.answered(caller@, task_id, content_view, now);
            assert(self@.answers =~= after.answers);
            assert(self@.tasks =~= after.tasks);
            lemma_answered_wf(old(self)@, caller@, task_id, content_view, now);
        }
        Ok(answer_id)
    }

    /// Whether the task at `index` lists the answer `answer_id`.
    fn lists_answer(&self, index: usize, answer_id: u64) -> (b: bool)
        requires
            index < self@.tasks.len(),
        ensures
            b == self@.tasks[index as int].answers.contains(answer_id),
    {
        let task = &self.tasks[index];
        let mut k: usize = 0;
        while k < task.answers.len()
            invariant
                k <= task.answers.len(),
                index < self@.tasks.len(),
                self@.tasks[index as int].answers == task.answers@,
                forall|j: int| 0 <= j < k ==> task.answers@[j] != answer_id,
            decreases task.answers.len() - k,
        {
            if task.answers[k] == answer_id {
                return true;
            }
            k += 1;
        }
        false
    }

    /// Whether `caller` cast one of the votes on the answer at `index`.
    fn already_voted(&self, index: usize, caller: &Identity) -> (b: bool)
        requires
            index < self@.answers.len(),
        ensures
            b == has_voted(self@.answers[index as int].votes, caller@),
    {
        let answer = &self.answers[index];
        let ghost votes = self@.answers[index as int].votes;
        let mut k: usize = 0;
        while k < answer.votes.len()
            invariant
                k <= answer.votes.len(),
                index < self@.answers.len(),
                votes == self@.answers[index as int].votes,
                votes == votes_view(answer.votes@),
                forall|j: int| 0 <= j < k ==> (#[trigger] votes[j]).voter != caller@,
            decreases answer.votes.len() - k,
        {
            assert(votes[k as int] == answer.votes@[k as int]@);
            if answer.votes[k].voter.same(caller) {
                return true;
            }
            k += 1;
        }
        false
    }

    /// Records the vote `choice` of `caller` on the answer `answer_id` of the
    /// task `task_id`, cast at the time `now`.
    pub fn vote(
        &mut self,
        caller: &Identity,
        answer_id: u64,
        task_id: u64,
        choice: Choice,
        now: u64,
    ) -> (result: Result<(), Error>)
        requires
            old(self).wf(),
        ensures
            final(self).wf(),
            final(self)@ == old(self)@.after(
                (Operation::Vote { caller: caller@, answer_id, task_id, choice, now }),
            ),
            match result {
                Ok(_) => {
                    &&& old(self)@.vote_error(caller@, answer_id, task_id, now) is None
                    &&& final(self)@ == old(self)@.voted(caller@, answer_id, choice)
                },
                Err(e) => {
                    &&& old(self)@.vote_error(caller@, answer_id, task_id, now) == Some(e)
                    &&& final(self)@ == old(self)@
                },
            },
    {
        if !self.ledger.is_registered(caller) {
            return Err(Error::NotRegistered);
        }
        if answer_id >= self.answers.len() as u64 {
            return Err(Error::NotFound);
        }
        if task_id >= self.tasks.len() as u64 {
            return Err(Error::NotFound);
        }
        let task_index: usize = task_id as usize;
        let answer_index: usize = answer_id as usize;
        if !self.lists_answer(task_index, answer_id) {
            return Err(Error::NotFound);
        }
        if self.tasks[task_index].deadline <= now {
            return Err(Error::Expired);
        }
        if self.already_voted(answer_index, caller) {
            return Err(Error::DuplicateSubmission);
        }
        let vote = Vote { voter: caller.clone(), choice };
        self.answers[answer_index].votes.push(vote);
        proof {
            let after = old(self)@.voted(caller@, answer_id, choice);
            assert(self@.answers[answer_index as int].votes
                =~= after.answers[answer_index as int].votes);
            assert(self@.answers =~= after.answers);
            lemma_voted_wf(old(self)@, caller@, answer_id, task_id, choice, now);
        }
        Ok(())
    }

    /// Settles, at the time `now`, every open task whose deadline has passed:
    /// the task is closed and its reward goes to the submitter of its winning
    /// answer, or back to the task's submitter if no vote was cast.
    pub fn settlement_tick(&mut self, now: u64)
        requires
            old(self).wf(),
        ensures
            final(self).wf(),
            final(self)@ == old(self)@.settled(now),
            final(self)@ == old(self)@.after((Operation::SettlementTick { now })),
    {
        let ghost before = self@;
        proof {
            lemma_settled_upto_ends(before, now);
        }
        let mut i: usize = 0;
        while i < self.tasks.len()
            invariant
                before.wf(),
                i <= self.tasks.len(),
                self.tasks.len() == before.tasks.len(),
                self@ == before.settled_upto(now, i as int),
            decreases self.tasks.len() - i,
        {
            let ghost cur = self@;
            proof {
                lemma_settled_upto_wf(before, now, i as int);
                lemma_settled_step(before, now, i as int);
                lemma_escrow_nonnegative(cur.tasks);
            }
            let is_open = match self.tasks[i].status {
                TaskStatus::Open => true,
                TaskStatus::Closed => false,
            };
            if is_open && self.tasks[i].deadline <= now {
                let who = reward_recipient(&self.answers, &self.tasks[i]);
                let reward: u64 = self.tasks[i].reward;
                self.tasks[i].status = TaskStatus::Closed;
                let credited = self.ledger.credit(&who, reward);
                assert(credited.is_ok());
                assert(self@.tasks =~= cur.settled_one(now, i as int).tasks);
            }
            i += 1;
        }
        proof {
            lemma_settled_upto_wf(before, now, i as int);
        }
    }

    /// The task `task_id` with each of its answers and their votes spelt out.
    /// In a well formed marketplace every answer that a task lists exists, so
    /// the lookup of an answer cannot fail here.
    pub fn get_task(&self, caller: &Identity, task_id: u64) -> (result: Result<Task, Error>)
        requires
            self.wf(),
        ensures
            match result {
                Ok(task) => {
                    &&& registered(self@.ledger, caller@)
                    &&& task_id < self@.tasks.len()
                    &&& task@ == self@.hydrated(task_id)
                },
                Err(e) => {
                    &&& e == Error::NotRegistered || e == Error::NotFound
                    &&& e == Error::NotRegistered <==> !registered(self@.ledger, caller@)
                    &&& e == Error::NotFound ==> task_id >= self@.tasks.len()
                },
            },
    {
        if !self.ledger.is_registered(caller) {
            return Err(Error::NotRegistered);
        }
        if task_id >= self.tasks.len() as u64 {
            return Err(Error::NotFound);
        }
        let index: usize = task_id as usize;
        let stored = &self.tasks[index];
        let ghost all = self@.answers;
        let ghost ids = stored.answers@;
        let mut answers: Vec<AnswerWithId> = Vec::new();
        let mut k: usize = 0;
        while k < stored.answers.len()
            invariant
                k <= stored.answers.len(),
                ids == stored.answers@,
                all == answers_view(self.answers@),
                forall|j: int| 0 <= j < ids.len() ==> #[trigger] ids[j] < self.answers@.len(),
                answers@.len() == k,
                forall|j: int|
                    0 <= j < k ==> {
                        &&& (#[trigger] answers@[j]).answer_id == ids[j]
                        &&& answers@[j].answer@ == all[ids[j] as int]
                    },
            decreases stored.answers.len() - k,
        {
            let id: u64 = stored.answers[k];
            assert(id < self.answers.len());
            answers.push(AnswerWithId { answer_id: id, answer: self.answers[id as usize].clone() });
            k += 1;
        }
        let task = Task {
            submitter: stored.submitter.clone(),
            task_type: stored.task_type,
            payload: copy_bytes(&stored.payload),
            deadline: stored.deadline,
            reward: stored.reward,
            answers,
            status: stored.status,
        };
        assert(task@.answers =~= self@.hydrated(task_id).answers);
        Ok(task)
    }

    /// One line for every task, whoever submitted it, in the order of the
    /// identifiers.
    pub fn get_all_tasks(&self, caller: &Identity) -> (result: Result<Vec<ShortTask>, Error>)
        requires
            self.wf(),
        ensures
            match result {
                Ok(lines) => {
                    &&& registered(self@.ledger, caller@)
                    &&& short_tasks_view(lines@) == self@.listing()
                },
                Err(e) => e == Error::NotRegistered && !registered(self@.ledger, caller@),
            },
    {
        if !self.ledger.is_registered(caller) {
            return Err(Error::NotRegistered);
        }
        let mut lines: Vec<ShortTask> = Vec::new();
        let mut t: usize = 0;
        while t < self.tasks.len()
            invariant
                t <= self.tasks.len(),
                lines@.len() == t,
                forall|j: int| 0 <= j < t ==> (#[trigger] lines@[j])@ == self@.listing()[j],
            decreases self.tasks.len() - t,
        {
            let stored = &self.tasks[t];
            lines.push(
                ShortTask {
                    id: t as u64,
                    submitter: stored.submitter.clone(),
                    task_type: stored.task_type,
                    status: stored.status,
                },
            );
            t += 1;
        }
        Ok(lines)
    }

    /// The tokens in existence: those in the ledger and those held back for
    /// the open tasks.
    pub fn supply(&self) -> (sum: u64)
        requires
            self.wf(),
        ensures
            sum == self@.supply(),
    {
        proof {
            lemma_escrow_nonnegative(self@.tasks);
        }
        let in_ledger: u64 = self.ledger.total_balance();
        let ghost tasks = self@.tasks;
        let mut held: u64 = 0;
        let mut t: usize = 0;
        while t < self.tasks.len()
            invariant
                t <= self.tasks.len(),
                tasks == tasks_view(self.tasks@),
                held == escrow(tasks.take(t as int)),
                escrow(tasks) <= u64::MAX,
            decreases self.tasks.len() - t,
        {
            proof {
                crate::sweep::lemma_escrow_prefix(tasks, t as int + 1);
                assert(tasks.take(t as int + 1).drop_last() =~= tasks.take(t as int));
            }
            match self.tasks[t].status {
                TaskStatus::Open => {
                    held = held + self.tasks[t].reward;
                },
                TaskStatus::Closed => {},
            }
            t += 1;
        }
        assert(tasks.take(tasks.len() as int) =~= tasks);
        in_ledger + held
    }
}

} // verus!
