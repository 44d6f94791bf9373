//! Sequences of operations, and what they do to the supply of tokens.
//!
//! Tokens come into being by a registration, which grants the initial amount,
//! and cease to be by a submission, which burns the fee.  Nothing else creates
//! or destroys a token: a submission moves the reward out of the ledger into
//! what the open tasks hold back, and a settlement moves it back into the
//! ledger.

use crate::ledger::{registered, total};
use crate::model::{
    escrow, lemma_answered_wf, lemma_registered_with_wf, lemma_submitted_wf, lemma_voted_wf,
    StateView,
};
use crate::sweep::lemma_settled_wf;
use crate::types::{Choice, TaskType, INITIAL_TOKENS, MAX_DURATION, SUBMISSION_COST};
use vstd::prelude::*;

verus! {

/// One call of an operation of the marketplace, with its arguments.
pub enum Operation {
    Register { caller: Seq<u8> },
    SubmitTask {
        caller: Seq<u8>,
        task_type: TaskType,
        payload: Seq<u8>,
        payload_decodes: bool,
        duration: u64,
        reward: u64,
        now: u64,
    },
    AnswerTask { caller: Seq<u8>, task_id: u64, content: Seq<u8>, now: u64 },
    Vote { caller: Seq<u8>, answer_id: u64, task_id: u64, choice: Choice, now: u64 },
    SettlementTick { now: u64 },
}

impl StateView {
    /// Whether the operation's numbers fit the machine: a grant must fit into
    /// the supply, a deadline into the clock, an identifier into its type.
    pub open spec fn admits(self, op: Operation) -> bool {
        match op {
            Operation::Register { caller } => !registered(self.ledger, caller) ==> self.supply()
                + INITIAL_TOKENS <= u64::MAX,
            Operation::SubmitTask { duration, now, .. } => duration <= MAX_DURATION ==> now
                + duration <= u64::MAX,
            Operation::AnswerTask { .. } => self.answers.len() <= u64::MAX,
            Operation::Vote { .. } => true,
            Operation::SettlementTick { .. } => true,
        }
    }

    /// Whether the operation succeeds.
    pub open spec fn accepts(self, op: Operation) -> bool {
        match op {
            Operation::Register { caller } => !registered(self.ledger, caller),
            Operation::SubmitTask {
                caller,
                task_type,
                payload,
                payload_decodes,
                duration,
                reward,
                now,
            } => self.submit_error(caller, task_type, payload, payload_decodes, duration, reward)
                is None,
            Operation::AnswerTask { caller, task_id, content, now } => self.answer_error(
                caller,
                task_id,
                content,
                now,
            ) is None,
            Operation::Vote { caller, answer_id, task_id, choice, now } => self.vote_error(
                caller,
                answer_id,
                task_id,
                now,
            ) is None,
            Operation::SettlementTick { .. } => true,
        }
    }

    /// The marketplace after the operation: changed if it succeeds, as it was
    /// if it is refused.
    pub open spec fn after(self, op: Operation) -> StateView {
        if !self.accepts(op) {
            self
        } else {
            match op {
                Operation::Register { caller } => self.registered_with(caller),
                Operation::SubmitTask {
                    caller,
                    task_type,
                    payload,
                    payload_decodes,
                    duration,
                    reward,
                    now,
                } => self.submitted(caller, task_type, payload, now, duration, reward),
                Operation::AnswerTask { caller, task_id, content, now } => self.answered(
                    caller,
                    task_id,
                    content,
                    now,
                ),
                Operation::Vote { caller, answer_id, task_id, choice, now } => self.voted(
                    caller,
                    answer_id,
                    choice,
                ),
                Operation::SettlementTick { now } => self.settled(now),
            }
        }
    }

    /// The tokens that the operation creates, less those that it destroys.
    pub open spec fn issued(self, op: Operation) -> int {
        if !self.accepts(op) {
            0
        } else {
            match op {
                Operation::Register { .. } => INITIAL_TOKENS as int,
                Operation::SubmitTask { .. } => -(SUBMISSION_COST as int),
                _ => 0,
            }
        }
    }

    /// What the operation adds to the balances in the ledger.
    pub open spec fn credited(self, op: Operation) -> int {
        if !self.accepts(op) {
            0
        } else {
            match op {
                Operation::Register { .. } => INITIAL_TOKENS as int,
                Operation::SubmitTask { reward, .. } => -(SUBMISSION_COST + reward),
                Operation::SettlementTick { now } => escrow(self.tasks) - escrow(
                    self.settled(now).tasks,
                ),
                _ => 0,
            }
        }
    }

    /// The marketplace after the operations `ops`, one after another.
    pub open spec fn after_all(self, ops: Seq<Operation>) -> StateView
        decreases ops.len(),
    {
        if ops.len() == 0 {
            self
        } else {
            self.after_all(ops.drop_last()).after(ops.last())
        }
    }

    /// Whether the numbers of each of `ops` fit the machine when its turn comes.
    pub open spec fn admits_all(self, ops: Seq<Operation>) -> bool
        decreases ops.len(),
    {
        if ops.len() == 0 {
            true
        } else {
            self.admits_all(ops.drop_last()) && self.after_all(ops.drop_last()).admits(ops.last())
        }
    }

    /// The tokens that `ops` create, less those that they destroy.
    pub open spec fn issued_by(self, ops: Seq<Operation>) -> int
        decreases ops.len(),
    {
        if ops.len() == 0 {
            0
        } else {
            self.issued_by(ops.drop_last()) + self.after_all(ops.drop_last()).issued(ops.last())
        }
    }
}

/// Every operation keeps the marketplace well formed.  It changes the supply
/// by the grant if it is an accepted registration, by the fee if it is an
/// accepted submission, and not at all otherwise; and it changes the total of
/// the ledger by the grant, by the fee and the reward, or, if it is a
/// settlement, by what the tasks that it closes held back.
pub proof fn law_operation(s: StateView, op: Operation)
    requires
        s.wf(),
        s.admits(op),
    ensures
        s.after(op).wf(),
        s.after(op).supply() == s.supply() + s.issued(op),
        total(s.after(op).ledger) == total(s.ledger) + s.credited(op),
{
    if s.accepts(op) {
        match op {
            Operation::Register { caller } => {
                lemma_registered_with_wf(s, caller);
            },
            Operation::SubmitTask {
                caller,
                task_type,
                payload,
                payload_decodes,
                duration,
                reward,
                now,
            } => {
                lemma_submitted_wf(
                    s,
                    caller,
                    task_type,
                    payload,
                    payload_decodes,
                    now,
                    duration,
                    reward,
                );
            },
            Operation::AnswerTask { caller, task_id, content, now } => {
                lemma_answered_wf(s, caller, task_id, content, now);
            },
            Operation::Vote { caller, answer_id, task_id, choice, now } => {
                lemma_voted_wf(s, caller, answer_id, task_id, choice, now);
            },
            Operation::SettlementTick { now } => {
                lemma_settled_wf(s, now);
            },
        }
    }
}

/// Whatever operations follow one another, the marketplace stays well formed
/// and its supply changes by the grants of the accepted registrations less
/// the fees of the accepted submissions, and by nothing else.
pub proof fn law_supply_of_history(s: StateView, ops: Seq<Operation>)
    requires
        s.wf(),
        s.admits_all(ops),
    ensures
        s.after_all(ops).wf(),
        s.after_all(ops).supply() == s.supply() + s.issued_by(ops),
    decreases ops.len(),
{
    if ops.len() > 0 {
        law_supply_of_history(s, ops.drop_last());
        law_operation(s.after_all(ops.drop_last()), ops.last());
    }
}

} // verus!
