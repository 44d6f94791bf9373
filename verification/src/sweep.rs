//! The settlement sweep as a mathematical function, task by task, and why it
//! keeps the marketplace well formed and the supply unchanged.

use crate::ledger::{
    balance, lemma_balance_le_total, lemma_position, lemma_total_with_balance,
    lemma_with_balance_owners, position, registered, total, with_balance, AccountView,
};
use crate::model::{
    closed_task, due, escrow, held_back, lemma_escrow_nonnegative, lemma_escrow_update,
    lemma_records_wf_with_balance, payout, StateView,
};
use crate::settlement::{any_vote, lemma_winner_exists, recipient};
use crate::types::{AnswerView, TaskInternalView};
use vstd::prelude::*;

verus! {

/// Whoever receives the reward of a task has an entry in the ledger.
pub proof fn lemma_recipient_registered(s: StateView, t: int)
    requires
        s.wf(),
        0 <= t < s.tasks.len(),
    ensures
        registered(s.ledger, recipient(s.answers, s.tasks[t])),
{
    let task = s.tasks[t];
    if any_vote(s.answers, task.answers) {
        lemma_winner_exists(s.answers, task.answers);
    }
}

/// An open task holds back no more than all open tasks together.
pub proof fn lemma_held_back_le_escrow(tasks: Seq<TaskInternalView>, t: int)
    requires
        0 <= t < tasks.len(),
    ensures
        held_back(tasks[t]) <= escrow(tasks),
    decreases tasks.len(),
{
    lemma_escrow_nonnegative(tasks.drop_last());
    if t < tasks.len() - 1 {
        lemma_held_back_le_escrow(tasks.drop_last(), t);
    }
}

/// The first tasks hold back no more than all of them.
pub proof fn lemma_escrow_prefix(tasks: Seq<TaskInternalView>, n: int)
    requires
        0 <= n <= tasks.len(),
    ensures
        0 <= escrow(tasks.take(n)) <= escrow(tasks),
    decreases tasks.len(),
{
    lemma_escrow_nonnegative(tasks.take(n));
    if n == tasks.len() {
        assert(tasks.take(n) =~= tasks);
    } else {
        assert(tasks.drop_last().take(n) =~= tasks.take(n));
        lemma_escrow_prefix(tasks.drop_last(), n);
    }
}

/// A settlement pays out no more than the open tasks hold back.
pub proof fn lemma_payout_le_escrow(
    tasks: Seq<TaskInternalView>,
    answers: Seq<AnswerView>,
    now: u64,
    who: Seq<u8>,
)
    ensures
        0 <= payout(tasks, answers, now, who) <= escrow(tasks),
    decreases tasks.len(),
{
    if tasks.len() > 0 {
        lemma_payout_le_escrow(tasks.drop_last(), answers, now, who);
    }
}

/// What a settlement of the first `n` tasks pays to a participant fits beside
/// the balance.
pub proof fn lemma_payout_fits(s: StateView, now: u64, n: int, k: int)
    requires
        s.wf(),
        0 <= n <= s.tasks.len(),
        0 <= k < s.ledger.len(),
    ensures
        0 <= payout(s.tasks.take(n), s.answers, now, s.ledger[k].owner),
        s.ledger[k].balance + payout(s.tasks.take(n), s.answers, now, s.ledger[k].owner)
            <= u64::MAX,
{
    lemma_payout_le_escrow(s.tasks.take(n), s.answers, now, s.ledger[k].owner);
    lemma_escrow_prefix(s.tasks, n);
    lemma_balance_le_total(s.ledger, k);
}

impl StateView {
    /// The marketplace after the settlement of its first `n` tasks at the
    /// time `now`.
    pub open spec fn settled_upto(self, now: u64, n: int) -> StateView {
        StateView {
            ledger: Seq::new(
                self.ledger.len(),
                |i: int|
                    AccountView {
                        owner: self.ledger[i].owner,
                        balance: (self.ledger[i].balance + payout(
                            self.tasks.take(n),
                            self.answers,
                            now,
                            self.ledger[i].owner,
                        )) as u64,
                    },
            ),
            tasks: Seq::new(
                self.tasks.len(),
                |t: int|
                    if t < n && due(self.tasks[t], now) {
                        closed_task(self.tasks[t])
                    } else {
                        self.tasks[t]
                    },
            ),
            ..self
        }
    }

    /// The marketplace after the settlement of the task `t` alone: if the task
    /// is due, it is closed and its reward is added to the recipient's balance.
    pub open spec fn settled_one(self, now: u64, t: int) -> StateView {
        let task = self.tasks[t];
        if due(task, now) {
            let who = recipient(self.answers, task);
            StateView {
                ledger: with_balance(
                    self.ledger,
                    who,
                    (balance(self.ledger, who) + task.reward) as u64,
                ),
                tasks: self.tasks.update(t, closed_task(task)),
                ..self
            }
        } else {
            self
        }
    }
}

/// A settlement of all the tasks is the settlement of the first `n`, with `n`
/// the number of tasks; a settlement of none changes nothing.
pub proof fn lemma_settled_upto_ends(s: StateView, now: u64)
    ensures
        s.settled_upto(now, s.tasks.len() as int) == s.settled(now),
        s.settled_upto(now, 0) == s,
{
    assert(s.tasks.take(s.tasks.len() as int) =~= s.tasks);
    let all = s.settled_upto(now, s.tasks.len() as int);
    assert(all.tasks =~= s.settled(now).tasks);
    let none = s.settled_upto(now, 0);
    assert(none.ledger =~= s.ledger);
    assert(none.tasks =~= s.tasks);
}

/// The settlement of the first `n + 1` tasks is the settlement of the first
/// `n` followed by that of the task `n`, whose recipient is registered and whose
/// reward fits into the ledger; it keeps the marketplace well formed and the
/// supply unchanged.
pub proof fn lemma_settled_step(s: StateView, now: u64, n: int)
    requires
        s.wf(),
        0 <= n < s.tasks.len(),
        s.settled_upto(now, n).wf(),
        s.settled_upto(now, n).supply() == s.supply(),
    ensures
        s.settled_upto(now, n + 1) == s.settled_upto(now, n).settled_one(now, n),
        s.settled_upto(now, n).tasks[n] == s.tasks[n],
        s.settled_upto(now, n).answers == s.answers,
        due(s.tasks[n], now) ==> registered(
            s.settled_upto(now, n).ledger,
            recipient(s.answers, s.tasks[n]),
        ),
        due(s.tasks[n], now) ==> total(s.settled_upto(now, n).ledger) + s.tasks[n].reward
            <= u64::MAX,
        s.settled_upto(now, n + 1).wf(),
        s.settled_upto(now, n + 1).supply() == s.supply(),
{
    let cur = s.settled_upto(now, n);
    let next = s.settled_upto(now, n + 1);
    let task = s.tasks[n];
    let shorter = s.tasks.take(n);
    let longer = s.tasks.take(n + 1);
    assert(longer.drop_last() =~= shorter);
    assert forall|k: int| 0 <= k < s.ledger.len() implies {
        &&& cur.ledger[k].balance == s.ledger[k].balance + payout(
            shorter,
            s.answers,
            now,
            s.ledger[k].owner,
        )
        &&& next.ledger[k].balance == s.ledger[k].balance + payout(
            longer,
            s.answers,
            now,
            s.ledger[k].owner,
        )
    } by {
        lemma_payout_fits(s, now, n, k);
        lemma_payout_fits(s, now, n + 1, k);
    }
    if due(task, now) {
        let who = recipient(s.answers, task);
        let amount = (balance(cur.ledger, who) + task.reward) as u64;
        lemma_recipient_registered(s, n);
        let p = position(s.ledger, who);
        lemma_position(cur.ledger, who, p);
        lemma_held_back_le_escrow(cur.tasks, n);
        lemma_balance_le_total(cur.ledger, p);
        let credited = with_balance(cur.ledger, who, amount);
        assert(next.ledger =~= credited) by {
            assert forall|k: int| 0 <= k < s.ledger.len() implies next.ledger[k] == credited[k] by {
                if s.ledger[k].owner == who {
                    lemma_position(cur.ledger, who, k);
                }
            }
        }
        assert(next.tasks =~= cur.tasks.update(n, closed_task(task)));
        lemma_with_balance_owners(cur.ledger, who, amount);
        lemma_total_with_balance(cur.ledger, who, amount);
        lemma_escrow_update(cur.tasks, n, closed_task(task));
        lemma_records_wf_with_balance(cur, who, amount);
    } else {
        assert(next.ledger =~= cur.ledger);
        assert(next.tasks =~= cur.tasks);
    }
}

/// The settlement of the first `n` tasks keeps the marketplace well formed and
/// the supply unchanged.
pub proof fn lemma_settled_upto_wf(s: StateView, now: u64, n: int)
    requires
        s.wf(),
        0 <= n <= s.tasks.len(),
    ensures
        s.settled_upto(now, n).wf(),
        s.settled_upto(now, n).supply() == s.supply(),
    decreases n,
{
    if n == 0 {
        lemma_settled_upto_ends(s, now);
    } else {
        lemma_settled_upto_wf(s, now, n - 1);
        lemma_settled_step(s, now, n - 1);
    }
}

/// A settlement keeps the marketplace well formed and creates or destroys no
/// token: what the ledger gains, the open tasks no longer hold back.
pub proof fn lemma_settled_wf(s: StateView, now: u64)
    requires
        s.wf(),
    ensures
        s.settled(now).wf(),
        s.settled(now).supply() == s.supply(),
{
    lemma_settled_upto_ends(s, now);
    lemma_settled_upto_wf(s, now, s.tasks.len() as int);
}

} // verus!
