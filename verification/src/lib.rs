//! A task marketplace with an internal token economy.
//!
//! Registered participants post tasks that carry a reward, other participants
//! answer them and vote on the answers, and a settlement sweep closes every
//! task whose deadline has passed and pays its reward out.  All state lives in
//! one aggregate, [`state::State`], and every operation on it is proved to keep
//! the aggregate well formed and to change it exactly as its contract says.
//!
//! - [`types`]: the records and their mathematical views.
//! - [`ledger`]: who holds how many tokens.
//! - [`settlement`]: how the reward of a task finds its recipient.
//! - [`model`]: the marketplace as a mathematical value, and what each
//!   operation makes of it.
//! - [`sweep`]: the settlement of all tasks, task by task.
//! - [`state`]: the marketplace itself and its operations.
//! - [`snapshot`]: the marketplace as plain data, and back.
//! - [`history`]: sequences of operations and the supply of tokens.
//! - [`laws`]: what holds whatever the users do.

pub mod history;
pub mod laws;
pub mod ledger;
pub mod model;
pub mod settlement;
pub mod snapshot;
pub mod state;
pub mod sweep;
pub mod types;
