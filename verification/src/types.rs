//! The records of the marketplace and their mathematical views.

use vstd::prelude::*;

verus! {

/// The tokens granted to a participant on registration.
pub const INITIAL_TOKENS: u64 = 1000;

/// The flat fee burnt by every task submission.
pub const SUBMISSION_COST: u64 = 1;

/// The shortest time a task may stay open, in nanoseconds (one minute).
pub const MIN_DURATION: u64 = 60_000_000_000;

/// The longest time a task may stay open, in nanoseconds (one day).
pub const MAX_DURATION: u64 = 86_400_000_000_000;

/// The largest payload of a task, in bytes.
pub const MAX_TASK_PAYLOAD: usize = 10240;

/// The largest number of answers one task accepts.
pub const MAX_NUMBER_ANSWERS: usize = 10;

/// The largest content of an answer, in bytes.
pub const MAX_CONTENT_SIZE: usize = 10240;

/// An opaque, already authenticated reference to a participant.
///
/// Nothing is assumed of the bytes but that equal bytes name the same
/// participant.
#[derive(Debug, PartialEq, Eq, Hash)]
pub struct Identity {
    pub bytes: Vec<u8>,
}

impl View for Identity {
    type V = Seq<u8>;

    open spec fn view(&self) -> Seq<u8> {
        self.bytes@
    }
}

/// Copies a byte string.
pub fn copy_bytes(bytes: &Vec<u8>) -> (copy: Vec<u8>)
    ensures
        copy@ == bytes@,
{
    let mut copy: Vec<u8> = Vec::new();
    let mut i: usize = 0;
    while i < bytes.len()
        invariant
            i <= bytes.len(),
            copy@ == bytes@.take(i as int),
        decreases bytes.len() - i,
    {
        copy.push(bytes[i]);
        i += 1;
    }
    copy
}

impl Identity {
    /// The identity named by `bytes`.
    pub fn new(bytes: Vec<u8>) -> (id: Identity)
        ensures
            id@ == bytes@,
    {
        Identity { bytes }
    }

    /// Whether `self` and `other` name the same participant.
    pub fn same(&self, other: &Identity) -> (b: bool)
        ensures
            b == (self@ == other@),
    {
        if self.bytes.len() != other.bytes.len() {
            return false;
        }
        let mut i: usize = 0;
        while i < self.bytes.len()
            invariant
                i <= self.bytes.len(),
                self.bytes.len() == other.bytes.len(),
                forall|j: int| 0 <= j < i ==> self.bytes@[j] == other.bytes@[j],
            decreases self.bytes.len() - i,
        {
            if self.bytes[i] != other.bytes[i] {
                return false;
            }
            i += 1;
        }
        assert(self.bytes@ =~= other.bytes@);
        true
    }
}

impl Clone for Identity {
    fn clone(&self) -> (id: Identity)
        ensures
            id@ == self@,
    {
        Identity { bytes: copy_bytes(&self.bytes) }
    }
}

/// A voter's verdict on an answer.
#[derive(Clone, Copy, Debug, PartialEq, Eq, Structural)]
pub enum Choice {
    Yes,
    No,
}

/// What a task asks for.
#[derive(Clone, Copy, Debug, PartialEq, Eq, Structural)]
pub enum TaskType {
    TranslateText,
    EditImage,
}

/// Whether a task still waits for its deadline or has been settled.
#[derive(Clone, Copy, Debug, PartialEq, Eq, Structural)]
pub enum TaskStatus {
    Open,
    Closed,
}

/// Why an operation was refused.
#[derive(Clone, Copy, Debug, PartialEq, Eq, Structural)]
pub enum Error {
    /// The caller has no ledger entry.
    NotRegistered,
    /// The caller already has a ledger entry.
    AlreadyRegistered,
    /// No task or answer has the identifier, or the answer is not one of the task.
    NotFound,
    /// The task type is not offered.
    Unsupported,
    /// The payload or content is malformed or too large.
    InvalidInput,
    /// The duration lies outside the bounds.
    OutOfRange,
    /// The balance does not cover the amount.
    InsufficientFunds,
    /// The caller has already answered the task or voted on the answer.
    DuplicateSubmission,
    /// The task's deadline has passed.
    Expired,
    /// The task holds the largest number of answers already.
    LimitReached,
    /// The stores contradict one another.
    Inconsistency,
}

/// One participant's verdict on one answer.
#[derive(Debug, PartialEq, Eq)]
pub struct Vote {
    pub voter: Identity,
    pub choice: Choice,
}

/// A vote as a mathematical value.
pub struct VoteView {
    pub voter: Seq<u8>,
    pub choice: Choice,
}

impl View for Vote {
    type V = VoteView;

    open spec fn view(&self) -> VoteView {
        VoteView { voter: self.voter@, choice: self.choice }
    }
}

impl Clone for Vote {
    fn clone(&self) -> (vote: Vote)
        ensures
            vote@ == self@,
    {
        Vote { voter: self.voter.clone(), choice: self.choice }
    }
}

/// The views of a list of votes, in order.
pub open spec fn votes_view(votes: Seq<Vote>) -> Seq<VoteView> {
    votes.map_values(|v: Vote| v@)
}

/// Copies a list of votes.
pub fn copy_votes(votes: &Vec<Vote>) -> (copy: Vec<Vote>)
    ensures
        votes_view(copy@) == votes_view(votes@),
{
    let mut copy: Vec<Vote> = Vec::new();
    let mut i: usize = 0;
    while i < votes.len()
        invariant
            i <= votes.len(),
            copy.len() == i,
            forall|j: int| 0 <= j < i ==> copy@[j]@ == votes@[j]@,
        decreases votes.len() - i,
    {
        copy.push(votes[i].clone());
        i += 1;
    }
    copy
}

/// An answer to a task, with the votes cast on it in the order they came.
#[derive(Debug, PartialEq, Eq)]
pub struct Answer {
    pub submitter: Identity,
    pub submission_time: u64,
    pub content: Vec<u8>,
    pub votes: Vec<Vote>,
}

/// An answer as a mathematical value.
pub struct AnswerView {
    pub submitter: Seq<u8>,
    pub submission_time: u64,
    pub content: Seq<u8>,
    pub votes: Seq<VoteView>,
}

impl View for Answer {
    type V = AnswerView;

    open spec fn view(&self) -> AnswerView {
        AnswerView {
            submitter: self.submitter@,
            submission_time: self.submission_time,
            content: self.content@,
            votes: votes_view(self.votes@),
        }
    }
}

impl Clone for Answer {
    fn clone(&self) -> (answer: Answer)
        ensures
            answer@ == self@,
    {
        Answer {
            submitter: self.submitter.clone(),
            submission_time: self.submission_time,
            content: copy_bytes(&self.content),
            votes: copy_votes(&self.votes),
        }
    }
}

/// The views of a list of answers, in order.
pub open spec fn answers_view(answers: Seq<Answer>) -> Seq<AnswerView> {
    answers.map_values(|a: Answer| a@)
}

/// A task as the store keeps it: its answers are named by identifier.
#[derive(Debug, PartialEq, Eq)]
pub struct TaskInternal {
    pub submitter: Identity,
    pub task_type: TaskType,
    pub payload: Vec<u8>,
    pub deadline: u64,
    pub reward: u64,
    pub answers: Vec<u64>,
    pub status: TaskStatus,
}

/// A stored task as a mathematical value.
pub struct TaskInternalView {
    pub submitter: Seq<u8>,
    pub task_type: TaskType,
    pub payload: Seq<u8>,
    pub deadline: u64,
    pub reward: u64,
    pub answers: Seq<u64>,
    pub status: TaskStatus,
}

impl View for TaskInternal {
    type V = TaskInternalView;

    open spec fn view(&self) -> TaskInternalView {
        TaskInternalView {
            submitter: self.submitter@,
            task_type: self.task_type,
            payload: self.payload@,
            deadline: self.deadline,
            reward: self.reward,
            answers: self.answers@,
            status: self.status,
        }
    }
}

/// Copies a list of identifiers.
pub fn copy_ids(ids: &Vec<u64>) -> (copy: Vec<u64>)
    ensures
        copy@ == ids@,
{
    let mut copy: Vec<u64> = Vec::new();
    let mut i: usize = 0;
    while i < ids.len()
        invariant
            i <= ids.len(),
            copy@ == ids@.take(i as int),
        decreases ids.len() - i,
    {
        copy.push(ids[i]);
        i += 1;
    }
    copy
}

impl Clone for TaskInternal {
    fn clone(&self) -> (task: TaskInternal)
        ensures
            task@ == self@,
    {
        TaskInternal {
            submitter: self.submitter.clone(),
            task_type: self.task_type,
            payload: copy_bytes(&self.payload),
            deadline: self.deadline,
            reward: self.reward,
            answers: copy_ids(&self.answers),
            status: self.status,
        }
    }
}

/// The views of a list of stored tasks, in order.
pub open spec fn tasks_view(tasks: Seq<TaskInternal>) -> Seq<TaskInternalView> {
    tasks.map_values(|t: TaskInternal| t@)
}

/// An answer together with its identifier.
#[derive(Debug, PartialEq, Eq)]
pub struct AnswerWithId {
    pub answer_id: u64,
    pub answer: Answer,
}

/// An answer with its identifier as a mathematical value.
pub struct AnswerWithIdView {
    pub answer_id: u64,
    pub answer: AnswerView,
}

impl View for AnswerWithId {
    type V = AnswerWithIdView;

    open spec fn view(&self) -> AnswerWithIdView {
        AnswerWithIdView { answer_id: self.answer_id, answer: self.answer@ }
    }
}

/// A stored task together with its identifier.
#[derive(Debug, PartialEq, Eq)]
pub struct TaskWithId {
    pub task_id: u64,
    pub task: TaskInternal,
}

/// A stored task with its identifier as a mathematical value.
pub struct TaskWithIdView {
    pub task_id: u64,
    pub task: TaskInternalView,
}

impl View for TaskWithId {
    type V = TaskWithIdView;

    open spec fn view(&self) -> TaskWithIdView {
        TaskWithIdView { task_id: self.task_id, task: self.task@ }
    }
}

/// A task as a reader sees it: every answer is spelt out.
#[derive(Debug, PartialEq, Eq)]
pub struct Task {
    pub submitter: Identity,
    pub task_type: TaskType,
    pub payload: Vec<u8>,
    pub deadline: u64,
    pub reward: u64,
    pub answers: Vec<AnswerWithId>,
    pub status: TaskStatus,
}

/// A task with its answers spelt out, as a mathematical value.
pub struct TaskView {
    pub submitter: Seq<u8>,
    pub task_type: TaskType,
    pub payload: Seq<u8>,
    pub deadline: u64,
    pub reward: u64,
    pub answers: Seq<AnswerWithIdView>,
    pub status: TaskStatus,
}

impl View for Task {
    type V = TaskView;

    open spec fn view(&self) -> TaskView {
        TaskView {
            submitter: self.submitter@,
            task_type: self.task_type,
            payload: self.payload@,
            deadline: self.deadline,
            reward: self.reward,
            answers: answers_with_id_view(self.answers@),
            status: self.status,
        }
    }
}

/// The few fields of a task that a listing shows.
#[derive(Debug, PartialEq, Eq)]
pub struct ShortTask {
    pub id: u64,
    pub submitter: Identity,
    pub task_type: TaskType,
    pub status: TaskStatus,
}

/// A line of a listing as a mathematical value.
pub struct ShortTaskView {
    pub id: u64,
    pub submitter: Seq<u8>,
    pub task_type: TaskType,
    pub status: TaskStatus,
}

impl View for ShortTask {
    type V = ShortTaskView;

    open spec fn view(&self) -> ShortTaskView {
        ShortTaskView {
            id: self.id,
            submitter: self.submitter@,
            task_type: self.task_type,
            status: self.status,
        }
    }
}

/// The views of a list of answers with their identifiers, in order.
pub open spec fn answers_with_id_view(answers: Seq<AnswerWithId>) -> Seq<AnswerWithIdView> {
    answers.map_values(|a: AnswerWithId| a@)
}

/// The views of the lines of a listing, in order.
pub open spec fn short_tasks_view(tasks: Seq<ShortTask>) -> Seq<ShortTaskView> {
    tasks.map_values(|t: ShortTask| t@)
}

/// The views of a list of stored tasks with their identifiers, in order.
pub open spec fn tasks_with_id_view(tasks: Seq<TaskWithId>) -> Seq<TaskWithIdView> {
    tasks.map_values(|t: TaskWithId| t@)
}

} // verus!
