//! The rows the rules read: a job run, its task runs, their attempts and what those wrote.
use crate::status::{JobRunStatus, TaskRunAttemptStatus, TaskRunStatus};
use crate::time::Timestamp;
use vstd::prelude::*;

verus! {

/// One run of a job, with what it was submitted with.
#[derive(Clone, Debug)]
pub struct JobRun {
    pub id: i64,
    pub job_id: String,
    pub job_name: String,
    pub job_description: String,
    /// Names and values, in the order of the names.
    pub parameters: Vec<(String, String)>,
    pub created_at: Timestamp,
    /// The schedule it was submitted by; a run submitted by hand has none.
    pub schedule_id: Option<String>,
    /// The instant it is dated for, by its schedule or by hand.
    pub scheduled_at: Option<Timestamp>,
    pub started_at: Option<Timestamp>,
    pub finished_at: Option<Timestamp>,
    pub status: JobRunStatus,
}

impl JobRun {
    /// When it is due: at the instant it is dated for, or as soon as it was submitted.
    pub open spec fn due_at(&self) -> Timestamp {
        match self.scheduled_at {
            Some(scheduled_at) => scheduled_at,
            None => self.created_at,
        }
    }

    /// Tells when it is due.
    pub fn due(&self) -> (at: Timestamp)
        ensures
            at == self.due_at(),
    {
        match self.scheduled_at {
            Some(scheduled_at) => scheduled_at,
            None => self.created_at,
        }
    }
}

/// One task of a job run, with what it was submitted with.
#[derive(Clone, Debug)]
pub struct TaskRun {
    pub id: i64,
    pub job_run_id: i64,
    pub job_id: String,
    pub task_id: String,
    pub command: String,
    pub depends_on: Vec<String>,
    /// Seconds one attempt may run for.
    pub timeout: u32,
    /// How many times a failed attempt is tried again.
    pub max_retries: u32,
    /// Seconds to wait before a retry starts.
    pub retry_delay: u32,
    pub env: Vec<(String, String)>,
    /// Variable names, each with the name of the secret that holds its value.
    pub secret_env: Vec<(String, String)>,
    /// The named concurrency limits its attempts claim.
    pub limits: Vec<String>,
    /// Empty for the server's own.
    pub working_dir: String,
    pub created_at: Timestamp,
    pub started_at: Option<Timestamp>,
    pub finished_at: Option<Timestamp>,
    pub status: TaskRunStatus,
}

/// One try at a task run's command.
#[derive(Clone, Debug)]
pub struct TaskRunAttempt {
    pub id: i64,
    pub task_run_id: i64,
    pub job_run_id: i64,
    pub job_id: String,
    pub task_id: String,
    /// Counted from 1.
    pub attempt: u32,
    pub created_at: Timestamp,
    pub started_at: Option<Timestamp>,
    pub finished_at: Option<Timestamp>,
    pub status: TaskRunAttemptStatus,
    pub process_group_id: Option<i64>,
}

/// The two streams a command writes to.
#[derive(Clone, Copy, Debug, PartialEq, Eq, Structural)]
pub enum TaskRunAttemptOutputStream {
    Stdout,
    Stderr,
}

/// Everything one attempt wrote.
#[derive(Clone, Debug)]
pub struct TaskRunAttemptOutputStreams {
    pub stdout: String,
    pub stderr: String,
}

impl Default for TaskRunAttemptOutputStreams {
    /// An attempt that wrote nothing.
    fn default() -> (streams: Self)
        ensures
            streams.stdout@.len() == 0,
            streams.stderr@.len() == 0,
    {
        TaskRunAttemptOutputStreams { stdout: String::new(), stderr: String::new() }
    }
}

/// What to write to an attempt's row; `None` leaves a column as it is.
#[derive(Clone, Copy, Debug)]
pub struct TaskRunAttemptUpdate {
    pub status: Option<TaskRunAttemptStatus>,
    pub started_at: Option<Option<Timestamp>>,
    pub finished_at: Option<Option<Timestamp>>,
    pub process_group_id: Option<Option<i64>>,
}

/// A column after a write that may leave it alone.
pub open spec fn written<T>(column: T, write: Option<T>) -> T {
    match write {
        Some(value) => value,
        None => column,
    }
}

impl TaskRunAttemptUpdate {
    /// The row after the write.
    pub open spec fn applied_to(self, attempt: TaskRunAttempt) -> TaskRunAttempt {
        TaskRunAttempt {
            status: written(attempt.status, self.status),
            started_at: written(attempt.started_at, self.started_at),
            finished_at: written(attempt.finished_at, self.finished_at),
            process_group_id: written(attempt.process_group_id, self.process_group_id),
            ..attempt
        }
    }

    /// Ends an attempt in a status.
    pub fn settled(status: TaskRunAttemptStatus, now: Timestamp) -> (update: TaskRunAttemptUpdate)
        ensures
            update.status == Some(status),
            update.started_at is None,
            update.finished_at == Some(Some(now)),
            update.process_group_id is None,
    {
        TaskRunAttemptUpdate {
            status: Some(status),
            started_at: None,
            finished_at: Some(Some(now)),
            process_group_id: None,
        }
    }
}

/// What to write to a task run's row; `None` leaves a column as it is.
#[derive(Clone, Copy, Debug)]
pub struct TaskRunUpdate {
    pub status: Option<TaskRunStatus>,
    pub started_at: Option<Option<Timestamp>>,
    pub finished_at: Option<Option<Timestamp>>,
}

impl TaskRunUpdate {
    /// The row after the write.
    pub open spec fn applied_to(self, task_run: TaskRun) -> TaskRun {
        TaskRun {
            status: written(task_run.status, self.status),
            started_at: written(task_run.started_at, self.started_at),
            finished_at: written(task_run.finished_at, self.finished_at),
            ..task_run
        }
    }

    /// Ends a task run in a status.
    pub fn settled(status: TaskRunStatus, now: Timestamp) -> (update: TaskRunUpdate)
        ensures
            update.status == Some(status),
            update.started_at is None,
            update.finished_at == Some(Some(now)),
    {
        TaskRunUpdate { status: Some(status), started_at: None, finished_at: Some(Some(now)) }
    }
}

/// What to write to a job run's row; `None` leaves a column as it is.
#[derive(Clone, Copy, Debug)]
pub struct JobRunUpdate {
    pub status: Option<JobRunStatus>,
    pub started_at: Option<Option<Timestamp>>,
    pub finished_at: Option<Option<Timestamp>>,
}

impl JobRunUpdate {
    /// The row after the write.
    pub open spec fn applied_to(self, job_run: JobRun) -> JobRun {
        JobRun {
            status: written(job_run.status, self.status),
            started_at: written(job_run.started_at, self.started_at),
            finished_at: written(job_run.finished_at, self.finished_at),
            ..job_run
        }
    }

    /// Ends a job run in a status.
    pub fn settled(status: JobRunStatus, now: Timestamp) -> (update: JobRunUpdate)
        ensures
            update.status == Some(status),
            update.started_at is None,
            update.finished_at == Some(Some(now)),
    {
        JobRunUpdate { status: Some(status), started_at: None, finished_at: Some(Some(now)) }
    }
}

/// A run dated for an instant is due at that instant, and one that is not at the instant it
/// was submitted.
pub proof fn a_run_is_due_when_it_is_dated(job_run: JobRun, at: Timestamp)
    ensures
        job_run.scheduled_at == Some(at) ==> job_run.due_at() == at,
        job_run.scheduled_at is None ==> job_run.due_at() == job_run.created_at,
{
}

} // verus!
