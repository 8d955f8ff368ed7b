//! Driving a running task run through its attempts.
use crate::models::{TaskRun, TaskRunAttempt, TaskRunUpdate};
use crate::status::{TaskRunAttemptStatus, TaskRunStatus};
use crate::time::Timestamp;
use vstd::prelude::*;

verus! {

/// What becomes of a running task run on one pass.
#[derive(Clone, Copy, Debug, PartialEq, Eq, Structural)]
pub enum TaskRunStep {
    /// It goes on running, and an attempt of this number is queued for it.
    Attempt(u32),
    /// It goes on running while its last attempt does.
    Wait,
    /// It ends.
    Settle(TaskRunStatus),
}

/// What a last attempt means for its task run.
///
/// A failed attempt is tried again while the task has retries left: attempts count from 1,
/// so there are `max_retries + 1` of them. An attempt that cannot be accounted for is never
/// tried again, nor one that timed out or was stopped. One skipped before its command
/// started aborts the task run, which had started.
pub open spec fn after_attempt(
    status: TaskRunAttemptStatus,
    attempt: u32,
    max_retries: u32,
) -> TaskRunStep {
    match status {
        TaskRunAttemptStatus::Queued | TaskRunAttemptStatus::Running => TaskRunStep::Wait,
        TaskRunAttemptStatus::Succeeded => TaskRunStep::Settle(TaskRunStatus::Succeeded),
        TaskRunAttemptStatus::Failed => if attempt < max_retries + 1 {
            TaskRunStep::Attempt((attempt + 1) as u32)
        } else {
            TaskRunStep::Settle(TaskRunStatus::Failed)
        },
        TaskRunAttemptStatus::TimedOut => TaskRunStep::Settle(TaskRunStatus::TimedOut),
        TaskRunAttemptStatus::Aborted | TaskRunAttemptStatus::Skipped => TaskRunStep::Settle(
            TaskRunStatus::Aborted,
        ),
        TaskRunAttemptStatus::Invalid => TaskRunStep::Settle(TaskRunStatus::Invalid),
    }
}

/// What becomes of a running task run, given its last attempt if it has had one.
pub open spec fn next_step(task_run: TaskRun, last: Option<TaskRunAttempt>) -> TaskRunStep {
    match last {
        None => TaskRunStep::Attempt(1),
        Some(last) => after_attempt(last.status, last.attempt, task_run.max_retries),
    }
}

/// Decides what becomes of a running task run.
pub fn derive_next_status(task_run: &TaskRun, last: Option<&TaskRunAttempt>) -> (step: TaskRunStep)
    requires
        task_run.max_retries < u32::MAX,
    ensures
        step == next_step(
            *task_run,
            match last {
                Some(last) => Some(*last),
                None => None,
            },
        ),
{
    let last = match last {
        Some(last) => last,
        None => {
            return TaskRunStep::Attempt(1);
        },
    };
    if last.status == TaskRunAttemptStatus::Invalid {
        return TaskRunStep::Settle(TaskRunStatus::Invalid);
    }
    if last.status == TaskRunAttemptStatus::Succeeded {
        return TaskRunStep::Settle(TaskRunStatus::Succeeded);
    }
    if !last.status.is_finished() {
        return TaskRunStep::Wait;
    }
    if last.status == TaskRunAttemptStatus::Failed {
        if last.attempt < task_run.max_retries + 1 {
            return TaskRunStep::Attempt(last.attempt + 1);
        }
        return TaskRunStep::Settle(TaskRunStatus::Failed);
    }
    if last.status == TaskRunAttemptStatus::TimedOut {
        return TaskRunStep::Settle(TaskRunStatus::TimedOut);
    }
    TaskRunStep::Settle(TaskRunStatus::Aborted)
}

/// An attempt to write for a task run, queued.
#[derive(Clone, Debug)]
pub struct NewTaskRunAttempt {
    pub task_run_id: i64,
    pub job_run_id: i64,
    pub job_id: String,
    pub task_id: String,
    pub attempt: u32,
    pub status: TaskRunAttemptStatus,
}

/// Writes the row of a task run's next attempt.
pub fn new_attempt(task_run: &TaskRun, attempt: u32) -> (row: NewTaskRunAttempt)
    ensures
        row.task_run_id == task_run.id,
        row.job_run_id == task_run.job_run_id,
        row.job_id@ == task_run.job_id@,
        row.task_id@ == task_run.task_id@,
        row.attempt == attempt,
        row.status == TaskRunAttemptStatus::Queued,
{
    NewTaskRunAttempt {
        task_run_id: task_run.id,
        job_run_id: task_run.job_run_id,
        job_id: task_run.job_id.as_str().to_owned(),
        task_id: task_run.task_id.as_str().to_owned(),
        attempt,
        status: TaskRunAttemptStatus::Queued,
    }
}

/// What a step writes to the task run itself: its end, or nothing.
pub fn record_step(step: TaskRunStep, now: Timestamp) -> (update: Option<TaskRunUpdate>)
    ensures
        update is Some <==> step is Settle,
        step matches TaskRunStep::Settle(status) ==> forall|task_run: TaskRun| #[trigger]
            update->0.applied_to(task_run) == (TaskRun {
                status,
                finished_at: Some(now),
                ..task_run
            }),
{
    match step {
        TaskRunStep::Settle(status) => Some(TaskRunUpdate::settled(status, now)),
        _ => None,
    }
}

/// A task run never has more attempts than its retries allow, and they are numbered without
/// a gap.
pub proof fn attempts_are_bounded(task_run: TaskRun, last: Option<TaskRunAttempt>)
    requires
        task_run.max_retries < u32::MAX,
    ensures
        next_step(task_run, last) matches TaskRunStep::Attempt(n) ==> {
            &&& n <= task_run.max_retries + 1
            &&& n == (match last {
                Some(last) => last.attempt + 1,
                None => 1,
            })
        },
{
}

/// Only a failed attempt is ever tried again.
pub proof fn only_a_failure_is_retried(task_run: TaskRun, last: TaskRunAttempt)
    ensures
        next_step(task_run, Some(last)) is Attempt ==> last.status
            == TaskRunAttemptStatus::Failed,
{
}

/// A failed attempt is tried again as long as the task has retries left: the attempt after
/// number `n` is number `n + 1`, for the first retry as for every later one.
pub proof fn a_failure_with_retries_left_is_tried_again(task_run: TaskRun, last: TaskRunAttempt)
    requires
        task_run.max_retries < u32::MAX,
        last.status == TaskRunAttemptStatus::Failed,
        last.attempt <= task_run.max_retries,
    ensures
        next_step(task_run, Some(last)) matches TaskRunStep::Attempt(n) && n == last.attempt + 1,
{
}

/// A task that keeps failing has exactly `max_retries + 1` attempts: starting from none, each
/// attempt up to that number is made in turn, and once the last of them has failed the task
/// run ends as failed.
pub proof fn a_task_that_keeps_failing_uses_every_retry(
    task_run: TaskRun,
    attempts: Seq<TaskRunAttempt>,
)
    requires
        task_run.max_retries < u32::MAX,
        attempts.len() == task_run.max_retries + 1,
        forall|i: int|
            0 <= i < attempts.len() ==> (#[trigger] attempts[i]).attempt == i + 1
                && attempts[i].status == TaskRunAttemptStatus::Failed,
    ensures
        next_step(task_run, None) == TaskRunStep::Attempt(attempts[0].attempt),
        forall|i: int, j: int|
            #![trigger attempts[i], attempts[j]]
            0 <= i && j == i + 1 && j < attempts.len() ==> next_step(task_run, Some(attempts[i]))
                == TaskRunStep::Attempt(attempts[j].attempt),
        next_step(task_run, Some(attempts.last())) == TaskRunStep::Settle(TaskRunStatus::Failed),
{
    assert(attempts[0].attempt == 1);
    assert(attempts.last() == attempts[attempts.len() - 1]);
}

/// A task run ends exactly when its last attempt is over with no retry to follow, and then as
/// that attempt did. One whose command never started counts as aborted.
pub proof fn a_task_run_ends_as_its_last_attempt_did(
    task_run: TaskRun,
    last: TaskRunAttempt,
    status: TaskRunStatus,
)
    requires
        task_run.max_retries < u32::MAX,
    ensures
        next_step(task_run, Some(last)) == TaskRunStep::Wait <==> (last.status is Queued
            || last.status is Running),
        next_step(task_run, Some(last)) == TaskRunStep::Settle(status) <==> {
            ||| status is Succeeded && last.status is Succeeded
            ||| status is Failed && last.status is Failed && last.attempt > task_run.max_retries
            ||| status is TimedOut && last.status is TimedOut
            ||| status is Invalid && last.status is Invalid
            ||| status is Aborted && (last.status is Aborted || last.status is Skipped)
        },
        next_step(task_run, Some(last)) is Attempt <==> last.status is Failed && last.attempt
            <= task_run.max_retries,
{
}

/// Deciding on a task run whose attempt failed asks for the next attempt exactly while the
/// retries last, and that attempt carries the next number; a task run without an attempt gets
/// its first.
pub proof fn retries_are_asked_for_one_by_one(
    task_run: TaskRun,
    last: TaskRunAttempt,
    first: TaskRunStep,
    next: TaskRunStep,
)
    requires
        task_run.max_retries < u32::MAX,
        last.status is Failed,
        call_ensures(derive_next_status, (&task_run, None), first),
        call_ensures(derive_next_status, (&task_run, Some(&last)), next),
    ensures
        first == TaskRunStep::Attempt(1),
        last.attempt <= task_run.max_retries ==> next == TaskRunStep::Attempt(
            (last.attempt + 1) as u32,
        ),
        last.attempt > task_run.max_retries ==> next == TaskRunStep::Settle(TaskRunStatus::Failed),
{
}

/// An attempt is queued for the task run it is an attempt at, under the number it was asked
/// for.
pub proof fn an_attempt_belongs_to_its_task_run(
    task_run: TaskRun,
    attempt: u32,
    row: NewTaskRunAttempt,
)
    requires
        call_ensures(new_attempt, (&task_run, attempt), row),
    ensures
        row.task_run_id == task_run.id,
        row.job_run_id == task_run.job_run_id,
        row.job_id@ == task_run.job_id@,
        row.task_id@ == task_run.task_id@,
        row.attempt == attempt,
        row.status is Queued,
{
}

/// A step is written exactly where it ends the task run, and then says how and when, and
/// nothing else.
pub proof fn a_settled_step_reads_back(
    step: TaskRunStep,
    now: Timestamp,
    update: Option<TaskRunUpdate>,
    task_run: TaskRun,
)
    requires
        call_ensures(record_step, (step, now), update),
    ensures
        update is Some <==> step is Settle,
        update is Some ==> {
            let after = update->0.applied_to(task_run);
            &&& step == TaskRunStep::Settle(after.status)
            &&& after.finished_at == Some(now)
            &&& after.started_at == task_run.started_at
            &&& after.id == task_run.id
        },
{
}

} // verus!
