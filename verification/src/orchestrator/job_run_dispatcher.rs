//! Starting queued job runs, or deciding not to.
use crate::models::{JobRun, JobRunUpdate, TaskRun, TaskRunUpdate};
use crate::status::{JobRunStatus, TaskRunStatus};
use crate::time::Timestamp;
use vstd::prelude::*;

verus! {

/// Whether a job has as many runs going as it may. A ceiling of 0, and a job that is not
/// installed, have no ceiling.
pub open spec fn at_max_parallel_runs(running: u32, max_parallel_runs: Option<u32>) -> bool {
    match max_parallel_runs {
        Some(max) => max != 0 && running >= max,
        None => false,
    }
}

/// Whether a job has as many runs going as it may.
pub fn is_job_at_max_parallel_runs(running: u32, max_parallel_runs: Option<u32>) -> (b: bool)
    ensures
        b == at_max_parallel_runs(running, max_parallel_runs),
{
    match max_parallel_runs {
        Some(max) => max != 0 && running >= max,
        None => false,
    }
}

/// Where a queued job run goes: skipped if it was stopped, queued while its job has as many
/// runs going as it may, running otherwise.
pub open spec fn queued_outcome(stopped: bool, at_max_parallel_runs: bool) -> JobRunStatus {
    if stopped {
        JobRunStatus::Skipped
    } else if at_max_parallel_runs {
        JobRunStatus::Queued
    } else {
        JobRunStatus::Running
    }
}

/// Decides where a queued job run goes.
pub fn derive_next_status(stopped: bool, at_max_parallel_runs: bool) -> (status: JobRunStatus)
    ensures
        status == queued_outcome(stopped, at_max_parallel_runs),
{
    if stopped {
        return JobRunStatus::Skipped;
    }
    if at_max_parallel_runs {
        return JobRunStatus::Queued;
    }
    JobRunStatus::Running
}

/// What starting a job run writes, in this order: a crash between the two writes leaves the
/// job run queued, to be started again, rather than running with task runs that nothing will
/// ever pick up.
#[derive(Clone, Copy, Debug)]
pub struct JobRunStart {
    /// For each of its task runs that `release` lets go.
    pub task_runs: TaskRunUpdate,
    pub job_run: JobRunUpdate,
}

/// Starts a job run and releases its planned task runs.
pub fn set_to_running(now: Timestamp) -> (start: JobRunStart)
    ensures
        forall|task_run: TaskRun| #[trigger]
            start.task_runs.applied_to(task_run) == (TaskRun {
                status: TaskRunStatus::Waiting,
                ..task_run
            }),
        forall|job_run: JobRun| #[trigger]
            start.job_run.applied_to(job_run) == (JobRun {
                status: JobRunStatus::Running,
                started_at: Some(now),
                ..job_run
            }),
{
    JobRunStart {
        task_runs: TaskRunUpdate {
            status: Some(TaskRunStatus::Waiting),
            started_at: None,
            finished_at: None,
        },
        job_run: JobRunUpdate {
            status: Some(JobRunStatus::Running),
            started_at: Some(Some(now)),
            finished_at: None,
        },
    }
}

/// What closing a job run that never started writes, to the run and to each of its task runs
/// that is not over: one that was left behind would hold the run open for good.
#[derive(Clone, Copy, Debug)]
pub struct JobRunClosing {
    /// For each of its task runs that `close` ends.
    pub task_runs: TaskRunUpdate,
    pub job_run: JobRunUpdate,
}

/// Closes a queued job run that was stopped, with its task runs.
pub fn set_to_skipped(now: Timestamp) -> (closing: JobRunClosing)
    ensures
        forall|task_run: TaskRun| #[trigger]
            closing.task_runs.applied_to(task_run) == (TaskRun {
                status: TaskRunStatus::Skipped,
                finished_at: Some(now),
                ..task_run
            }),
        forall|job_run: JobRun| #[trigger]
            closing.job_run.applied_to(job_run) == (JobRun {
                status: JobRunStatus::Skipped,
                finished_at: Some(now),
                ..job_run
            }),
{
    JobRunClosing {
        task_runs: TaskRunUpdate::settled(TaskRunStatus::Skipped, now),
        job_run: JobRunUpdate::settled(JobRunStatus::Skipped, now),
    }
}

/// Closes a queued job run of which nothing could be decided, with its task runs.
pub fn set_to_invalid(now: Timestamp) -> (closing: JobRunClosing)
    ensures
        forall|task_run: TaskRun| #[trigger]
            closing.task_runs.applied_to(task_run) == (TaskRun {
                status: TaskRunStatus::Invalid,
                finished_at: Some(now),
                ..task_run
            }),
        forall|job_run: JobRun| #[trigger]
            closing.job_run.applied_to(job_run) == (JobRun {
                status: JobRunStatus::Invalid,
                finished_at: Some(now),
                ..job_run
            }),
{
    JobRunClosing {
        task_runs: TaskRunUpdate::settled(TaskRunStatus::Invalid, now),
        job_run: JobRunUpdate::settled(JobRunStatus::Invalid, now),
    }
}

/// A task run after its job run was closed: ended as the run was, unless it was over.
pub open spec fn closed(task_run: TaskRun, closing: JobRunClosing) -> TaskRun {
    if task_run.status.finished() {
        task_run
    } else {
        closing.task_runs.applied_to(task_run)
    }
}

/// What closing a job run writes to one of its task runs: nothing to one that is over.
pub fn close(task_run: &TaskRun, closing: &JobRunClosing) -> (update: Option<TaskRunUpdate>)
    ensures
        update is Some <==> !task_run.status.finished(),
        update matches Some(update) ==> update.applied_to(*task_run) == closed(*task_run, *closing),
        update is None ==> closed(*task_run, *closing) == *task_run,
{
    if task_run.status.is_finished() {
        None
    } else {
        Some(closing.task_runs)
    }
}

/// A job run that is closed leaves no task run behind that could still start.
pub proof fn a_closed_run_leaves_nothing_going(
    task_run: TaskRun,
    closing: JobRunClosing,
    status: TaskRunStatus,
    now: Timestamp,
)
    requires
        status.finished(),
        forall|task_run: TaskRun| #[trigger]
            closing.task_runs.applied_to(task_run) == (TaskRun {
                status,
                finished_at: Some(now),
                ..task_run
            }),
    ensures
        closed(task_run, closing).status.finished(),
        task_run.status.finished() ==> closed(task_run, closing) == task_run,
{
}

/// A task run after its job run was started: waiting if it was planned, else as it was.
pub open spec fn released(task_run: TaskRun) -> TaskRun {
    if task_run.status is Planned {
        TaskRun { status: TaskRunStatus::Waiting, ..task_run }
    } else {
        task_run
    }
}

/// What starting a job run writes to one of its task runs: nothing to one that is not planned,
/// be it over or already released.
pub fn release(task_run: &TaskRun) -> (update: Option<TaskRunUpdate>)
    ensures
        update is Some <==> task_run.status is Planned,
        update matches Some(update) ==> update.applied_to(*task_run) == released(*task_run),
        update is None ==> released(*task_run) == *task_run,
{
    if matches!(task_run.status, TaskRunStatus::Planned) {
        Some(
            TaskRunUpdate {
                status: Some(TaskRunStatus::Waiting),
                started_at: None,
                finished_at: None,
            },
        )
    } else {
        None
    }
}

/// Starting a job run twice releases its task runs as starting it once does, so a start that
/// a crash cut short can be made again.
pub proof fn a_start_can_be_repeated(task_run: TaskRun)
    ensures
        released(released(task_run)) == released(task_run),
        !(released(task_run).status is Planned),
{
}

/// A job has room for another run exactly while fewer of its runs are going than it may have:
/// the one that fills it up is the last. A ceiling of 0, and no ceiling, always leave room.
pub proof fn a_job_fills_up_to_its_ceiling(running: u32, max: u32)
    ensures
        !at_max_parallel_runs(running, None),
        !at_max_parallel_runs(running, Some(0)),
        max > 0 ==> (at_max_parallel_runs(running, Some(max)) <==> running >= max),
        max > 0 ==> at_max_parallel_runs(max, Some(max)) && !at_max_parallel_runs(
            (max - 1) as u32,
            Some(max),
        ),
{
}

/// A queued run starts exactly when nobody stopped it and its job has room; it is skipped
/// exactly when somebody stopped it, and else stays queued.
pub proof fn a_queued_run_starts_exactly_when_there_is_room(stopped: bool, at_max: bool)
    ensures
        queued_outcome(stopped, at_max) == JobRunStatus::Running <==> !stopped && !at_max,
        queued_outcome(stopped, at_max) == JobRunStatus::Skipped <==> stopped,
        queued_outcome(stopped, at_max) == JobRunStatus::Queued <==> !stopped && at_max,
{
}

/// Starting a job run releases every planned task run and touches no other: nothing but the
/// status changes, and only from planned to waiting.
pub proof fn a_start_releases_exactly_the_planned(task_run: TaskRun)
    ensures
        task_run.status is Planned <==> released(task_run) != task_run,
        task_run.status is Planned ==> released(task_run).status is Waiting,
        released(task_run).id == task_run.id,
        released(task_run).started_at == task_run.started_at,
        released(task_run).finished_at == task_run.finished_at,
{
}

/// Closing a job run ends every task run that is not over as the run itself is closed, at that
/// instant, and leaves one that is over as it ended.
pub proof fn a_closing_ends_exactly_what_is_not_over(
    task_run: TaskRun,
    closing: JobRunClosing,
    status: TaskRunStatus,
    now: Timestamp,
)
    requires
        closing.task_runs.applied_to(task_run) == (TaskRun {
            status,
            finished_at: Some(now),
            ..task_run
        }),
    ensures
        task_run.status is Planned || task_run.status is Waiting || task_run.status is Running
            ==> closed(task_run, closing).status == status && closed(task_run, closing).finished_at
            == Some(now),
        !(task_run.status is Planned || task_run.status is Waiting || task_run.status is Running)
            ==> closed(task_run, closing) == task_run,
        closed(task_run, closing).id == task_run.id,
        closed(task_run, closing).started_at == task_run.started_at,
{
}

/// A start and a closing read back: the run has the status and the instant they were made for,
/// and its task runs wait, or have ended as the run did, and nothing else of either changes.
pub proof fn starts_and_closings_read_back(
    now: Timestamp,
    start: JobRunStart,
    skipping: JobRunClosing,
    invalidation: JobRunClosing,
    job_run: JobRun,
    task_run: TaskRun,
)
    requires
        call_ensures(set_to_running, (now,), start),
        call_ensures(set_to_skipped, (now,), skipping),
        call_ensures(set_to_invalid, (now,), invalidation),
    ensures
        start.job_run.applied_to(job_run) == (JobRun {
            status: JobRunStatus::Running,
            started_at: Some(now),
            ..job_run
        }),
        skipping.job_run.applied_to(job_run) == (JobRun {
            status: JobRunStatus::Skipped,
            finished_at: Some(now),
            ..job_run
        }),
        invalidation.job_run.applied_to(job_run) == (JobRun {
            status: JobRunStatus::Invalid,
            finished_at: Some(now),
            ..job_run
        }),
        start.task_runs.applied_to(task_run).status is Waiting,
        start.task_runs.applied_to(task_run).finished_at == task_run.finished_at,
        task_run.status is Waiting ==> closed(task_run, skipping).status is Skipped && closed(
            task_run,
            invalidation,
        ).status is Invalid,
        task_run.status is Waiting ==> closed(task_run, skipping).finished_at == Some(now)
            && closed(task_run, invalidation).finished_at == Some(now),
{
}

/// What starting or closing a job run writes to a task run is written only where it changes
/// something, and then leads to where it should be.
pub proof fn only_what_changes_is_written(
    task_run: TaskRun,
    closing: JobRunClosing,
    on_start: Option<TaskRunUpdate>,
    on_close: Option<TaskRunUpdate>,
)
    requires
        call_ensures(release, (&task_run,), on_start),
        call_ensures(close, (&task_run, &closing), on_close),
    ensures
        on_start is Some <==> task_run.status is Planned,
        on_start matches Some(update) ==> update.applied_to(task_run).status is Waiting
            && update.applied_to(task_run).started_at == task_run.started_at,
        on_close is Some <==> (task_run.status is Planned || task_run.status is Waiting
            || task_run.status is Running),
        on_close matches Some(update) ==> update.applied_to(task_run)
            == closing.task_runs.applied_to(task_run),
{
}

/// Deciding on a queued run starts it exactly where it was not stopped and fewer runs of its
/// job are going than may be.
pub proof fn a_run_starts_where_its_job_has_room(
    stopped: bool,
    running: u32,
    max_parallel_runs: Option<u32>,
    full: bool,
    status: JobRunStatus,
)
    requires
        call_ensures(is_job_at_max_parallel_runs, (running, max_parallel_runs), full),
        call_ensures(derive_next_status, (stopped, full), status),
    ensures
        status is Running <==> !stopped && (max_parallel_runs is None || max_parallel_runs->0 == 0
            || running < max_parallel_runs->0),
        status is Skipped <==> stopped,
        status is Running || status is Skipped || status is Queued,
{
}

} // verus!
