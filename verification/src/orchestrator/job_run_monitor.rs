//! Finishing a running job run once its task runs are done.
use crate::models::{JobRun, JobRunUpdate, TaskRun, TaskRunAttempt};
use crate::notifications::NotificationChannel;
use crate::orchestrator::task_run_monitor::{next_step, TaskRunStep};
use crate::status::{JobRunStatus, TaskRunStatus};
use crate::time::Timestamp;
use vstd::prelude::*;

verus! {

/// Whether some task run has a status.
pub open spec fn some_is(task_runs: Seq<TaskRunStatus>, status: TaskRunStatus) -> bool {
    exists|i: int| 0 <= i < task_runs.len() && #[trigger] task_runs[i] == status
}

/// Whether every task run is over.
pub open spec fn all_finished(task_runs: Seq<TaskRunStatus>) -> bool {
    forall|i: int| 0 <= i < task_runs.len() ==> (#[trigger] task_runs[i]).finished()
}

/// Where a running job run stands, given where its task runs do.
///
/// Nothing ends it while work is still going. Then the order is what decides: an ending that
/// cannot be accounted for outranks any other, a failure outranks a timeout, and either
/// outranks a stop, which a task run shows by being aborted or skipped. A run with no task
/// runs has succeeded.
pub open spec fn job_run_outcome(task_runs: Seq<TaskRunStatus>) -> JobRunStatus {
    if !all_finished(task_runs) {
        JobRunStatus::Running
    } else if some_is(task_runs, TaskRunStatus::Invalid) {
        JobRunStatus::Invalid
    } else if some_is(task_runs, TaskRunStatus::Failed) {
        JobRunStatus::Failed
    } else if some_is(task_runs, TaskRunStatus::TimedOut) {
        JobRunStatus::TimedOut
    } else if some_is(task_runs, TaskRunStatus::Aborted) || some_is(
        task_runs,
        TaskRunStatus::Skipped,
    ) {
        JobRunStatus::Aborted
    } else {
        JobRunStatus::Succeeded
    }
}

/// Decides where a running job run stands from the statuses of its task runs.
pub fn derive_next_status(task_runs: &Vec<TaskRunStatus>) -> (status: JobRunStatus)
    ensures
        status == job_run_outcome(task_runs@),
{
    let mut invalid: bool = false;
    let mut failed: bool = false;
    let mut timed_out: bool = false;
    let mut stopped: bool = false;
    let mut i: usize = 0;
    while i < task_runs.len()
        invariant
            i <= task_runs@.len(),
            forall|j: int| 0 <= j < i ==> (#[trigger] task_runs@[j]).finished(),
            invalid == some_is(task_runs@.take(i as int), TaskRunStatus::Invalid),
            failed == some_is(task_runs@.take(i as int), TaskRunStatus::Failed),
            timed_out == some_is(task_runs@.take(i as int), TaskRunStatus::TimedOut),
            stopped == (some_is(task_runs@.take(i as int), TaskRunStatus::Aborted) || some_is(
                task_runs@.take(i as int),
                TaskRunStatus::Skipped,
            )),
        decreases task_runs.len() - i,
    {
        let status = task_runs[i];
        if !status.is_finished() {
            return JobRunStatus::Running;
        }
        proof {
            lemma_some_is_push(task_runs@, i as int, TaskRunStatus::Invalid);
            lemma_some_is_push(task_runs@, i as int, TaskRunStatus::Failed);
            lemma_some_is_push(task_runs@, i as int, TaskRunStatus::TimedOut);
            lemma_some_is_push(task_runs@, i as int, TaskRunStatus::Aborted);
            lemma_some_is_push(task_runs@, i as int, TaskRunStatus::Skipped);
        }
        invalid = invalid || status == TaskRunStatus::Invalid;
        failed = failed || status == TaskRunStatus::Failed;
        timed_out = timed_out || status == TaskRunStatus::TimedOut;
        stopped = stopped || status.is_stopped();
        i = i + 1;
    }
    assert(task_runs@.take(i as int) =~= task_runs@);
    if invalid {
        JobRunStatus::Invalid
    } else if failed {
        JobRunStatus::Failed
    } else if timed_out {
        JobRunStatus::TimedOut
    } else if stopped {
        JobRunStatus::Aborted
    } else {
        JobRunStatus::Succeeded
    }
}

proof fn lemma_some_is_push(task_runs: Seq<TaskRunStatus>, i: int, status: TaskRunStatus)
    requires
        0 <= i < task_runs.len(),
    ensures
        some_is(task_runs.take(i + 1), status) == (some_is(task_runs.take(i), status)
            || task_runs[i] == status),
{
    if some_is(task_runs.take(i), status) {
        let j = choose|j: int| 0 <= j < i && #[trigger] task_runs.take(i)[j] == status;
        assert(task_runs.take(i + 1)[j] == status);
    }
    if task_runs[i] == status {
        assert(task_runs.take(i + 1)[i] == status);
    }
    if some_is(task_runs.take(i + 1), status) {
        let j = choose|j: int| 0 <= j < i + 1 && #[trigger] task_runs.take(i + 1)[j] == status;
        if j < i {
            assert(task_runs.take(i)[j] == status);
        }
    }
}

/// The endings that are a failure: one that cannot be accounted for counts, one somebody
/// asked for does not.
pub open spec fn worth_notifying(status: JobRunStatus) -> bool {
    status is Failed || status is TimedOut || status is Invalid
}

/// Whether an ending is one to be told of as a failure.
pub fn is_worth_notifying(status: JobRunStatus) -> (b: bool)
    ensures
        b == worth_notifying(status),
{
    matches!(status, JobRunStatus::Failed | JobRunStatus::TimedOut | JobRunStatus::Invalid)
}

/// A notification to write beside the end of a run, left open to be delivered.
#[derive(Clone, Debug)]
pub struct NewJobRunNotification {
    pub job_run_id: i64,
    pub job_id: String,
    pub channel: NotificationChannel,
    pub recipients: Vec<String>,
}

/// What ending a job run writes, all of it in one transaction: a status that landed without
/// its notification would be a failure nobody is told of.
#[derive(Debug)]
pub struct JobRunEnding {
    pub update: JobRunUpdate,
    pub notification: Option<NewJobRunNotification>,
}

/// Ends a job run in a status, with a notification if the ending is a failure and the run
/// names somebody to tell.
pub fn update_job_run_status(
    job_run: &JobRun,
    on_failure_emails: &Vec<String>,
    status: JobRunStatus,
    now: Timestamp,
) -> (ending: JobRunEnding)
    ensures
        ending.update.applied_to(*job_run) == (JobRun {
            status,
            finished_at: Some(now),
            ..*job_run
        }),
        ending.notification is Some <==> worth_notifying(status) && on_failure_emails@.len() > 0,
        ending.notification matches Some(notification) ==> {
            &&& notification.job_run_id == job_run.id
            &&& notification.job_id@ == job_run.job_id@
            &&& notification.channel == NotificationChannel::Email
            &&& notification.recipients@ =~= on_failure_emails@
        },
{
    let update = JobRunUpdate::settled(status, now);
    let notification = if is_worth_notifying(status) && on_failure_emails.len() > 0 {
        Some(
            NewJobRunNotification {
                job_run_id: job_run.id,
                job_id: job_run.job_id.as_str().to_owned(),
                channel: NotificationChannel::Email,
                recipients: on_failure_emails.clone(),
            },
        )
    } else {
        None
    };
    JobRunEnding { update, notification }
}

/// Nothing ends a job run while one of its task runs is still going.
pub proof fn a_job_run_outlasts_its_task_runs(task_runs: Seq<TaskRunStatus>, i: int)
    requires
        0 <= i < task_runs.len(),
        !task_runs[i].finished(),
    ensures
        job_run_outcome(task_runs) == JobRunStatus::Running,
{
}

/// A job run succeeds exactly when every one of its task runs has.
pub proof fn success_needs_every_task_run(task_runs: Seq<TaskRunStatus>)
    ensures
        job_run_outcome(task_runs) == JobRunStatus::Succeeded <==> (forall|i: int|
            0 <= i < task_runs.len() ==> #[trigger] task_runs[i] == TaskRunStatus::Succeeded),
{
    if job_run_outcome(task_runs) == JobRunStatus::Succeeded {
        assert forall|i: int| 0 <= i < task_runs.len() implies #[trigger] task_runs[i]
            == TaskRunStatus::Succeeded by {
            assert(task_runs[i].finished());
        }
    }
}

/// A task run that broke is what its job run reports, whatever was stopped beside it: the run
/// reads neither as stopped nor as a success, and its ending is told as a failure.
pub proof fn a_failure_outranks_a_stop(task_runs: Seq<TaskRunStatus>)
    requires
        all_finished(task_runs),
        some_is(task_runs, TaskRunStatus::Failed) || some_is(task_runs, TaskRunStatus::TimedOut),
    ensures
        worth_notifying(job_run_outcome(task_runs)),
{
}

/// An attempt that cannot be accounted for is never tried again: it makes its task run
/// invalid, and one such task run makes its job run invalid once the others are over.
pub proof fn an_unaccounted_attempt_reaches_the_run(
    task_run: TaskRun,
    last: TaskRunAttempt,
    task_runs: Seq<TaskRunStatus>,
    i: int,
)
    requires
        last.status is Invalid,
        0 <= i < task_runs.len(),
        TaskRunStep::Settle(task_runs[i]) == next_step(task_run, Some(last)),
        all_finished(task_runs),
    ensures
        task_runs[i] == TaskRunStatus::Invalid,
        job_run_outcome(task_runs) == JobRunStatus::Invalid,
{
}

/// Whether no task run has a status that it only passes through.
pub open spec fn nothing_is_going(task_runs: Seq<TaskRunStatus>) -> bool {
    forall|i: int|
        0 <= i < task_runs.len() ==> !((#[trigger] task_runs[i]) is Planned
            || task_runs[i] is Waiting || task_runs[i] is Running)
}

/// A run ends as the gravest of its task runs did: as one that cannot be accounted for, else
/// as a failure, else as a timeout, else as a stop, and only as a success where there is none
/// of these. While anything is going it runs on.
pub proof fn a_run_ends_as_its_gravest_task_run(task_runs: Seq<TaskRunStatus>)
    ensures
        job_run_outcome(task_runs) is Running <==> !nothing_is_going(task_runs),
        job_run_outcome(task_runs) is Invalid <==> nothing_is_going(task_runs)
            && task_runs.contains(TaskRunStatus::Invalid),
        job_run_outcome(task_runs) is Failed <==> nothing_is_going(task_runs)
            && task_runs.contains(TaskRunStatus::Failed) && !task_runs.contains(
            TaskRunStatus::Invalid,
        ),
        job_run_outcome(task_runs) is TimedOut <==> nothing_is_going(task_runs)
            && task_runs.contains(TaskRunStatus::TimedOut) && !task_runs.contains(
            TaskRunStatus::Invalid,
        ) && !task_runs.contains(TaskRunStatus::Failed),
        job_run_outcome(task_runs) is Aborted <==> nothing_is_going(task_runs) && (
        task_runs.contains(TaskRunStatus::Aborted) || task_runs.contains(TaskRunStatus::Skipped))
            && !task_runs.contains(TaskRunStatus::Invalid) && !task_runs.contains(
            TaskRunStatus::Failed,
        ) && !task_runs.contains(TaskRunStatus::TimedOut),
        task_runs.len() == 0 ==> job_run_outcome(task_runs) is Succeeded,
{
    assert(all_finished(task_runs) == nothing_is_going(task_runs)) by {
        if all_finished(task_runs) {
            assert forall|i: int| 0 <= i < task_runs.len() implies !((
            #[trigger] task_runs[i]) is Planned || task_runs[i] is Waiting
                || task_runs[i] is Running) by {
                assert(task_runs[i].finished());
            }
        }
        if nothing_is_going(task_runs) {
            assert forall|i: int| 0 <= i < task_runs.len() implies (
            #[trigger] task_runs[i]).finished() by {}
        }
    }
    lemma_some_is_contains(task_runs, TaskRunStatus::Invalid);
    lemma_some_is_contains(task_runs, TaskRunStatus::Failed);
    lemma_some_is_contains(task_runs, TaskRunStatus::TimedOut);
    lemma_some_is_contains(task_runs, TaskRunStatus::Aborted);
    lemma_some_is_contains(task_runs, TaskRunStatus::Skipped);
}

proof fn lemma_some_is_contains(task_runs: Seq<TaskRunStatus>, status: TaskRunStatus)
    ensures
        some_is(task_runs, status) == task_runs.contains(status),
{
    if some_is(task_runs, status) {
        let i = choose|i: int| 0 <= i < task_runs.len() && #[trigger] task_runs[i] == status;
        assert(task_runs.contains(task_runs[i]));
    }
    if task_runs.contains(status) {
        let i = choose|i: int| 0 <= i < task_runs.len() && task_runs[i] == status;
        assert(task_runs[i] == status);
    }
}

/// The order of the task runs makes no difference to how their run ends, nor how many came to
/// the same end.
pub proof fn the_order_of_task_runs_makes_no_difference(
    task_runs: Seq<TaskRunStatus>,
    others: Seq<TaskRunStatus>,
)
    requires
        forall|status: TaskRunStatus| #[trigger]
            task_runs.contains(status) <==> others.contains(status),
    ensures
        job_run_outcome(task_runs) == job_run_outcome(others),
{
    a_run_ends_as_its_gravest_task_run(task_runs);
    a_run_ends_as_its_gravest_task_run(others);
    lemma_going_is_contained(task_runs);
    lemma_going_is_contained(others);
}

proof fn lemma_going_is_contained(task_runs: Seq<TaskRunStatus>)
    ensures
        nothing_is_going(task_runs) <==> !task_runs.contains(TaskRunStatus::Planned)
            && !task_runs.contains(TaskRunStatus::Waiting) && !task_runs.contains(
            TaskRunStatus::Running,
        ),
{
    if !nothing_is_going(task_runs) {
        let i = choose|i: int|
            0 <= i < task_runs.len() && ((#[trigger] task_runs[i]) is Planned
                || task_runs[i] is Waiting || task_runs[i] is Running);
        assert(task_runs.contains(task_runs[i]));
    }
}

/// An ending is told as a failure exactly when the run neither succeeded nor was stopped,
/// skipped or removed, and is over.
pub proof fn a_failure_is_what_nobody_asked_for(status: JobRunStatus)
    ensures
        worth_notifying(status) <==> status.finished() && !(status is Succeeded || status is Skipped
            || status is Aborted || status is Deleted),
{
}

/// Ending a run tells somebody exactly where the run names somebody and ended in a failure,
/// a timeout or a way that cannot be accounted for; then everybody it names is told, of that
/// run. The ending itself changes its status and says when.
pub proof fn a_failed_run_is_told_to_everybody_it_names(
    job_run: JobRun,
    on_failure_emails: Vec<String>,
    status: JobRunStatus,
    now: Timestamp,
    ending: JobRunEnding,
)
    requires
        call_ensures(
            update_job_run_status,
            (&job_run, &on_failure_emails, status, now),
            ending,
        ),
    ensures
        ending.update.applied_to(job_run).status == status,
        ending.update.applied_to(job_run).finished_at == Some(now),
        ending.update.applied_to(job_run).started_at == job_run.started_at,
        ending.notification is Some <==> on_failure_emails@.len() > 0 && (status is Failed
            || status is TimedOut || status is Invalid),
        ending.notification is Some ==> ending.notification->0.recipients@ == on_failure_emails@
            && ending.notification->0.job_run_id == job_run.id,
{
}

} // verus!
