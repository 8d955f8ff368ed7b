//! The background services, and what their log lines call them and their rows.
use crate::models::{JobRun, TaskRun, TaskRunAttempt};
use crate::notifications::service::JobRunNotification;
use crate::poller::Service;
use crate::router::schedules::Schedule;
use crate::text::{decimal_i64, signed_decimal};
use vstd::prelude::*;
use vstd::string::*;

verus! {

fn numbered(noun: &str, id: i64) -> (s: String)
    ensures
        s@ == noun@ + signed_decimal(id as int),
{
    let mut s = noun.to_owned();
    s.append(decimal_i64(id).as_str());
    s
}

/// What a log line calls an attempt.
pub open spec fn attempt_context(attempt: TaskRunAttempt) -> Seq<char> {
    "task run attempt "@ + signed_decimal(attempt.id as int) + " of task run "@ + signed_decimal(
        attempt.task_run_id as int,
    )
}

fn describe_attempt(attempt: &TaskRunAttempt) -> (s: String)
    ensures
        s@ == attempt_context(*attempt),
{
    let mut s = numbered("task run attempt ", attempt.id);
    s.append(" of task run ");
    s.append(decimal_i64(attempt.task_run_id).as_str());
    s
}

/// Lets submitted runs go when their time comes.
#[derive(Clone, Copy, Debug)]
pub struct JobRunReleaser {}

impl Service for JobRunReleaser {
    type Row = JobRun;

    fn name(&self) -> (name: &'static str)
        ensures
            name@ == "Job Run Releaser"@,
    {
        "Job Run Releaser"
    }

    fn row_context(&self, job_run: &JobRun) -> (s: String)
        ensures
            s@ == "job run "@ + signed_decimal(job_run.id as int),
    {
        numbered("job run ", job_run.id)
    }
}

/// Starts queued runs.
#[derive(Clone, Copy, Debug)]
pub struct JobRunDispatcher {}

impl Service for JobRunDispatcher {
    type Row = JobRun;

    fn name(&self) -> (name: &'static str)
        ensures
            name@ == "Job Run Dispatcher"@,
    {
        "Job Run Dispatcher"
    }

    fn row_context(&self, job_run: &JobRun) -> (s: String)
        ensures
            s@ == "job run "@ + signed_decimal(job_run.id as int),
    {
        numbered("job run ", job_run.id)
    }
}

/// Ends runs whose task runs are over.
#[derive(Clone, Copy, Debug)]
pub struct JobRunMonitor {}

impl Service for JobRunMonitor {
    type Row = JobRun;

    fn name(&self) -> (name: &'static str)
        ensures
            name@ == "Job Run Monitor"@,
    {
        "Job Run Monitor"
    }

    fn row_context(&self, job_run: &JobRun) -> (s: String)
        ensures
            s@ == "job run "@ + signed_decimal(job_run.id as int),
    {
        numbered("job run ", job_run.id)
    }
}

/// Starts task runs whose dependencies are over.
#[derive(Clone, Copy, Debug)]
pub struct TaskRunDispatcher {}

impl Service for TaskRunDispatcher {
    type Row = TaskRun;

    fn name(&self) -> (name: &'static str)
        ensures
            name@ == "Task Run Dispatcher"@,
    {
        "Task Run Dispatcher"
    }

    fn row_context(&self, task_run: &TaskRun) -> (s: String)
        ensures
            s@ == "task run "@ + signed_decimal(task_run.id as int),
    {
        numbered("task run ", task_run.id)
    }
}

/// Tries task runs, and ends them by their last attempt.
#[derive(Clone, Copy, Debug)]
pub struct TaskRunMonitor {}

impl Service for TaskRunMonitor {
    type Row = TaskRun;

    fn name(&self) -> (name: &'static str)
        ensures
            name@ == "Task Run Monitor"@,
    {
        "Task Run Monitor"
    }

    fn row_context(&self, task_run: &TaskRun) -> (s: String)
        ensures
            s@ == "task run "@ + signed_decimal(task_run.id as int),
    {
        numbered("task run ", task_run.id)
    }
}

/// Starts queued attempts.
#[derive(Clone, Copy, Debug)]
pub struct TaskRunAttemptDispatcher {}

impl Service for TaskRunAttemptDispatcher {
    type Row = TaskRunAttempt;

    fn name(&self) -> (name: &'static str)
        ensures
            name@ == "Task Run Attempt Dispatcher"@,
    {
        "Task Run Attempt Dispatcher"
    }

    fn row_context(&self, attempt: &TaskRunAttempt) -> (s: String)
        ensures
            s@ == attempt_context(*attempt),
    {
        describe_attempt(attempt)
    }
}

/// Watches the commands of running attempts.
#[derive(Clone, Copy, Debug)]
pub struct TaskRunAttemptMonitor {}

impl Service for TaskRunAttemptMonitor {
    type Row = TaskRunAttempt;

    fn name(&self) -> (name: &'static str)
        ensures
            name@ == "Task Run Attempt Monitor"@,
    {
        "Task Run Attempt Monitor"
    }

    fn row_context(&self, attempt: &TaskRunAttempt) -> (s: String)
        ensures
            s@ == attempt_context(*attempt),
    {
        describe_attempt(attempt)
    }
}

/// Keeps the next occurrences of schedules submitted.
#[derive(Clone, Copy, Debug)]
pub struct Scheduler {}

impl Service for Scheduler {
    type Row = Schedule;

    fn name(&self) -> (name: &'static str)
        ensures
            name@ == "Scheduler"@,
    {
        "Scheduler"
    }

    fn row_context(&self, schedule: &Schedule) -> (s: String)
        ensures
            s@ == "schedule "@ + schedule.schedule_id@,
    {
        let mut s = "schedule ".to_owned();
        s.append(schedule.schedule_id.as_str());
        s
    }
}

/// Tells people how runs ended.
#[derive(Clone, Copy, Debug)]
pub struct NotificationService {}

impl Service for NotificationService {
    type Row = JobRunNotification;

    fn name(&self) -> (name: &'static str)
        ensures
            name@ == "Notification Service"@,
    {
        "Notification Service"
    }

    fn row_context(&self, notification: &JobRunNotification) -> (s: String)
        ensures
            s@ == "job run notification "@ + signed_decimal(notification.id as int)
                + " of job run "@ + signed_decimal(notification.job_run_id as int) + ", on "@
                + notification.notify_on.called() + " by "@ + notification.channel.called(),
    {
        let mut s = numbered("job run notification ", notification.id);
        s.append(" of job run ");
        s.append(decimal_i64(notification.job_run_id).as_str());
        s.append(", on ");
        s.append(notification.notify_on.word());
        s.append(" by ");
        s.append(notification.channel.word());
        s
    }
}

/// Deletes runs that nothing needs any more.
#[derive(Clone, Copy, Debug)]
pub struct RetentionService {}

impl Service for RetentionService {
    type Row = i64;

    fn name(&self) -> (name: &'static str)
        ensures
            name@ == "retention"@,
    {
        "retention"
    }

    fn row_context(&self, id: &i64) -> (s: String)
        ensures
            s@ == "job run "@ + signed_decimal(*id as int),
    {
        numbered("job run ", *id)
    }
}

} // verus!
