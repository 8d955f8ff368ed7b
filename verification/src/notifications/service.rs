//! Delivering the notifications that runs leave open.
use crate::models::{
    TaskRun, TaskRunAttempt, TaskRunAttemptOutputStream, TaskRunAttemptOutputStreams,
};
use crate::notifications::NotificationChannel;
use crate::orchestrator::job_run_monitor::worth_notifying;
use crate::orchestrator::task_run_attempt_monitor::{
    attempt_streams, stored_on, TaskRunAttemptOutputRow,
};
use crate::status::{JobRunStatus, TaskRunStatus};
use crate::text::{decimal_i64, join, joined, signed_decimal, texts};
use crate::time::Timestamp;
use vstd::prelude::*;
use vstd::string::*;

verus! {

/// Which ending a notification waits for.
#[derive(Clone, Copy, Debug, PartialEq, Eq, Structural)]
pub enum NotifyOn {
    Failure,
    Success,
}

impl NotifyOn {
    /// Whether an ending is the one that is waited for. A run somebody stopped or removed is
    /// neither.
    pub open spec fn waits_for(self, status: JobRunStatus) -> bool {
        match self {
            NotifyOn::Failure => worth_notifying(status),
            NotifyOn::Success => status is Succeeded,
        }
    }

    /// Tells whether an ending is the one that is waited for.
    pub fn wants(self, status: JobRunStatus) -> (b: bool)
        ensures
            b == self.waits_for(status),
    {
        match self {
            NotifyOn::Failure => matches!(
                status,
                JobRunStatus::Failed | JobRunStatus::TimedOut | JobRunStatus::Invalid
            ),
            NotifyOn::Success => matches!(status, JobRunStatus::Succeeded),
        }
    }

    /// The word for the ending that is waited for.
    pub open spec fn called(self) -> Seq<char> {
        match self {
            NotifyOn::Failure => "failure"@,
            NotifyOn::Success => "success"@,
        }
    }

    /// The word for the ending that is waited for.
    pub fn word(self) -> (text: &'static str)
        ensures
            text@ == self.called(),
    {
        match self {
            NotifyOn::Failure => "failure",
            NotifyOn::Success => "success",
        }
    }
}

/// Where a notification stands.
#[derive(Clone, Copy, Debug, PartialEq, Eq, Structural)]
pub enum JobRunNotificationStatus {
    Pending,
    Sent,
    Skipped,
    Failed,
}

/// Somebody to tell how a run ended, over one channel.
#[derive(Clone, Debug)]
pub struct JobRunNotification {
    pub id: i64,
    pub job_run_id: i64,
    pub notify_on: NotifyOn,
    pub channel: NotificationChannel,
    pub recipients: Vec<String>,
}

/// What becomes of an open notification on one pass.
#[derive(Clone, Copy, Debug, PartialEq, Eq, Structural)]
pub enum NotificationStep {
    /// Its run is still going: ask again on a later pass.
    Leave,
    /// Its run ended another way than the one it waits for: close it.
    Skip,
    /// Its run ended the way it waits for: deliver it, once.
    Deliver,
}

/// What becomes of an open notification, given where its run stands.
pub open spec fn notification_step(notify_on: NotifyOn, status: JobRunStatus) -> NotificationStep {
    if !status.finished() {
        NotificationStep::Leave
    } else if !notify_on.waits_for(status) {
        NotificationStep::Skip
    } else {
        NotificationStep::Deliver
    }
}

/// Decides what becomes of an open notification.
pub fn handle_open_notification(notify_on: NotifyOn, status: JobRunStatus) -> (step:
    NotificationStep)
    ensures
        step == notification_step(notify_on, status),
{
    if !status.is_finished() {
        return NotificationStep::Leave;
    }
    if !notify_on.wants(status) {
        return NotificationStep::Skip;
    }
    NotificationStep::Deliver
}

/// What to write to a notification's row; `None` leaves a column as it is.
#[derive(Clone, Debug)]
pub struct JobRunNotificationUpdate {
    pub status: JobRunNotificationStatus,
    pub error: Option<String>,
    pub sent_at: Option<Timestamp>,
}

/// Where a notification stands after a pass; `None` if the pass writes nothing. `landed` tells
/// whether a delivery did.
pub open spec fn written_status(step: NotificationStep, landed: bool) -> Option<
    JobRunNotificationStatus,
> {
    match step {
        NotificationStep::Leave => None,
        NotificationStep::Skip => Some(JobRunNotificationStatus::Skipped),
        NotificationStep::Deliver => Some(
            if landed {
                JobRunNotificationStatus::Sent
            } else {
                JobRunNotificationStatus::Failed
            },
        ),
    }
}

/// What closing a notification that nothing is to be said of writes.
pub fn record_skipped() -> (update: JobRunNotificationUpdate)
    ensures
        Some(update.status) == written_status(NotificationStep::Skip, false),
        update.error is None,
        update.sent_at is None,
{
    JobRunNotificationUpdate {
        status: JobRunNotificationStatus::Skipped,
        error: None,
        sent_at: None,
    }
}

/// What a delivery writes, whether it landed or not. One that did not is not tried again.
pub fn record_delivery(delivered: &Result<(), String>, now: Timestamp) -> (update:
    JobRunNotificationUpdate)
    ensures
        Some(update.status) == written_status(NotificationStep::Deliver, delivered is Ok),
        match delivered {
            Ok(_) => {
                &&& update.error is None
                &&& update.sent_at == Some(now)
            },
            Err(e) => {
                &&& update.error matches Some(error) && error@ == e@
                &&& update.sent_at is None
            },
        },
{
    match delivered {
        Ok(_) => JobRunNotificationUpdate {
            status: JobRunNotificationStatus::Sent,
            error: None,
            sent_at: Some(now),
        },
        Err(e) => JobRunNotificationUpdate {
            status: JobRunNotificationStatus::Failed,
            error: Some(e.as_str().to_owned()),
            sent_at: None,
        },
    }
}

/// How a delivery that did not land is reported.
pub open spec fn delivery_failure(job_run_id: i64, notification: JobRunNotification) -> Seq<char> {
    "Failed to deliver job run "@ + signed_decimal(job_run_id as int) + " on "@
        + notification.notify_on.called() + " by "@ + notification.channel.called() + " to "@
        + joined(texts(notification.recipients@), ", "@)
}

/// Reports a delivery that did not land.
pub fn describe_delivery_failure(job_run_id: i64, notification: &JobRunNotification) -> (s: String)
    ensures
        s@ == delivery_failure(job_run_id, *notification),
{
    let mut s = "Failed to deliver job run ".to_owned();
    s.append(decimal_i64(job_run_id).as_str());
    s.append(" on ");
    s.append(notification.notify_on.word());
    s.append(" by ");
    s.append(notification.channel.word());
    s.append(" to ");
    s.append(join(&notification.recipients, ", ").as_str());
    s
}

/// Whether a task run broke on its own account, and so has output worth quoting. One that was
/// skipped says only that something above it broke.
pub open spec fn broke(status: TaskRunStatus) -> bool {
    status is Failed || status is TimedOut
}

/// Picks the task runs whose output a message quotes, in order.
fn failed_task_runs(task_runs: &Vec<TaskRun>) -> (indices: Vec<usize>)
    ensures
        forall|k: int|
            0 <= k < indices@.len() ==> (#[trigger] indices@[k]) < task_runs@.len() && broke(
                task_runs@[indices@[k] as int].status,
            ),
        forall|i: int|
            0 <= i < task_runs@.len() && broke((#[trigger] task_runs@[i]).status)
                ==> indices@.contains(i as usize),
        forall|k: int, m: int| 0 <= k < m < indices@.len() ==> indices@[k] < indices@[m],
{
    let mut indices: Vec<usize> = Vec::new();
    let mut i: usize = 0;
    while i < task_runs.len()
        invariant
            i <= task_runs@.len(),
            forall|k: int|
                0 <= k < indices@.len() ==> (#[trigger] indices@[k]) < i && broke(
                    task_runs@[indices@[k] as int].status,
                ),
            forall|j: int|
                0 <= j < i && broke((#[trigger] task_runs@[j]).status) ==> indices@.contains(
                    j as usize,
                ),
            forall|k: int, m: int| 0 <= k < m < indices@.len() ==> indices@[k] < indices@[m],
        decreases task_runs.len() - i,
    {
        let ghost before = indices@;
        if matches!(task_runs[i].status, TaskRunStatus::Failed | TaskRunStatus::TimedOut) {
            indices.push(i);
            proof {
                assert(indices@[before.len() as int] == i);
                assert forall|j: int|
                    0 <= j < i + 1 && broke(
                        (#[trigger] task_runs@[j]).status,
                    ) implies indices@.contains(j as usize) by {
                    if j < i {
                        assert(before.contains(j as usize));
                        let k = choose|k: int| 0 <= k < before.len() && before[k] == j as usize;
                        assert(indices@[k] == j as usize);
                    }
                }
            }
        }
        i = i + 1;
    }
    indices
}

/// The place of the last attempt at a task run, of attempts in order.
pub open spec fn last_attempt_at(attempts: Seq<TaskRunAttempt>, task_run_id: i64) -> Option<int>
    decreases attempts.len(),
{
    if attempts.len() == 0 {
        None
    } else if attempts.last().task_run_id == task_run_id {
        Some(attempts.len() - 1)
    } else {
        last_attempt_at(attempts.drop_last(), task_run_id)
    }
}

/// Finds the last attempt at a task run.
fn last_attempt(attempts: &Vec<TaskRunAttempt>, task_run_id: i64) -> (at: Option<usize>)
    ensures
        match at {
            Some(at) => at < attempts@.len() && last_attempt_at(attempts@, task_run_id) == Some(
                at as int,
            ),
            None => last_attempt_at(attempts@, task_run_id) is None,
        },
{
    let mut i: usize = attempts.len();
    assert(attempts@.take(i as int) =~= attempts@);
    while i > 0
        invariant
            i <= attempts@.len(),
            last_attempt_at(attempts@, task_run_id) == last_attempt_at(
                attempts@.take(i as int),
                task_run_id,
            ),
        decreases i,
    {
        assert(attempts@.take(i as int).drop_last() =~= attempts@.take(i - 1));
        i = i - 1;
        if attempts[i].task_run_id == task_run_id {
            return Some(i);
        }
    }
    None
}

/// A task run that broke, by place, with the attempt that decided it, by place, and what that
/// attempt wrote.
#[derive(Debug)]
pub struct Failure {
    pub task_run: usize,
    pub attempt: Option<usize>,
    pub streams: TaskRunAttemptOutputStreams,
}

/// Whether a failure is the one of a task run: its last attempt, and everything stored of
/// that. One that was never attempted wrote nothing.
pub open spec fn failure_of(
    failure: Failure,
    task_run: TaskRun,
    attempts: Seq<TaskRunAttempt>,
    rows: Seq<TaskRunAttemptOutputRow>,
) -> bool {
    match (failure.attempt, last_attempt_at(attempts, task_run.id)) {
        (Some(at), Some(last)) => {
            &&& at == last
            &&& failure.streams.stdout@ == stored_on(
                rows,
                attempts[last].id,
                TaskRunAttemptOutputStream::Stdout,
            )
            &&& failure.streams.stderr@ == stored_on(
                rows,
                attempts[last].id,
                TaskRunAttemptOutputStream::Stderr,
            )
        },
        (None, None) => failure.streams.stdout@.len() == 0 && failure.streams.stderr@.len() == 0,
        _ => false,
    }
}

/// Gathers what a message quotes of a run: the task runs that broke, in order, each with the
/// output of its last attempt.
pub fn get_failures(
    task_runs: &Vec<TaskRun>,
    attempts: &Vec<TaskRunAttempt>,
    rows: &Vec<TaskRunAttemptOutputRow>,
) -> (failures: Vec<Failure>)
    ensures
        forall|k: int|
            0 <= k < failures@.len() ==> {
                let failure = #[trigger] failures@[k];
                &&& failure.task_run < task_runs@.len()
                &&& broke(task_runs@[failure.task_run as int].status)
                &&& failure_of(failure, task_runs@[failure.task_run as int], attempts@, rows@)
            },
        forall|i: int|
            0 <= i < task_runs@.len() && broke((#[trigger] task_runs@[i]).status) ==> exists|k: int|
                0 <= k < failures@.len() && (#[trigger] failures@[k]).task_run == i,
        forall|k: int, m: int|
            0 <= k < m < failures@.len() ==> failures@[k].task_run < failures@[m].task_run,
{
    let indices = failed_task_runs(task_runs);
    let mut failures: Vec<Failure> = Vec::new();
    let mut k: usize = 0;
    while k < indices.len()
        invariant
            k == failures@.len() <= indices@.len(),
            forall|j: int|
                0 <= j < indices@.len() ==> (#[trigger] indices@[j]) < task_runs@.len() && broke(
                    task_runs@[indices@[j] as int].status,
                ),
            forall|j: int|
                0 <= j < k ==> {
                    let failure = #[trigger] failures@[j];
                    &&& failure.task_run == indices@[j]
                    &&& failure_of(failure, task_runs@[failure.task_run as int], attempts@, rows@)
                },
        decreases indices.len() - k,
    {
        let task_run: usize = indices[k];
        let attempt = last_attempt(attempts, task_runs[task_run].id);
        let streams = match attempt {
            Some(at) => attempt_streams(rows, attempts[at].id),
            None => TaskRunAttemptOutputStreams { stdout: String::new(), stderr: String::new() },
        };
        failures.push(Failure { task_run, attempt, streams });
        k = k + 1;
    }
    assert forall|i: int|
        0 <= i < task_runs@.len() && broke((#[trigger] task_runs@[i]).status) implies exists|k: int|
        0 <= k < failures@.len() && (#[trigger] failures@[k]).task_run == i by {
        assert(task_runs.len() == task_runs@.len());
        assert(indices@.contains(i as usize));
        let k = choose|k: int| 0 <= k < indices@.len() && indices@[k] == i as usize;
        assert(failures@[k].task_run == i);
    }
    failures
}

/// A notification is delivered once: the pass that finds its run over leaves it closed,
/// whether a delivery landed or not, and only an open one is looked at again.
pub proof fn a_notification_is_settled_once(
    notify_on: NotifyOn,
    status: JobRunStatus,
    landed: bool,
)
    requires
        status.finished(),
    ensures
        written_status(notification_step(notify_on, status), landed) matches Some(written)
            && !(written is Pending),
{
}

/// One ending settles the notifications of a run that asked to be told either way in
/// opposite directions, unless it is one that neither waits for, where both are closed.
pub proof fn one_ending_settles_both_notifications(status: JobRunStatus)
    requires
        status.finished(),
    ensures
        ({
            let failure = notification_step(NotifyOn::Failure, status);
            let success = notification_step(NotifyOn::Success, status);
            &&& !(failure is Leave) && !(success is Leave)
            &&& !(failure is Deliver && success is Deliver)
            &&& failure is Skip && success is Skip <==> (status is Skipped || status is Aborted
                || status is Deleted)
        }),
{
}

/// Nothing is said of a run while it is going.
pub proof fn a_running_run_is_not_news(notify_on: NotifyOn, status: JobRunStatus)
    requires
        !status.finished(),
    ensures
        notification_step(notify_on, status) is Leave,
{
}

/// A notification is delivered exactly when its run ended the way it waits for: one on
/// failure where the run failed, ran out of time or cannot be accounted for, one on success
/// where it succeeded. It is left open exactly while the run is going.
pub proof fn a_notification_is_delivered_exactly_on_its_ending(
    notify_on: NotifyOn,
    status: JobRunStatus,
)
    ensures
        notification_step(notify_on, status) is Deliver <==> {
            ||| notify_on is Failure && (status is Failed || status is TimedOut
                || status is Invalid)
            ||| notify_on is Success && status is Succeeded
        },
        notification_step(notify_on, status) is Leave <==> (status is Scheduled
            || status is Queued || status is Running),
{
}

/// What a pass writes says what came of it: sent exactly where a delivery landed, failed
/// exactly where one did not, skipped exactly where none was to be made.
pub proof fn what_is_written_says_what_came_of_it(step: NotificationStep, landed: bool)
    ensures
        written_status(step, landed) == Some(JobRunNotificationStatus::Sent) <==> step is Deliver
            && landed,
        written_status(step, landed) == Some(JobRunNotificationStatus::Failed) <==> step is Deliver
            && !landed,
        written_status(step, landed) == Some(JobRunNotificationStatus::Skipped) <==> step is Skip,
        written_status(step, landed) is None <==> step is Leave,
{
}

/// A task run is quoted by its last attempt: the one behind which none is of that task run;
/// there is none exactly when it was never attempted.
pub proof fn the_last_attempt_is_the_one_quoted(
    attempts: Seq<TaskRunAttempt>,
    task_run_id: i64,
    at: int,
)
    ensures
        last_attempt_at(attempts, task_run_id) == Some(at) <==> {
            &&& 0 <= at < attempts.len()
            &&& attempts[at].task_run_id == task_run_id
            &&& forall|j: int|
                at < j < attempts.len() ==> (#[trigger] attempts[j]).task_run_id != task_run_id
        },
        last_attempt_at(attempts, task_run_id) is None <==> forall|j: int|
            0 <= j < attempts.len() ==> (#[trigger] attempts[j]).task_run_id != task_run_id,
    decreases attempts.len(),
{
    if attempts.len() > 0 {
        let before = attempts.drop_last();
        the_last_attempt_is_the_one_quoted(before, task_run_id, at);
        assert forall|j: int| 0 <= j < before.len() implies #[trigger] before[j] == attempts[j] by {}
        assert(attempts.last() == attempts[attempts.len() - 1]);
        if attempts.last().task_run_id != task_run_id {
            assert forall|j: int| 0 <= j < before.len() implies #[trigger] attempts[j]
                == before[j] by {}
        }
    }
}

/// Exactly a task run that failed or ran out of time is quoted: not one that succeeded, was
/// stopped, never ran, or cannot be accounted for.
pub proof fn only_what_broke_is_quoted(status: TaskRunStatus)
    ensures
        broke(status) <==> status.finished() && !(status is Succeeded || status is Skipped
            || status is Aborted || status is Invalid),
{
}

/// A delivery is recorded as it came out: sent, with when, where it landed, and failed, with
/// why, where it did not; one that was never made is recorded as skipped.
pub proof fn a_delivery_reads_back(
    delivered: Result<(), String>,
    now: Timestamp,
    update: JobRunNotificationUpdate,
    skipped: JobRunNotificationUpdate,
)
    requires
        call_ensures(record_delivery, (&delivered, now), update),
        call_ensures(record_skipped, (), skipped),
    ensures
        delivered is Ok ==> update.status is Sent && update.sent_at == Some(now)
            && update.error is None,
        delivered is Err ==> update.status is Failed && update.sent_at is None
            && update.error is Some && update.error->0@ == delivered->Err_0@,
        skipped.status is Skipped && skipped.sent_at is None && skipped.error is None,
{
}

/// What a message quotes is every task run that failed or ran out of time, once and in order,
/// each with what is stored of its last attempt.
pub proof fn every_failure_is_quoted_in_order(
    task_runs: Vec<TaskRun>,
    attempts: Vec<TaskRunAttempt>,
    rows: Vec<TaskRunAttemptOutputRow>,
    failures: Vec<Failure>,
    i: int,
    at: int,
)
    requires
        call_ensures(get_failures, (&task_runs, &attempts, &rows), failures),
        0 <= i < task_runs@.len(),
        task_runs@[i].status is Failed || task_runs@[i].status is TimedOut,
        0 <= at < attempts@.len(),
        attempts@[at].task_run_id == task_runs@[i].id,
        forall|j: int|
            at < j < attempts@.len() ==> (#[trigger] attempts@[j]).task_run_id
                != task_runs@[i].id,
    ensures
        exists|k: int|
            #![trigger failures@[k]]
            0 <= k < failures@.len() && failures@[k].task_run == i && failures@[k].attempt == Some(
                at as usize,
            ) && failures@[k].streams.stdout@ == stored_on(
                rows@,
                attempts@[at].id,
                TaskRunAttemptOutputStream::Stdout,
            ) && failures@[k].streams.stderr@ == stored_on(
                rows@,
                attempts@[at].id,
                TaskRunAttemptOutputStream::Stderr,
            ),
        forall|a: int, b: int|
            0 <= a < b < failures@.len() ==> (#[trigger] failures@[a]).task_run < (
            #[trigger] failures@[b]).task_run,
{
    the_last_attempt_is_the_one_quoted(attempts@, task_runs@[i].id, at);
    assert(broke(task_runs@[i].status));
    let k = choose|k: int| 0 <= k < failures@.len() && (#[trigger] failures@[k]).task_run == i;
    assert(failure_of(failures@[k], task_runs@[i], attempts@, rows@));
}

/// A task run that broke without ever being attempted is quoted with no attempt and no output.
pub proof fn an_unattempted_failure_quotes_nothing(
    task_runs: Vec<TaskRun>,
    attempts: Vec<TaskRunAttempt>,
    rows: Vec<TaskRunAttemptOutputRow>,
    failures: Vec<Failure>,
    k: int,
)
    requires
        call_ensures(get_failures, (&task_runs, &attempts, &rows), failures),
        0 <= k < failures@.len(),
        forall|j: int|
            0 <= j < attempts@.len() ==> (#[trigger] attempts@[j]).task_run_id
                != task_runs@[failures@[k].task_run as int].id,
    ensures
        failures@[k].attempt is None,
        failures@[k].streams.stdout@.len() == 0,
        failures@[k].streams.stderr@.len() == 0,
{
    let task_run = task_runs@[failures@[k].task_run as int];
    the_last_attempt_is_the_one_quoted(attempts@, task_run.id, 0);
    assert(failure_of(failures@[k], task_run, attempts@, rows@));
}

} // verus!
