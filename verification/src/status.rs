//! The statuses a job run, a task run and an attempt pass through.
use crate::text::same;
use vstd::prelude::*;

verus! {

/// Where a job run stands.
#[derive(Clone, Copy, Debug, PartialEq, Eq, Structural)]
pub enum JobRunStatus {
    /// Written, and waiting for its instant.
    Scheduled,
    /// Due, and waiting for a slot.
    Queued,
    Running,
    Succeeded,
    Failed,
    Skipped,
    Aborted,
    TimedOut,
    Invalid,
    /// Removed before it was due, which frees the occurrence it held.
    Deleted,
}

/// Where a task run stands.
#[derive(Clone, Copy, Debug, PartialEq, Eq, Structural)]
pub enum TaskRunStatus {
    /// Its job run has yet to start.
    Planned,
    /// Its job run is running, and a dependency may not be done.
    Waiting,
    Running,
    Succeeded,
    Failed,
    Skipped,
    Aborted,
    TimedOut,
    Invalid,
}

/// Where one attempt of a task run stands.
#[derive(Clone, Copy, Debug, PartialEq, Eq, Structural)]
pub enum TaskRunAttemptStatus {
    Queued,
    Running,
    Succeeded,
    Failed,
    Skipped,
    Aborted,
    TimedOut,
    Invalid,
}

impl JobRunStatus {
    /// Every status, in the order a run may pass through them.
    pub const ALL: [JobRunStatus; 10] = [
        JobRunStatus::Scheduled,
        JobRunStatus::Queued,
        JobRunStatus::Running,
        JobRunStatus::Succeeded,
        JobRunStatus::Failed,
        JobRunStatus::Skipped,
        JobRunStatus::Aborted,
        JobRunStatus::TimedOut,
        JobRunStatus::Invalid,
        JobRunStatus::Deleted,
    ];
}

impl JobRunStatus {
    /// A finished run never changes again.
    pub open spec fn finished(self) -> bool {
        !(self is Scheduled || self is Queued || self is Running)
    }

    /// Tells whether the run is over, however it ended.
    pub fn is_finished(self) -> (b: bool)
        ensures
            b == self.finished(),
    {
        !matches!(self, JobRunStatus::Scheduled | JobRunStatus::Queued | JobRunStatus::Running)
    }

    /// Every run but a deleted one may be offered again; the schedule of a deleted one
    /// writes the occurrence back on its own.
    pub open spec fn rerunnable(self) -> bool {
        !(self is Deleted)
    }

    /// Tells whether a run in this status may be run again.
    pub fn is_rerunnable(self) -> (b: bool)
        ensures
            b == self.rerunnable(),
    {
        !matches!(self, JobRunStatus::Deleted)
    }

    /// What a page or a message calls the status.
    pub open spec fn called(self) -> Seq<char> {
        match self {
            JobRunStatus::Scheduled => "submitted"@,
            JobRunStatus::Queued => "queued"@,
            JobRunStatus::Running => "running"@,
            JobRunStatus::Succeeded => "succeeded"@,
            JobRunStatus::Failed => "failed"@,
            JobRunStatus::Skipped => "skipped"@,
            JobRunStatus::Aborted => "aborted"@,
            JobRunStatus::TimedOut => "timed out"@,
            JobRunStatus::Invalid => "invalid"@,
            JobRunStatus::Deleted => "deleted"@,
        }
    }

    /// What a page or a message calls the status.
    pub fn word(self) -> (text: &'static str)
        ensures
            text@ == self.called(),
    {
        match self {
            JobRunStatus::Scheduled => "submitted",
            JobRunStatus::Queued => "queued",
            JobRunStatus::Running => "running",
            JobRunStatus::Succeeded => "succeeded",
            JobRunStatus::Failed => "failed",
            JobRunStatus::Skipped => "skipped",
            JobRunStatus::Aborted => "aborted",
            JobRunStatus::TimedOut => "timed out",
            JobRunStatus::Invalid => "invalid",
            JobRunStatus::Deleted => "deleted",
        }
    }

    /// The one word a query or a command names the status by.
    pub open spec fn key(self) -> Seq<char> {
        match self {
            JobRunStatus::Scheduled => "submitted"@,
            JobRunStatus::Queued => "queued"@,
            JobRunStatus::Running => "running"@,
            JobRunStatus::Succeeded => "succeeded"@,
            JobRunStatus::Failed => "failed"@,
            JobRunStatus::Skipped => "skipped"@,
            JobRunStatus::Aborted => "aborted"@,
            JobRunStatus::TimedOut => "timedout"@,
            JobRunStatus::Invalid => "invalid"@,
            JobRunStatus::Deleted => "deleted"@,
        }
    }

    /// The one word a query or a command names the status by.
    pub fn as_str(self) -> (text: &'static str)
        ensures
            text@ == self.key(),
    {
        match self {
            JobRunStatus::Scheduled => "submitted",
            JobRunStatus::Queued => "queued",
            JobRunStatus::Running => "running",
            JobRunStatus::Succeeded => "succeeded",
            JobRunStatus::Failed => "failed",
            JobRunStatus::Skipped => "skipped",
            JobRunStatus::Aborted => "aborted",
            JobRunStatus::TimedOut => "timedout",
            JobRunStatus::Invalid => "invalid",
            JobRunStatus::Deleted => "deleted",
        }
    }

    /// The status a query or a command names, if any has that name.
    pub fn parse(name: &str) -> (r: Option<JobRunStatus>)
        ensures
            r matches Some(status) ==> status.key() == name@,
            r is None ==> forall|status: JobRunStatus| #[trigger] status.key() != name@,
    {
        if same(name, "submitted") {
            return Some(JobRunStatus::Scheduled);
        }
        if same(name, "queued") {
            return Some(JobRunStatus::Queued);
        }
        if same(name, "running") {
            return Some(JobRunStatus::Running);
        }
        if same(name, "succeeded") {
            return Some(JobRunStatus::Succeeded);
        }
        if same(name, "failed") {
            return Some(JobRunStatus::Failed);
        }
        if same(name, "skipped") {
            return Some(JobRunStatus::Skipped);
        }
        if same(name, "aborted") {
            return Some(JobRunStatus::Aborted);
        }
        if same(name, "timedout") {
            return Some(JobRunStatus::TimedOut);
        }
        if same(name, "invalid") {
            return Some(JobRunStatus::Invalid);
        }
        if same(name, "deleted") {
            return Some(JobRunStatus::Deleted);
        }
        None
    }
}

impl TaskRunStatus {
    /// A finished task run never changes again.
    pub open spec fn finished(self) -> bool {
        !(self is Planned || self is Waiting || self is Running)
    }

    /// Tells whether the task run is over, however it ended.
    pub fn is_finished(self) -> (b: bool)
        ensures
            b == self.finished(),
    {
        !matches!(self, TaskRunStatus::Planned | TaskRunStatus::Waiting | TaskRunStatus::Running)
    }

    /// What a stop leaves behind: a task run killed mid-flight, or one skipped before it
    /// could start.
    pub open spec fn stopped(self) -> bool {
        self is Aborted || self is Skipped
    }

    /// Tells whether the task run ended the way a stop ends one.
    pub fn is_stopped(self) -> (b: bool)
        ensures
            b == self.stopped(),
    {
        matches!(self, TaskRunStatus::Aborted | TaskRunStatus::Skipped)
    }

    /// What a page or a message calls the status.
    pub open spec fn called(self) -> Seq<char> {
        match self {
            TaskRunStatus::Planned => "planned"@,
            TaskRunStatus::Waiting => "waiting"@,
            TaskRunStatus::Running => "running"@,
            TaskRunStatus::Succeeded => "succeeded"@,
            TaskRunStatus::Failed => "failed"@,
            TaskRunStatus::Skipped => "skipped"@,
            TaskRunStatus::Aborted => "aborted"@,
            TaskRunStatus::TimedOut => "timed out"@,
            TaskRunStatus::Invalid => "invalid"@,
        }
    }

    /// What a page or a message calls the status.
    pub fn word(self) -> (text: &'static str)
        ensures
            text@ == self.called(),
    {
        match self {
            TaskRunStatus::Planned => "planned",
            TaskRunStatus::Waiting => "waiting",
            TaskRunStatus::Running => "running",
            TaskRunStatus::Succeeded => "succeeded",
            TaskRunStatus::Failed => "failed",
            TaskRunStatus::Skipped => "skipped",
            TaskRunStatus::Aborted => "aborted",
            TaskRunStatus::TimedOut => "timed out",
            TaskRunStatus::Invalid => "invalid",
        }
    }
}

impl TaskRunAttemptStatus {
    /// A finished attempt never changes again.
    pub open spec fn finished(self) -> bool {
        !(self is Queued || self is Running)
    }

    /// Tells whether the attempt is over, however it ended.
    pub fn is_finished(self) -> (b: bool)
        ensures
            b == self.finished(),
    {
        !matches!(self, TaskRunAttemptStatus::Queued | TaskRunAttemptStatus::Running)
    }

    /// What a stop leaves behind: an attempt killed mid-flight, or one skipped before its
    /// command started.
    pub open spec fn stopped(self) -> bool {
        self is Aborted || self is Skipped
    }

    /// Tells whether the attempt ended the way a stop ends one.
    pub fn is_stopped(self) -> (b: bool)
        ensures
            b == self.stopped(),
    {
        matches!(self, TaskRunAttemptStatus::Aborted | TaskRunAttemptStatus::Skipped)
    }

    /// What a page calls the status.
    pub open spec fn called(self) -> Seq<char> {
        match self {
            TaskRunAttemptStatus::Queued => "queued"@,
            TaskRunAttemptStatus::Running => "running"@,
            TaskRunAttemptStatus::Succeeded => "succeeded"@,
            TaskRunAttemptStatus::Failed => "failed"@,
            TaskRunAttemptStatus::Skipped => "skipped"@,
            TaskRunAttemptStatus::Aborted => "aborted"@,
            TaskRunAttemptStatus::TimedOut => "timed out"@,
            TaskRunAttemptStatus::Invalid => "invalid"@,
        }
    }

    /// What a page calls the status.
    pub fn word(self) -> (text: &'static str)
        ensures
            text@ == self.called(),
    {
        match self {
            TaskRunAttemptStatus::Queued => "queued",
            TaskRunAttemptStatus::Running => "running",
            TaskRunAttemptStatus::Succeeded => "succeeded",
            TaskRunAttemptStatus::Failed => "failed",
            TaskRunAttemptStatus::Skipped => "skipped",
            TaskRunAttemptStatus::Aborted => "aborted",
            TaskRunAttemptStatus::TimedOut => "timed out",
            TaskRunAttemptStatus::Invalid => "invalid",
        }
    }
}

/// No two job run statuses share a name, so a status written into a query is the one read
/// back out of it.
pub proof fn keys_are_distinct(a: JobRunStatus, b: JobRunStatus)
    requires
        a.key() == b.key(),
    ensures
        a == b,
{
    reveal_strlit("submitted");
    reveal_strlit("queued");
    reveal_strlit("running");
    reveal_strlit("succeeded");
    reveal_strlit("failed");
    reveal_strlit("skipped");
    reveal_strlit("aborted");
    reveal_strlit("timedout");
    reveal_strlit("invalid");
    reveal_strlit("deleted");
    assert("submitted"@[0] == 's' && "submitted"@[2] == 'b');
    assert("queued"@[0] == 'q' && "queued"@[2] == 'e');
    assert("running"@[0] == 'r' && "running"@[2] == 'n');
    assert("succeeded"@[0] == 's' && "succeeded"@[2] == 'c');
    assert("failed"@[0] == 'f' && "failed"@[2] == 'i');
    assert("skipped"@[0] == 's' && "skipped"@[2] == 'i');
    assert("aborted"@[0] == 'a' && "aborted"@[2] == 'o');
    assert("timedout"@[0] == 't' && "timedout"@[2] == 'm');
    assert("invalid"@[0] == 'i' && "invalid"@[2] == 'v');
    assert("deleted"@[0] == 'd' && "deleted"@[2] == 'l');
    assert(a.key()[0] == b.key()[0] && a.key()[2] == b.key()[2]);
}

/// A job run is over in every status but the three it passes through on its way there.
pub proof fn a_job_run_is_over_in_every_ending(status: JobRunStatus)
    ensures
        status.finished() <==> (status is Succeeded || status is Failed || status is Skipped
            || status is Aborted || status is TimedOut || status is Invalid || status is Deleted),
        status.rerunnable() <==> (!status.finished() || status is Succeeded || status is Failed
            || status is Skipped || status is Aborted || status is TimedOut || status is Invalid),
{
}

/// A task run is over in every status but the three it passes through on its way there; only
/// one that was aborted or skipped reads as stopped.
pub proof fn a_task_run_is_over_in_every_ending(status: TaskRunStatus)
    ensures
        status.finished() <==> (status is Succeeded || status is Failed || status is Skipped
            || status is Aborted || status is TimedOut || status is Invalid),
        status.stopped() <==> status.finished() && !(status is Succeeded || status is Failed
            || status is TimedOut || status is Invalid),
{
}

/// An attempt is over in every status but the two it passes through on its way there; only
/// one that was aborted or skipped reads as stopped.
pub proof fn an_attempt_is_over_in_every_ending(status: TaskRunAttemptStatus)
    ensures
        status.finished() <==> (status is Succeeded || status is Failed || status is Skipped
            || status is Aborted || status is TimedOut || status is Invalid),
        status.stopped() <==> status.finished() && !(status is Succeeded || status is Failed
            || status is TimedOut || status is Invalid),
{
}

} // verus!
