//! Releasing a job run to be started once its time has come.
use crate::models::{JobRun, JobRunUpdate};
use crate::orchestrator::job_run_dispatcher::queued_outcome;
use crate::status::JobRunStatus;
use crate::time::Timestamp;
use vstd::prelude::*;

verus! {

/// Whether a scheduled run is to be queued: its instant has arrived, or it was stopped.
pub open spec fn to_release(scheduled_at: int, now: int, stopped: bool) -> bool {
    scheduled_at <= now || stopped
}

/// Queues a submitted run whose instant has arrived. One that was stopped is queued at once:
/// a stop must not wait for a run's time, and starting is where it takes effect.
pub fn handle_submitted_job_run(
    job_run: &JobRun,
    now: &Timestamp,
    stopped: bool,
) -> (update: Option<JobRunUpdate>)
    ensures
        update is Some <==> to_release(job_run.due_at()@, now@, stopped),
        update is Some ==> forall|job_run: JobRun| #[trigger]
            update->0.applied_to(job_run) == (JobRun { status: JobRunStatus::Queued, ..job_run }),
{
    let due = !now.is_before(&job_run.due());
    if !due && !stopped {
        return None;
    }
    Some(
        JobRunUpdate { status: Some(JobRunStatus::Queued), started_at: None, finished_at: None },
    )
}

/// A run stopped before its time is released at once and then skipped: it never starts.
pub proof fn a_stopped_run_never_starts(scheduled_at: int, now: int, at_max_parallel_runs: bool)
    ensures
        to_release(scheduled_at, now, true),
        queued_outcome(true, at_max_parallel_runs) == JobRunStatus::Skipped,
{
}

/// A run nobody stopped is never released before its instant.
pub proof fn a_run_waits_for_its_instant(scheduled_at: int, now: int)
    requires
        now < scheduled_at,
    ensures
        !to_release(scheduled_at, now, false),
{
}

/// A run nobody stopped is released exactly from its instant on, that instant included; and
/// what may be released may be at any later time.
pub proof fn a_run_is_released_from_its_instant_on(scheduled_at: int, now: int, later: int, stopped: bool)
    ensures
        to_release(scheduled_at, now, false) <==> now - scheduled_at >= 0,
        to_release(scheduled_at, scheduled_at, stopped),
        to_release(scheduled_at, now, stopped) && now <= later ==> to_release(
            scheduled_at,
            later,
            stopped,
        ),
{
}

/// A submitted run is queued exactly once its instant has come, or as soon as it is stopped,
/// and nothing else of it changes.
pub proof fn a_submitted_run_is_queued_when_due(
    job_run: JobRun,
    now: Timestamp,
    stopped: bool,
    update: Option<JobRunUpdate>,
)
    requires
        call_ensures(handle_submitted_job_run, (&job_run, &now, stopped), update),
    ensures
        update is Some <==> stopped || now@ >= (match job_run.scheduled_at {
            Some(at) => at@,
            None => job_run.created_at@,
        }),
        update matches Some(update) ==> update.applied_to(job_run) == (JobRun {
            status: JobRunStatus::Queued,
            ..job_run
        }),
{
}

} // verus!
