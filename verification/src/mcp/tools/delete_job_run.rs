//! Deleting a run that has not run yet, which frees the occurrence it held.
use crate::models::JobRun;
use crate::time::{rfc3339_text, Timestamp};
use vstd::prelude::*;
use vstd::string::*;

verus! {

/// What is asked.
#[derive(Clone, Copy, Debug)]
pub struct DeleteJobRun {
    pub job_run_id: i64,
}

/// What becomes of the occurrence that a deleted run stood for.
#[derive(Clone, Copy, Debug, PartialEq, Eq, Structural)]
pub enum DeletedOccurrence {
    /// It is still ahead: its schedule submits it again.
    Resubmitted,
    /// There was none: the run was submitted by hand.
    NotScheduled,
    /// Its time has come or gone by, and only those still ahead are submitted.
    AlreadyPassed,
}

/// What becomes of the occurrence that a deleted run stood for. A run that no schedule
/// submitted stood for none, though it may be dated.
pub open spec fn occurrence_of(job_run: JobRun, now: Timestamp) -> DeletedOccurrence {
    if job_run.schedule_id is None {
        DeletedOccurrence::NotScheduled
    } else if job_run.due_at()@ > now@ {
        DeletedOccurrence::Resubmitted
    } else {
        DeletedOccurrence::AlreadyPassed
    }
}

/// Tells what becomes of the occurrence that a deleted run stood for.
pub fn deleted_occurrence(job_run: &JobRun, now: &Timestamp) -> (occurrence: DeletedOccurrence)
    ensures
        occurrence == occurrence_of(*job_run, *now),
{
    if job_run.schedule_id.is_none() {
        DeletedOccurrence::NotScheduled
    } else if now.is_before(&job_run.due()) {
        DeletedOccurrence::Resubmitted
    } else {
        DeletedOccurrence::AlreadyPassed
    }
}

/// The warning that nothing writes the occurrence of a deleted run again, where nothing does.
pub open spec fn occurrence_text(job_run: JobRun, now: Timestamp) -> Option<Seq<char>> {
    match occurrence_of(job_run, now) {
        DeletedOccurrence::Resubmitted => None,
        DeletedOccurrence::NotScheduled => Some(
            "This run was submitted by hand rather than by a schedule, so no occurrence is freed and nothing writes it again. Call submit_job with job_id "@
                + job_run.job_id@ + " to run it."@,
        ),
        DeletedOccurrence::AlreadyPassed => Some(
            "This run's instant ("@ + rfc3339_text(job_run.due_at()@)
                + ") has already gone by, and the scheduler only fills occurrences still ahead, so it will not be written again. Call submit_job with job_id "@
                + job_run.job_id@ + " to run it now."@,
        ),
    }
}

/// Warns where nothing writes the occurrence of a deleted run again.
pub fn occurrence_warning(job_run: &JobRun, now: &Timestamp) -> (r: Option<String>)
    ensures
        r is Some <==> occurrence_text(*job_run, *now) is Some,
        r matches Some(text) ==> occurrence_text(*job_run, *now) == Some(text@),
{
    match deleted_occurrence(job_run, now) {
        DeletedOccurrence::Resubmitted => None,
        DeletedOccurrence::NotScheduled => {
            let mut text =
                "This run was submitted by hand rather than by a schedule, so no occurrence is freed and nothing writes it again. Call submit_job with job_id ".to_owned();
            text.append(job_run.job_id.as_str());
            text.append(" to run it.");
            Some(text)
        },
        DeletedOccurrence::AlreadyPassed => {
            let mut text = "This run's instant (".to_owned();
            text.append(job_run.due().to_rfc3339().as_str());
            text.append(
                ") has already gone by, and the scheduler only fills occurrences still ahead, so it will not be written again. Call submit_job with job_id ",
            );
            text.append(job_run.job_id.as_str());
            text.append(" to run it now.");
            Some(text)
        },
    }
}

/// Nothing is said only where the schedule of a deleted run writes its occurrence again: it
/// has one, and its instant is still ahead.
pub proof fn silence_means_it_is_written_again(job_run: JobRun, now: Timestamp)
    ensures
        occurrence_text(job_run, now) is None <==> job_run.schedule_id is Some
            && job_run.due_at()@ > now@,
{
}

/// The occurrence of a deleted run is submitted again exactly where a schedule submitted the
/// run and its instant is still to come; the instant itself has come. Only how far off the
/// instant is counts, not when that is.
pub proof fn an_occurrence_comes_back_only_while_it_is_ahead(job_run: JobRun, now: Timestamp)
    ensures
        occurrence_of(job_run, now) is NotScheduled <==> job_run.schedule_id is None,
        occurrence_of(job_run, now) is Resubmitted <==> job_run.schedule_id is Some
            && job_run.due_at()@ - now@ > 0,
        occurrence_of(job_run, now) is AlreadyPassed <==> job_run.schedule_id is Some
            && job_run.due_at()@ - now@ <= 0,
{
}

} // verus!
