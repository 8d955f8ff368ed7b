//! Keeping each schedule's next occurrences submitted as runs: whichever is missing is
//! submitted, ahead of its time.
use crate::status::JobRunStatus;
use crate::text::same;
use crate::time::Timestamp;
use vstd::prelude::*;

verus! {

/// A job that a schedule runs, with the parameters it gives it.
#[derive(Clone, Debug)]
pub struct ScheduleJob {
    pub job_id: String,
    pub parameters: Vec<(String, String)>,
}

/// A run, by the occurrence it stands for. One submitted by hand names no schedule.
#[derive(Clone, Debug)]
pub struct OccurrenceRun {
    pub job_id: String,
    pub schedule_id: Option<String>,
    pub scheduled_at: Timestamp,
    pub status: JobRunStatus,
}

/// A run to submit: which occurrence of a schedule, and which of its jobs, by place.
#[derive(Clone, Copy, Debug, PartialEq, Eq, Structural)]
pub struct Submission {
    pub occurrence: usize,
    pub job: usize,
}

/// Whether a run in a status speaks for its occurrence. One that was deleted does not: it was
/// deleted so that it is written again. One that was stopped does, for good.
pub open spec fn occupies(status: JobRunStatus) -> bool {
    !(status is Deleted)
}

/// Lists the statuses in which a run speaks for its occurrence.
pub fn occupying_statuses() -> (statuses: Vec<JobRunStatus>)
    ensures
        forall|status: JobRunStatus| #[trigger] statuses@.contains(status) <==> occupies(status),
{
    let mut statuses: Vec<JobRunStatus> = Vec::new();
    statuses.push(JobRunStatus::Scheduled);
    statuses.push(JobRunStatus::Queued);
    statuses.push(JobRunStatus::Running);
    statuses.push(JobRunStatus::Succeeded);
    statuses.push(JobRunStatus::Failed);
    statuses.push(JobRunStatus::Skipped);
    statuses.push(JobRunStatus::Aborted);
    statuses.push(JobRunStatus::TimedOut);
    statuses.push(JobRunStatus::Invalid);
    assert forall|status: JobRunStatus| occupies(status) implies #[trigger] statuses@.contains(
        status,
    ) by {
        match status {
            JobRunStatus::Scheduled => assert(statuses@[0] == status),
            JobRunStatus::Queued => assert(statuses@[1] == status),
            JobRunStatus::Running => assert(statuses@[2] == status),
            JobRunStatus::Succeeded => assert(statuses@[3] == status),
            JobRunStatus::Failed => assert(statuses@[4] == status),
            JobRunStatus::Skipped => assert(statuses@[5] == status),
            JobRunStatus::Aborted => assert(statuses@[6] == status),
            JobRunStatus::TimedOut => assert(statuses@[7] == status),
            JobRunStatus::Invalid => assert(statuses@[8] == status),
            JobRunStatus::Deleted => {},
        }
    }
    statuses
}

/// Whether a run speaks for an occurrence of a schedule, for a job.
pub open spec fn stands_for(
    run: OccurrenceRun,
    schedule_id: Seq<char>,
    job_id: Seq<char>,
    at: int,
) -> bool {
    &&& occupies(run.status)
    &&& run.job_id@ == job_id
    &&& run.schedule_id matches Some(id)
    &&& id@ == schedule_id
    &&& run.scheduled_at@ == at
}

/// Whether any run speaks for an occurrence of a schedule, for a job.
pub open spec fn is_spoken_for(
    runs: Seq<OccurrenceRun>,
    schedule_id: Seq<char>,
    job_id: Seq<char>,
    at: int,
) -> bool {
    exists|i: int|
        0 <= i < runs.len() && stands_for(#[trigger] runs[i], schedule_id, job_id, at)
}

/// Tells whether an occurrence of a schedule is to be submitted for a job: only if no run
/// speaks for it.
pub fn submit_if_missing(
    runs: &Vec<OccurrenceRun>,
    schedule_id: &str,
    job_id: &str,
    occurrence: &Timestamp,
) -> (submit: bool)
    ensures
        submit <==> !is_spoken_for(runs@, schedule_id@, job_id@, occurrence@),
{
    let mut i: usize = 0;
    while i < runs.len()
        invariant
            i <= runs@.len(),
            forall|j: int|
                0 <= j < i ==> !stands_for(#[trigger] runs@[j], schedule_id@, job_id@, occurrence@),
        decreases runs.len() - i,
    {
        let of_schedule: bool = match &runs[i].schedule_id {
            Some(id) => same(id.as_str(), schedule_id),
            None => false,
        };
        let at_instant: bool = !runs[i].scheduled_at.is_before(occurrence)
            && !occurrence.is_before(&runs[i].scheduled_at);
        let occupied: bool = match runs[i].status {
            JobRunStatus::Deleted => false,
            _ => true,
        };
        if occupied && of_schedule && at_instant && same(runs[i].job_id.as_str(), job_id) {
            assert(stands_for(runs@[i as int], schedule_id@, job_id@, occurrence@));
            return false;
        }
        i = i + 1;
    }
    true
}

/// Whether two submissions are of the same job for the same instant.
pub open spec fn same_occurrence(
    occurrences: Seq<Timestamp>,
    jobs: Seq<ScheduleJob>,
    a: Submission,
    b: Submission,
) -> bool {
    &&& occurrences[a.occurrence as int]@ == occurrences[b.occurrence as int]@
    &&& jobs[a.job as int].job_id@ == jobs[b.job as int].job_id@
}

/// Whether a list of submissions holds one of the same job for the same instant.
pub open spec fn is_planned(
    occurrences: Seq<Timestamp>,
    jobs: Seq<ScheduleJob>,
    plan: Seq<Submission>,
    submission: Submission,
) -> bool {
    exists|k: int|
        0 <= k < plan.len() && same_occurrence(
            occurrences,
            jobs,
            #[trigger] plan[k],
            submission,
        )
}

/// What is missing: for each occurrence in turn and each job in turn, what no run speaks for
/// and was not found missing before. This is so of the occurrences before one, and of that
/// one for the jobs before one.
pub open spec fn missing(
    runs: Seq<OccurrenceRun>,
    schedule_id: Seq<char>,
    occurrences: Seq<Timestamp>,
    jobs: Seq<ScheduleJob>,
    occurrence: nat,
    job: nat,
) -> Seq<Submission>
    decreases occurrence, job,
{
    if job > 0 {
        let before = missing(
            runs,
            schedule_id,
            occurrences,
            jobs,
            occurrence,
            (job - 1) as nat,
        );
        let next = Submission { occurrence: occurrence as usize, job: (job - 1) as usize };
        if is_spoken_for(
            runs,
            schedule_id,
            jobs[job - 1].job_id@,
            occurrences[occurrence as int]@,
        ) || is_planned(occurrences, jobs, before, next) {
            before
        } else {
            before.push(next)
        }
    } else if occurrence > 0 {
        missing(runs, schedule_id, occurrences, jobs, (occurrence - 1) as nat, jobs.len())
    } else {
        Seq::empty()
    }
}

/// Everything that is missing of a schedule.
pub open spec fn all_missing(
    runs: Seq<OccurrenceRun>,
    schedule_id: Seq<char>,
    occurrences: Seq<Timestamp>,
    jobs: Seq<ScheduleJob>,
) -> Seq<Submission> {
    missing(runs, schedule_id, occurrences, jobs, occurrences.len(), 0)
}

fn is_in_plan(
    occurrences: &Vec<Timestamp>,
    jobs: &Vec<ScheduleJob>,
    plan: &Vec<Submission>,
    submission: Submission,
) -> (b: bool)
    requires
        submission.occurrence < occurrences@.len(),
        submission.job < jobs@.len(),
        forall|k: int|
            0 <= k < plan@.len() ==> (#[trigger] plan@[k]).occurrence < occurrences@.len()
                && plan@[k].job < jobs@.len(),
    ensures
        b == is_planned(occurrences@, jobs@, plan@, submission),
{
    let mut k: usize = 0;
    while k < plan.len()
        invariant
            k <= plan@.len(),
            submission.occurrence < occurrences@.len(),
            submission.job < jobs@.len(),
            forall|k: int|
                0 <= k < plan@.len() ==> (#[trigger] plan@[k]).occurrence < occurrences@.len()
                    && plan@[k].job < jobs@.len(),
            forall|j: int|
                0 <= j < k ==> !same_occurrence(
                    occurrences@,
                    jobs@,
                    #[trigger] plan@[j],
                    submission,
                ),
        decreases plan.len() - k,
    {
        let a = &occurrences[plan[k].occurrence];
        let b = &occurrences[submission.occurrence];
        if !a.is_before(b) && !b.is_before(a) && same(
            jobs[plan[k].job].job_id.as_str(),
            jobs[submission.job].job_id.as_str(),
        ) {
            assert(same_occurrence(occurrences@, jobs@, plan@[k as int], submission));
            return true;
        }
        k = k + 1;
    }
    false
}

/// Finds what is missing of a schedule: whichever of its next occurrences no run speaks for,
/// for each of its jobs. It only ever adds; a run the schedule no longer asks for is left
/// where it is.
pub fn reconcile_schedule(
    runs: &Vec<OccurrenceRun>,
    schedule_id: &str,
    occurrences: &Vec<Timestamp>,
    schedule_jobs: &Vec<ScheduleJob>,
) -> (plan: Vec<Submission>)
    ensures
        plan@ == all_missing(runs@, schedule_id@, occurrences@, schedule_jobs@),
{
    let mut plan: Vec<Submission> = Vec::new();
    let mut i: usize = 0;
    while i < occurrences.len()
        invariant
            i <= occurrences@.len(),
            forall|k: int|
                0 <= k < plan@.len() ==> (#[trigger] plan@[k]).occurrence < occurrences@.len()
                    && plan@[k].job < schedule_jobs@.len(),
            plan@ == missing(
                runs@,
                schedule_id@,
                occurrences@,
                schedule_jobs@,
                i as nat,
                0,
            ),
        decreases occurrences.len() - i,
    {
        let mut j: usize = 0;
        while j < schedule_jobs.len()
            invariant
                i < occurrences@.len(),
                j <= schedule_jobs@.len(),
                forall|k: int|
                    0 <= k < plan@.len() ==> (#[trigger] plan@[k]).occurrence < occurrences@.len()
                        && plan@[k].job < schedule_jobs@.len(),
                plan@ == missing(
                    runs@,
                    schedule_id@,
                    occurrences@,
                    schedule_jobs@,
                    i as nat,
                    j as nat,
                ),
            decreases schedule_jobs.len() - j,
        {
            let next = Submission { occurrence: i, job: j };
            if submit_if_missing(
                runs,
                schedule_id,
                schedule_jobs[j].job_id.as_str(),
                &occurrences[i],
            ) && !is_in_plan(occurrences, schedule_jobs, &plan, next) {
                plan.push(next);
            }
            j = j + 1;
        }
        i = i + 1;
    }
    plan
}

proof fn lemma_missing(
    runs: Seq<OccurrenceRun>,
    schedule_id: Seq<char>,
    occurrences: Seq<Timestamp>,
    jobs: Seq<ScheduleJob>,
    occurrence: nat,
    job: nat,
)
    requires
        occurrence <= occurrences.len() <= usize::MAX,
        job <= jobs.len() <= usize::MAX,
        job > 0 ==> occurrence < occurrences.len(),
    ensures
        ({
            let plan = missing(runs, schedule_id, occurrences, jobs, occurrence, job);
            &&& forall|k: int|
                0 <= k < plan.len() ==> {
                    let submission = #[trigger] plan[k];
                    &&& submission.occurrence < occurrences.len()
                    &&& submission.job < jobs.len()
                    &&& !is_spoken_for(
                        runs,
                        schedule_id,
                        jobs[submission.job as int].job_id@,
                        occurrences[submission.occurrence as int]@,
                    )
                }
            &&& forall|a: int, b: int|
                0 <= a < b < plan.len() ==> !same_occurrence(
                    occurrences,
                    jobs,
                    #[trigger] plan[a],
                    #[trigger] plan[b],
                )
            &&& forall|submission: Submission|
                #![trigger is_planned(occurrences, jobs, plan, submission)]
                submission.job < jobs.len() && (submission.occurrence < occurrence
                    || submission.occurrence == occurrence && submission.job < job)
                    ==> is_planned(occurrences, jobs, plan, submission) || is_spoken_for(
                    runs,
                    schedule_id,
                    jobs[submission.job as int].job_id@,
                    occurrences[submission.occurrence as int]@,
                )
        }),
    decreases occurrence, job,
{
    let plan = missing(runs, schedule_id, occurrences, jobs, occurrence, job);
    if job > 0 {
        lemma_missing(runs, schedule_id, occurrences, jobs, occurrence, (job - 1) as nat);
        let before = missing(
            runs,
            schedule_id,
            occurrences,
            jobs,
            occurrence,
            (job - 1) as nat,
        );
        let next = Submission { occurrence: occurrence as usize, job: (job - 1) as usize };
        if plan.len() > before.len() {
            assert(plan[before.len() as int] == next);
            assert(same_occurrence(occurrences, jobs, plan[before.len() as int], next));
            assert(is_planned(occurrences, jobs, plan, next));
            assert forall|a: int, b: int|
                0 <= a < b < plan.len() implies !same_occurrence(
                occurrences,
                jobs,
                #[trigger] plan[a],
                #[trigger] plan[b],
            ) by {
                assert(plan[a] == before[a]);
                if b < before.len() {
                    assert(plan[b] == before[b]);
                }
            }
            assert forall|submission: Submission|
                is_planned(occurrences, jobs, before, submission) implies #[trigger] is_planned(
                occurrences,
                jobs,
                plan,
                submission,
            ) by {
                let k = choose|k: int|
                    0 <= k < before.len() && same_occurrence(
                        occurrences,
                        jobs,
                        #[trigger] before[k],
                        submission,
                    );
                assert(plan[k] == before[k]);
            }
        }
        assert forall|submission: Submission|
            #![trigger is_planned(occurrences, jobs, plan, submission)]
            submission.job < jobs.len() && (submission.occurrence < occurrence
                || submission.occurrence == occurrence && submission.job < job) implies is_planned(
            occurrences,
            jobs,
            plan,
            submission,
        ) || is_spoken_for(
            runs,
            schedule_id,
            jobs[submission.job as int].job_id@,
            occurrences[submission.occurrence as int]@,
        ) by {
            if submission != next {
                assert(is_planned(occurrences, jobs, before, submission) || is_spoken_for(
                    runs,
                    schedule_id,
                    jobs[submission.job as int].job_id@,
                    occurrences[submission.occurrence as int]@,
                ));
            }
        }
    } else if occurrence > 0 {
        lemma_missing(
            runs,
            schedule_id,
            occurrences,
            jobs,
            (occurrence - 1) as nat,
            jobs.len(),
        );
        assert(plan == missing(
            runs,
            schedule_id,
            occurrences,
            jobs,
            (occurrence - 1) as nat,
            jobs.len(),
        ));
    } else {
        assert(plan.len() == 0);
    }
}

/// What a pass submits is exactly what was missing: nothing that a run spoke for, nothing
/// twice, and every occurrence of every job but what a run spoke for.
pub proof fn a_pass_submits_what_is_missing(
    runs: Seq<OccurrenceRun>,
    schedule_id: Seq<char>,
    occurrences: Seq<Timestamp>,
    jobs: Seq<ScheduleJob>,
)
    requires
        occurrences.len() <= usize::MAX,
        jobs.len() <= usize::MAX,
    ensures
        ({
            let plan = all_missing(runs, schedule_id, occurrences, jobs);
            &&& forall|k: int|
                0 <= k < plan.len() ==> {
                    let submission = #[trigger] plan[k];
                    &&& submission.occurrence < occurrences.len()
                    &&& submission.job < jobs.len()
                    &&& !is_spoken_for(
                        runs,
                        schedule_id,
                        jobs[submission.job as int].job_id@,
                        occurrences[submission.occurrence as int]@,
                    )
                }
            &&& forall|a: int, b: int|
                0 <= a < b < plan.len() ==> !same_occurrence(
                    occurrences,
                    jobs,
                    #[trigger] plan[a],
                    #[trigger] plan[b],
                )
            &&& forall|submission: Submission|
                #![trigger is_planned(occurrences, jobs, plan, submission)]
                submission.job < jobs.len() && submission.occurrence < occurrences.len()
                    ==> is_planned(occurrences, jobs, plan, submission) || is_spoken_for(
                    runs,
                    schedule_id,
                    jobs[submission.job as int].job_id@,
                    occurrences[submission.occurrence as int]@,
                )
        }),
{
    lemma_missing(runs, schedule_id, occurrences, jobs, occurrences.len(), 0);
}

/// The run that a submission writes.
pub open spec fn submitted_run(
    schedule_id: String,
    occurrences: Seq<Timestamp>,
    jobs: Seq<ScheduleJob>,
    submission: Submission,
) -> OccurrenceRun {
    OccurrenceRun {
        job_id: jobs[submission.job as int].job_id,
        schedule_id: Some(schedule_id),
        scheduled_at: occurrences[submission.occurrence as int],
        status: JobRunStatus::Scheduled,
    }
}

/// A second pass submits nothing new, whatever has become of the runs of the first in the
/// meantime, so long as none of them was deleted.
pub proof fn a_second_pass_submits_nothing(
    runs: Seq<OccurrenceRun>,
    schedule_id: String,
    occurrences: Seq<Timestamp>,
    jobs: Seq<ScheduleJob>,
    later: Seq<OccurrenceRun>,
)
    requires
        occurrences.len() <= usize::MAX,
        jobs.len() <= usize::MAX,
        ({
            let plan = all_missing(runs, schedule_id@, occurrences, jobs);
            let written = runs + plan.map_values(
                |submission: Submission| submitted_run(schedule_id, occurrences, jobs, submission),
            );
            &&& later.len() == written.len()
            &&& forall|i: int|
                0 <= i < later.len() ==> {
                    &&& (#[trigger] later[i]).job_id == written[i].job_id
                    &&& later[i].schedule_id == written[i].schedule_id
                    &&& later[i].scheduled_at == written[i].scheduled_at
                    &&& occupies(written[i].status) ==> occupies(later[i].status)
                }
        }),
    ensures
        all_missing(later, schedule_id@, occurrences, jobs).len() == 0,
{
    let plan = all_missing(runs, schedule_id@, occurrences, jobs);
    let written = runs + plan.map_values(
        |submission: Submission| submitted_run(schedule_id, occurrences, jobs, submission),
    );
    lemma_missing(runs, schedule_id@, occurrences, jobs, occurrences.len(), 0);
    lemma_missing(later, schedule_id@, occurrences, jobs, occurrences.len(), 0);
    let again = all_missing(later, schedule_id@, occurrences, jobs);
    if again.len() > 0 {
        let submission = again[0];
        let job_id = jobs[submission.job as int].job_id@;
        let at = occurrences[submission.occurrence as int]@;
        if is_spoken_for(runs, schedule_id@, job_id, at) {
            let i = choose|i: int|
                0 <= i < runs.len() && stands_for(#[trigger] runs[i], schedule_id@, job_id, at);
            assert(written[i] == runs[i]);
            assert(stands_for(later[i], schedule_id@, job_id, at));
        } else {
            assert(is_planned(occurrences, jobs, plan, submission));
            let k = choose|k: int|
                0 <= k < plan.len() && same_occurrence(
                    occurrences,
                    jobs,
                    #[trigger] plan[k],
                    submission,
                );
            assert(written[runs.len() + k] == submitted_run(
                schedule_id,
                occurrences,
                jobs,
                plan[k],
            ));
            assert(stands_for(later[runs.len() + k], schedule_id@, job_id, at));
        }
    }
}

/// An occurrence whose run was stopped is never submitted again: any run that was not deleted
/// speaks for it.
pub proof fn a_stopped_occurrence_stays_cancelled(
    runs: Seq<OccurrenceRun>,
    schedule_id: Seq<char>,
    occurrences: Seq<Timestamp>,
    jobs: Seq<ScheduleJob>,
    i: int,
    k: int,
)
    requires
        occurrences.len() <= usize::MAX,
        jobs.len() <= usize::MAX,
        0 <= i < runs.len(),
        runs[i].status is Skipped,
        runs[i].schedule_id matches Some(id) && id@ == schedule_id,
        0 <= k < all_missing(runs, schedule_id, occurrences, jobs).len(),
    ensures
        ({
            let submission = all_missing(runs, schedule_id, occurrences, jobs)[k];
            jobs[submission.job as int].job_id@ != runs[i].job_id@
                || occurrences[submission.occurrence as int]@ != runs[i].scheduled_at@
        }),
{
    lemma_missing(runs, schedule_id, occurrences, jobs, occurrences.len(), 0);
    let submission = all_missing(runs, schedule_id, occurrences, jobs)[k];
    let job_id = jobs[submission.job as int].job_id@;
    let at = occurrences[submission.occurrence as int]@;
    if job_id == runs[i].job_id@ && at == runs[i].scheduled_at@ {
        assert(stands_for(runs[i], schedule_id, job_id, at));
    }
}

/// An occurrence whose runs were all deleted is submitted again, as is one that never had a
/// run.
pub proof fn a_deleted_occurrence_is_submitted_again(
    runs: Seq<OccurrenceRun>,
    schedule_id: Seq<char>,
    occurrences: Seq<Timestamp>,
    jobs: Seq<ScheduleJob>,
    submission: Submission,
)
    requires
        occurrences.len() <= usize::MAX,
        jobs.len() <= usize::MAX,
        submission.occurrence < occurrences.len(),
        submission.job < jobs.len(),
        forall|i: int|
            0 <= i < runs.len() && (#[trigger] runs[i]).job_id@
                == jobs[submission.job as int].job_id@ && runs[i].scheduled_at@
                == occurrences[submission.occurrence as int]@ ==> runs[i].status is Deleted,
    ensures
        is_planned(
            occurrences,
            jobs,
            all_missing(runs, schedule_id, occurrences, jobs),
            submission,
        ),
{
    lemma_missing(runs, schedule_id, occurrences, jobs, occurrences.len(), 0);
    assert(is_planned(
        occurrences,
        jobs,
        all_missing(runs, schedule_id, occurrences, jobs),
        submission,
    ) || is_spoken_for(
        runs,
        schedule_id,
        jobs[submission.job as int].job_id@,
        occurrences[submission.occurrence as int]@,
    ));
}

/// An occurrence is spoken for exactly by a run of that schedule, of that job and for that
/// instant that was not deleted: one submitted by hand, one of another schedule, job or
/// instant, and a deleted one leave it open.
pub proof fn only_its_own_run_speaks_for_an_occurrence(
    runs: Seq<OccurrenceRun>,
    schedule_id: Seq<char>,
    job_id: Seq<char>,
    at: int,
)
    ensures
        is_spoken_for(runs, schedule_id, job_id, at) <==> exists|i: int|
            #![trigger runs[i]]
            0 <= i < runs.len() && !(runs[i].status is Deleted) && runs[i].schedule_id is Some
                && runs[i].schedule_id->0@ == schedule_id && runs[i].job_id@ == job_id
                && runs[i].scheduled_at@ == at,
{
    if is_spoken_for(runs, schedule_id, job_id, at) {
        let i = choose|i: int|
            0 <= i < runs.len() && stands_for(#[trigger] runs[i], schedule_id, job_id, at);
        assert(runs[i].schedule_id->0@ == schedule_id);
    }
    if exists|i: int|
        #![trigger runs[i]]
        0 <= i < runs.len() && !(runs[i].status is Deleted) && runs[i].schedule_id is Some
            && runs[i].schedule_id->0@ == schedule_id && runs[i].job_id@ == job_id
            && runs[i].scheduled_at@ == at {
        let i = choose|i: int|
            #![trigger runs[i]]
            0 <= i < runs.len() && !(runs[i].status is Deleted) && runs[i].schedule_id is Some
                && runs[i].schedule_id->0@ == schedule_id && runs[i].job_id@ == job_id
                && runs[i].scheduled_at@ == at;
        assert(stands_for(runs[i], schedule_id, job_id, at));
    }
}

/// Whatever no run speaks for is submitted, once: for every occurrence and job a submission of
/// the same job for the same instant is planned exactly when no run speaks for them.
pub proof fn what_is_missing_is_exactly_what_is_submitted(
    runs: Seq<OccurrenceRun>,
    schedule_id: Seq<char>,
    occurrences: Seq<Timestamp>,
    jobs: Seq<ScheduleJob>,
    i: int,
    j: int,
)
    requires
        occurrences.len() <= usize::MAX,
        jobs.len() <= usize::MAX,
        0 <= i < occurrences.len(),
        0 <= j < jobs.len(),
    ensures
        ({
            let plan = all_missing(runs, schedule_id, occurrences, jobs);
            exists|k: int|
                #![trigger plan[k]]
                0 <= k < plan.len() && occurrences[plan[k].occurrence as int]@ == occurrences[i]@
                    && jobs[plan[k].job as int].job_id@ == jobs[j].job_id@
        }) <==> !is_spoken_for(runs, schedule_id, jobs[j].job_id@, occurrences[i]@),
{
    let plan = all_missing(runs, schedule_id, occurrences, jobs);
    let own = Submission { occurrence: i as usize, job: j as usize };
    lemma_missing(runs, schedule_id, occurrences, jobs, occurrences.len(), 0);
    if !is_spoken_for(runs, schedule_id, jobs[j].job_id@, occurrences[i]@) {
        assert(is_planned(occurrences, jobs, plan, own));
        let k = choose|k: int|
            0 <= k < plan.len() && same_occurrence(occurrences, jobs, #[trigger] plan[k], own);
        assert(occurrences[plan[k].occurrence as int]@ == occurrences[i]@);
    }
}

/// Occurrences are submitted in the order they come in, and for each the jobs in the order the
/// schedule lists them.
pub proof fn occurrences_are_submitted_in_order(
    runs: Seq<OccurrenceRun>,
    schedule_id: Seq<char>,
    occurrences: Seq<Timestamp>,
    jobs: Seq<ScheduleJob>,
    a: int,
    b: int,
)
    requires
        occurrences.len() <= usize::MAX,
        jobs.len() <= usize::MAX,
        0 <= a < b < all_missing(runs, schedule_id, occurrences, jobs).len(),
    ensures
        ({
            let plan = all_missing(runs, schedule_id, occurrences, jobs);
            plan[a].occurrence < plan[b].occurrence || (plan[a].occurrence == plan[b].occurrence
                && plan[a].job < plan[b].job)
        }),
{
    lemma_missing_in_order(runs, schedule_id, occurrences, jobs, occurrences.len(), 0);
}

proof fn lemma_missing_in_order(
    runs: Seq<OccurrenceRun>,
    schedule_id: Seq<char>,
    occurrences: Seq<Timestamp>,
    jobs: Seq<ScheduleJob>,
    occurrence: nat,
    job: nat,
)
    requires
        occurrence <= occurrences.len() <= usize::MAX,
        job <= jobs.len() <= usize::MAX,
    ensures
        ({
            let plan = missing(runs, schedule_id, occurrences, jobs, occurrence, job);
            &&& forall|k: int|
                0 <= k < plan.len() ==> (#[trigger] plan[k]).occurrence < occurrence || (
                plan[k].occurrence == occurrence && plan[k].job < job)
            &&& forall|a: int, b: int|
                0 <= a < b < plan.len() ==> (#[trigger] plan[a]).occurrence < (
                #[trigger] plan[b]).occurrence || (plan[a].occurrence == plan[b].occurrence
                    && plan[a].job < plan[b].job)
        }),
    decreases occurrence, job,
{
    let plan = missing(runs, schedule_id, occurrences, jobs, occurrence, job);
    if job > 0 {
        lemma_missing_in_order(
            runs,
            schedule_id,
            occurrences,
            jobs,
            occurrence,
            (job - 1) as nat,
        );
        let before = missing(
            runs,
            schedule_id,
            occurrences,
            jobs,
            occurrence,
            (job - 1) as nat,
        );
        let next = Submission { occurrence: occurrence as usize, job: (job - 1) as usize };
        assert(plan == before || plan == before.push(next));
        assert forall|k: int| 0 <= k < plan.len() implies (#[trigger] plan[k]).occurrence
            < occurrence || (plan[k].occurrence == occurrence && plan[k].job < job) by {
            if k < before.len() {
                assert(plan[k] == before[k]);
            }
        }
        assert forall|a: int, b: int| 0 <= a < b < plan.len() implies (
        #[trigger] plan[a]).occurrence < (#[trigger] plan[b]).occurrence || (plan[a].occurrence
            == plan[b].occurrence && plan[a].job < plan[b].job) by {
            assert(plan[a] == before[a]);
            if b < before.len() {
                assert(plan[b] == before[b]);
            }
        }
    } else if occurrence > 0 {
        lemma_missing_in_order(
            runs,
            schedule_id,
            occurrences,
            jobs,
            (occurrence - 1) as nat,
            jobs.len(),
        );
        assert(plan == missing(
            runs,
            schedule_id,
            occurrences,
            jobs,
            (occurrence - 1) as nat,
            jobs.len(),
        ));
    } else {
        assert(plan.len() == 0);
    }
}

} // verus!
