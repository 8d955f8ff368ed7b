//! Listing runs, newest first.
use crate::mcp::tools::result::ToolError;
use crate::status::JobRunStatus;
use vstd::prelude::*;
use vstd::string::*;

verus! {

/// How many runs are shown where none are asked for.
pub const DEFAULT_JOB_RUN_LIMIT: i64 = 20;

/// The most runs that are shown.
pub const MAX_JOB_RUN_LIMIT: i64 = 200;

/// What is asked.
#[derive(Clone, Debug)]
pub struct ListJobRuns {
    /// Only runs of this job.
    pub job: Option<String>,
    /// Only runs with this status.
    pub status: Option<String>,
    /// How many runs to show.
    pub limit: Option<i64>,
}

/// How many runs are shown: at least one, however few are asked for, and never more than the
/// most.
pub open spec fn bounded_job_run_limit(limit: Option<i64>) -> i64 {
    match limit {
        Some(limit) => if limit <= 0 {
            DEFAULT_JOB_RUN_LIMIT
        } else if limit > MAX_JOB_RUN_LIMIT {
            MAX_JOB_RUN_LIMIT
        } else {
            limit
        },
        None => DEFAULT_JOB_RUN_LIMIT,
    }
}

/// Bounds how many runs are shown. A limit below 1 means the default: a query would take a
/// negative one for no limit at all.
pub fn clamp_job_run_limit(limit: Option<i64>) -> (n: i64)
    ensures
        n == bounded_job_run_limit(limit),
        1 <= n <= MAX_JOB_RUN_LIMIT,
{
    match limit {
        Some(limit) => if limit <= 0 {
            DEFAULT_JOB_RUN_LIMIT
        } else if limit > MAX_JOB_RUN_LIMIT {
            MAX_JOB_RUN_LIMIT
        } else {
            limit
        },
        None => DEFAULT_JOB_RUN_LIMIT,
    }
}

/// Which runs are to be read.
#[derive(Clone, Debug)]
pub struct JobRunsFilter {
    pub job: Option<String>,
    pub status: Option<JobRunStatus>,
    pub limit: i64,
}

/// Decides which runs are to be read. A status that no run can have is refused, by name.
pub fn job_runs_filter(args: ListJobRuns) -> (r: Result<JobRunsFilter, ToolError>)
    ensures
        r is Ok <==> match args.status {
            None => true,
            Some(name) => exists|status: JobRunStatus| #[trigger] status.key() == name@,
        },
        r matches Ok(filter) ==> {
            &&& filter.job == args.job
            &&& filter.limit == bounded_job_run_limit(args.limit)
            &&& match args.status {
                None => filter.status is None,
                Some(name) => filter.status matches Some(status) && status.key() == name@,
            }
        },
        r matches Err(e) ==> (e matches ToolError::Other(text) && text@ == "'"@ + args.status->0@
            + "' is not a job run status"@),
{
    let limit: i64 = clamp_job_run_limit(args.limit);
    let status = match &args.status {
        None => None,
        Some(name) => match JobRunStatus::parse(name.as_str()) {
            Some(status) => Some(status),
            None => {
                let mut text = "'".to_owned();
                text.append(name.as_str());
                text.append("' is not a job run status");
                return Err(ToolError::Other(text));
            },
        },
    };
    Ok(JobRunsFilter { job: args.job, status, limit })
}

/// As many runs are shown as were asked for, from one up to the most; more than that shows
/// the most, and nothing sensible shows as many as asking for nothing does.
pub proof fn a_limit_is_taken_as_far_as_it_goes(asked: i64)
    ensures
        1 <= asked <= MAX_JOB_RUN_LIMIT <==> bounded_job_run_limit(Some(asked)) == asked,
        asked > MAX_JOB_RUN_LIMIT ==> bounded_job_run_limit(Some(asked)) == MAX_JOB_RUN_LIMIT,
        asked < 1 ==> bounded_job_run_limit(Some(asked)) == bounded_job_run_limit(None),
        bounded_job_run_limit(None) == DEFAULT_JOB_RUN_LIMIT,
{
}

} // verus!
