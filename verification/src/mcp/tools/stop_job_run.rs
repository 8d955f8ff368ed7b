//! Asking for a run to be stopped.
use crate::mcp::tools::result::{check_wait, unserved_wait, ToolError};
use crate::mcp::wait::{bounded_wait, clamp_wait_seconds};
use crate::serve_state::ServeStatus;
use vstd::prelude::*;

verus! {

/// What is asked.
#[derive(Clone, Copy, Debug)]
pub struct StopJobRun {
    pub job_run_id: i64,
    /// How long to wait for the run to settle.
    pub wait_seconds: Option<u64>,
}

/// Decides on a stop before anything is written: one with a wait that nothing would end is
/// refused, and changes nothing. Gives back how long to wait once the stop is requested.
pub fn plan_stop(args: &StopJobRun, data_dir: &str, status: &Result<ServeStatus, String>) -> (r:
    Result<u64, ToolError>)
    ensures
        r is Ok <==> bounded_wait(args.wait_seconds) == 0 || (status matches Ok(status) && !(
        status is Down)),
        r matches Ok(wait_seconds) ==> wait_seconds == bounded_wait(args.wait_seconds),
        r is Err ==> match status {
            Ok(_) => r matches Err(ToolError::Other(text)) && text@ == unserved_wait(data_dir@),
            Err(e) => r matches Err(ToolError::Other(text)) && text@ == e@,
        },
{
    let wait_seconds: u64 = clamp_wait_seconds(args.wait_seconds);
    match check_wait(data_dir, wait_seconds, status) {
        Ok(()) => Ok(wait_seconds),
        Err(e) => Err(e),
    }
}

} // verus!
