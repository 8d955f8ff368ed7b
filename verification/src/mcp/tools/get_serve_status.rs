//! Telling whether a data directory is served, and by what.
use crate::serve_state::{ServeState, ServeStatus};
use crate::time::{whole, Timestamp};
use vstd::prelude::*;
use vstd::string::*;

verus! {

/// What is asked: nothing, as the directory is the server's own.
#[derive(Clone, Copy, Debug)]
pub struct GetServeStatus {}

/// What is told: a word, and what the server says about itself where it does.
#[derive(Clone, Debug)]
pub struct ServeStatusReport {
    pub status: String,
    pub state: Option<ServeState>,
    pub uptime_seconds: Option<i64>,
}

/// The word for whether a directory is served.
pub open spec fn status_word(status: ServeStatus) -> Seq<char> {
    match status {
        ServeStatus::Down => "down"@,
        ServeStatus::Starting => "starting"@,
        ServeStatus::Up(_) => "up"@,
    }
}

/// Tells whether a directory is served, and by what.
pub fn status_report(status: ServeStatus, now: &Timestamp) -> (report: ServeStatusReport)
    ensures
        report.status@ == status_word(status),
        match status {
            ServeStatus::Up(state) => {
                &&& report.state == Some(state)
                &&& report.uptime_seconds matches Some(seconds)
                &&& seconds == whole(now@ - state.started_at@, 1_000_000_000)
            },
            _ => report.state is None && report.uptime_seconds is None,
        },
{
    match status {
        ServeStatus::Down => ServeStatusReport {
            status: "down".to_owned(),
            state: None,
            uptime_seconds: None,
        },
        ServeStatus::Starting => ServeStatusReport {
            status: "starting".to_owned(),
            state: None,
            uptime_seconds: None,
        },
        ServeStatus::Up(state) => {
            let seconds: i64 = now.seconds_since(&state.started_at);
            ServeStatusReport {
                status: "up".to_owned(),
                state: Some(state),
                uptime_seconds: Some(seconds),
            }
        },
    }
}

} // verus!
