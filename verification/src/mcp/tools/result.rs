//! What a tool hands back: its reply, its errors, and the warning that nothing will move a
//! run along.
use crate::serve_state::ServeStatus;
use vstd::prelude::*;
use vstd::string::*;

verus! {

/// Why a tool did not do what it was asked.
#[derive(Clone, Debug)]
pub enum ToolError {
    /// Nothing serves the data directory.
    DataDirNotServed { data_dir: String },
    /// A definition that is not installed has the id of one that is.
    JobIdAlreadyInstalled { job_id: String, jobs_dir: String },
    /// Anything else, in words.
    Other(String),
}

impl ToolError {
    /// What the error says.
    pub open spec fn says(&self) -> Seq<char> {
        match self {
            ToolError::DataDirNotServed { data_dir } => "Nothing is serving "@ + data_dir@,
            ToolError::JobIdAlreadyInstalled { job_id, jobs_dir } => "'"@ + job_id@
                + "' is already a job in "@ + jobs_dir@,
            ToolError::Other(text) => text@,
        }
    }

    /// The error in words.
    pub fn message(&self) -> (s: String)
        ensures
            s@ == self.says(),
    {
        match self {
            ToolError::DataDirNotServed { data_dir } => {
                let mut s = "Nothing is serving ".to_owned();
                s.append(data_dir.as_str());
                s
            },
            ToolError::JobIdAlreadyInstalled { job_id, jobs_dir } => {
                let mut s = "'".to_owned();
                s.append(job_id.as_str());
                s.append("' is already a job in ");
                s.append(jobs_dir.as_str());
                s
            },
            ToolError::Other(text) => text.as_str().to_owned(),
        }
    }
}

/// What a tool replies: pieces of text, and whether the value the first of them spells goes
/// along as data.
#[derive(Clone, Debug)]
pub struct ToolReply {
    pub content: Vec<String>,
    pub structured: bool,
}

/// Replies with a run. A warning stands behind it in a piece of its own, and the run then
/// does not go along as data: a client that reads only the data would miss the warning.
pub fn job_run_result(json: String, warning: Option<String>) -> (reply: ToolReply)
    ensures
        reply.content@.len() == (if warning is Some { 2int } else { 1 }),
        reply.content@[0] == json,
        warning matches Some(text) ==> reply.content@[1] == text,
        reply.structured <==> warning is None,
{
    let mut content: Vec<String> = Vec::new();
    content.push(json);
    match warning {
        Some(text) => {
            content.push(text);
            ToolReply { content, structured: false }
        },
        None => ToolReply { content, structured: true },
    }
}

/// Refuses where nothing at all serves a data directory. One whose server is starting is
/// served: that server will reach the run.
pub fn ensure_data_dir_is_served(data_dir: &str, status: &Result<ServeStatus, String>) -> (r:
    Result<(), ToolError>)
    ensures
        r is Ok <==> (status matches Ok(status) && !(status is Down)),
        status matches Ok(status) && status is Down ==> (r matches Err(
            ToolError::DataDirNotServed { data_dir: named },
        ) && named@ == data_dir@),
        status matches Err(e) ==> (r matches Err(ToolError::Other(text)) && text@ == e@),
{
    match status {
        Ok(ServeStatus::Down) => Err(
            ToolError::DataDirNotServed { data_dir: data_dir.to_owned() },
        ),
        Ok(_) => Ok(()),
        Err(e) => Err(ToolError::Other(e.as_str().to_owned())),
    }
}

/// How a refused wait is worded for a caller that set `wait_seconds`.
pub open spec fn unserved_wait(data_dir: Seq<char>) -> Seq<char> {
    "Nothing is serving "@ + data_dir
        + ", so waiting would only run the wait_seconds out - nothing is there to move the run along. Start flowlite serve against it, or call again without wait_seconds to get the run back as it stands."@
}

/// Words the refusal of a wait by the argument that asked for it. Any other error is left as
/// it is.
pub fn describe_unserved_data_dir(err: ToolError) -> (r: ToolError)
    ensures
        match err {
            ToolError::DataDirNotServed { data_dir } => r matches ToolError::Other(text) && text@
                == unserved_wait(data_dir@),
            _ => r == err,
        },
{
    match err {
        ToolError::DataDirNotServed { data_dir } => {
            let mut text = "Nothing is serving ".to_owned();
            text.append(data_dir.as_str());
            text.append(
                ", so waiting would only run the wait_seconds out - nothing is there to move the run along. Start flowlite serve against it, or call again without wait_seconds to get the run back as it stands.",
            );
            ToolError::Other(text)
        },
        other => other,
    }
}

/// Refuses a wait that nothing could end, before anything is written; where no wait is asked
/// for, the directory need not be served.
pub fn check_wait(data_dir: &str, wait_seconds: u64, status: &Result<ServeStatus, String>) -> (r:
    Result<(), ToolError>)
    ensures
        r is Ok <==> wait_seconds == 0 || (status matches Ok(status) && !(status is Down)),
        wait_seconds > 0 && (status matches Ok(status) && status is Down) ==> (r matches Err(
            ToolError::Other(text),
        ) && text@ == unserved_wait(data_dir@)),
        wait_seconds > 0 ==> (status matches Err(e) ==> (r matches Err(ToolError::Other(text))
            && text@ == e@)),
{
    if wait_seconds == 0 {
        return Ok(());
    }
    match ensure_data_dir_is_served(data_dir, status) {
        Ok(()) => Ok(()),
        Err(err) => Err(describe_unserved_data_dir(err)),
    }
}

/// The warning that a run will not move, if nothing serves its directory or that cannot be
/// told.
pub open spec fn unserved_warning(data_dir: Seq<char>, status: Result<ServeStatus, String>) -> Option<
    Seq<char>,
> {
    match status {
        Ok(ServeStatus::Down) => Some(
            "Nothing is serving "@ + data_dir
                + ", so this run's status will not change until flowlite serve runs against it."@,
        ),
        Ok(_) => None,
        Err(e) => Some("Could not tell whether "@ + data_dir + " is being served: "@ + e@),
    }
}

/// Warns that a run will not move. It never fails: by then the run is written, and an error
/// would read as if it were not.
pub fn unserved_directory_warning(data_dir: &str, status: &Result<ServeStatus, String>) -> (r:
    Option<String>)
    ensures
        r is Some <==> unserved_warning(data_dir@, *status) is Some,
        r matches Some(text) ==> unserved_warning(data_dir@, *status) == Some(text@),
{
    match status {
        Ok(ServeStatus::Down) => {
            let mut text = "Nothing is serving ".to_owned();
            text.append(data_dir);
            text.append(
                ", so this run's status will not change until flowlite serve runs against it.",
            );
            Some(text)
        },
        Ok(_) => None,
        Err(e) => {
            let mut text = "Could not tell whether ".to_owned();
            text.append(data_dir);
            text.append(" is being served: ");
            text.append(e.as_str());
            Some(text)
        },
    }
}

/// A caller is warned exactly where the directory is not known to be served: nothing serves
/// it, or that could not be told. One whose server is starting is served.
pub proof fn silence_means_served(data_dir: Seq<char>, status: Result<ServeStatus, String>)
    ensures
        unserved_warning(data_dir, status) is None <==> (status matches Ok(status) && (
        status is Up || status is Starting)),
{
}

/// A wait is refused exactly where one is asked for and nothing is known to serve the
/// directory; without one, whether it is served does not matter.
pub proof fn only_a_hopeless_wait_is_refused(
    data_dir: &str,
    wait_seconds: u64,
    status: Result<ServeStatus, String>,
    r: Result<(), ToolError>,
)
    requires
        call_ensures(check_wait, (data_dir, wait_seconds, &status), r),
    ensures
        r is Err <==> wait_seconds > 0 && (status is Err || status->Ok_0 is Down),
{
}

/// A warning always reaches the reader: where there is one it stands behind the run, and the
/// run then does not go along as data; where there is none it does.
pub proof fn a_warning_is_never_missed(json: String, warning: Option<String>, reply: ToolReply)
    requires
        call_ensures(job_run_result, (json, warning), reply),
    ensures
        reply.content@[0] == json,
        warning is Some ==> reply.content@.len() == 2 && reply.content@.last() == warning->0
            && !reply.structured,
        warning is None ==> reply.content@.len() == 1 && reply.structured,
{
}

} // verus!
