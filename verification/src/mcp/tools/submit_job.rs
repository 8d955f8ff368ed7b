//! Submitting a run of a job: one that is installed, a file that is not, or a definition
//! given inline.
use crate::mcp::tools::result::{check_wait, unserved_wait, ToolError};
use crate::mcp::wait::{bounded_wait, clamp_wait_seconds};
use crate::serve_state::ServeStatus;
use crate::text::{join, joined, texts};
use vstd::prelude::*;
use vstd::string::*;

verus! {

/// Where an inline definition is said to come from.
pub const INLINE_YAML_LABEL: &'static str = "<inline yaml>";

/// What is asked.
#[derive(Clone, Debug)]
pub struct SubmitJob {
    /// The id of an installed job.
    pub job: Option<String>,
    /// The path of a definition that is not installed.
    pub file: Option<String>,
    /// A definition.
    pub yaml: Option<String>,
    /// Values for the job's parameters, by name.
    pub params: Option<Vec<(String, String)>>,
    /// How long to wait for the run to finish.
    pub wait_seconds: Option<u64>,
}

/// The one way in which a definition was named.
#[derive(Clone, Debug)]
pub enum SubmitJobDefinition {
    Job(String),
    File(String),
    Yaml(String),
}

/// The ways in which a definition is named.
pub open spec fn given(args: SubmitJob) -> Seq<Seq<char>> {
    (if args.job is Some {
        seq!["job"@]
    } else {
        Seq::empty()
    }) + (if args.file is Some {
        seq!["file"@]
    } else {
        Seq::empty()
    }) + (if args.yaml is Some {
        seq!["yaml"@]
    } else {
        Seq::empty()
    })
}

/// Why a definition that is not named in exactly one way is refused.
pub open spec fn not_one_definition(args: SubmitJob) -> Seq<char> {
    if given(args).len() == 0 {
        "Name exactly one of job, file or yaml to submit a job; none was given."@
    } else {
        "Name exactly one of job, file or yaml to submit a job; got "@ + joined(
            given(args),
            " and "@,
        ) + "."@
    }
}

/// Whether a definition is the one that the arguments name.
pub open spec fn is_named(args: SubmitJob, definition: SubmitJobDefinition) -> bool {
    match definition {
        SubmitJobDefinition::Job(job) => args.job matches Some(named) && job@ == named@,
        SubmitJobDefinition::File(file) => args.file matches Some(named) && file@ == named@,
        SubmitJobDefinition::Yaml(yaml) => args.yaml matches Some(named) && yaml@ == named@,
    }
}

/// Finds the one way in which a definition is named, and refuses where there is none or more
/// than one.
pub fn resolve_definition(args: &SubmitJob) -> (r: Result<SubmitJobDefinition, ToolError>)
    ensures
        r is Ok <==> given(*args).len() == 1,
        r matches Ok(definition) ==> is_named(*args, definition),
        r matches Err(e) ==> (e matches ToolError::Other(text) && text@ == not_one_definition(
            *args,
        )),
{
    match (&args.job, &args.file, &args.yaml) {
        (Some(job), None, None) => {
            return Ok(SubmitJobDefinition::Job(job.as_str().to_owned()));
        },
        (None, Some(file), None) => {
            return Ok(SubmitJobDefinition::File(file.as_str().to_owned()));
        },
        (None, None, Some(yaml)) => {
            return Ok(SubmitJobDefinition::Yaml(yaml.as_str().to_owned()));
        },
        (None, None, None) => {
            return Err(
                ToolError::Other(
                    "Name exactly one of job, file or yaml to submit a job; none was given.".to_owned(),
                ),
            );
        },
        _ => {},
    }
    let mut named: Vec<String> = Vec::new();
    if args.job.is_some() {
        named.push("job".to_owned());
    }
    if args.file.is_some() {
        named.push("file".to_owned());
    }
    if args.yaml.is_some() {
        named.push("yaml".to_owned());
    }
    assert(texts(named@) =~= given(*args));
    let mut text = "Name exactly one of job, file or yaml to submit a job; got ".to_owned();
    text.append(join(&named, " and ").as_str());
    text.append(".");
    Err(ToolError::Other(text))
}

/// How a collision with an installed job is worded for a caller of this tool.
pub open spec fn collision_text(job_id: Seq<char>, jobs_dir: Seq<char>) -> Seq<char> {
    "'"@ + job_id + "' is already a job in "@ + jobs_dir
        + ". Submit it by name instead: { \"job\": \""@ + job_id + "\" }"@
}

/// Words a collision with an installed job by the argument that would name that job. Any
/// other error is left as it is.
pub fn describe_ad_hoc_job_collision(err: ToolError) -> (r: ToolError)
    ensures
        match err {
            ToolError::JobIdAlreadyInstalled { job_id, jobs_dir } => r matches ToolError::Other(
                text,
            ) && text@ == collision_text(job_id@, jobs_dir@),
            _ => r == err,
        },
{
    match err {
        ToolError::JobIdAlreadyInstalled { job_id, jobs_dir } => {
            let mut text = "'".to_owned();
            text.append(job_id.as_str());
            text.append("' is already a job in ");
            text.append(jobs_dir.as_str());
            text.append(". Submit it by name instead: { \"job\": \"");
            text.append(job_id.as_str());
            text.append("\" }");
            ToolError::Other(text)
        },
        other => other,
    }
}

/// What is to be done for a submit that is not refused.
#[derive(Clone, Debug)]
pub struct SubmitPlan {
    pub definition: SubmitJobDefinition,
    pub overrides: Vec<(String, String)>,
    pub wait_seconds: u64,
}

/// Decides on a submit before anything is written: a definition that is not named in exactly
/// one way is refused, and so is a wait that nothing would end, so that no run is left behind
/// for a server that is not there.
pub fn plan_submit(args: SubmitJob, data_dir: &str, status: &Result<ServeStatus, String>) -> (r:
    Result<SubmitPlan, ToolError>)
    ensures
        r is Ok <==> given(args).len() == 1 && (bounded_wait(args.wait_seconds) == 0 || (
        status matches Ok(status) && !(status is Down))),
        r matches Ok(plan) ==> {
            &&& is_named(args, plan.definition)
            &&& plan.wait_seconds == bounded_wait(args.wait_seconds)
            &&& match args.params {
                Some(params) => plan.overrides == params,
                None => plan.overrides@.len() == 0,
            }
        },
        given(args).len() != 1 ==> (r matches Err(ToolError::Other(text)) && text@
            == not_one_definition(args)),
        given(args).len() == 1 && r is Err ==> match status {
            Ok(_) => r matches Err(ToolError::Other(text)) && text@ == unserved_wait(data_dir@),
            Err(e) => r matches Err(ToolError::Other(text)) && text@ == e@,
        },
{
    let definition = match resolve_definition(&args) {
        Ok(definition) => definition,
        Err(e) => {
            return Err(e);
        },
    };
    let wait_seconds: u64 = clamp_wait_seconds(args.wait_seconds);
    match check_wait(data_dir, wait_seconds, status) {
        Ok(()) => {},
        Err(e) => {
            return Err(e);
        },
    }
    let overrides = match args.params {
        Some(params) => params,
        None => Vec::new(),
    };
    Ok(SubmitPlan { definition, overrides, wait_seconds })
}

/// A definition is named in exactly one way where one of the three is given and the other two
/// are not; a way is counted exactly where it is given, the job first and the text last.
pub proof fn each_way_counts_once(args: SubmitJob)
    ensures
        given(args).len() == (if args.job is Some { 1int } else { 0 }) + (if args.file is Some {
            1int
        } else {
            0
        }) + (if args.yaml is Some { 1int } else { 0 }),
        args.job is Some ==> given(args)[0] == "job"@,
        args.yaml is Some ==> given(args).last() == "yaml"@,
        args.file is Some ==> given(args).contains("file"@),
{
    if args.file is Some {
        assert(given(args)[if args.job is Some { 1int } else { 0 }] == "file"@);
    }
}

/// What is submitted is what was named, and in the way it was named: the one of the three
/// that was given.
pub proof fn a_definition_is_the_one_that_was_given(args: SubmitJob, definition: SubmitJobDefinition)
    requires
        given(args).len() == 1,
        is_named(args, definition),
    ensures
        args.job is Some <==> definition is Job,
        args.file is Some <==> definition is File,
        args.yaml is Some <==> definition is Yaml,
        match definition {
            SubmitJobDefinition::Job(text) => text@ == args.job->0@,
            SubmitJobDefinition::File(text) => text@ == args.file->0@,
            SubmitJobDefinition::Yaml(text) => text@ == args.yaml->0@,
        },
{
}

} // verus!
