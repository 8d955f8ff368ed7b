//! Laying an example job, an example schedule and a configuration into a data directory.
use vstd::prelude::*;
use vstd::string::*;

verus! {

/// What is asked: nothing, as the directory is the server's own.
#[derive(Clone, Copy, Debug)]
pub struct InitDataDir {}

/// A file, and whether it was written rather than found.
#[derive(Clone, Debug)]
pub struct InitFile {
    pub path: String,
    pub created: bool,
}

/// What was laid where.
#[derive(Clone, Debug)]
pub struct InitResult {
    pub data_dir: String,
    pub files: Vec<InitFile>,
}

/// Decides which files to write: each that is not there yet. One that is there is kept as it
/// is.
pub fn init_result(data_dir: &str, job: bool, schedule: bool, config: bool) -> (r: InitResult)
    ensures
        r.data_dir@ == data_dir@,
        r.files@.len() == 3,
        r.files@[0].path@ == "jobs/hello.yaml"@ && r.files@[0].created == !job,
        r.files@[1].path@ == "schedules/daily-hello.yaml"@ && r.files@[1].created == !schedule,
        r.files@[2].path@ == "config.toml"@ && r.files@[2].created == !config,
{
    let mut files: Vec<InitFile> = Vec::new();
    files.push(InitFile { path: "jobs/hello.yaml".to_owned(), created: !job });
    files.push(InitFile { path: "schedules/daily-hello.yaml".to_owned(), created: !schedule });
    files.push(InitFile { path: "config.toml".to_owned(), created: !config });
    InitResult { data_dir: data_dir.to_owned(), files }
}

} // verus!
