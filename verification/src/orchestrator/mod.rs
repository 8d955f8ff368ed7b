//! What turns a submitted job run into finished task runs.
pub mod recovery;
pub mod task_run_attempt_monitor;
pub mod task_run_monitor;
pub mod job_run_dispatcher;
pub mod job_run_releaser;
pub mod task_run_dispatcher;
pub mod job_run_monitor;
pub mod task_run_attempt_dispatcher;
pub mod task_run_attempt_env;
pub mod task_run_attempt_reader;
