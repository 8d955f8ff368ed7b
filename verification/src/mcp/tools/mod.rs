//! One module for each tool: what it is asked, and what it decides.
pub mod delete_job_run;
pub mod get_job_run;
pub mod get_serve_status;
pub mod get_task_output;
pub mod init_data_dir;
pub mod list_job_runs;
pub mod list_limits;
pub mod result;
pub mod stop_job_run;
pub mod submit_job;
