//! What the dashboard's pages show, and which requests it serves.
pub mod assets;
pub mod dag;
pub mod home;
pub mod job_run;
pub mod job_run_table;
pub mod jobs;
pub mod limits_panel;
pub mod pages;
pub mod same_origin;
pub mod schedules;
pub mod task_run;
