//! What is submitted ahead of its time, and what is deleted after it.
use flowlite::config::AppConfigRetention;
use flowlite::models::JobRun;
use flowlite::poller::{
    describe_row_failure, describe_select_failure, next, start, PollerAction, PollerEvent,
    Service, POLL_INTERVAL, RESTART_PAUSE,
};
use flowlite::retention::{remaining_budget, select, RetentionRow};
use flowlite::scheduler::{
    occupying_statuses, reconcile_schedule, OccurrenceRun, ScheduleJob, Submission,
};
use flowlite::serve_state::{
    acquire, lock_path, state_dir, state_path, status, LockAttempt, ServeState, ServeStatus,
};
use flowlite::services::{
    JobRunMonitor, NotificationService, RetentionService, Scheduler, TaskRunAttemptMonitor,
};
use flowlite::models::TaskRunAttempt;
use flowlite::notifications::service::{JobRunNotification, NotifyOn};
use flowlite::notifications::NotificationChannel;
use flowlite::status::{JobRunStatus, TaskRunAttemptStatus};
use flowlite::time::Timestamp;

fn at(seconds: i64) -> Timestamp {
    Timestamp::new(seconds, 0).unwrap()
}

// Scheduling.

fn jobs(ids: &[&str]) -> Vec<ScheduleJob> {
    ids.iter().map(|id| ScheduleJob { job_id: id.to_string(), parameters: vec![] }).collect()
}

fn occurrences(seconds: &[i64]) -> Vec<Timestamp> {
    seconds.iter().map(|seconds| at(*seconds)).collect()
}

fn run(job_id: &str, schedule_id: Option<&str>, seconds: i64, status: JobRunStatus) -> OccurrenceRun {
    OccurrenceRun {
        job_id: job_id.to_string(),
        schedule_id: schedule_id.map(str::to_string),
        scheduled_at: at(seconds),
        status,
    }
}

/// Submits what is missing.
fn pass(runs: &mut Vec<OccurrenceRun>, occurrences: &[i64], job_ids: &[&str]) -> Vec<Submission> {
    let when: Vec<Timestamp> = self::occurrences(occurrences);
    let schedule_jobs = jobs(job_ids);
    let plan = reconcile_schedule(runs, "nightly", &when, &schedule_jobs);
    for submission in &plan {
        runs.push(run(
            job_ids[submission.job],
            Some("nightly"),
            occurrences[submission.occurrence],
            JobRunStatus::Scheduled,
        ));
    }
    plan
}

#[test]
fn a_schedule_submits_its_next_occurrence_before_it_is_due() {
    let mut runs = vec![];
    assert_eq!(pass(&mut runs, &[100], &["job"]), vec![Submission { occurrence: 0, job: 0 }]);
}

#[test]
fn a_second_pass_submits_nothing_new() {
    let mut runs = vec![];
    pass(&mut runs, &[100], &["job"]);
    assert!(pass(&mut runs, &[100], &["job"]).is_empty());
    assert_eq!(runs.len(), 1);
}

#[test]
fn a_released_occurrence_is_topped_up_on_the_next_pass() {
    let mut runs = vec![run("job", Some("nightly"), 50, JobRunStatus::Queued)];
    assert_eq!(pass(&mut runs, &[100], &["job"]).len(), 1);
}

#[test]
fn a_stopped_future_occurrence_is_not_submitted_again() {
    let mut runs = vec![];
    pass(&mut runs, &[100], &["job"]);
    runs[0].status = JobRunStatus::Skipped;
    assert!(pass(&mut runs, &[100], &["job"]).is_empty());
}

#[test]
fn a_deleted_occurrence_is_submitted_again() {
    let mut runs = vec![];
    pass(&mut runs, &[100], &["job"]);
    runs[0].status = JobRunStatus::Deleted;
    assert_eq!(pass(&mut runs, &[100], &["job"]).len(), 1);
    assert_eq!(runs.len(), 2);
    assert_eq!(runs[1].status, JobRunStatus::Scheduled);
}

#[test]
fn an_occurrence_already_submitted_is_not_submitted_again_after_a_restart() {
    let mut runs = vec![run("job", Some("nightly"), 100, JobRunStatus::Scheduled)];
    assert!(pass(&mut runs, &[100], &["job"]).is_empty());
}

#[test]
fn every_job_of_a_schedule_gets_its_own_run() {
    let mut runs = vec![];
    pass(&mut runs, &[100], &["job", "second-job"]);
    pass(&mut runs, &[100], &["job", "second-job"]);
    assert_eq!(runs.len(), 2);
    assert_ne!(runs[0].job_id, runs[1].job_id);
}

#[test]
fn raising_submit_ahead_submits_the_extra_occurrences() {
    let mut runs = vec![];
    pass(&mut runs, &[100], &["job"]);
    pass(&mut runs, &[100, 200, 300], &["job"]);
    assert_eq!(runs.len(), 3);
}

#[test]
fn lowering_submit_ahead_leaves_the_runs_already_submitted() {
    let mut runs = vec![];
    pass(&mut runs, &[100, 200, 300], &["job"]);
    assert!(pass(&mut runs, &[100], &["job"]).is_empty());
    assert_eq!(runs.len(), 3);
}

#[test]
fn a_run_nobody_scheduled_does_not_stand_in_for_an_occurrence() {
    let mut runs = vec![run("job", None, 100, JobRunStatus::Scheduled)];
    assert_eq!(pass(&mut runs, &[100], &["job"]).len(), 1);
    let mut runs = vec![run("job", Some("weekly"), 100, JobRunStatus::Scheduled)];
    assert_eq!(pass(&mut runs, &[100], &["job"]).len(), 1);
}

#[test]
fn a_job_named_twice_is_submitted_once() {
    let mut runs = vec![];
    assert_eq!(pass(&mut runs, &[100], &["job", "job"]).len(), 1);
}

#[test]
fn only_a_deleted_run_frees_its_occurrence() {
    let statuses = occupying_statuses();
    for status in JobRunStatus::ALL {
        assert_eq!(statuses.contains(&status), status != JobRunStatus::Deleted);
    }
}

// Retention.

fn rows(statuses: &[(&str, JobRunStatus)]) -> Vec<RetentionRow> {
    statuses
        .iter()
        .enumerate()
        .map(|(i, (job_id, status))| RetentionRow {
            id: i as i64 + 1,
            job_id: job_id.to_string(),
            status: *status,
            owes_notification: false,
        })
        .collect()
}

fn finished(jobs: &[&str]) -> Vec<RetentionRow> {
    let statuses: Vec<(&str, JobRunStatus)> =
        jobs.iter().map(|job| (*job, JobRunStatus::Succeeded)).collect();
    rows(&statuses)
}

fn keep(jobs: &[(&str, u32)]) -> Vec<(String, u32)> {
    jobs.iter().map(|(job, n)| (job.to_string(), *n)).collect()
}

fn config(keep_runs_total: u32, max_deletes_per_pass: u32) -> AppConfigRetention {
    AppConfigRetention { keep_runs_total, max_deletes_per_pass }
}

#[test]
fn keep_runs_keeps_the_newest_n() {
    let rows = finished(&["job"; 5]);
    assert_eq!(select(&rows, &keep(&[("job", 3)]), 100, &config(0, 0)), vec![1, 2]);
}

#[test]
fn queued_and_running_runs_are_never_selected() {
    let rows = rows(&[
        ("job", JobRunStatus::Queued),
        ("job", JobRunStatus::Running),
        ("job", JobRunStatus::Succeeded),
        ("job", JobRunStatus::Succeeded),
        ("job", JobRunStatus::Succeeded),
    ]);
    assert_eq!(select(&rows, &keep(&[("job", 1)]), 100, &config(1, 0)), vec![3, 4]);
}

#[test]
fn a_pending_notification_survives_until_sent() {
    let mut rows = finished(&["job"; 2]);
    rows[0].owes_notification = true;
    assert!(select(&rows, &keep(&[("job", 1)]), 100, &config(0, 0)).is_empty());
    rows[0].owes_notification = false;
    assert_eq!(select(&rows, &keep(&[("job", 1)]), 100, &config(0, 0)), vec![1]);
}

#[test]
fn keep_runs_zero_is_skipped_by_the_per_job_rule_but_not_by_the_global_ceiling() {
    let rows = finished(&["job"; 3]);
    assert!(select(&rows, &keep(&[("job", 0)]), 100, &config(0, 0)).is_empty());
    assert_eq!(select(&rows, &keep(&[("job", 0)]), 100, &config(1, 0)), vec![1, 2]);
}

#[test]
fn keep_runs_total_selects_oldest_first_across_jobs() {
    let rows = finished(&["job-a", "job-b", "job-a", "job-b"]);
    assert_eq!(select(&rows, &keep(&[]), 100, &config(2, 0)), vec![1, 2]);
}

#[test]
fn a_job_with_no_mem_row_is_judged_by_job_defaults_keep_runs() {
    let rows = finished(&["job"; 5]);
    assert_eq!(select(&rows, &keep(&[]), 2, &config(0, 0)), vec![1, 2, 3]);
}

#[test]
fn a_pass_is_capped_at_max_deletes_per_pass_and_the_next_pass_continues() {
    let mut rows = finished(&["job"; 5]);
    assert_eq!(select(&rows, &keep(&[("job", 0)]), 100, &config(1, 2)), vec![1, 2]);
    rows.drain(0..2);
    assert_eq!(select(&rows, &keep(&[("job", 0)]), 100, &config(1, 2)), vec![3, 4]);
}

#[test]
fn the_newest_run_of_a_job_is_never_selected() {
    let rows = finished(&["job"; 4]);
    let ids = select(&rows, &keep(&[("job", 1)]), 100, &config(0, 0));
    assert!(!ids.is_empty());
    assert!(!ids.contains(&4));
}

#[test]
fn a_budgeted_per_job_pass_deletes_the_oldest_runs_first() {
    let mut rows = finished(&["job"; 5]);
    assert_eq!(select(&rows, &keep(&[("job", 3)]), 100, &config(0, 1)), vec![1]);
    rows.remove(0);
    assert_eq!(select(&rows, &keep(&[("job", 3)]), 100, &config(0, 1)), vec![2]);
}

#[test]
fn the_two_rules_share_a_budget_and_select_no_run_twice() {
    let rows = finished(&["a", "a", "a", "b", "b"]);
    // The rule of each job takes run 1 and 2; the ceiling would take those and run 3.
    let keeps = keep(&[("a", 1), ("b", 0)]);
    assert_eq!(select(&rows, &keeps, 100, &config(2, 0)), vec![1, 2, 3]);
    assert_eq!(select(&rows, &keeps, 100, &config(2, 2)), vec![1, 2]);
    assert_eq!(remaining_budget(0, 7), None);
    assert_eq!(remaining_budget(5, 7), Some(0));
    assert_eq!(remaining_budget(7, 5), Some(2));
}

// Polling.

#[test]
fn a_select_error_restarts_the_loop_after_five_seconds() {
    let state = next(start(), PollerEvent::SelectFailed, RESTART_PAUSE);
    assert_eq!(state.action, PollerAction::Pause(5));
    assert_eq!(next(state, PollerEvent::Paused, RESTART_PAUSE).action, PollerAction::Select);
    assert_eq!(POLL_INTERVAL, 1);
    assert_eq!(
        describe_select_failure("Counting Service", RESTART_PAUSE, "select failed"),
        "Counting Service error, restarting in 5s: select failed",
    );
}

#[test]
fn the_pause_before_a_restart_is_as_configured() {
    let state = next(start(), PollerEvent::SelectFailed, 30);
    assert_eq!(state.action, PollerAction::Pause(30));
    assert_eq!(
        describe_select_failure("Scheduler", 30, "locked"),
        "Scheduler error, restarting in 30s: locked",
    );
}

#[test]
fn a_failing_row_does_not_stop_the_next_row() {
    let state = next(start(), PollerEvent::Selected(2), RESTART_PAUSE);
    assert_eq!(state.action, PollerAction::Handle(0));
    let state = next(state, PollerEvent::HandleFailed, RESTART_PAUSE);
    assert_eq!(state.action, PollerAction::Handle(1));
    let state = next(state, PollerEvent::Handled, RESTART_PAUSE);
    assert_eq!(state.action, PollerAction::Wait);
    assert_eq!(
        describe_row_failure("Counting Service", "row 1", "handle failed"),
        "Counting Service error on row 1: handle failed",
    );
}

#[test]
fn a_wake_up_selects_before_the_interval_elapses() {
    let state = next(start(), PollerEvent::Selected(0), RESTART_PAUSE);
    assert_eq!(state.action, PollerAction::Wait);
    assert_eq!(next(state, PollerEvent::Woken, RESTART_PAUSE).action, PollerAction::Select);
    assert_eq!(next(state, PollerEvent::Handled, RESTART_PAUSE), state);
}

#[test]
fn services_name_themselves_and_their_rows() {
    assert_eq!(RetentionService {}.name(), "retention");
    assert_eq!(RetentionService {}.row_context(&7), "job run 7");
    assert_eq!(Scheduler {}.name(), "Scheduler");
    let job_run = JobRun {
        id: 9,
        job_id: "job".to_string(),
        job_name: "Job".to_string(),
        job_description: String::new(),
        parameters: vec![],
        created_at: at(0),
        schedule_id: None,
        scheduled_at: None,
        started_at: None,
        finished_at: None,
        status: JobRunStatus::Running,
    };
    assert_eq!(JobRunMonitor {}.name(), "Job Run Monitor");
    assert_eq!(JobRunMonitor {}.row_context(&job_run), "job run 9");
    let attempt = TaskRunAttempt {
        id: 5,
        task_run_id: 3,
        job_run_id: 1,
        job_id: "job".to_string(),
        task_id: "task".to_string(),
        attempt: 1,
        created_at: at(0),
        started_at: None,
        finished_at: None,
        status: TaskRunAttemptStatus::Running,
        process_group_id: None,
    };
    assert_eq!(
        TaskRunAttemptMonitor {}.row_context(&attempt),
        "task run attempt 5 of task run 3",
    );
    let notification = JobRunNotification {
        id: 2,
        job_run_id: 9,
        notify_on: NotifyOn::Success,
        channel: NotificationChannel::Email,
        recipients: vec![],
    };
    assert_eq!(
        NotificationService {}.row_context(&notification),
        "job run notification 2 of job run 9, on success by email",
    );
}

// Serving.

fn served() -> ServeState {
    ServeState {
        pid: 4242,
        address: "127.0.0.1".to_string(),
        port: 8001,
        started_at: at(0),
        version: "0.1.0".to_string(),
    }
}

#[test]
fn a_directory_nothing_serves_is_down() {
    assert!(matches!(status(LockAttempt::NoFile, None), ServeStatus::Down));
}

#[test]
fn a_held_lock_with_no_state_file_is_starting() {
    assert!(matches!(status(LockAttempt::Held, None), ServeStatus::Starting));
}

#[test]
fn a_held_lock_with_a_state_file_is_up_and_reports_it() {
    match status(LockAttempt::Held, Some(served())) {
        ServeStatus::Up(state) => {
            assert_eq!((state.pid, state.port), (4242, 8001));
        }
        other => panic!("{:?}", other),
    }
}

#[test]
fn a_state_file_left_behind_by_a_dead_process_reads_as_down() {
    assert!(matches!(status(LockAttempt::Taken, Some(served())), ServeStatus::Down));
}

#[test]
fn a_second_acquire_is_refused_naming_the_holder() {
    let error = acquire("./d1", false, &Some(served())).unwrap_err();
    assert_eq!(
        error,
        "another flowlite serve is already running on ./d1 (pid 4242, http://127.0.0.1:8001)",
    );
}

#[test]
fn a_second_acquire_is_refused_before_the_holder_has_written_its_state() {
    let error = acquire("./d1", false, &None).unwrap_err();
    assert_eq!(error, "another flowlite serve is already starting up on ./d1");
}

#[test]
fn a_released_lock_can_be_taken_again() {
    assert!(acquire("./d1", true, &Some(served())).is_ok());
}

#[test]
fn a_server_keeps_its_state_below_the_data_directory() {
    assert_eq!(state_dir("./d1"), "./d1/.flowlite");
    assert_eq!(lock_path("./d1/"), "./d1/.flowlite/serve.lock");
    assert_eq!(state_path("./d1"), "./d1/.flowlite/serve.json");
    assert_eq!(state_dir(""), ".flowlite");
}
