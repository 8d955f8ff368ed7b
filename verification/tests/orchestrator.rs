//! Where runs, task runs and attempts go from where they stand.
use flowlite::models::{
    JobRun, TaskRun, TaskRunAttempt, TaskRunAttemptOutputStream, TaskRunAttemptOutputStreams,
};
use flowlite::orchestrator::job_run_dispatcher;
use flowlite::orchestrator::job_run_monitor;
use flowlite::orchestrator::job_run_releaser::handle_submitted_job_run;
use flowlite::orchestrator::recovery::{boot_time, recover_orphaned_task_run_attempt};
use flowlite::orchestrator::task_run_attempt_dispatcher::{
    decide, describe_spawn_failure, plan_spawn, record_decision, record_spawn, Admission,
    AttemptDecision,
};
use flowlite::orchestrator::task_run_attempt_monitor::{
    actions, attempt_streams, finish_task_run_attempt, gather, insert_output,
    settle_task_run_attempt, AttemptAction, AttemptStep, ProcessState,
};
use flowlite::orchestrator::task_run_attempt_reader::{
    take_valid_utf8, truncate_at_char_boundary, StreamRecorder, TaskRunAttemptOutputChunk,
    MAX_STREAM_BYTES,
};
use flowlite::orchestrator::task_run_dispatcher;
use flowlite::orchestrator::task_run_monitor::{self, TaskRunStep};
use flowlite::status::{JobRunStatus, TaskRunAttemptStatus, TaskRunStatus};
use flowlite::time::Timestamp;
use flowlite::vars::Vars;

fn at(seconds: i64) -> Timestamp {
    Timestamp::new(seconds, 0).unwrap()
}

fn job_run(status: JobRunStatus) -> JobRun {
    JobRun {
        id: 1,
        job_id: "job".to_string(),
        job_name: "Job".to_string(),
        job_description: String::new(),
        parameters: vec![],
        created_at: at(0),
        schedule_id: None,
        scheduled_at: None,
        started_at: None,
        finished_at: None,
        status,
    }
}

fn due(seconds: i64) -> JobRun {
    JobRun { scheduled_at: Some(at(seconds)), ..job_run(JobRunStatus::Scheduled) }
}

#[test]
fn a_run_that_is_not_dated_is_due_when_it_is_submitted() {
    let mut run = job_run(JobRunStatus::Scheduled);
    run.created_at = at(10);
    assert!(handle_submitted_job_run(&run, &at(9), false).is_none());
    assert!(handle_submitted_job_run(&run, &at(10), false).is_some());
}

fn task_run(status: TaskRunStatus) -> TaskRun {
    TaskRun {
        id: 3,
        job_run_id: 1,
        job_id: "job".to_string(),
        task_id: "task".to_string(),
        command: "true".to_string(),
        depends_on: vec![],
        timeout: 60,
        max_retries: 2,
        retry_delay: 60,
        env: vec![],
        secret_env: vec![],
        limits: vec![],
        working_dir: String::new(),
        created_at: at(0),
        started_at: None,
        finished_at: None,
        status,
    }
}

fn attempt(number: u32, status: TaskRunAttemptStatus) -> TaskRunAttempt {
    TaskRunAttempt {
        id: 5,
        task_run_id: 3,
        job_run_id: 1,
        job_id: "job".to_string(),
        task_id: "task".to_string(),
        attempt: number,
        created_at: at(1000),
        started_at: None,
        finished_at: None,
        status,
        process_group_id: None,
    }
}

// Releasing and starting job runs.

#[test]
fn a_run_whose_time_has_come_is_released() {
    let update = handle_submitted_job_run(&due(10), &at(10), false).unwrap();
    assert_eq!(update.status, Some(JobRunStatus::Queued));
}

#[test]
fn a_run_that_is_not_due_is_left_alone() {
    assert!(handle_submitted_job_run(&due(11), &at(10), false).is_none());
}

#[test]
fn a_stopped_run_is_released_early_so_it_can_be_skipped() {
    let update = handle_submitted_job_run(&due(11), &at(10), true).unwrap();
    assert_eq!(update.status, Some(JobRunStatus::Queued));
    assert_eq!(job_run_dispatcher::derive_next_status(true, false), JobRunStatus::Skipped);
}

#[test]
fn a_stopped_job_run_is_skipped_along_with_its_task_runs() {
    assert_eq!(job_run_dispatcher::derive_next_status(true, true), JobRunStatus::Skipped);
    assert_eq!(
        task_run_dispatcher::derive_next_status(true, &Ok(vec![])),
        TaskRunStatus::Skipped,
    );
}

#[test]
fn a_job_with_as_many_runs_as_it_may_have_waits() {
    assert!(job_run_dispatcher::is_job_at_max_parallel_runs(2, Some(2)));
    assert!(!job_run_dispatcher::is_job_at_max_parallel_runs(1, Some(2)));
    assert!(!job_run_dispatcher::is_job_at_max_parallel_runs(9, Some(0)));
    assert!(!job_run_dispatcher::is_job_at_max_parallel_runs(9, None));
    assert_eq!(job_run_dispatcher::derive_next_status(false, true), JobRunStatus::Queued);
    assert_eq!(job_run_dispatcher::derive_next_status(false, false), JobRunStatus::Running);
}

#[test]
fn starting_a_job_run_releases_its_task_runs() {
    let start = job_run_dispatcher::set_to_running(at(7));
    assert_eq!(start.task_runs.status, Some(TaskRunStatus::Waiting));
    assert!(start.task_runs.started_at.is_none());
    assert_eq!(start.job_run.status, Some(JobRunStatus::Running));
    assert_eq!(start.job_run.started_at.unwrap().unwrap().seconds(), 7);
}

#[test]
fn starting_a_job_run_leaves_a_finished_task_run_alone() {
    assert!(job_run_dispatcher::release(&task_run(TaskRunStatus::Succeeded)).is_none());
    assert!(job_run_dispatcher::release(&task_run(TaskRunStatus::Waiting)).is_none());
    let update = job_run_dispatcher::release(&task_run(TaskRunStatus::Planned)).unwrap();
    assert_eq!(update.status, Some(TaskRunStatus::Waiting));
    assert!(update.started_at.is_none() && update.finished_at.is_none());
}

#[test]
fn closing_a_job_run_leaves_a_finished_task_run_alone() {
    let closing = job_run_dispatcher::set_to_skipped(at(7));
    let succeeded = task_run(TaskRunStatus::Succeeded);
    assert!(job_run_dispatcher::close(&succeeded, &closing).is_none());
    let planned = task_run(TaskRunStatus::Planned);
    let update = job_run_dispatcher::close(&planned, &closing).unwrap();
    assert_eq!(update.status, Some(TaskRunStatus::Skipped));
    assert_eq!(update.finished_at, Some(Some(at(7))));
}

// Ending job runs.

fn ended(task_runs: &[TaskRunStatus]) -> JobRunStatus {
    job_run_monitor::derive_next_status(&task_runs.to_vec())
}

#[test]
fn every_task_run_succeeding_succeeds_the_job_run() {
    assert_eq!(
        ended(&[TaskRunStatus::Succeeded, TaskRunStatus::Succeeded]),
        JobRunStatus::Succeeded,
    );
}

#[test]
fn a_job_run_with_no_task_runs_succeeds() {
    assert_eq!(ended(&[]), JobRunStatus::Succeeded);
}

#[test]
fn an_unfinished_task_run_keeps_the_job_run_running() {
    for status in [TaskRunStatus::Planned, TaskRunStatus::Waiting, TaskRunStatus::Running] {
        assert_eq!(ended(&[TaskRunStatus::Succeeded, status]), JobRunStatus::Running);
    }
}

#[test]
fn a_failure_does_not_finish_a_job_run_whose_work_is_still_going() {
    assert_eq!(ended(&[TaskRunStatus::Failed, TaskRunStatus::Running]), JobRunStatus::Running);
}

#[test]
fn a_failed_task_run_outranks_an_aborted_one() {
    assert_eq!(ended(&[TaskRunStatus::Aborted, TaskRunStatus::Failed]), JobRunStatus::Failed);
}

#[test]
fn a_failed_task_run_outranks_a_timed_out_one() {
    assert_eq!(ended(&[TaskRunStatus::TimedOut, TaskRunStatus::Failed]), JobRunStatus::Failed);
}

#[test]
fn a_timed_out_task_run_outranks_an_aborted_one() {
    assert_eq!(ended(&[TaskRunStatus::Aborted, TaskRunStatus::TimedOut]), JobRunStatus::TimedOut);
}

#[test]
fn a_skipped_task_run_with_no_failure_aborts_the_job_run() {
    assert_eq!(ended(&[TaskRunStatus::Succeeded, TaskRunStatus::Skipped]), JobRunStatus::Aborted);
}

#[test]
fn an_invalid_task_run_outranks_everything() {
    assert_eq!(ended(&[TaskRunStatus::Failed, TaskRunStatus::Invalid]), JobRunStatus::Invalid);
}

#[test]
fn a_failed_job_run_queues_a_notification_to_everyone_it_names() {
    let emails = vec!["a@example.com".to_string(), "b@example.com".to_string()];
    let ending = job_run_monitor::update_job_run_status(
        &job_run(JobRunStatus::Running),
        &emails,
        JobRunStatus::Failed,
        at(9),
    );
    assert_eq!(ending.update.status, Some(JobRunStatus::Failed));
    assert_eq!(ending.update.finished_at.unwrap().unwrap().seconds(), 9);
    let notification = ending.notification.unwrap();
    assert_eq!(notification.job_run_id, 1);
    assert_eq!(notification.recipients, emails);
}

fn is_told(status: JobRunStatus, emails: &[&str]) -> bool {
    let emails = emails.iter().map(|email| email.to_string()).collect();
    job_run_monitor::update_job_run_status(&job_run(JobRunStatus::Running), &emails, status, at(9))
        .notification
        .is_some()
}

#[test]
fn a_timed_out_job_run_queues_a_notification_too() {
    assert!(is_told(JobRunStatus::TimedOut, &["a@example.com"]));
}

#[test]
fn a_succeeded_job_run_queues_nothing() {
    assert!(!is_told(JobRunStatus::Succeeded, &["a@example.com"]));
}

#[test]
fn an_aborted_job_run_queues_nothing() {
    assert!(!is_told(JobRunStatus::Aborted, &["a@example.com"]));
}

#[test]
fn a_failed_job_run_naming_nobody_queues_nothing() {
    assert!(!is_told(JobRunStatus::Failed, &[]));
}

// Starting task runs.

#[test]
fn a_dependent_of_an_invalid_task_run_is_skipped() {
    assert_eq!(
        task_run_dispatcher::derive_next_status(false, &Ok(vec![TaskRunStatus::Invalid])),
        TaskRunStatus::Skipped,
    );
}

#[test]
fn a_task_run_whose_dependency_succeeded_still_starts() {
    assert_eq!(
        task_run_dispatcher::derive_next_status(false, &Ok(vec![TaskRunStatus::Succeeded])),
        TaskRunStatus::Running,
    );
    let update = task_run_dispatcher::record_status(TaskRunStatus::Running, at(4)).unwrap();
    assert_eq!(update.started_at.unwrap().unwrap().seconds(), 4);
}

#[test]
fn a_dependent_of_a_planned_task_run_keeps_waiting() {
    assert_eq!(
        task_run_dispatcher::derive_next_status(
            false,
            &Ok(vec![TaskRunStatus::Succeeded, TaskRunStatus::Planned]),
        ),
        TaskRunStatus::Waiting,
    );
    assert!(task_run_dispatcher::record_status(TaskRunStatus::Waiting, at(4)).is_none());
}

#[test]
fn dependencies_are_looked_up_by_name_in_the_same_run() {
    let mut extract = task_run(TaskRunStatus::Succeeded);
    extract.task_id = "extract".to_string();
    let mut elsewhere = extract.clone();
    elsewhere.job_run_id = 99;
    elsewhere.status = TaskRunStatus::Failed;
    let mut load = task_run(TaskRunStatus::Waiting);
    load.depends_on = vec!["extract".to_string()];
    let task_runs = vec![elsewhere, load.clone(), extract];
    let statuses = task_run_dispatcher::get_dependent_task_runs(&load, &task_runs).unwrap();
    assert_eq!(statuses, vec![TaskRunStatus::Succeeded]);

    load.depends_on = vec!["extract".to_string(), "nowhere".to_string()];
    let missing = task_run_dispatcher::get_dependent_task_runs(&load, &task_runs);
    assert_eq!(
        missing.as_ref().unwrap_err().message(),
        "Task run not found for task_id: nowhere, job_run_id: 1",
    );
    assert_eq!(
        task_run_dispatcher::derive_next_status(false, &missing),
        TaskRunStatus::Invalid,
    );
}

// Trying task runs.

fn after(number: u32, status: TaskRunAttemptStatus) -> TaskRunStep {
    task_run_monitor::derive_next_status(
        &task_run(TaskRunStatus::Running),
        Some(&attempt(number, status)),
    )
}

#[test]
fn a_succeeded_attempt_succeeds_the_task_run() {
    let step = after(1, TaskRunAttemptStatus::Succeeded);
    assert_eq!(step, TaskRunStep::Settle(TaskRunStatus::Succeeded));
    let update = task_run_monitor::record_step(step, at(3)).unwrap();
    assert_eq!(update.finished_at.unwrap().unwrap().seconds(), 3);
}

#[test]
fn an_unfinished_attempt_is_left_to_the_attempt_services() {
    assert_eq!(after(1, TaskRunAttemptStatus::Queued), TaskRunStep::Wait);
    assert_eq!(after(1, TaskRunAttemptStatus::Running), TaskRunStep::Wait);
    assert!(task_run_monitor::record_step(TaskRunStep::Wait, at(3)).is_none());
}

#[test]
fn a_failed_attempt_with_retries_left_starts_the_next_one() {
    assert_eq!(after(2, TaskRunAttemptStatus::Failed), TaskRunStep::Attempt(3));
}

#[test]
fn a_failed_last_attempt_fails_the_task_run() {
    assert_eq!(
        after(3, TaskRunAttemptStatus::Failed),
        TaskRunStep::Settle(TaskRunStatus::Failed),
    );
}

#[test]
fn a_task_run_with_no_retries_fails_on_its_first_attempt() {
    let mut once = task_run(TaskRunStatus::Running);
    once.max_retries = 0;
    assert_eq!(
        task_run_monitor::derive_next_status(&once, Some(&attempt(1, TaskRunAttemptStatus::Failed))),
        TaskRunStep::Settle(TaskRunStatus::Failed),
    );
}

#[test]
fn a_timed_out_attempt_times_out_the_task_run() {
    assert_eq!(
        after(1, TaskRunAttemptStatus::TimedOut),
        TaskRunStep::Settle(TaskRunStatus::TimedOut),
    );
}

#[test]
fn an_aborted_attempt_aborts_the_task_run() {
    assert_eq!(
        after(1, TaskRunAttemptStatus::Aborted),
        TaskRunStep::Settle(TaskRunStatus::Aborted),
    );
}

#[test]
fn a_skipped_attempt_aborts_the_task_run_rather_than_skipping_it() {
    assert_eq!(
        after(1, TaskRunAttemptStatus::Skipped),
        TaskRunStep::Settle(TaskRunStatus::Aborted),
    );
}

#[test]
fn a_running_task_run_with_no_attempt_gets_its_first_one() {
    let running = task_run(TaskRunStatus::Running);
    assert_eq!(task_run_monitor::derive_next_status(&running, None), TaskRunStep::Attempt(1));
    let row = task_run_monitor::new_attempt(&running, 1);
    assert_eq!((row.task_run_id, row.job_run_id, row.attempt), (3, 1, 1));
    assert_eq!(row.status, TaskRunAttemptStatus::Queued);
}

#[test]
fn an_invalid_attempt_makes_the_task_run_invalid() {
    assert_eq!(
        after(3, TaskRunAttemptStatus::Invalid),
        TaskRunStep::Settle(TaskRunStatus::Invalid),
    );
}

#[test]
fn an_invalid_attempt_is_not_retried_even_with_retries_left() {
    assert_eq!(
        after(1, TaskRunAttemptStatus::Invalid),
        TaskRunStep::Settle(TaskRunStatus::Invalid),
    );
}

// Starting attempts.

fn admission(now: i64) -> Admission {
    Admission {
        now: at(now),
        stopped: false,
        max_running_attempts: 0,
        running_attempts: 0,
        concurrency_limits: vec![],
        claimed_limit_slots: vec![],
    }
}

fn waits(attempt: &TaskRunAttempt, admission: &Admission) -> bool {
    matches!(
        decide(attempt, &task_run(TaskRunStatus::Running), admission),
        AttemptDecision::Queued,
    )
}

#[test]
fn the_first_attempt_never_waits() {
    assert!(!waits(&attempt(1, TaskRunAttemptStatus::Queued), &admission(1000)));
}

#[test]
fn the_retry_waits_while_the_delay_has_not_passed() {
    assert!(waits(&attempt(2, TaskRunAttemptStatus::Queued), &admission(1059)));
}

#[test]
fn the_retry_starts_once_the_delay_has_passed() {
    assert!(!waits(&attempt(2, TaskRunAttemptStatus::Queued), &admission(1060)));
}

#[test]
fn a_retry_delay_of_zero_does_not_wait() {
    let mut eager = task_run(TaskRunStatus::Running);
    eager.retry_delay = 0;
    let retry = attempt(2, TaskRunAttemptStatus::Queued);
    let decision = decide(&retry, &eager, &admission(1000));
    assert!(matches!(decision, AttemptDecision::Start { .. }));
}

#[test]
fn a_stopped_job_run_skips_a_retry_that_is_still_inside_its_delay() {
    let mut stopped = admission(1000);
    stopped.stopped = true;
    let retry = attempt(2, TaskRunAttemptStatus::Queued);
    let decision = decide(&retry, &task_run(TaskRunStatus::Running), &stopped);
    assert!(matches!(decision, AttemptDecision::Skipped));
    let update = record_decision(&decision, at(1001)).unwrap();
    assert_eq!(update.status, Some(TaskRunAttemptStatus::Skipped));
}

#[test]
fn a_pending_attempt_stays_pending_while_the_global_cap_is_full() {
    let mut full = admission(2000);
    full.max_running_attempts = 2;
    full.running_attempts = 2;
    assert!(waits(&attempt(1, TaskRunAttemptStatus::Queued), &full));
    full.running_attempts = 1;
    assert!(!waits(&attempt(1, TaskRunAttemptStatus::Queued), &full));
}

#[test]
fn a_cap_of_zero_does_not_hold_attempts_back() {
    let mut unbounded = admission(2000);
    unbounded.running_attempts = 1000;
    assert!(!waits(&attempt(1, TaskRunAttemptStatus::Queued), &unbounded));
}

#[test]
fn a_retry_inside_its_delay_stays_pending_even_with_no_cap() {
    let mut unbounded = admission(1001);
    unbounded.max_running_attempts = 0;
    assert!(waits(&attempt(2, TaskRunAttemptStatus::Queued), &unbounded));
}

fn claiming(limits: &[&str], configured: &[(&str, u32)], claimed: &[(&str, u32)]) -> AttemptDecision {
    let counts = |pairs: &[(&str, u32)]| {
        pairs.iter().map(|(name, n)| (name.to_string(), *n)).collect::<Vec<_>>()
    };
    let mut claimant = task_run(TaskRunStatus::Running);
    claimant.limits = limits.iter().map(|name| name.to_string()).collect();
    let mut limited = admission(2000);
    limited.concurrency_limits = counts(configured);
    limited.claimed_limit_slots = counts(claimed);
    decide(&attempt(1, TaskRunAttemptStatus::Queued), &claimant, &limited)
}

#[test]
fn a_claimant_of_a_full_limit_stays_pending_while_a_non_claimant_starts() {
    let full: &[(&str, u32)] = &[("warehouse", 1)];
    assert!(matches!(claiming(&["warehouse"], full, full), AttemptDecision::Queued));
    assert!(matches!(claiming(&[], full, full), AttemptDecision::Start { .. }));
}

#[test]
fn a_claim_on_two_names_is_blocked_when_either_one_is_full() {
    let configured: &[(&str, u32)] = &[("a", 1), ("b", 1)];
    assert!(matches!(claiming(&["a", "b"], configured, &[("a", 1)]), AttemptDecision::Queued));
    assert!(matches!(claiming(&["a", "b"], configured, &[("b", 1)]), AttemptDecision::Queued));
    assert!(matches!(claiming(&["a", "b"], configured, &[]), AttemptDecision::Start { .. }));
}

#[test]
fn a_named_limit_configured_to_zero_does_not_block() {
    let decision = claiming(&["a"], &[("a", 0)], &[("a", 50)]);
    assert!(matches!(decision, AttemptDecision::Start { unconfigured } if unconfigured.is_empty()));
}

#[test]
fn a_claim_on_a_name_absent_from_config_runs() {
    let decision = claiming(&["a", "b"], &[("b", 3)], &[("a", 50)]);
    assert!(matches!(decision, AttemptDecision::Start { unconfigured } if unconfigured == ["a"]));
}

#[test]
fn a_claim_under_its_limit_runs() {
    assert!(matches!(claiming(&["a"], &[("a", 2)], &[("a", 1)]), AttemptDecision::Start { .. }));
}

#[test]
fn a_pending_attempt_already_spawned_for_is_invalid() {
    let mut begun = attempt(1, TaskRunAttemptStatus::Queued);
    begun.started_at = Some(at(1500));
    let decision = decide(&begun, &task_run(TaskRunStatus::Running), &admission(2000));
    assert!(matches!(decision, AttemptDecision::Invalid));
    let update = record_decision(&decision, at(2000)).unwrap();
    assert_eq!(update.status, Some(TaskRunAttemptStatus::Invalid));
}

#[test]
fn a_pending_attempt_already_spawned_for_is_not_spawned_again() {
    let mut begun = attempt(1, TaskRunAttemptStatus::Queued);
    begun.started_at = Some(at(1500));
    for stopped in [false, true] {
        let mut admission = admission(2000);
        admission.stopped = stopped;
        let decision = decide(&begun, &task_run(TaskRunStatus::Running), &admission);
        assert!(!matches!(decision, AttemptDecision::Start { .. }));
        assert!(matches!(decision, AttemptDecision::Invalid));
    }
}

fn decided(number: u32, retry_delay: u32, stopped: bool) -> AttemptDecision {
    let mut task = task_run(TaskRunStatus::Running);
    task.retry_delay = retry_delay;
    let mut admission = admission(1000);
    admission.stopped = stopped;
    decide(&attempt(number, TaskRunAttemptStatus::Queued), &task, &admission)
}

#[test]
fn a_retry_inside_its_delay_is_left_pending_rather_than_started() {
    let decision = decided(2, 60, false);
    assert!(matches!(decision, AttemptDecision::Queued));
    assert!(record_decision(&decision, at(1000)).is_none());
}

#[test]
fn a_stopped_job_run_skips_the_attempt_rather_than_starting_it() {
    let decision = decided(1, 0, true);
    assert!(matches!(decision, AttemptDecision::Skipped));
    let update = record_decision(&decision, at(1000)).unwrap();
    assert_eq!(update.status, Some(TaskRunAttemptStatus::Skipped));
}

#[test]
fn an_attempt_past_its_delay_is_started() {
    assert!(matches!(decided(1, 0, false), AttemptDecision::Start { .. }));
    let update = record_spawn(Ok(Some(77)));
    assert_eq!(update.status, Some(TaskRunAttemptStatus::Running));
}

#[test]
fn a_fresh_pending_attempt_still_starts() {
    let fresh = attempt(1, TaskRunAttemptStatus::Queued);
    let decision = decide(&fresh, &task_run(TaskRunStatus::Running), &admission(2000));
    assert!(matches!(decision, AttemptDecision::Start { .. }));
    assert!(record_decision(&decision, at(2000)).is_none());
}

fn plan(task_run: &TaskRun, inherited: &[&[u8]]) -> flowlite::orchestrator::task_run_attempt_dispatcher::SpawnPlan {
    plan_spawn(
        &attempt(1, TaskRunAttemptStatus::Queued),
        task_run,
        &job_run(JobRunStatus::Running),
        "/srv/flowlite",
        &Vars::new(),
        &inherited.iter().map(|name| name.to_vec()).collect(),
        at(1200),
    )
    .unwrap()
}

#[test]
fn the_composed_environment_reaches_the_command() {
    let mut task = task_run(TaskRunStatus::Running);
    task.env = vec![("GREETING".to_string(), "hello".to_string())];
    task.command = "echo $GREETING".to_string();
    let plan = plan(&task, &[]);
    assert_eq!(plan.command, "echo $GREETING");
    assert_eq!(plan.env.get("GREETING").unwrap(), "hello");
    assert_eq!(plan.env.get("FLOWLITE_DATA_DIR").unwrap(), "/srv/flowlite");
    assert_eq!(plan.working_dir, None);
    assert_eq!(plan.intent.started_at.unwrap().unwrap().seconds(), 1200);
    assert!(plan.intent.status.is_none());
}

#[test]
fn a_command_cannot_read_flowlites_own_environment() {
    let plan = plan(
        &task_run(TaskRunStatus::Running),
        &[b"PATH", b"FLOWLITE_SECRETS__PW", b"FLOWLITE_DATA_DIR"],
    );
    assert_eq!(
        plan.stripped,
        vec![b"FLOWLITE_SECRETS__PW".to_vec(), b"FLOWLITE_DATA_DIR".to_vec()],
    );
}

#[test]
fn a_non_utf8_variable_in_the_servers_environment_does_not_stop_a_spawn() {
    let plan = plan(&task_run(TaskRunStatus::Running), &[b"BAD\xff", b"FLOWLITE_\xff"]);
    assert_eq!(plan.stripped, vec![b"FLOWLITE_\xff".to_vec()]);
}

#[test]
fn the_working_dir_is_where_the_command_runs() {
    let mut task = task_run(TaskRunStatus::Running);
    task.working_dir = "/srv/etl".to_string();
    assert_eq!(plan(&task, &[]).working_dir.as_deref(), Some("/srv/etl"));
}

#[test]
fn a_spawn_failure_names_the_task_and_the_working_dir() {
    let mut task = task_run(TaskRunStatus::Running);
    assert_eq!(
        describe_spawn_failure(&task),
        "Failed to spawn task 'task' in working directory the server's current directory",
    );
    task.working_dir = "/nowhere".to_string();
    assert_eq!(
        describe_spawn_failure(&task),
        "Failed to spawn task 'task' in working directory '/nowhere'",
    );
}

#[test]
fn an_attempt_whose_spawn_fails_is_left_startable() {
    let update = record_spawn(Err(()));
    assert!(update.status.is_none());
    assert!(matches!(update.started_at, Some(None)));
}

#[test]
fn starting_an_attempt_records_its_process_group() {
    let update = record_spawn(Ok(Some(77)));
    assert_eq!(update.status, Some(TaskRunAttemptStatus::Running));
    assert_eq!(update.process_group_id, Some(Some(77)));
    assert!(update.started_at.is_none());
}

// Watching attempts.

fn process(exited: Option<bool>) -> Option<ProcessState> {
    Some(ProcessState { exited, started_at: at(0), timeout: 60 })
}

fn settled(exited: Option<bool>, now: i64, stopped: bool) -> AttemptStep {
    settle_task_run_attempt(process(exited), &at(now), stopped)
}

fn finish(status: TaskRunAttemptStatus, kill: bool) -> AttemptStep {
    AttemptStep::Finish { status, kill }
}

#[test]
fn an_exited_process_reports_the_status_it_exited_with() {
    assert_eq!(settled(Some(true), 1, false), finish(TaskRunAttemptStatus::Succeeded, false));
}

#[test]
fn a_process_that_exited_non_zero_fails_the_attempt() {
    assert_eq!(settled(Some(false), 1, false), finish(TaskRunAttemptStatus::Failed, false));
}

#[test]
fn a_process_past_its_deadline_times_the_attempt_out() {
    assert_eq!(settled(None, 61, false), finish(TaskRunAttemptStatus::TimedOut, true));
    assert_eq!(settled(None, 60, false), AttemptStep::Keep);
}

#[test]
fn a_stopped_job_run_aborts_a_process_that_is_still_running() {
    assert_eq!(settled(None, 1, true), finish(TaskRunAttemptStatus::Aborted, true));
}

#[test]
fn an_exit_status_outranks_a_stop() {
    assert_eq!(settled(Some(true), 1, true), finish(TaskRunAttemptStatus::Succeeded, false));
}

#[test]
fn an_exit_status_outranks_a_timeout() {
    assert_eq!(settled(Some(true), 999, false), finish(TaskRunAttemptStatus::Succeeded, false));
}

#[test]
fn a_timeout_outranks_a_stop() {
    assert_eq!(settled(None, 999, true), finish(TaskRunAttemptStatus::TimedOut, true));
}

#[test]
fn a_running_attempt_with_no_process_is_invalid() {
    assert_eq!(
        settle_task_run_attempt(None, &at(1), true),
        finish(TaskRunAttemptStatus::Invalid, false),
    );
}

#[test]
fn an_invalid_attempt_is_given_a_finished_instant() {
    let update = finish_task_run_attempt(TaskRunAttemptStatus::Invalid, at(8));
    assert_eq!(update.status, Some(TaskRunAttemptStatus::Invalid));
    assert_eq!(update.finished_at.unwrap().unwrap().seconds(), 8);
}

fn chunk(stream: TaskRunAttemptOutputStream, content: &str) -> TaskRunAttemptOutputChunk {
    TaskRunAttemptOutputChunk { stream, content: content.to_string() }
}

#[test]
fn a_pass_writes_at_most_one_row_per_stream() {
    let chunks = vec![
        chunk(TaskRunAttemptOutputStream::Stdout, "a"),
        chunk(TaskRunAttemptOutputStream::Stderr, "x"),
        chunk(TaskRunAttemptOutputStream::Stdout, "b"),
    ];
    let rows = insert_output(&attempt(1, TaskRunAttemptStatus::Running), gather(&chunks));
    assert_eq!(rows.len(), 2);
    let empty = TaskRunAttemptOutputStreams { stdout: String::new(), stderr: "x".to_string() };
    assert_eq!(insert_output(&attempt(1, TaskRunAttemptStatus::Running), empty).len(), 1);
}

#[test]
fn the_two_streams_are_recorded_apart() {
    let chunks = vec![
        chunk(TaskRunAttemptOutputStream::Stdout, "out"),
        chunk(TaskRunAttemptOutputStream::Stderr, "err"),
    ];
    let rows = insert_output(&attempt(1, TaskRunAttemptStatus::Running), gather(&chunks));
    let streams = attempt_streams(&rows, 5);
    assert_eq!((streams.stdout.as_str(), streams.stderr.as_str()), ("out", "err"));
    let others = attempt_streams(&rows, 6);
    assert_eq!((others.stdout.as_str(), others.stderr.as_str()), ("", ""));
}

// Recording streams.

fn read(bytes: Vec<u8>) -> String {
    let mut recorder = StreamRecorder::new(TaskRunAttemptOutputStream::Stdout, MAX_STREAM_BYTES);
    let mut content = String::new();
    for read in bytes.chunks(8192) {
        for chunk in recorder.read(read) {
            content.push_str(&chunk.content);
        }
    }
    for chunk in recorder.finish() {
        content.push_str(&chunk.content);
    }
    content
}

#[test]
fn it_records_what_the_stream_wrote() {
    assert_eq!(read(b"hello\n".to_vec()), "hello\n");
}

#[test]
fn a_character_split_across_a_read_boundary_survives() {
    let mut bytes = vec![b'a'; 8191];
    bytes.extend_from_slice("€".as_bytes());

    let content = read(bytes);

    assert_eq!(content.chars().filter(|c| *c == '€').count(), 1);
    assert!(
        !content.contains(char::REPLACEMENT_CHARACTER),
        "the split character was corrupted rather than carried over",
    );
    assert!(content.ends_with('€'));
}

#[test]
fn invalid_bytes_become_one_replacement_character_each() {
    assert_eq!(read(vec![b'a', 0xff, b'b']), "a\u{fffd}b");
}

#[test]
fn several_invalid_sequences_in_one_buffer_are_all_consumed() {
    assert_eq!(read(vec![b'a', 0xff, b'b', 0xfe, b'c']), "a\u{fffd}b\u{fffd}c");
}

fn flawed() -> Vec<Vec<u8>> {
    vec![
        vec![b'a', 0xff, b'b', 0xe2, 0x82, b'c', 0xe2, 0x82, 0xac],
        vec![0xf0, 0x9f, 0x98, 0x80, 0xf0, 0x9f, 0x98, b'x', 0xf0, 0x9f],
        vec![0xc0, 0x80, 0xed, 0xa0, 0x80, 0xf4, 0x90, 0x80, 0x80, 0xe0],
        vec![0x80, 0x80, 0xe2, 0xe2, 0x82, 0xe2, 0x82, 0xac, 0xac, 0xf8],
    ]
}

#[test]
fn a_flawed_stream_reads_alike_however_it_is_split() {
    for bytes in flawed() {
        let expected = String::from_utf8_lossy(&bytes).into_owned();
        for size in 1..=bytes.len() {
            let mut recorder = StreamRecorder::new(TaskRunAttemptOutputStream::Stderr, 1000);
            let mut chunks = Vec::new();
            for read in bytes.chunks(size) {
                chunks.extend(recorder.read(read));
            }
            chunks.extend(recorder.finish());
            let content: String = chunks.iter().map(|chunk| chunk.content.as_str()).collect();
            assert_eq!(content, expected, "{bytes:?} in reads of {size}");
            assert!(chunks.iter().all(|chunk| chunk.stream == TaskRunAttemptOutputStream::Stderr));
        }
    }
}

#[test]
fn what_is_taken_and_carried_does_not_depend_on_the_cut() {
    for bytes in flawed() {
        let mut whole = bytes.clone();
        let content = take_valid_utf8(&mut whole);
        for at in 0..=bytes.len() {
            let mut carry = bytes[..at].to_vec();
            let mut parts = take_valid_utf8(&mut carry);
            carry.extend_from_slice(&bytes[at..]);
            parts.push_str(&take_valid_utf8(&mut carry));
            assert_eq!((parts, carry), (content.clone(), whole.clone()), "{bytes:?} at {at}");
        }
    }
}

#[test]
fn a_truncated_sequence_at_end_of_stream_is_flushed() {
    let mut bytes = b"a".to_vec();
    bytes.push(0xe2);

    assert_eq!(read(bytes), "a\u{fffd}");
}

#[test]
fn the_cap_keeps_the_head_and_appends_the_marker() {
    let content = read(vec![b'x'; MAX_STREAM_BYTES + 4096]);

    assert_eq!(
        content,
        format!(
            "{}\n[flowlite: output truncated, exceeded {} bytes]\n",
            "x".repeat(MAX_STREAM_BYTES),
            MAX_STREAM_BYTES,
        ),
    );
}

#[test]
fn the_cap_truncates_on_a_character_boundary() {
    let mut bytes = Vec::new();

    while bytes.len() < MAX_STREAM_BYTES + 4096 {
        bytes.extend_from_slice("€".as_bytes());
    }

    let content = read(bytes);
    let head = content.split('\n').next().unwrap();

    assert!(head.chars().all(|c| c == '€'), "the cap sliced a character in half");
    assert!(head.len() <= MAX_STREAM_BYTES);
    assert!(head.len() > MAX_STREAM_BYTES - 3);
}

#[test]
fn bytes_that_are_not_yet_a_character_are_carried_over() {
    let mut carry = vec![b'a', 0xe2, 0x82];
    assert_eq!(take_valid_utf8(&mut carry), "a");
    assert_eq!(carry, vec![0xe2, 0x82]);
    carry.push(0xac);
    assert_eq!(take_valid_utf8(&mut carry), "€");
    assert!(carry.is_empty());
    assert_eq!(truncate_at_char_boundary("a€", 3), "a");
    assert_eq!(truncate_at_char_boundary("a€", 4), "a€");
}

// Recovering.

fn orphan(started_at: Option<i64>, group: Option<i64>) -> TaskRunAttempt {
    let mut orphan = attempt(1, TaskRunAttemptStatus::Running);
    orphan.started_at = started_at.map(at);
    orphan.process_group_id = group;
    orphan
}

#[test]
fn an_orphaned_attempt_is_killed_and_settled_invalid() {
    let recovery =
        recover_orphaned_task_run_attempt(&orphan(Some(100), Some(77)), &Some(at(100)), at(200));
    assert_eq!(recovery.kill, Some(77));
    assert_eq!(recovery.update.status, Some(TaskRunAttemptStatus::Invalid));
}

#[test]
fn an_attempt_with_no_process_group_is_settled_anyway() {
    let recovery =
        recover_orphaned_task_run_attempt(&orphan(Some(100), None), &Some(at(50)), at(200));
    assert_eq!(recovery.kill, None);
    assert_eq!(recovery.update.status, Some(TaskRunAttemptStatus::Invalid));
}

#[test]
fn a_group_id_from_before_the_last_boot_is_not_killed() {
    let recovery =
        recover_orphaned_task_run_attempt(&orphan(Some(99), Some(77)), &Some(at(100)), at(200));
    assert_eq!(recovery.kill, None);
    assert_eq!(recovery.update.status, Some(TaskRunAttemptStatus::Invalid));
}

#[test]
fn an_unknown_boot_time_kills_nothing() {
    let recovery = recover_orphaned_task_run_attempt(&orphan(Some(99), Some(77)), &None, at(200));
    assert_eq!(recovery.kill, None);
}

#[test]
fn the_boot_is_read_out_of_the_statistics() {
    let stat = "cpu  1 2 3\nintr 5\nbtime 1788836400\nprocesses 9\n";
    assert_eq!(boot_time(stat).unwrap().seconds(), 1_788_836_400);
    assert!(boot_time("cpu 1\n").is_none());
    assert!(boot_time("btime soon\n").is_none());
}

// Closing a run, and what is done about a running attempt.

#[test]
fn a_skipped_run_takes_its_task_runs_with_it() {
    let closing = job_run_dispatcher::set_to_skipped(at(9));
    assert_eq!(closing.job_run.status, Some(JobRunStatus::Skipped));
    assert_eq!(closing.job_run.finished_at, Some(Some(at(9))));
    assert_eq!(closing.job_run.started_at, None);
    assert_eq!(closing.task_runs.status, Some(TaskRunStatus::Skipped));
    assert_eq!(closing.task_runs.finished_at, Some(Some(at(9))));
    assert_eq!(closing.task_runs.started_at, None);
}

#[test]
fn an_invalid_run_takes_its_task_runs_with_it() {
    let closing = job_run_dispatcher::set_to_invalid(at(9));
    assert_eq!(closing.job_run.status, Some(JobRunStatus::Invalid));
    assert_eq!(closing.job_run.finished_at, Some(Some(at(9))));
    assert_eq!(closing.task_runs.status, Some(TaskRunStatus::Invalid));
    assert_eq!(closing.task_runs.finished_at, Some(Some(at(9))));
}

#[test]
fn a_killed_attempt_is_read_to_the_end_before_its_end_is_written() {
    let step = AttemptStep::Finish { status: TaskRunAttemptStatus::TimedOut, kill: true };
    assert_eq!(
        actions(step, true),
        vec![
            AttemptAction::Kill,
            AttemptAction::ReadToEnd,
            AttemptAction::Write(TaskRunAttemptStatus::TimedOut),
        ],
    );
}

#[test]
fn an_attempt_without_a_process_has_only_its_end_written() {
    let step = AttemptStep::Finish { status: TaskRunAttemptStatus::Invalid, kill: false };
    assert_eq!(
        actions(step, false),
        vec![AttemptAction::Write(TaskRunAttemptStatus::Invalid)],
    );
}

#[test]
fn a_process_that_goes_on_is_handed_back() {
    assert_eq!(
        actions(AttemptStep::Keep, true),
        vec![AttemptAction::RecordSoFar, AttemptAction::PutBack],
    );
}
