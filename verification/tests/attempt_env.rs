//! What variables an attempt's command is given.
use flowlite::models::{JobRun, TaskRun, TaskRunAttempt};
use flowlite::orchestrator::task_run_attempt_env::{
    build_task_run_attempt_env, is_own_name, parameter_env_name, stripped,
};
use flowlite::status::{JobRunStatus, TaskRunAttemptStatus, TaskRunStatus};
use flowlite::time::Timestamp;
use flowlite::vars::Vars;

fn at(seconds: i64) -> Timestamp {
    Timestamp::new(seconds, 0).unwrap()
}

fn map(pairs: &[(&str, &str)]) -> Vec<(String, String)> {
    pairs.iter().map(|(name, value)| (name.to_string(), value.to_string())).collect()
}

fn job_run(parameters: Vec<(String, String)>, scheduled_at: Option<Timestamp>) -> JobRun {
    JobRun {
        id: 7,
        job_id: "daily-etl".to_string(),
        job_name: "Daily ETL".to_string(),
        job_description: String::new(),
        parameters,
        created_at: at(0),
        schedule_id: scheduled_at.map(|_| "nightly".to_string()),
        scheduled_at,
        started_at: None,
        finished_at: None,
        status: JobRunStatus::Running,
    }
}

fn task_run_with_secret_env(
    env: Vec<(String, String)>,
    secret_env: Vec<(String, String)>,
) -> TaskRun {
    TaskRun {
        id: 11,
        job_run_id: 7,
        job_id: "daily-etl".to_string(),
        task_id: "extract".to_string(),
        command: "true".to_string(),
        depends_on: vec![],
        timeout: 3600,
        max_retries: 0,
        retry_delay: 60,
        env,
        secret_env,
        limits: vec![],
        working_dir: String::new(),
        created_at: at(0),
        started_at: None,
        finished_at: None,
        status: TaskRunStatus::Running,
    }
}

fn task_run(env: Vec<(String, String)>) -> TaskRun {
    task_run_with_secret_env(env, vec![])
}

fn task_run_attempt() -> TaskRunAttempt {
    TaskRunAttempt {
        id: 13,
        task_run_id: 11,
        job_run_id: 7,
        job_id: "daily-etl".to_string(),
        task_id: "extract".to_string(),
        attempt: 2,
        created_at: at(0),
        started_at: None,
        finished_at: None,
        status: TaskRunAttemptStatus::Queued,
        process_group_id: None,
    }
}

fn build_with(task_run: TaskRun, job_run: JobRun, secrets: &[(&str, &str)]) -> Vars {
    build_task_run_attempt_env(
        &task_run,
        &job_run,
        &task_run_attempt(),
        "/srv/flowlite",
        &Vars::from_entries(&map(secrets)),
    )
    .unwrap()
}

fn build(task_run: TaskRun, job_run: JobRun) -> Vars {
    build_with(task_run, job_run, &[])
}

#[test]
fn a_task_env_value_is_carried() {
    let env = build(task_run(map(&[("PYTHONUNBUFFERED", "1")])), job_run(map(&[]), None));
    assert_eq!(env.get("PYTHONUNBUFFERED").unwrap(), "1");
}

#[test]
fn the_data_dir_is_injected() {
    let env = build(task_run(map(&[])), job_run(map(&[]), None));
    assert_eq!(env.get("FLOWLITE_DATA_DIR").unwrap(), "/srv/flowlite");
}

#[test]
fn a_parameter_is_prefixed_and_upcased() {
    let env = build(task_run(map(&[])), job_run(map(&[("region", "us")]), None));
    assert_eq!(env.get("FLOWLITE_PARAM_REGION").unwrap(), "us");
}

#[test]
fn a_parameter_wins_over_a_colliding_task_env_value() {
    let env = build(
        task_run(map(&[("FLOWLITE_PARAM_REGION", "eu")])),
        job_run(map(&[("region", "us")]), None),
    );
    assert_eq!(env.get("FLOWLITE_PARAM_REGION").unwrap(), "us");
}

#[test]
fn injected_metadata_wins_over_a_task_env_value() {
    let env = build(task_run(map(&[("FLOWLITE_JOB_RUN_ID", "999")])), job_run(map(&[]), None));
    assert_eq!(env.get("FLOWLITE_JOB_RUN_ID").unwrap(), "7");
}

#[test]
fn a_parameter_cannot_collide_with_injected_metadata() {
    let env = build(task_run(map(&[])), job_run(map(&[("job_run_id", "999")]), None));
    assert_eq!(env.get("FLOWLITE_PARAM_JOB_RUN_ID").unwrap(), "999");
    assert_eq!(env.get("FLOWLITE_JOB_RUN_ID").unwrap(), "7");
}

#[test]
fn every_id_and_the_attempt_are_injected() {
    let env = build(task_run(map(&[])), job_run(map(&[]), None));
    assert_eq!(env.get("FLOWLITE_JOB_ID").unwrap(), "daily-etl");
    assert_eq!(env.get("FLOWLITE_JOB_RUN_ID").unwrap(), "7");
    assert_eq!(env.get("FLOWLITE_TASK_ID").unwrap(), "extract");
    assert_eq!(env.get("FLOWLITE_TASK_RUN_ID").unwrap(), "11");
    assert_eq!(env.get("FLOWLITE_TASK_RUN_ATTEMPT_ID").unwrap(), "13");
    assert_eq!(env.get("FLOWLITE_ATTEMPT").unwrap(), "2");
}

#[test]
fn a_scheduled_run_carries_the_instant_it_fired_for() {
    let scheduled_at = chrono::DateTime::parse_from_rfc3339("2026-09-08T03:00:00Z").unwrap();
    let env = build(
        task_run(map(&[])),
        job_run(map(&[]), Some(at(scheduled_at.timestamp()))),
    );
    assert!(env.get("FLOWLITE_SCHEDULED_AT").unwrap().starts_with("2026-09-08T03:00:00"));
    assert_eq!(env.get("FLOWLITE_SCHEDULED_AT").unwrap(), "2026-09-08T03:00:00+00:00");
}

#[test]
fn a_manual_run_carries_no_scheduled_at_at_all() {
    let env = build(task_run(map(&[])), job_run(map(&[]), None));
    assert!(env.get("FLOWLITE_SCHEDULED_AT").is_none());
}

#[test]
fn a_task_env_value_for_scheduled_at_does_not_survive_a_manual_run() {
    let env = build(
        task_run(map(&[("FLOWLITE_SCHEDULED_AT", "1999-01-01T00:00:00Z")])),
        job_run(map(&[]), None),
    );
    assert!(env.get("FLOWLITE_SCHEDULED_AT").is_none());
}

#[test]
fn a_secret_is_resolved_into_the_environment() {
    let env = build_with(
        task_run_with_secret_env(map(&[]), map(&[("WAREHOUSE_PW", "warehouse_pw")])),
        job_run(map(&[]), None),
        &[("warehouse_pw", "hunter2")],
    );
    assert_eq!(env.get("WAREHOUSE_PW").unwrap(), "hunter2");
}

#[test]
fn a_secret_wins_a_colliding_env_value() {
    let env = build_with(
        task_run_with_secret_env(
            map(&[("WAREHOUSE_PW", "not_a_secret")]),
            map(&[("WAREHOUSE_PW", "warehouse_pw")]),
        ),
        job_run(map(&[]), None),
        &[("warehouse_pw", "hunter2")],
    );
    assert_eq!(env.get("WAREHOUSE_PW").unwrap(), "hunter2");
}

#[test]
fn injected_metadata_still_wins_a_colliding_secret() {
    let env = build_with(
        task_run_with_secret_env(map(&[]), map(&[("FLOWLITE_JOB_RUN_ID", "warehouse_pw")])),
        job_run(map(&[]), None),
        &[("warehouse_pw", "hunter2")],
    );
    assert_eq!(env.get("FLOWLITE_JOB_RUN_ID").unwrap(), "7");
}

#[test]
fn a_secret_with_no_value_is_an_error_naming_both() {
    let error = build_task_run_attempt_env(
        &task_run_with_secret_env(map(&[]), map(&[("WAREHOUSE_PW", "warehouse_pw")])),
        &job_run(map(&[]), None),
        &task_run_attempt(),
        "/srv/flowlite",
        &Vars::new(),
    )
    .unwrap_err()
    .message();
    assert!(error.contains("WAREHOUSE_PW"), "{error}");
    assert!(error.contains("warehouse_pw"), "{error}");
}

#[test]
fn the_first_missing_secret_is_the_one_named() {
    let missing = build_task_run_attempt_env(
        &task_run_with_secret_env(map(&[]), map(&[("A", "a"), ("B", "b"), ("C", "c")])),
        &job_run(map(&[]), None),
        &task_run_attempt(),
        "/srv/flowlite",
        &Vars::from_entries(&map(&[("a", "1")])),
    )
    .unwrap_err();
    assert_eq!((missing.variable.as_str(), missing.secret.as_str()), ("B", "b"));
}

#[test]
fn only_the_servers_own_variables_are_stripped() {
    assert!(is_own_name(b"FLOWLITE_SECRETS__X"));
    assert!(!is_own_name(b"FLOWLITE"));
    assert!(!is_own_name(b"PATH"));
    let names = vec![b"PATH".to_vec(), b"FLOWLITE_A".to_vec(), vec![0xff, 0xfe]];
    assert_eq!(stripped(&names), vec![b"FLOWLITE_A".to_vec()]);
    assert_eq!(parameter_env_name("région"), "FLOWLITE_PARAM_RéGION");
}
