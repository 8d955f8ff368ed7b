//! What the tools decide before and after they read or write.
use flowlite::mcp::tools::delete_job_run::{
    deleted_occurrence, occurrence_warning, DeletedOccurrence,
};
use flowlite::mcp::tools::get_job_run::{plan_get, GetJobRun};
use flowlite::mcp::tools::get_serve_status::status_report;
use flowlite::mcp::tools::get_task_output::{
    clamp_stream_bytes, get_task_output_logs, truncate_tail, truncated_task_run_attempt_log,
    DEFAULT_MAX_BYTES, MAX_STREAM_BYTES,
};
use flowlite::mcp::tools::init_data_dir::init_result;
use flowlite::mcp::tools::list_job_runs::{
    clamp_job_run_limit, job_runs_filter, ListJobRuns, DEFAULT_JOB_RUN_LIMIT, MAX_JOB_RUN_LIMIT,
};
use flowlite::mcp::tools::result::{
    check_wait, describe_unserved_data_dir, ensure_data_dir_is_served, job_run_result,
    unserved_directory_warning, ToolError,
};
use flowlite::mcp::tools::stop_job_run::{plan_stop, StopJobRun};
use flowlite::mcp::tools::submit_job::{
    describe_ad_hoc_job_collision, plan_submit, resolve_definition, SubmitJob,
    SubmitJobDefinition, INLINE_YAML_LABEL,
};
use flowlite::mcp::wait::{clamp_wait_seconds, plan_wait, WaitPlan, MAX_WAIT_SECONDS};
use flowlite::models::{
    JobRun, TaskRunAttempt, TaskRunAttemptOutputStream, TaskRunAttemptOutputStreams,
};
use flowlite::orchestrator::task_run_attempt_monitor::TaskRunAttemptOutputRow;
use flowlite::serve_state::{ServeState, ServeStatus};
use flowlite::status::{JobRunStatus, TaskRunAttemptStatus};
use flowlite::time::Timestamp;

fn at(seconds: i64) -> Timestamp {
    Timestamp::new(seconds, 0).unwrap()
}

fn submit_job_args(job: Option<&str>, file: Option<&str>, yaml: Option<&str>) -> SubmitJob {
    SubmitJob {
        job: job.map(str::to_string),
        file: file.map(str::to_string),
        yaml: yaml.map(str::to_string),
        params: None,
        wait_seconds: None,
    }
}

fn refusal(job: Option<&str>, file: Option<&str>, yaml: Option<&str>) -> String {
    resolve_definition(&submit_job_args(job, file, yaml)).unwrap_err().message()
}

#[test]
fn submit_job_resolving_a_definition_with_none_of_the_three_given_is_refused() {
    let error = refusal(None, None, None);
    assert!(error.contains("none was given"), "{error}");
    assert_eq!(error, "Name exactly one of job, file or yaml to submit a job; none was given.");
}

#[test]
fn submit_job_resolving_a_definition_with_job_and_file_given_names_both_in_the_refusal() {
    let error = refusal(Some("etl"), Some("f.yaml"), None);
    assert!(error.ends_with("got job and file."), "{error}");
    assert_eq!(
        error,
        "Name exactly one of job, file or yaml to submit a job; got job and file.",
    );
}

#[test]
fn submit_job_resolving_a_definition_with_job_and_yaml_given_names_both_in_the_refusal() {
    let error = refusal(Some("etl"), None, Some("id: x"));
    assert!(error.ends_with("got job and yaml."), "{error}");
}

#[test]
fn submit_job_resolving_a_definition_with_file_and_yaml_given_names_both_in_the_refusal() {
    let error = refusal(None, Some("f.yaml"), Some("id: x"));
    assert!(error.ends_with("got file and yaml."), "{error}");
}

#[test]
fn submit_job_resolving_a_definition_with_all_three_given_names_all_three_in_the_refusal() {
    let error = refusal(Some("etl"), Some("f.yaml"), Some("id: x"));
    assert!(error.ends_with("got job and file and yaml."), "{error}");
}

#[test]
fn submit_job_resolving_a_definition_with_only_job_given_is_accepted() {
    let definition = resolve_definition(&submit_job_args(Some("etl"), None, None)).unwrap();
    assert!(matches!(definition, SubmitJobDefinition::Job(job) if job == "etl"));
}

#[test]
fn submit_job_resolving_a_definition_with_only_file_given_is_accepted() {
    let definition = resolve_definition(&submit_job_args(None, Some("f.yaml"), None)).unwrap();
    assert!(matches!(definition, SubmitJobDefinition::File(file) if file == "f.yaml"));
}

#[test]
fn submit_job_resolving_a_definition_with_only_yaml_given_is_accepted() {
    let definition = resolve_definition(&submit_job_args(None, None, Some("id: x"))).unwrap();
    assert!(matches!(definition, SubmitJobDefinition::Yaml(yaml) if yaml == "id: x"));
}

#[test]
fn tools_resolving_a_definition_with_none_of_the_three_given_is_refused() {
    let error = refusal(None, None, None);
    assert!(error.contains("none was given"), "{error}");
}

#[test]
fn tools_resolving_a_definition_with_job_and_file_given_names_both_in_the_refusal() {
    let error = refusal(Some("etl"), Some("f.yaml"), None);
    assert!(error.ends_with("got job and file."), "{error}");
}

#[test]
fn tools_resolving_a_definition_with_job_and_yaml_given_names_both_in_the_refusal() {
    let error = refusal(Some("etl"), None, Some("id: x"));
    assert!(error.ends_with("got job and yaml."), "{error}");
}

#[test]
fn tools_resolving_a_definition_with_file_and_yaml_given_names_both_in_the_refusal() {
    let error = refusal(None, Some("f.yaml"), Some("id: x"));
    assert!(error.ends_with("got file and yaml."), "{error}");
}

#[test]
fn tools_resolving_a_definition_with_all_three_given_names_all_three_in_the_refusal() {
    let error = refusal(Some("etl"), Some("f.yaml"), Some("id: x"));
    assert!(error.ends_with("got job and file and yaml."), "{error}");
}

#[test]
fn tools_resolving_a_definition_with_only_job_given_is_accepted() {
    let definition = resolve_definition(&submit_job_args(Some("etl"), None, None)).unwrap();
    assert!(matches!(definition, SubmitJobDefinition::Job(job) if job == "etl"));
}

#[test]
fn tools_resolving_a_definition_with_only_file_given_is_accepted() {
    let definition = resolve_definition(&submit_job_args(None, Some("f.yaml"), None)).unwrap();
    assert!(matches!(definition, SubmitJobDefinition::File(file) if file == "f.yaml"));
}

#[test]
fn tools_resolving_a_definition_with_only_yaml_given_is_accepted() {
    let definition = resolve_definition(&submit_job_args(None, None, Some("id: x"))).unwrap();
    assert!(matches!(definition, SubmitJobDefinition::Yaml(yaml) if yaml == "id: x"));
}

#[test]
fn list_job_runs_a_negative_limit_means_the_default_not_everything() {
    assert_eq!(clamp_job_run_limit(Some(-5)), DEFAULT_JOB_RUN_LIMIT);
    assert_eq!(clamp_job_run_limit(Some(-1)), DEFAULT_JOB_RUN_LIMIT);
}

#[test]
fn list_job_runs_a_zero_limit_means_the_default() {
    assert_eq!(clamp_job_run_limit(Some(0)), DEFAULT_JOB_RUN_LIMIT);
}

#[test]
fn list_job_runs_an_absent_limit_means_the_default() {
    assert_eq!(clamp_job_run_limit(None), DEFAULT_JOB_RUN_LIMIT);
    assert_eq!(DEFAULT_JOB_RUN_LIMIT, 20);
}

#[test]
fn list_job_runs_a_limit_above_the_cap_clamps_to_it() {
    assert_eq!(clamp_job_run_limit(Some(1_000_000)), MAX_JOB_RUN_LIMIT);
    assert_eq!(clamp_job_run_limit(Some(MAX_JOB_RUN_LIMIT + 1)), MAX_JOB_RUN_LIMIT);
    assert_eq!(MAX_JOB_RUN_LIMIT, 200);
}

#[test]
fn list_job_runs_a_limit_at_or_below_the_cap_is_used_as_given() {
    assert_eq!(clamp_job_run_limit(Some(MAX_JOB_RUN_LIMIT)), MAX_JOB_RUN_LIMIT);
    assert_eq!(clamp_job_run_limit(Some(1)), 1);
}

#[test]
fn tools_a_negative_limit_means_the_default_not_everything() {
    assert_eq!(clamp_job_run_limit(Some(-5)), DEFAULT_JOB_RUN_LIMIT);
    assert_eq!(clamp_job_run_limit(Some(-1)), DEFAULT_JOB_RUN_LIMIT);
}

#[test]
fn tools_a_zero_limit_means_the_default() {
    assert_eq!(clamp_job_run_limit(Some(0)), DEFAULT_JOB_RUN_LIMIT);
}

#[test]
fn tools_an_absent_limit_means_the_default() {
    assert_eq!(clamp_job_run_limit(None), DEFAULT_JOB_RUN_LIMIT);
}

#[test]
fn tools_a_limit_above_the_cap_clamps_to_it() {
    assert_eq!(clamp_job_run_limit(Some(1_000_000)), MAX_JOB_RUN_LIMIT);
    assert_eq!(clamp_job_run_limit(Some(MAX_JOB_RUN_LIMIT + 1)), MAX_JOB_RUN_LIMIT);
}

#[test]
fn tools_a_limit_at_or_below_the_cap_is_used_as_given() {
    assert_eq!(clamp_job_run_limit(Some(MAX_JOB_RUN_LIMIT)), MAX_JOB_RUN_LIMIT);
    assert_eq!(clamp_job_run_limit(Some(1)), 1);
}

#[test]
fn a_filter_names_its_status_as_it_is_written() {
    let filter = job_runs_filter(ListJobRuns {
        job: Some("etl".to_string()),
        status: Some("timedout".to_string()),
        limit: Some(7),
    })
    .unwrap();
    assert_eq!(filter.job.as_deref(), Some("etl"));
    assert_eq!(filter.status, Some(JobRunStatus::TimedOut));
    assert_eq!(filter.limit, 7);
}

#[test]
fn a_status_no_run_can_have_is_refused_by_name() {
    let error = job_runs_filter(ListJobRuns {
        job: None,
        status: Some("done".to_string()),
        limit: None,
    })
    .unwrap_err()
    .message();
    assert_eq!(error, "'done' is not a job run status");
}

fn unserved() -> ToolError {
    ToolError::DataDirNotServed { data_dir: "./d1".to_string() }
}

#[test]
fn result_the_tool_wording_of_an_unserved_data_dir_names_wait_seconds_not_a_flag() {
    let error = describe_unserved_data_dir(unserved()).message();
    assert!(error.contains("./d1"), "{error}");
    assert!(error.contains("wait_seconds"), "{error}");
    assert!(!error.contains("--wait"), "{error}");
}

#[test]
fn result_the_tool_wording_leaves_any_other_error_alone() {
    let error = describe_unserved_data_dir(ToolError::Other("Job run 7 not found".to_string()));
    assert_eq!(error.message(), "Job run 7 not found");
}

#[test]
fn tools_the_tool_wording_of_an_unserved_data_dir_names_wait_seconds_not_a_flag() {
    let error = describe_unserved_data_dir(unserved()).message();
    assert!(error.contains("./d1"), "{error}");
    assert!(error.contains("wait_seconds"), "{error}");
    assert!(!error.contains("--wait"), "{error}");
}

#[test]
fn tools_the_tool_wording_leaves_any_other_error_alone() {
    let error = describe_unserved_data_dir(ToolError::Other("Job run 7 not found".to_string()));
    assert_eq!(error.message(), "Job run 7 not found");
}

fn pending_run_json() -> String {
    "{\n  \"id\": 1,\n  \"status\": \"pending\"\n}".to_string()
}

fn check_warned_result() {
    let reply = job_run_result(pending_run_json(), Some("nothing is serving it".to_string()));
    assert!(!reply.structured);
    assert_eq!(reply.content.len(), 2);
    let parsed: serde_json::Value = serde_json::from_str(&reply.content[0]).unwrap();
    assert_eq!(parsed["status"], serde_json::Value::from("pending"));
    assert_eq!(reply.content[1], "nothing is serving it");
}

fn check_unwarned_result() {
    let reply = job_run_result(pending_run_json(), None);
    assert_eq!(reply.content.len(), 1);
    assert!(reply.structured);
    let parsed: serde_json::Value = serde_json::from_str(&reply.content[0]).unwrap();
    assert_eq!(parsed["status"], serde_json::Value::from("pending"));
}

#[test]
fn result_a_warned_result_carries_no_structured_content_and_still_leads_with_json() {
    check_warned_result();
}

#[test]
fn result_an_unwarned_result_still_carries_the_run_as_structured_content() {
    check_unwarned_result();
}

#[test]
fn tools_a_warned_result_carries_no_structured_content_and_still_leads_with_json() {
    check_warned_result();
}

#[test]
fn tools_an_unwarned_result_still_carries_the_run_as_structured_content() {
    check_unwarned_result();
}

#[test]
fn a_stream_budget_above_the_cap_clamps_to_it() {
    assert_eq!(clamp_stream_bytes(Some(50_000_000)), MAX_STREAM_BYTES);
    assert_eq!(clamp_stream_bytes(Some(MAX_STREAM_BYTES + 1)), MAX_STREAM_BYTES);
}

#[test]
fn a_stream_budget_at_or_below_the_cap_is_used_as_given() {
    assert_eq!(clamp_stream_bytes(Some(MAX_STREAM_BYTES)), MAX_STREAM_BYTES);
    assert_eq!(clamp_stream_bytes(Some(500)), 500);
}

#[test]
fn a_zero_stream_budget_means_the_default() {
    assert_eq!(clamp_stream_bytes(Some(0)), DEFAULT_MAX_BYTES);
}

#[test]
fn an_absent_stream_budget_means_the_default() {
    assert_eq!(clamp_stream_bytes(None), DEFAULT_MAX_BYTES);
    assert_eq!(DEFAULT_MAX_BYTES, 20_000);
    assert_eq!(MAX_STREAM_BYTES, 200_000);
}

#[test]
fn get_task_output_a_stream_under_the_limit_is_returned_byte_identical() {
    assert_eq!(truncate_tail("hello", 20), "hello");
}

#[test]
fn get_task_output_a_stream_at_exactly_the_limit_is_returned_byte_identical() {
    assert_eq!(truncate_tail("hello", 5), "hello");
}

#[test]
fn get_task_output_a_stream_over_the_limit_keeps_the_tail_and_names_the_dropped_count() {
    let truncated = truncate_tail("0123456789", 4);
    assert_eq!(truncated, "[truncated: 6 earlier bytes dropped]\n6789");
}

#[test]
fn get_task_output_truncation_keeps_the_end_of_the_stream_not_the_start() {
    let truncated = truncate_tail("start-middle-end", 3);
    assert!(truncated.ends_with("end"), "{truncated}");
    assert!(!truncated.contains("start"), "{truncated}");
}

#[test]
fn get_task_output_truncation_never_splits_a_multi_byte_character() {
    let truncated = truncate_tail("aé€", 4);
    assert!(truncated.ends_with('€'), "{truncated}");
    assert_eq!(truncated, "[truncated: 3 earlier bytes dropped]\n€");
}

#[test]
fn get_task_output_an_empty_stream_is_returned_byte_identical() {
    assert_eq!(truncate_tail("", 0), "");
}

#[test]
fn tools_a_stream_under_the_limit_is_returned_byte_identical() {
    assert_eq!(truncate_tail("hello", 20), "hello");
}

#[test]
fn tools_a_stream_at_exactly_the_limit_is_returned_byte_identical() {
    assert_eq!(truncate_tail("hello", 5), "hello");
}

#[test]
fn tools_a_stream_over_the_limit_keeps_the_tail_and_names_the_dropped_count() {
    let truncated = truncate_tail("0123456789", 4);
    assert_eq!(truncated, "[truncated: 6 earlier bytes dropped]\n6789");
}

#[test]
fn tools_truncation_keeps_the_end_of_the_stream_not_the_start() {
    let truncated = truncate_tail("start-middle-end", 3);
    assert!(truncated.ends_with("end"), "{truncated}");
    assert!(!truncated.contains("start"), "{truncated}");
}

#[test]
fn tools_truncation_never_splits_a_multi_byte_character() {
    let stream = "aé€";
    let truncated = truncate_tail(stream, 4);
    assert!(truncated.ends_with('€'), "{truncated}");
}

#[test]
fn tools_an_empty_stream_is_returned_byte_identical() {
    assert_eq!(truncate_tail("", 0), "");
}

fn task_run_attempt_fixture() -> TaskRunAttempt {
    TaskRunAttempt {
        id: 1,
        task_run_id: 1,
        job_run_id: 1,
        job_id: "job".to_string(),
        task_id: "task".to_string(),
        created_at: at(0),
        started_at: None,
        finished_at: None,
        attempt: 1,
        status: TaskRunAttemptStatus::Running,
        process_group_id: None,
    }
}

fn check_streams(stderr: &str, expected_stderr: &str) {
    let streams = TaskRunAttemptOutputStreams {
        stdout: "0123456789".to_string(),
        stderr: stderr.to_string(),
    };
    let log = truncated_task_run_attempt_log(task_run_attempt_fixture(), streams, 4);
    assert_eq!(log.stdout, "[truncated: 6 earlier bytes dropped]\n6789");
    assert_eq!(log.stderr, expected_stderr);
}

#[test]
fn get_task_output_stdout_and_stderr_are_truncated_independently() {
    check_streams("short", "[truncated: 1 earlier bytes dropped]\nhort");
}

#[test]
fn get_task_output_a_stream_within_the_limit_is_untouched_while_the_other_is_truncated() {
    check_streams("ok", "ok");
}

#[test]
fn tools_stdout_and_stderr_are_truncated_independently() {
    check_streams("short", "[truncated: 1 earlier bytes dropped]\nhort");
}

#[test]
fn tools_a_stream_within_the_limit_is_untouched_while_the_other_is_truncated() {
    check_streams("ok", "ok");
}

#[test]
fn each_attempt_is_shown_with_what_its_own_rows_hold() {
    let row = |id: i64, stream, content: &str| TaskRunAttemptOutputRow {
        task_run_attempt_id: id,
        task_run_id: 1,
        job_run_id: 1,
        job_id: "job".to_string(),
        task_id: "task".to_string(),
        stream,
        content: content.to_string(),
    };
    let rows = vec![
        row(1, TaskRunAttemptOutputStream::Stdout, "one "),
        row(2, TaskRunAttemptOutputStream::Stdout, "two"),
        row(1, TaskRunAttemptOutputStream::Stderr, "err"),
        row(1, TaskRunAttemptOutputStream::Stdout, "more"),
    ];
    let mut second = task_run_attempt_fixture();
    second.id = 2;
    let mut third = task_run_attempt_fixture();
    third.id = 3;
    let logs =
        get_task_output_logs(vec![task_run_attempt_fixture(), second, third], &rows, 100);
    assert_eq!(logs.len(), 3);
    assert_eq!((logs[0].stdout.as_str(), logs[0].stderr.as_str()), ("one more", "err"));
    assert_eq!((logs[1].stdout.as_str(), logs[1].stderr.as_str()), ("two", ""));
    assert_eq!((logs[2].stdout.as_str(), logs[2].stderr.as_str()), ("", ""));
    assert_eq!(logs[1].task_run_attempt.id, 2);
}

#[test]
fn an_absent_wait_seconds_means_no_wait() {
    assert_eq!(clamp_wait_seconds(None), 0);
}

#[test]
fn a_zero_wait_seconds_means_no_wait() {
    assert_eq!(clamp_wait_seconds(Some(0)), 0);
}

#[test]
fn a_value_above_the_cap_clamps_to_it() {
    assert_eq!(clamp_wait_seconds(Some(301)), MAX_WAIT_SECONDS);
    assert_eq!(clamp_wait_seconds(Some(10_000)), MAX_WAIT_SECONDS);
    assert_eq!(MAX_WAIT_SECONDS, 300);
}

#[test]
fn a_value_at_or_below_the_cap_is_used_as_given() {
    assert_eq!(clamp_wait_seconds(Some(MAX_WAIT_SECONDS)), MAX_WAIT_SECONDS);
    assert_eq!(clamp_wait_seconds(Some(5)), 5);
}

#[test]
fn a_wait_of_nothing_reads_once() {
    assert_eq!(plan_wait(0), WaitPlan::ReadOnce);
    assert_eq!(plan_wait(9), WaitPlan::PollFor(9));
}

fn state() -> ServeState {
    ServeState {
        pid: 41207,
        address: "127.0.0.1".to_string(),
        port: 8001,
        started_at: at(1_000),
        version: "0.1.0".to_string(),
    }
}

#[test]
fn only_a_directory_that_nothing_serves_is_refused_a_wait() {
    assert!(ensure_data_dir_is_served("./d1", &Ok(ServeStatus::Up(state()))).is_ok());
    assert!(ensure_data_dir_is_served("./d1", &Ok(ServeStatus::Starting)).is_ok());
    let error = ensure_data_dir_is_served("./d1", &Ok(ServeStatus::Down)).unwrap_err();
    assert_eq!(error.message(), "Nothing is serving ./d1");
    let error = ensure_data_dir_is_served("./d1", &Err("denied".to_string())).unwrap_err();
    assert_eq!(error.message(), "denied");
}

#[test]
fn a_wait_that_nothing_would_end_is_refused_before_anything_is_written() {
    let down = Ok(ServeStatus::Down);
    let expected = "Nothing is serving ./d1, so waiting would only run the wait_seconds out - \
                    nothing is there to move the run along. Start flowlite serve against it, or \
                    call again without wait_seconds to get the run back as it stands.";
    assert_eq!(check_wait("./d1", 1, &down).unwrap_err().message(), expected);
    assert!(check_wait("./d1", 0, &down).is_ok());

    let mut args = submit_job_args(Some("etl"), None, None);
    args.wait_seconds = Some(10);
    assert_eq!(plan_submit(args, "./d1", &down).unwrap_err().message(), expected);

    let stop = StopJobRun { job_run_id: 4, wait_seconds: Some(10) };
    assert_eq!(plan_stop(&stop, "./d1", &down).unwrap_err().message(), expected);
    assert_eq!(plan_stop(&stop, "./d1", &Ok(ServeStatus::Starting)).unwrap(), 10);

    let get = GetJobRun { job_run_id: 4, wait_seconds: Some(400) };
    assert_eq!(plan_get(&get, "./d1", &down).unwrap_err().message(), expected);
    assert_eq!(plan_get(&get, "./d1", &Ok(ServeStatus::Up(state()))).unwrap(), 300);
}

#[test]
fn a_submit_that_is_not_refused_is_planned_as_asked() {
    let mut args = submit_job_args(None, None, Some("id: x"));
    args.params = Some(vec![("region".to_string(), "eu".to_string())]);
    args.wait_seconds = Some(301);
    let plan = plan_submit(args, "./d1", &Ok(ServeStatus::Up(state()))).unwrap();
    assert!(matches!(plan.definition, SubmitJobDefinition::Yaml(yaml) if yaml == "id: x"));
    assert_eq!(plan.overrides, vec![("region".to_string(), "eu".to_string())]);
    assert_eq!(plan.wait_seconds, 300);

    let plan =
        plan_submit(submit_job_args(Some("etl"), None, None), "./d1", &Ok(ServeStatus::Down));
    assert!(plan.unwrap().overrides.is_empty());

    let error = plan_submit(submit_job_args(None, None, None), "./d1", &Ok(ServeStatus::Starting));
    assert!(error.unwrap_err().message().contains("none was given"));

    let mut args = submit_job_args(Some("etl"), None, None);
    args.wait_seconds = Some(1);
    let error = plan_submit(args, "./d1", &Err("denied".to_string())).unwrap_err();
    assert_eq!(error.message(), "denied");
}

#[test]
fn a_run_that_will_not_move_is_warned_of() {
    assert_eq!(
        unserved_directory_warning("./d1", &Ok(ServeStatus::Down)).unwrap(),
        "Nothing is serving ./d1, so this run's status will not change until flowlite serve runs \
         against it.",
    );
    assert!(unserved_directory_warning("./d1", &Ok(ServeStatus::Starting)).is_none());
    assert!(unserved_directory_warning("./d1", &Ok(ServeStatus::Up(state()))).is_none());
    assert_eq!(
        unserved_directory_warning("./d1", &Err("denied".to_string())).unwrap(),
        "Could not tell whether ./d1 is being served: denied",
    );
}

#[test]
fn a_collision_is_worded_by_the_argument_that_names_the_installed_job() {
    let collision = ToolError::JobIdAlreadyInstalled {
        job_id: "etl".to_string(),
        jobs_dir: "/srv/etl/jobs".to_string(),
    };
    assert_eq!(
        collision.message(),
        "'etl' is already a job in /srv/etl/jobs",
    );
    assert_eq!(
        describe_ad_hoc_job_collision(collision).message(),
        "'etl' is already a job in /srv/etl/jobs. Submit it by name instead: { \"job\": \"etl\" }",
    );
    let other = describe_ad_hoc_job_collision(ToolError::Other("no such file".to_string()));
    assert_eq!(other.message(), "no such file");
    assert_eq!(INLINE_YAML_LABEL, "<inline yaml>");
}

fn run(scheduled_at: Option<Timestamp>) -> JobRun {
    JobRun {
        id: 7,
        job_id: "etl".to_string(),
        job_name: "ETL".to_string(),
        job_description: String::new(),
        parameters: vec![],
        created_at: at(0),
        schedule_id: None,
        scheduled_at,
        started_at: None,
        finished_at: Some(at(5)),
        status: JobRunStatus::Deleted,
    }
}

fn scheduled(seconds: i64) -> JobRun {
    JobRun { schedule_id: Some("nightly".to_string()), ..run(Some(at(seconds))) }
}

#[test]
fn a_run_dated_by_hand_is_never_written_again() {
    let run = run(Some(at(11)));
    assert_eq!(deleted_occurrence(&run, &at(10)), DeletedOccurrence::NotScheduled);
    assert_eq!(deleted_occurrence(&run, &at(12)), DeletedOccurrence::NotScheduled);
    assert!(occurrence_warning(&run, &at(10)).unwrap().starts_with("This run was submitted by hand"));
}

#[test]
fn an_occurrence_still_ahead_is_written_again() {
    let run = scheduled(11);
    assert_eq!(deleted_occurrence(&run, &at(10)), DeletedOccurrence::Resubmitted);
    assert!(occurrence_warning(&run, &at(10)).is_none());
}

#[test]
fn a_run_submitted_by_hand_is_never_written_again() {
    let run = run(None);
    assert_eq!(deleted_occurrence(&run, &at(10)), DeletedOccurrence::NotScheduled);
    assert_eq!(
        occurrence_warning(&run, &at(10)).unwrap(),
        "This run was submitted by hand rather than by a schedule, so no occurrence is freed and \
         nothing writes it again. Call submit_job with job_id etl to run it.",
    );
}

#[test]
fn an_occurrence_whose_time_has_come_is_not_written_again() {
    // 2026-09-08T03:00:00Z
    let run = scheduled(1_788_836_400);
    assert_eq!(deleted_occurrence(&run, &at(1_788_836_400)), DeletedOccurrence::AlreadyPassed);
    assert_eq!(
        occurrence_warning(&run, &at(1_788_836_400)).unwrap(),
        "This run's instant (2026-09-08T03:00:00+00:00) has already gone by, and the scheduler \
         only fills occurrences still ahead, so it will not be written again. Call submit_job \
         with job_id etl to run it now.",
    );
}

#[test]
fn a_server_that_is_up_reports_itself_and_how_long_it_has_been() {
    let report = status_report(ServeStatus::Up(state()), &at(1_090));
    assert_eq!(report.status, "up");
    assert_eq!(report.uptime_seconds, Some(90));
    assert_eq!(report.state.unwrap().pid, 41207);
    assert_eq!(status_report(ServeStatus::Starting, &at(0)).status, "starting");
    let down = status_report(ServeStatus::Down, &at(0));
    assert_eq!(down.status, "down");
    assert!(down.state.is_none() && down.uptime_seconds.is_none());
}

#[test]
fn files_that_are_there_are_kept() {
    let result = init_result("./d1", true, false, true);
    assert_eq!(result.data_dir, "./d1");
    let files: Vec<(&str, bool)> =
        result.files.iter().map(|file| (file.path.as_str(), file.created)).collect();
    assert_eq!(
        files,
        vec![
            ("jobs/hello.yaml", false),
            ("schedules/daily-hello.yaml", true),
            ("config.toml", false),
        ],
    );
}
