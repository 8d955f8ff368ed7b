//! What the pages show, and which requests are served.
use flowlite::config::{AppConfigTheme, AppConfigUi};
use flowlite::limits::LimitRow;
use flowlite::models::{
    JobRun, TaskRun, TaskRunAttempt, TaskRunAttemptOutputStream, TaskRunAttemptOutputStreams,
};
use flowlite::orchestrator::task_run_attempt_monitor::TaskRunAttemptOutputRow;
use flowlite::router::assets::{answer_asset, asset_name, AssetAnswer};
use flowlite::router::dag::{build, columns_by_task};
use flowlite::router::home::{home_page, runs_href, HomeQuery};
use flowlite::router::job_run::{
    build_lane, build_ticks, delete_step, job_run_controls, job_run_href, job_run_page,
    rerun_step, sort_task_runs, stop_step, ButtonStep,
};
use flowlite::router::job_run_table::{job_run_table, job_run_window};
use flowlite::router::jobs::{
    job_page, jobs_page, jobs_window, task_page, JobSummary, JobsRouteQuery, TaskDisplay,
};
use flowlite::router::limits_panel::{limit_panel_rows, limits_panel};
use flowlite::router::same_origin::{is_allowed, OriginHeaders};
use flowlite::router::schedules::{
    schedule_page, schedules_page, schedules_window, Schedule, SchedulesRouteQuery,
};
use flowlite::router::task_run::{build_attempt, task_run_page};
use flowlite::scheduler::ScheduleJob;
use flowlite::status::{JobRunStatus, TaskRunAttemptStatus, TaskRunStatus};
use flowlite::time::Timestamp;

fn at(seconds: i64) -> Timestamp {
    Timestamp::new(seconds, 0).unwrap()
}

fn headers(pairs: &[(&str, &str)]) -> OriginHeaders {
    let get = |name: &str| {
        pairs.iter().find(|(key, _)| *key == name).map(|(_, value)| value.to_string())
    };
    OriginHeaders {
        sec_fetch_site: get("sec-fetch-site"),
        origin: get("origin"),
        host: get("host"),
    }
}

#[test]
fn a_cross_site_post_is_refused() {
    assert!(!is_allowed("POST", &headers(&[("sec-fetch-site", "cross-site")])));
}

#[test]
fn a_same_site_post_from_another_subdomain_is_refused() {
    assert!(!is_allowed("POST", &headers(&[("sec-fetch-site", "same-site")])));
}

#[test]
fn the_pages_own_post_is_allowed() {
    assert!(is_allowed("POST", &headers(&[("sec-fetch-site", "same-origin")])));
}

#[test]
fn a_post_the_user_initiated_directly_is_allowed() {
    assert!(is_allowed("POST", &headers(&[("sec-fetch-site", "none")])));
}

#[test]
fn a_cross_site_get_is_allowed() {
    assert!(is_allowed("GET", &headers(&[("sec-fetch-site", "cross-site")])));
}

#[test]
fn a_post_with_no_browser_headers_is_allowed() {
    assert!(is_allowed("POST", &headers(&[])));
}

#[test]
fn an_origin_matching_host_is_allowed_without_sec_fetch_site() {
    assert!(is_allowed(
        "POST",
        &headers(&[("origin", "http://127.0.0.1:8000"), ("host", "127.0.0.1:8000")]),
    ));
}

#[test]
fn an_origin_from_elsewhere_is_refused() {
    assert!(!is_allowed(
        "POST",
        &headers(&[("origin", "http://evil.example"), ("host", "127.0.0.1:8000")]),
    ));
}

#[test]
fn an_origin_on_a_different_port_of_this_host_is_refused() {
    assert!(!is_allowed(
        "POST",
        &headers(&[("origin", "http://127.0.0.1:9999"), ("host", "127.0.0.1:8000")]),
    ));
}

#[test]
fn an_origin_without_a_host_or_a_scheme_is_refused() {
    assert!(!is_allowed("DELETE", &headers(&[("origin", "http://127.0.0.1:8000")])));
    assert!(!is_allowed("PUT", &headers(&[("origin", "null"), ("host", "null")])));
    assert!(!is_allowed("PATCH", &headers(&[("origin", "a://b://c"), ("host", "c")])));
    assert!(is_allowed("PATCH", &headers(&[("origin", "a://b://c"), ("host", "b://c")])));
}

fn limit(name: &str, in_use: u32, max: u32) -> Vec<LimitRow> {
    vec![LimitRow { name: name.to_string(), in_use, max }]
}

#[test]
fn route_a_zero_max_row_never_renders_full() {
    let rows = limit_panel_rows(limit("disabled", 9, 0));
    assert!(!rows[0].full);
    assert_eq!(rows[0].max, 0);
}

#[test]
fn route_a_row_at_its_non_zero_max_renders_full() {
    let rows = limit_panel_rows(limit("warehouse", 3, 3));
    assert!(rows[0].full);
}

#[test]
fn route_a_row_below_its_non_zero_max_does_not_render_full() {
    let rows = limit_panel_rows(limit("openai_api", 4, 5));
    assert!(!rows[0].full);
}

#[test]
fn the_panel_leads_with_the_ceiling_on_everything() {
    let limits = vec![("warehouse".to_string(), 2), ("idle".to_string(), 4)];
    let claimed = vec![("warehouse".to_string(), 2)];
    let rows = limits_panel(8, 3, &limits, &claimed);
    let shown: Vec<(&str, u32, u32, bool)> =
        rows.iter().map(|row| (row.name.as_str(), row.in_use, row.max, row.full)).collect();
    assert_eq!(
        shown,
        vec![("global", 3, 8, false), ("warehouse", 2, 2, true), ("idle", 0, 4, false)],
    );
}

#[test]
fn only_a_scheduled_run_offers_delete() {
    for status in JobRunStatus::ALL {
        assert_eq!(
            job_run_controls(status).deletable,
            status == JobRunStatus::Scheduled,
            "{}",
            status.as_str(),
        );
    }
}

#[test]
fn only_a_scheduled_run_offers_skip() {
    for status in JobRunStatus::ALL {
        assert_eq!(
            job_run_controls(status).skippable,
            status == JobRunStatus::Scheduled,
            "{}",
            status.as_str(),
        );
    }
}

#[test]
fn a_queued_or_running_run_offers_stop() {
    assert!(job_run_controls(JobRunStatus::Queued).stoppable);
    assert!(job_run_controls(JobRunStatus::Running).stoppable);
}

#[test]
fn a_settled_or_scheduled_run_offers_no_stop() {
    assert!(!job_run_controls(JobRunStatus::Scheduled).stoppable);

    for status in JobRunStatus::ALL.into_iter().filter(|status| status.is_finished()) {
        assert!(!job_run_controls(status).stoppable, "{}", status.as_str());
    }
}

#[test]
fn only_a_finished_run_offers_rerun() {
    for status in JobRunStatus::ALL.into_iter().filter(|status| !status.is_finished()) {
        assert!(!job_run_controls(status).rerunnable, "{}", status.as_str());
    }
}

#[test]
fn a_deleted_run_offers_no_rerun_though_it_is_finished() {
    assert!(JobRunStatus::Deleted.is_finished());
    assert!(!job_run_controls(JobRunStatus::Deleted).rerunnable);
}

#[test]
fn a_settled_run_that_is_not_deleted_offers_rerun() {
    for status in JobRunStatus::ALL.into_iter().filter(|status| status.is_finished()) {
        assert_eq!(
            job_run_controls(status).rerunnable,
            status != JobRunStatus::Deleted,
            "{}",
            status.as_str(),
        );
    }
}

fn ui() -> AppConfigUi {
    AppConfigUi {
        page_size: 20,
        max_page_size: 100,
        refresh_interval_seconds: 5,
        theme: AppConfigTheme::Auto,
    }
}

fn query(page: Option<usize>, page_size: Option<usize>) -> HomeQuery {
    HomeQuery { page, page_size, filter_job_id: None, filter_status: None }
}

#[test]
fn a_query_is_defaulted_and_capped() {
    assert_eq!(query(None, None).page(), 1);
    assert_eq!(query(Some(0), None).page(), 1);
    assert_eq!(query(Some(3), None).page(), 3);
    assert_eq!(query(None, None).page_size(&ui()), 20);
    assert_eq!(query(None, Some(0)).page_size(&ui()), 1);
    assert_eq!(query(None, Some(500)).page_size(&ui()), 100);
}

#[test]
fn an_empty_job_filter_is_none() {
    let mut asked = query(None, None);
    asked.filter_job_id = Some(String::new());
    assert_eq!(asked.job_id(), None);
    asked.filter_job_id = Some("etl".to_string());
    assert_eq!(asked.job_id(), Some("etl".to_string()));
}

#[test]
fn a_link_carries_its_filters() {
    assert_eq!(runs_href(1, 20, None, None), "/?page=1&page_size=20");
    assert_eq!(
        runs_href(2, 50, Some("etl"), Some(JobRunStatus::TimedOut)),
        "/?page=2&page_size=50&filter_job_id=etl&filter_status=timedout",
    );
}

#[test]
fn the_home_page_offers_every_status() {
    let mut asked = query(Some(2), None);
    asked.filter_job_id = Some("etl".to_string());
    asked.filter_status = Some(JobRunStatus::Failed);
    let page = home_page(&asked, &ui());
    assert_eq!(page.page_size, 20);
    assert_eq!(page.refresh_seconds, 5);
    assert_eq!(
        page.table_href,
        "/job-run-table?page=2&page_size=20&filter_job_id=etl&filter_status=failed",
    );
    assert_eq!(page.selected_job_id.as_deref(), Some("etl"));
    assert_eq!(page.status_chips.len(), 11);
    assert_eq!(page.status_chips[0].label, "all");
    assert_eq!(page.status_chips[0].href, "/?page=1&page_size=20&filter_job_id=etl");
    assert!(!page.status_chips[0].selected);
    for (chip, status) in page.status_chips[1..].iter().zip(JobRunStatus::ALL) {
        assert_eq!(chip.status, Some(status));
        assert_eq!(chip.label, status.word());
        assert_eq!(chip.selected, status == JobRunStatus::Failed);
    }
}

fn run(id: i64, status: JobRunStatus, started: Option<i64>, finished: Option<i64>) -> JobRun {
    JobRun {
        id,
        job_id: "etl".to_string(),
        job_name: "ETL".to_string(),
        job_description: "moves rows".to_string(),
        parameters: vec![("region".to_string(), "eu".to_string())],
        created_at: at(0),
        schedule_id: None,
        scheduled_at: None,
        started_at: started.map(at),
        finished_at: finished.map(at),
        status,
    }
}

#[test]
fn the_table_measures_its_bars_by_the_slowest_run() {
    let runs = vec![
        run(3, JobRunStatus::Running, Some(100), None),
        run(2, JobRunStatus::Succeeded, Some(0), Some(80)),
        run(1, JobRunStatus::Scheduled, None, None),
    ];
    let table = job_run_table(&query(None, None), &ui(), runs, &at(300));
    let shown: Vec<(i64, &str, &str, i64)> = table
        .job_runs
        .iter()
        .map(|run| (run.id, run.status_word, run.duration.as_str(), run.span_pct))
        .collect();
    assert_eq!(
        shown,
        vec![(3, "running", "3m 20s", 100), (2, "", "1m 20s", 40), (1, "submitted", "—", 0)],
    );
    assert_eq!(table.job_runs[0].created_at, "1970-01-01 00:00:00");
    assert!(table.prev_href.is_none());
    assert!(table.next_href.is_none());
}

#[test]
fn one_row_too_many_tells_of_another_page() {
    let asked = query(Some(2), Some(2));
    let window = job_run_window(&asked, &ui());
    assert_eq!((window.limit, window.offset), (3, 2));
    let runs = vec![
        run(3, JobRunStatus::Failed, None, None),
        run(2, JobRunStatus::Failed, None, None),
        run(1, JobRunStatus::Failed, Some(0), Some(9)),
    ];
    let table = job_run_table(&asked, &ui(), runs, &at(300));
    assert_eq!(table.job_runs.len(), 2);
    assert_eq!(table.prev_href.as_deref(), Some("/?page=1&page_size=2"));
    assert_eq!(table.next_href.as_deref(), Some("/?page=3&page_size=2"));
    assert_eq!(table.pagination.current_page, 2);
}

fn task_run(id: i64, task_id: &str, started: Option<i64>, finished: Option<i64>) -> TaskRun {
    TaskRun {
        id,
        job_run_id: 1,
        job_id: "etl".to_string(),
        task_id: task_id.to_string(),
        command: "true".to_string(),
        depends_on: vec![],
        timeout: 3600,
        max_retries: 0,
        retry_delay: 60,
        env: vec![],
        secret_env: vec![],
        limits: vec![],
        working_dir: String::new(),
        created_at: at(0),
        started_at: started.map(at),
        finished_at: finished.map(at),
        status: TaskRunStatus::Succeeded,
    }
}

#[test]
fn a_timeline_reads_by_start_and_then_by_name() {
    let sorted = sort_task_runs(vec![
        task_run(1, "z", None, None),
        task_run(2, "b", Some(5), None),
        task_run(3, "a", None, None),
        task_run(4, "a", Some(5), None),
        task_run(5, "c", Some(1), None),
        task_run(6, "ab", Some(5), None),
    ]);
    let ids: Vec<i64> = sorted.iter().map(|task_run| task_run.id).collect();
    assert_eq!(ids, vec![5, 4, 6, 2, 3, 1]);
}

#[test]
fn an_axis_has_four_parts_once_it_is_long_enough() {
    let ticks: Vec<(i64, String)> =
        build_ticks(100).into_iter().map(|tick| (tick.at_pct, tick.label)).collect();
    let expected = [(0, "0s"), (25, "25s"), (50, "50s"), (75, "1m 15s"), (100, "1m 40s")];
    assert_eq!(ticks, expected.map(|(at, label)| (at, label.to_string())).to_vec());
    let ticks: Vec<i64> = build_ticks(3).into_iter().map(|tick| tick.at_pct).collect();
    assert_eq!(ticks, vec![0, 100]);
}

#[test]
fn a_lane_is_placed_in_its_window() {
    let lane = build_lane(
        task_run(9, "load", Some(10), Some(30)),
        Some("extract".to_string()),
        &at(0),
        &at(40),
        40_000,
    );
    assert_eq!((lane.start_pct, lane.span_pct), (25, 50));
    assert_eq!(lane.duration, "20s");
    assert_eq!(lane.idle_label, "");
    assert_eq!(lane.depends_on.as_deref(), Some("extract"));

    let early = build_lane(task_run(9, "load", Some(-10), None), None, &at(0), &at(40), 40_000);
    assert_eq!((early.start_pct, early.span_pct), (0, 100));

    let idle = build_lane(task_run(9, "load", None, None), None, &at(0), &at(40), 40_000);
    assert!(!idle.started);
    assert_eq!((idle.duration.as_str(), idle.idle_label), ("—", "never started"));

    for (status, label) in [
        (TaskRunStatus::Planned, "planned"),
        (TaskRunStatus::Waiting, "waiting"),
        (TaskRunStatus::Skipped, "skipped"),
        (TaskRunStatus::Aborted, "aborted"),
    ] {
        let mut waiting = task_run(9, "load", None, None);
        waiting.status = status;
        assert_eq!(build_lane(waiting, None, &at(0), &at(1), 1).idle_label, label);
    }
}

#[test]
fn the_page_of_a_run_shows_its_tasks_in_order() {
    let mut load = task_run(2, "load", Some(30), None);
    load.depends_on = vec!["extract".to_string(), "check".to_string()];
    let job = JobSummary {
        job_id: "job".to_string(),
        name: "Job".to_string(),
        description: String::new(),
        tasks: 2,
    };
    let page = job_run_page(
        run(1, JobRunStatus::Running, Some(0), None),
        Some(&job),
        vec![load, task_run(3, "extract", Some(0), Some(30))],
        &ui(),
        &at(60),
    );
    assert_eq!(page.lanes.len(), 2);
    assert_eq!(page.lanes[0].task_id, "extract");
    assert_eq!(page.lanes[0].depends_on, None);
    assert_eq!(page.lanes[1].depends_on.as_deref(), Some("extract, check"));
    assert_eq!((page.lanes[1].start_pct, page.lanes[1].span_pct), (50, 50));
    assert_eq!(page.task_count, "2 tasks");
    assert_eq!(page.ticks.len(), 5);
    assert!(page.polling);
    assert!(page.controls.stoppable);
    assert!(page.job_exists);
    assert_eq!(page.job_run.duration.as_deref(), Some("1m 0s"));
    assert_eq!(page.job_run.status_word, "running");
    assert_eq!(page.job_run.parameters, vec![("region".to_string(), "eu".to_string())]);

    let page = job_run_page(run(1, JobRunStatus::Failed, None, None), None, vec![], &ui(), &at(60));
    assert!(!page.job_exists);
    assert_eq!(page.task_count, "0 tasks");
    assert!(!page.polling);
    assert_eq!(page.job_run.duration, None);
}

#[test]
fn a_stale_button_changes_nothing() {
    let over = run(1, JobRunStatus::Failed, None, None);
    let deleted = run(1, JobRunStatus::Deleted, None, None);
    let queued = run(1, JobRunStatus::Queued, None, None);
    let scheduled = run(1, JobRunStatus::Scheduled, None, None);
    assert_eq!(stop_step(None), ButtonStep::NotFound);
    assert_eq!(stop_step(Some(&over)), ButtonStep::ShowAgain);
    assert_eq!(stop_step(Some(&queued)), ButtonStep::Proceed);
    assert_eq!(rerun_step(None), ButtonStep::NotFound);
    assert_eq!(rerun_step(Some(&deleted)), ButtonStep::ShowAgain);
    assert_eq!(rerun_step(Some(&over)), ButtonStep::Proceed);
    assert_eq!(delete_step(Some(&queued)), ButtonStep::ShowAgain);
    assert_eq!(delete_step(None), ButtonStep::ShowAgain);
    assert_eq!(delete_step(Some(&scheduled)), ButtonStep::Proceed);
    assert_eq!(job_run_href(42), "/job-runs/42");
}

fn attempt(id: i64) -> TaskRunAttempt {
    TaskRunAttempt {
        id,
        task_run_id: 2,
        job_run_id: 1,
        job_id: "etl".to_string(),
        task_id: "load".to_string(),
        attempt: 3,
        created_at: at(0),
        started_at: Some(at(0)),
        finished_at: None,
        status: TaskRunAttemptStatus::TimedOut,
        process_group_id: None,
    }
}

#[test]
fn an_attempt_is_shown_with_its_streams_apart() {
    let streams =
        TaskRunAttemptOutputStreams { stdout: "out".to_string(), stderr: "err".to_string() };
    let shown = build_attempt(&attempt(5), streams, &at(61));
    assert_eq!(shown.attempt, 3);
    assert_eq!(shown.status_word, "timed out");
    assert_eq!(shown.started_at.as_deref(), Some("1970-01-01 00:00:00"));
    assert_eq!(shown.finished_at, None);
    assert_eq!(shown.duration.as_deref(), Some("1m 1s"));
    assert_eq!((shown.stdout.as_str(), shown.stderr.as_str()), ("out", "err"));
}

#[test]
fn the_page_of_a_task_run_counts_its_attempts() {
    let rows = vec![TaskRunAttemptOutputRow {
        task_run_attempt_id: 6,
        task_run_id: 2,
        job_run_id: 1,
        job_id: "etl".to_string(),
        task_id: "load".to_string(),
        stream: TaskRunAttemptOutputStream::Stderr,
        content: "boom".to_string(),
    }];
    let page =
        task_run_page(task_run(2, "load", Some(0), None), &vec![attempt(5), attempt(6)], &rows, &at(9));
    assert_eq!(page.attempt_note, "2 attempts, newest last");
    assert_eq!(page.attempts[0].stderr, "");
    assert_eq!(page.attempts[1].stderr, "boom");
    assert!(!page.polling);
    assert_eq!(page.task_run.duration.as_deref(), Some("9s"));

    let mut waiting = task_run(2, "load", None, None);
    waiting.status = TaskRunStatus::Waiting;
    let page = task_run_page(waiting, &vec![], &rows, &at(9));
    assert_eq!(page.attempt_note, "no attempts yet");
    assert!(page.polling);
    let page = task_run_page(task_run(2, "load", None, None), &vec![attempt(5)], &rows, &at(9));
    assert_eq!(page.attempt_note, "1 attempt");
}

fn job(id: usize, tasks: usize) -> JobSummary {
    JobSummary {
        job_id: format!("job-{id}"),
        name: format!("Job {id}"),
        description: String::new(),
        tasks,
    }
}

#[test]
fn jobs_are_listed_a_page_at_a_time() {
    let query = JobsRouteQuery { job_name_like: Some("Job".to_string()), page: Some(2) };
    let ui = AppConfigUi { page_size: 25, ..ui() };
    let window = jobs_window(&query, &ui);
    assert_eq!((window.limit, window.offset), (26, 25));
    let page = jobs_page(query, (0..26).map(|id| job(id, id)).collect(), &ui);
    assert_eq!(page.jobs.len(), 25);
    assert_eq!(page.jobs[0].task_count, "0 tasks");
    assert_eq!(page.jobs[1].task_count, "1 task");
    assert_eq!(page.current_name.as_deref(), Some("Job"));
    assert_eq!(page.prev_href.as_deref(), Some("/jobs?page=1&job_name_like=Job"));
    assert_eq!(page.next_href.as_deref(), Some("/jobs?page=3&job_name_like=Job"));

    let query = JobsRouteQuery { job_name_like: Some(String::new()), page: None };
    let page = jobs_page(query, vec![job(1, 2)], &ui);
    assert!(page.prev_href.is_none() && page.next_href.is_none());
    assert_eq!(page.current_name, None);
}

#[test]
fn the_configured_page_size_holds_for_the_list_of_jobs() {
    let small = AppConfigUi { page_size: 10, ..ui() };
    let query = JobsRouteQuery { job_name_like: None, page: Some(1) };
    let window = jobs_window(&query, &small);
    assert_eq!((window.limit, window.offset), (11, 0));
    let page = jobs_page(query, (0..11).map(|id| job(id, 1)).collect(), &small);
    assert_eq!(page.jobs.len(), 10);
    assert_eq!(page.jobs[9].job_id, "job-9");
    assert_eq!(page.next_href.as_deref(), Some("/jobs?page=2"));
    let query = JobsRouteQuery { job_name_like: None, page: Some(2) };
    assert_eq!(jobs_window(&query, &small).offset, 10);
    let page = jobs_page(query, (10..20).map(|id| job(id, 1)).collect(), &small);
    assert_eq!(page.jobs.len(), 10);
    assert!(page.next_href.is_none() && page.prev_href.is_some());
}

#[test]
fn a_page_asks_for_the_configured_theme() {
    for (theme, word) in [
        (AppConfigTheme::Auto, "auto"),
        (AppConfigTheme::Dark, "dark"),
        (AppConfigTheme::Light, "light"),
    ] {
        let ui = AppConfigUi { theme, ..ui() };
        let run = run(1, JobRunStatus::Failed, None, None);
        assert_eq!(job_run_page(run, None, vec![], &ui, &at(60)).theme, word);
    }
}

fn schedule(id: &str) -> Schedule {
    Schedule {
        schedule_id: id.to_string(),
        name: "Nightly".to_string(),
        description: String::new(),
        cron: "0 0 3 * * *".to_string(),
        timezone: "UTC".to_string(),
        start_date: Some("2026-01-01".to_string()),
        end_date: None,
        next_run: Some(at(0)),
        disabled: false,
    }
}

#[test]
fn schedules_are_listed_a_page_at_a_time() {
    let small =
        AppConfigUi { page_size: 1, max_page_size: 1, refresh_interval_seconds: 7, ..ui() };
    let query = SchedulesRouteQuery { schedule_name_like: None, page: Some(3) };
    let window = schedules_window(&query, &small);
    assert_eq!((window.limit, window.offset), (2, 2));
    let page = schedules_page(query, vec![schedule("a"), schedule("b")], &small);
    assert_eq!(page.schedules.len(), 1);
    assert_eq!(page.schedules[0].schedule_id, "a");
    assert_eq!(page.schedules[0].next_run.as_deref(), Some("1970-01-01 00:00:00"));
    assert_eq!(page.prev_href.as_deref(), Some("/schedules?page=2"));
    assert_eq!(page.next_href.as_deref(), Some("/schedules?page=4"));
    assert_eq!(page.self_href, "/schedules?page=3");
    assert_eq!(page.refresh_seconds, 7);
}

#[test]
fn a_page_of_nothing_says_what_is_missing() {
    assert_eq!(schedule_page(None, vec![], &ui()).unwrap_err(), "Schedule not found");
    let jobs =
        vec![ScheduleJob { job_id: "etl".to_string(), parameters: vec![] }];
    let page = schedule_page(Some(schedule("a")), jobs, &ui()).unwrap();
    assert_eq!(page.schedule.start_date.as_deref(), Some("2026-01-01"));
    assert_eq!(page.schedule_jobs[0].job_id, "etl");
    assert_eq!(job_page(None, vec![]).unwrap_err(), "Job not found");
    assert_eq!(task_page(None, None).unwrap_err(), "Job not found");
    assert_eq!(task_page(Some(job(1, 1)), None).unwrap_err(), "Task not found");
    let page = task_page(Some(job(1, 1)), Some(task("load", &[]))).unwrap();
    assert_eq!(page.job_name, "Job 1");
    assert_eq!(page.task.task_id, "load");
}

fn task(task_id: &str, depends_on: &[&str]) -> TaskDisplay {
    TaskDisplay {
        task_id: task_id.to_string(),
        job_id: "etl".to_string(),
        description: String::new(),
        command: "true".to_string(),
        depends_on: depends_on.iter().map(|name| name.to_string()).collect(),
        timeout: 60,
        max_retries: 0,
        retry_delay: 0,
        env: vec![],
        working_dir: String::new(),
    }
}

#[test]
fn a_task_is_drawn_behind_what_it_depends_on() {
    let tasks = vec![
        task("load", &["transform", "check", "elsewhere"]),
        task("transform", &["extract"]),
        task("check", &["extract"]),
        task("extract", &[]),
    ];
    assert_eq!(columns_by_task(&tasks), vec![2, 1, 1, 0]);
    let dag = build(&tasks);
    let places: Vec<(i64, i64)> = dag.nodes.iter().map(|node| (node.x, node.y)).collect();
    assert_eq!(places, vec![(496, 28), (248, 0), (248, 56), (0, 28)]);
    assert_eq!((dag.nodes[3].center_x, dag.nodes[3].center_y), (88, 46));
    assert_eq!((dag.width, dag.height), (674, 94));
    let paths: Vec<&str> = dag.edges.iter().map(|edge| edge.path.as_str()).collect();
    assert_eq!(
        paths,
        vec![
            "M 424 18 C 460 18 460 46 496 46",
            "M 424 74 C 460 74 460 46 496 46",
            "M 176 46 C 212 46 212 18 248 18",
            "M 176 46 C 212 46 212 74 248 74",
        ],
    );
    let page = job_page(Some(job(1, 4)), tasks).unwrap();
    assert!(page.has_dependencies);
}

#[test]
fn tasks_that_depend_on_each_other_are_drawn_all_the_same() {
    let tasks = vec![task("a", &["b"]), task("b", &["a"])];
    assert_eq!(columns_by_task(&tasks), vec![3, 4]);
    let dag = build(&tasks);
    assert_eq!((dag.nodes[0].x, dag.nodes[1].x), (0, 248));
    assert_eq!(dag.edges[0].path, "M 424 18 C 212 18 212 18 0 18");
}

#[test]
fn a_job_without_dependencies_has_nothing_to_draw_between_its_tasks() {
    let page = job_page(Some(job(1, 1)), vec![task("a-task-with-a-rather-long-name", &[])]).unwrap();
    assert!(!page.has_dependencies);
    assert_eq!(page.dag.nodes[0].label, "a-task-with-a-rather-…");
    assert_eq!((page.dag.width, page.dag.height), (178, 38));
    let empty = build(&vec![]);
    assert_eq!((empty.width, empty.height), (0, 0));
    assert!(empty.nodes.is_empty());
}

#[test]
fn a_file_is_served_with_its_media_type() {
    assert_eq!(asset_name("//css/app.css"), "css/app.css");
    match answer_asset("/css/app.css", true) {
        AssetAnswer::Found(essence) => assert_eq!(essence, "text/css"),
        AssetAnswer::NotFound => panic!("not found"),
    }
    match answer_asset("logo", true) {
        AssetAnswer::Found(essence) => assert_eq!(essence, "application/octet-stream"),
        AssetAnswer::NotFound => panic!("not found"),
    }
    assert!(matches!(answer_asset("/css/app.css", false), AssetAnswer::NotFound));
}
