//! What a notification says, to whom, and what becomes of it.
use flowlite::config::{
    AppConfig, AppConfigOrchestrator, AppConfigRetention, AppConfigSlack, AppConfigSmtp,
    AppConfigSmtpEncryption, AppConfigTheme, AppConfigUi,
};
use flowlite::models::{
    JobRun, TaskRun, TaskRunAttempt, TaskRunAttemptOutputStream, TaskRunAttemptOutputStreams,
};
use flowlite::notifications::channel::{NotificationChannels, Sender};
use flowlite::notifications::email::EmailChannel;
use flowlite::notifications::message::{
    fenced, job_run_message, message_blocks, message_body, message_page, message_subject,
    run_summary, stream_tail, Block, JobRunFailureTask, NotificationMessage,
};
use flowlite::notifications::service::{
    describe_delivery_failure, get_failures, handle_open_notification, record_delivery,
    record_skipped, JobRunNotification, JobRunNotificationStatus, NotificationStep, NotifyOn,
};
use flowlite::notifications::slack::{
    escape, fence_safe, post_payload, post_text, read_answer, sum_up_posts, SlackChannel,
    SlackResponse,
};
use flowlite::notifications::NotificationChannel;
use flowlite::orchestrator::task_run_attempt_monitor::TaskRunAttemptOutputRow;
use flowlite::status::{JobRunStatus, TaskRunAttemptStatus, TaskRunStatus};
use flowlite::time::Timestamp;

fn at(seconds: i64) -> Timestamp {
    Timestamp::new(seconds, 0).unwrap()
}

fn job_run(status: JobRunStatus) -> JobRun {
    JobRun {
        id: 42,
        job_id: "nightly-sync".to_string(),
        job_name: "Nightly Sync".to_string(),
        job_description: String::new(),
        parameters: vec![],
        created_at: at(0),
        schedule_id: None,
        scheduled_at: None,
        started_at: Some(at(0)),
        finished_at: Some(at(276)),
        status,
    }
}

fn task_run(task_id: &str, status: TaskRunStatus) -> TaskRun {
    TaskRun {
        id: 11,
        job_run_id: 42,
        job_id: "nightly-sync".to_string(),
        task_id: task_id.to_string(),
        command: "./sync.sh".to_string(),
        depends_on: vec![],
        timeout: 3600,
        max_retries: 2,
        retry_delay: 60,
        env: vec![],
        secret_env: vec![],
        limits: vec![],
        working_dir: String::new(),
        created_at: at(0),
        started_at: Some(at(0)),
        finished_at: Some(at(276)),
        status,
    }
}

fn attempt(number: u32) -> TaskRunAttempt {
    TaskRunAttempt {
        id: 5,
        task_run_id: 11,
        job_run_id: 42,
        job_id: "nightly-sync".to_string(),
        task_id: "transform".to_string(),
        created_at: at(0),
        started_at: Some(at(0)),
        finished_at: Some(at(276)),
        attempt: number,
        status: TaskRunAttemptStatus::Failed,
        process_group_id: None,
    }
}

fn failure(stdout: &str, stderr: &str) -> JobRunFailureTask {
    JobRunFailureTask {
        task_run: task_run("transform", TaskRunStatus::Failed),
        attempt: Some(attempt(3)),
        streams: TaskRunAttemptOutputStreams {
            stdout: stdout.to_string(),
            stderr: stderr.to_string(),
        },
    }
}

fn failure_without_attempt() -> JobRunFailureTask {
    JobRunFailureTask {
        task_run: task_run("transform", TaskRunStatus::Failed),
        attempt: None,
        streams: TaskRunAttemptOutputStreams::default(),
    }
}

#[test]
fn the_subject_names_the_job_the_run_and_what_happened() {
    assert_eq!(
        message_subject(&job_run(JobRunStatus::TimedOut)),
        "[flowlite] Nightly Sync run 42 timed out",
    );
}

#[test]
fn a_succeeded_run_says_so_in_its_own_subject() {
    assert_eq!(
        message_subject(&job_run(JobRunStatus::Succeeded)),
        "[flowlite] Nightly Sync run 42 succeeded",
    );
}

#[test]
fn a_succeeded_run_carries_its_tasks_and_quotes_no_output() {
    let task_runs = vec![
        task_run("extract", TaskRunStatus::Succeeded),
        task_run("load", TaskRunStatus::Succeeded),
    ];

    let body = message_body(&job_run(JobRunStatus::Succeeded), &task_runs, &vec![], 4096);

    assert!(body.contains("Job run 42 of 'Nightly Sync' (nightly-sync) succeeded."), "{}", body);

    assert!(body.contains("extract"), "{}", body);
    assert!(body.contains("load"), "{}", body);

    assert!(!body.contains("stdout:"), "{}", body);
    assert!(!body.contains("Output of"), "{}", body);
}

#[test]
fn the_body_carries_every_task_and_the_output_of_the_one_that_broke() {
    let task_runs = vec![
        task_run("extract", TaskRunStatus::Succeeded),
        task_run("transform", TaskRunStatus::Failed),
        task_run("load", TaskRunStatus::Skipped),
    ];

    let failures = vec![failure(
        "reading rows\n",
        "psycopg2.OperationalError: connection refused\n",
    )];

    let body = message_body(&job_run(JobRunStatus::Failed), &task_runs, &failures, 4096);

    assert!(body.contains("Job run 42 of 'Nightly Sync' (nightly-sync) failed."), "{}", body);

    assert!(body.contains("extract"), "{}", body);
    assert!(body.contains("load"), "{}", body);
    assert!(body.contains("skipped"), "{}", body);

    assert!(body.contains("Output of transform, attempt 3 of 3"), "{}", body);
    assert!(body.contains("psycopg2.OperationalError: connection refused"), "{}", body);

    assert!(body.contains("flowlite job-run logs 42"), "{}", body);
}

#[test]
fn a_failed_task_with_no_attempt_says_so_rather_than_quoting_nothing() {
    let failures = vec![failure_without_attempt()];

    let body = message_body(&job_run(JobRunStatus::Failed), &vec![], &failures, 4096);

    assert!(body.contains("transform failed, with no attempt"), "{}", body);
    assert!(!body.contains("stdout:"), "{}", body);
}

#[test]
fn a_short_stream_is_written_whole() {
    assert_eq!(stream_tail("all fine\n", 100), "all fine\n");
}

#[test]
fn an_empty_stream_says_so_rather_than_being_blank() {
    assert_eq!(stream_tail("", 100), "(nothing written)\n");
}

#[test]
fn a_long_stream_keeps_its_end() {
    let tail = stream_tail("0123456789abcdef", 6);

    assert!(tail.ends_with("abcdef\n"));
    assert!(tail.starts_with("(earlier output cut, last 6 bytes follow)\n"));
}

#[test]
fn a_cut_never_splits_a_character() {
    let tail = stream_tail("🙂🙂🙂", 6);

    assert!(tail.ends_with("🙂\n"));
    assert_eq!(tail, "(earlier output cut, last 4 bytes follow)\n🙂\n");
}

/// Everything the blocks say.
fn blocks_text(blocks: &[Block]) -> String {
    let mut text = String::new();
    for block in blocks {
        match block {
            Block::Header { text: said } => text.push_str(said),
            Block::Section { text: said } => text.push_str(said),
            Block::Fields { fields } => text.push_str(&fields.join("\n")),
            Block::Context { text: said } => text.push_str(said),
        }
        text.push('\n');
    }
    text
}

fn blocks_of(
    job_run: &JobRun,
    task_runs: Vec<TaskRun>,
    failures: Vec<JobRunFailureTask>,
    max_output_bytes: usize,
) -> Vec<Block> {
    message_blocks(job_run, &task_runs, &failures, max_output_bytes)
}

fn sections(blocks: &[Block]) -> Vec<&str> {
    blocks
        .iter()
        .filter_map(|block| match block {
            Block::Section { text } => Some(text.as_str()),
            Block::Header { text } => Some(text.as_str()),
            _ => None,
        })
        .collect()
}

#[test]
fn a_job_run_message_carries_every_rendering() {
    let message = job_run_message(&job_run(JobRunStatus::Failed), &vec![], &vec![], 4096);

    assert!(message.body.contains("Job run 42"), "{}", message.body);
    assert!(message.page.unwrap().lead.contains("Job run 42"));

    let blocks = message.blocks.unwrap();

    assert!(matches!(&blocks[0], Block::Header { .. }));
    assert!(blocks_text(&blocks).contains("Nightly Sync run 42 failed"), "{:?}", blocks);
}

#[test]
fn the_blocks_open_with_a_header_naming_the_run_and_what_happened() {
    let blocks = blocks_of(&job_run(JobRunStatus::Failed), vec![], vec![], 4096);

    let header = match &blocks[0] {
        Block::Header { text } => text,
        other => panic!("{:?}", other),
    };

    assert!(header.contains("Nightly Sync"), "{}", header);
    assert!(header.contains("failed"), "{}", header);
    assert!(header.contains(":x:"), "{}", header);
}

#[test]
fn the_summary_becomes_fields_rather_than_an_aligned_column() {
    let blocks = blocks_of(&job_run(JobRunStatus::Succeeded), vec![], vec![], 4096);

    let fields = blocks
        .iter()
        .find_map(|block| match block {
            Block::Fields { fields } => Some(fields),
            _ => None,
        })
        .expect("a section carrying the summary as fields");

    assert!(
        fields.iter().any(|field| field.contains("*Job*") && field.contains("nightly-sync")),
        "{:?}",
        fields,
    );
    assert!(
        fields.iter().any(|field| field.contains("*Run*") && field.contains("42")),
        "{:?}",
        fields,
    );
}

#[test]
fn every_task_is_listed_with_its_status() {
    let task_runs = vec![
        task_run("extract", TaskRunStatus::Succeeded),
        task_run("load", TaskRunStatus::Skipped),
    ];

    let text = blocks_text(&blocks_of(&job_run(JobRunStatus::Failed), task_runs, vec![], 4096));

    assert!(text.contains("extract"), "{}", text);
    assert!(text.contains("load"), "{}", text);
    assert!(text.contains("skipped"), "{}", text);
}

#[test]
fn a_succeeded_run_quotes_no_output_in_its_blocks() {
    let task_runs = vec![task_run("extract", TaskRunStatus::Succeeded)];

    let text =
        blocks_text(&blocks_of(&job_run(JobRunStatus::Succeeded), task_runs, vec![], 4096));

    assert!(!text.contains("```"), "{}", text);
    assert!(!text.contains("stderr"), "{}", text);
}

#[test]
fn the_blocks_carry_the_failing_tasks_output_in_a_fence() {
    let failures = vec![failure(
        "reading rows\n",
        "psycopg2.OperationalError: connection refused\n",
    )];

    let text = blocks_text(&blocks_of(&job_run(JobRunStatus::Failed), vec![], failures, 4096));

    assert!(text.contains("Output of transform, attempt 3 of 3"), "{}", text);
    assert!(text.contains("psycopg2.OperationalError: connection refused"), "{}", text);
    assert!(text.contains("```"), "{}", text);
}

#[test]
fn a_failed_task_with_no_attempt_says_so_in_the_blocks_too() {
    let failures = vec![failure_without_attempt()];

    let text = blocks_text(&blocks_of(&job_run(JobRunStatus::Failed), vec![], failures, 4096));

    assert!(text.contains("transform failed, with no attempt"), "{}", text);
    assert!(!text.contains("```"), "{}", text);
}

#[test]
fn the_blocks_end_with_the_command_that_shows_everything() {
    let blocks = blocks_of(&job_run(JobRunStatus::Failed), vec![], vec![], 4096);

    match blocks.last().unwrap() {
        Block::Context { text } => assert!(text.contains("flowlite job-run logs 42"), "{}", text),
        other => panic!("{:?}", other),
    }
}

#[test]
fn markup_printed_by_a_command_is_escaped_in_the_blocks_too() {
    let failures = vec![failure("", "expected a < b & c\n")];

    let text = blocks_text(&blocks_of(&job_run(JobRunStatus::Failed), vec![], failures, 4096));

    assert!(text.contains("a &lt; b &amp; c"), "{}", text);
}

#[test]
fn a_fence_in_the_quoted_output_cannot_close_the_code_block() {
    let failures = vec![failure("", "boom\n```\nmore\n")];

    let blocks = blocks_of(&job_run(JobRunStatus::Failed), vec![], failures, 4096);

    let stderr = sections(&blocks)
        .into_iter()
        .find(|text| text.starts_with("*stderr*"))
        .expect("a section quoting stderr");

    assert_eq!(stderr.matches("```").count(), 2, "{}", stderr);
    assert!(stderr.contains("boom"), "{}", stderr);
    assert!(stderr.contains("more"), "{}", stderr);
}

#[test]
fn a_long_task_list_is_split_rather_than_refused_by_slack() {
    let task_runs: Vec<TaskRun> = (0..300)
        .map(|n| task_run(&format!("task-{:03}", n), TaskRunStatus::Succeeded))
        .collect();

    let blocks = blocks_of(&job_run(JobRunStatus::Succeeded), task_runs, vec![], 4096);

    for text in sections(&blocks) {
        assert!(text.chars().count() <= 3000, "{} characters", text.chars().count());
    }

    let text = blocks_text(&blocks);

    assert!(text.contains("task-000"), "the first task is missing");
    assert!(text.contains("task-299"), "the last task is missing");
}

#[test]
fn an_escaped_stream_too_long_for_a_section_is_cut_to_fit() {
    let failures = vec![failure("", &"&".repeat(2000))];

    let blocks = blocks_of(&job_run(JobRunStatus::Failed), vec![], failures, 4096);

    for text in sections(&blocks) {
        assert!(text.chars().count() <= 3000, "{} characters", text.chars().count());
        assert_eq!(text.matches("```").count() % 2, 0, "a fence was left open");
    }
}

#[test]
fn a_very_long_job_name_is_cut_to_fit_slacks_header() {
    let mut job_run = job_run(JobRunStatus::Failed);
    job_run.job_name = "N".repeat(400);

    let blocks = blocks_of(&job_run, vec![], vec![], 4096);

    let header = match &blocks[0] {
        Block::Header { text } => text,
        other => panic!("{:?}", other),
    };

    assert!(header.chars().count() <= 150, "{} characters", header.chars().count());
}

#[test]
fn a_run_with_many_failed_tasks_stays_under_slacks_block_limit() {
    let failures: Vec<JobRunFailureTask> =
        (0..40).map(|_| failure("reading rows\n", "boom\n")).collect();

    let blocks = blocks_of(&job_run(JobRunStatus::Failed), vec![], failures, 4096);

    assert!(blocks.len() <= 50, "{} blocks", blocks.len());

    match blocks.last().unwrap() {
        Block::Context { text } => assert!(text.contains("flowlite job-run logs 42"), "{}", text),
        other => panic!("a cut message still has to say where the rest is: {:?}", other),
    }
}

#[test]
fn a_page_shows_the_same_as_the_text() {
    let task_runs = vec![task_run("extract", TaskRunStatus::Succeeded)];
    let failures = vec![failure("", "0123456789abcdef"), failure_without_attempt()];
    let page = message_page(&job_run(JobRunStatus::Failed), &task_runs, &failures, 6);
    assert_eq!(page.status_word, "failed");
    assert_eq!(page.tasks[0].task_id, "extract");
    assert_eq!(page.tasks[0].status_word, "succeeded");
    assert_eq!(page.failures[0].title, "Output of transform, attempt 3 of 3");
    let streams = page.failures[0].streams.as_ref().unwrap();
    assert_eq!(streams.stdout, "(nothing written)\n");
    assert!(streams.stderr.contains("earlier output cut"));
    assert!(!streams.stderr.contains("0123456789"));
    assert!(page.failures[1].title.contains("transform failed, with no attempt"));
    assert!(page.failures[1].streams.is_none());
    assert_eq!(page.logs_command, "flowlite job-run logs 42");
}

#[test]
fn a_summary_is_written_in_a_column() {
    let summary = run_summary(&job_run(JobRunStatus::Failed));
    assert!(summary.contains("nightly-sync"), "{summary}");
    assert!(summary.contains("1970-01-01 00:00:00"), "{summary}");
    assert!(summary.contains("4m 36s"), "{summary}");
}

fn message() -> NotificationMessage {
    NotificationMessage {
        subject: "[flowlite] Nightly Sync run 42 failed".to_string(),
        body: "Job run 42 of 'Nightly Sync' (nightly-sync) failed.".to_string(),
        page: None,
        blocks: None,
    }
}

#[test]
fn the_fallback_body_is_fenced_so_the_alignment_survives() {
    let text = post_text(&message());

    assert!(text.starts_with("*[flowlite] Nightly Sync run 42 failed*\n```\n"), "{}", text);
    assert!(text.ends_with("\n```"), "{}", text);
}

#[test]
fn a_fence_in_the_quoted_output_cannot_close_the_block() {
    let broken = fence_safe("stderr:\n```\nboom\n");

    assert!(!broken.contains("```"), "{}", broken);
    assert!(broken.contains("boom"), "{}", broken);
    assert_eq!(broken, "stderr:\n` ` `\nboom\n");
}

#[test]
fn no_run_of_backticks_closes_the_block() {
    for ticks in 0..20 {
        let body = format!("a{}b", "`".repeat(ticks));
        let broken = fence_safe(&body);
        assert!(!broken.contains("```"), "{broken}");
        assert_eq!(broken.replace(' ', ""), body);
        assert_eq!(broken == body, ticks < 3, "{broken}");
        let quoted = fenced("stdout", &body);
        assert_eq!(quoted.matches("```").count(), 2, "{quoted}");
        assert!(quoted.ends_with("b\n```"), "{quoted}");
    }
    assert_eq!(fence_safe("````"), "` ` ``");
    assert_eq!(fence_safe("`````"), "` ` ` ` `");
    assert_eq!(fence_safe("``````"), "` ` `` ` `");
    assert_eq!(fence_safe("`` `` ```"), "`` `` ` ` `");
}

#[test]
fn the_characters_slack_reads_itself_are_escaped() {
    assert_eq!(escape("a < b && c > d"), "a &lt; b &amp;&amp; c &gt; d");
    assert_eq!(escape("&lt;"), "&amp;lt;");
    let quoted = fenced("stderr", "x < y\n");
    assert_eq!(quoted.matches("```").count(), 2);
    assert!(quoted.contains("x &lt; y"));
}

#[test]
fn a_message_with_no_blocks_still_posts_everything_it_says() {
    let message = message();
    let payload = post_payload("#oncall", &message);
    assert_eq!(payload.channel, "#oncall");
    assert!(payload.blocks.is_none());
    assert!(payload.text.contains("(nightly-sync) failed."), "{}", payload.text);
}

#[test]
fn a_message_with_blocks_posts_them_rather_than_one_fenced_wall() {
    let mut message = message();
    message.blocks = Some(vec![Block::Header {
        text: ":x: Nightly Sync run 42 failed".to_string(),
    }]);
    let payload = post_payload("#oncall", &message);
    assert_eq!(payload.text, "[flowlite] Nightly Sync run 42 failed");
    assert!(matches!(&payload.blocks.unwrap()[0], Block::Header { .. }));
    assert!(!payload.text.contains("```"), "{}", payload.text);
}

#[test]
fn a_refusal_in_a_200_is_a_failure_naming_what_slack_said() {
    let refused = SlackResponse { ok: false, error: "channel_not_found".to_string() };
    let answer = read_answer("200 OK", "{}", &Some(refused));
    assert_eq!(
        answer.as_ref().unwrap_err(),
        "Slack refused the message: channel_not_found",
    );
    let error = sum_up_posts(&vec![("#typo".to_string(), answer)]).unwrap_err();
    assert!(error.contains("#typo"), "{}", error);
    assert!(error.contains("channel_not_found"), "{}", error);
    let delivered = SlackResponse { ok: true, error: String::new() };
    assert!(read_answer("200 OK", "{}", &Some(delivered)).is_ok());
}

#[test]
fn one_refused_conversation_does_not_stop_the_others() {
    let error = sum_up_posts(&vec![
        ("#typo".to_string(), Err("Slack refused the message: channel_not_found".to_string())),
        ("#oncall".to_string(), Ok(())),
        ("#gone".to_string(), Err("is_archived".to_string())),
    ])
    .unwrap_err();
    assert!(error.contains("#typo"), "{}", error);
    assert!(!error.contains("#oncall"), "{}", error);
    assert_eq!(
        error,
        "#typo: Slack refused the message: channel_not_found; #gone: is_archived",
    );
    assert!(sum_up_posts(&vec![("#oncall".to_string(), Ok(()))]).is_ok());
}

#[test]
fn an_answer_that_is_not_json_is_reported_as_what_it_said() {
    let error = read_answer("502 Bad Gateway", " <html>gateway error</html>\n", &None).unwrap_err();
    assert_eq!(error, "Slack answered 502 Bad Gateway with <html>gateway error</html>");
}

fn smtp() -> AppConfigSmtp {
    AppConfigSmtp {
        host: "mail.example.com".to_string(),
        port: 587,
        from: "flowlite <flowlite@example.com>".to_string(),
        username: String::new(),
        password: String::new(),
        encryption: AppConfigSmtpEncryption::StartTls,
        max_output_bytes: 4096,
    }
}

fn slack() -> AppConfigSlack {
    AppConfigSlack {
        token: "xoxb-test".to_string(),
        api_url: "https://slack.com/api/chat.postMessage".to_string(),
        timeout_seconds: 5,
        max_output_bytes: 2048,
    }
}

fn channels(smtp: Option<AppConfigSmtp>, slack: Option<AppConfigSlack>) -> NotificationChannels {
    NotificationChannels::from_config(&AppConfig {
        smtp,
        slack,
        orchestrator: AppConfigOrchestrator {
            poll_interval_seconds: 1,
            error_backoff_seconds: 5,
            reader_eof_timeout_seconds: 2,
            max_stream_bytes: 1_048_576,
            read_buffer_bytes: 8192,
            max_running_attempts: 32,
        },
        ui: AppConfigUi {
            page_size: 20,
            max_page_size: 100,
            refresh_interval_seconds: 5,
            theme: AppConfigTheme::Auto,
        },
        retention: AppConfigRetention { keep_runs_total: 0, max_deletes_per_pass: 0 },
    })
}

#[test]
fn mail_is_addressed_as_it_is_read() {
    let envelope = EmailChannel::new(smtp())
        .envelope(&vec!["On Call <oncall@example.com>".to_string(), "a@b.example".to_string()])
        .unwrap();
    assert_eq!(envelope.from.name.as_deref(), Some("flowlite"));
    assert_eq!(envelope.from.email, "flowlite@example.com");
    assert_eq!(envelope.to.len(), 2);
    assert_eq!(envelope.to[0].name.as_deref(), Some("On Call"));
    assert_eq!(envelope.to[0].email, "oncall@example.com");
    assert_eq!(envelope.to[1].name, None);
    assert_eq!(envelope.to[1].email, "a@b.example");
}

#[test]
fn what_is_no_address_is_named() {
    let error = EmailChannel::new(smtp())
        .envelope(&vec!["oncall@example.com".to_string(), "nobody".to_string()])
        .unwrap_err();
    assert!(error.contains("nobody"), "{error}");
    let mut bad = smtp();
    bad.from = "nowhere".to_string();
    let error = EmailChannel::new(bad).envelope(&vec![]).unwrap_err();
    assert!(error.starts_with("[smtp] from 'nowhere' is not an address: "), "{error}");
}

#[test]
fn a_relay_that_authenticates_nobody_is_offered_no_credentials() {
    let plan = EmailChannel::new(smtp()).transport();
    assert_eq!((plan.host.as_str(), plan.port), ("mail.example.com", 587));
    assert!(plan.credentials.is_none());
    let mut closed = smtp();
    closed.username = "flowlite".to_string();
    closed.password = "pw".to_string();
    let plan = EmailChannel::new(closed).transport();
    assert_eq!(plan.credentials, Some(("flowlite".to_string(), "pw".to_string())));
}

#[test]
fn a_failed_run_with_no_channel_configured_closes_it_as_failed() {
    let channels = channels(None, Some(slack()));
    let error = match channels.sender(NotificationChannel::Email) {
        Err(error) => error,
        Ok(_) => panic!("no such channel"),
    };
    assert!(error.contains("[smtp]"), "{error}");
    let update = record_delivery(&Err(error.to_string()), at(9));
    assert_eq!(update.status, JobRunNotificationStatus::Failed);
    assert!(update.error.unwrap().contains("[smtp]"));
    assert!(update.sent_at.is_none());
}

#[test]
fn a_slack_notification_with_no_slack_configured_names_that_section() {
    let channels = channels(Some(smtp()), None);
    match channels.sender(NotificationChannel::Slack) {
        Err(error) => assert!(error.contains("[slack]"), "{error}"),
        Ok(_) => panic!("no such channel"),
    }
    assert!(matches!(channels.sender(NotificationChannel::Email), Ok(Sender::Email(_))));
}

#[test]
fn each_channel_quotes_as_much_as_it_is_configured_to() {
    let both = channels(Some(smtp()), Some(slack()));
    assert_eq!(both.max_output_bytes(NotificationChannel::Email), 4096);
    assert_eq!(both.max_output_bytes(NotificationChannel::Slack), 2048);
    assert_eq!(EmailChannel::new(smtp()).max_output_bytes(), 4096);
    assert_eq!(SlackChannel::new(slack()).max_output_bytes(), 2048);
    assert_eq!(SlackChannel::new(slack()).config().token, "xoxb-test");
}

#[test]
fn a_run_still_going_leaves_its_notification_open() {
    assert_eq!(
        handle_open_notification(NotifyOn::Failure, JobRunStatus::Running),
        NotificationStep::Leave,
    );
}

#[test]
fn a_run_still_going_leaves_its_success_notification_open_too() {
    assert_eq!(
        handle_open_notification(NotifyOn::Success, JobRunStatus::Running),
        NotificationStep::Leave,
    );
}

#[test]
fn a_succeeded_run_delivers_the_notification_that_asked_for_it() {
    assert_eq!(
        handle_open_notification(NotifyOn::Success, JobRunStatus::Succeeded),
        NotificationStep::Deliver,
    );
    let update = record_delivery(&Ok(()), at(9));
    assert_eq!(update.status, JobRunNotificationStatus::Sent);
    assert_eq!(update.sent_at.unwrap().seconds(), 9);
}

#[test]
fn a_failed_run_closes_its_success_notification_as_skipped() {
    assert_eq!(
        handle_open_notification(NotifyOn::Success, JobRunStatus::Failed),
        NotificationStep::Skip,
    );
    assert_eq!(record_skipped().status, JobRunNotificationStatus::Skipped);
}

#[test]
fn an_aborted_run_closes_its_success_notification_as_skipped() {
    assert_eq!(
        handle_open_notification(NotifyOn::Success, JobRunStatus::Aborted),
        NotificationStep::Skip,
    );
}

#[test]
fn a_run_asking_to_be_told_either_way_settles_its_two_rows_differently() {
    assert_eq!(
        handle_open_notification(NotifyOn::Failure, JobRunStatus::Succeeded),
        NotificationStep::Skip,
    );
    assert_eq!(
        handle_open_notification(NotifyOn::Success, JobRunStatus::Succeeded),
        NotificationStep::Deliver,
    );
}

#[test]
fn a_succeeded_run_closes_its_notification_as_skipped() {
    assert_eq!(
        handle_open_notification(NotifyOn::Failure, JobRunStatus::Succeeded),
        NotificationStep::Skip,
    );
}

#[test]
fn an_aborted_run_closes_its_notification_as_skipped() {
    assert_eq!(
        handle_open_notification(NotifyOn::Failure, JobRunStatus::Aborted),
        NotificationStep::Skip,
    );
}

#[test]
fn a_timed_out_run_is_worth_telling_somebody_about_too() {
    assert_eq!(
        handle_open_notification(NotifyOn::Failure, JobRunStatus::TimedOut),
        NotificationStep::Deliver,
    );
    assert_eq!(
        handle_open_notification(NotifyOn::Failure, JobRunStatus::Invalid),
        NotificationStep::Deliver,
    );
}

#[test]
fn a_failed_delivery_names_who_was_to_hear_of_it() {
    let notification = JobRunNotification {
        id: 3,
        job_run_id: 42,
        notify_on: NotifyOn::Failure,
        channel: NotificationChannel::Slack,
        recipients: vec!["#oncall".to_string(), "#data".to_string()],
    };
    assert_eq!(
        describe_delivery_failure(42, &notification),
        "Failed to deliver job run 42 on failure by slack to #oncall, #data",
    );
}

#[test]
fn only_tasks_that_broke_themselves_are_quoted() {
    let task_runs = vec![
        task_run("a", TaskRunStatus::Succeeded),
        task_run("b", TaskRunStatus::Failed),
        task_run("c", TaskRunStatus::Skipped),
        task_run("d", TaskRunStatus::TimedOut),
        task_run("e", TaskRunStatus::Aborted),
    ];
    let failures = get_failures(&task_runs, &vec![], &vec![]);
    let places: Vec<usize> = failures.iter().map(|failure| failure.task_run).collect();
    assert_eq!(places, vec![1, 3]);
    assert!(failures.iter().all(|failure| failure.attempt.is_none()));
    assert!(failures.iter().all(|failure| failure.streams.stderr.is_empty()));
}

#[test]
fn the_last_attempt_of_a_task_that_broke_is_quoted() {
    let mut broken = task_run("transform", TaskRunStatus::Failed);
    broken.id = 12;
    let attempts: Vec<TaskRunAttempt> = [(5, 12), (6, 12), (7, 11)]
        .into_iter()
        .map(|(id, task_run_id)| {
            let mut attempt = attempt(1);
            attempt.id = id;
            attempt.task_run_id = task_run_id;
            attempt
        })
        .collect();
    let rows: Vec<TaskRunAttemptOutputRow> = [(5, "first"), (6, "sec"), (7, "other"), (6, "ond")]
        .into_iter()
        .map(|(id, content)| TaskRunAttemptOutputRow {
            task_run_attempt_id: id,
            task_run_id: 12,
            job_run_id: 42,
            job_id: "nightly-sync".to_string(),
            task_id: "transform".to_string(),
            stream: TaskRunAttemptOutputStream::Stdout,
            content: content.to_string(),
        })
        .collect();
    let failures = get_failures(&vec![broken], &attempts, &rows);
    assert_eq!(failures.len(), 1);
    assert_eq!(failures[0].attempt, Some(1));
    assert_eq!(failures[0].streams.stdout, "second");
    assert_eq!(failures[0].streams.stderr, "");
}
