//! What a notification says: once as text, once as the facts of a page, once as the blocks of
//! a Slack post. All three are made of the same facts.
use crate::format::{duration, duration_text, timestamp, timestamp_text};
use crate::models::{JobRun, TaskRun, TaskRunAttempt, TaskRunAttemptOutputStreams};
use crate::notifications::slack::{
    a_block_is_closed_only_at_its_end, code_block, escape, escaped, fence_at, fence_safe,
    fences_broken, has_fence, is_closed_only_at_its_end,
};
use crate::status::{JobRunStatus, TaskRunStatus};
use crate::text::{
    a_separator_stands_between_each_two, all_together, boundary_from, boundary_from_is_near,
    byte_len, cut_at_boundary, decimal, decimal_i64, decimal_u64, from_byte, is_white_space, join,
    joined, next_boundary, pad_right, padded, parts_keep_their_order, shorten, shortened,
    signed_decimal, split_at_byte, texts, trim_end, trim_start, trimmed_end, trimmed_start,
    up_to_byte,
};
use crate::time::whole;
use vstd::prelude::*;
use vstd::string::*;
use vstd::utf8::*;

verus! {

/// One task run that did not succeed, with the attempt that decided it and what that attempt
/// wrote.
#[derive(Debug)]
pub struct JobRunFailureTask {
    pub task_run: TaskRun,
    pub attempt: Option<TaskRunAttempt>,
    pub streams: TaskRunAttemptOutputStreams,
}

/// The line that names a notification.
pub open spec fn subject_text(job_run: JobRun) -> Seq<char> {
    "[flowlite] "@ + job_run.job_name@ + " run "@ + signed_decimal(job_run.id as int) + " "@
        + job_run.status.called()
}

/// Names a notification by its job, its run and what happened.
pub fn message_subject(job_run: &JobRun) -> (s: String)
    ensures
        s@ == subject_text(*job_run),
{
    let mut s = "[flowlite] ".to_owned();
    s.append(job_run.job_name.as_str());
    s.append(" run ");
    s.append(decimal_i64(job_run.id).as_str());
    s.append(" ");
    s.append(job_run.status.word());
    s
}

/// The sentence every rendering opens with.
pub open spec fn lead_text(job_run: JobRun) -> Seq<char> {
    "Job run "@ + signed_decimal(job_run.id as int) + " of '"@ + job_run.job_name@ + "' ("@
        + job_run.job_id@ + ") "@ + job_run.status.called() + "."@
}

/// Says what happened, in a sentence.
pub fn message_lead(job_run: &JobRun) -> (s: String)
    ensures
        s@ == lead_text(*job_run),
{
    let mut s = "Job run ".to_owned();
    s.append(decimal_i64(job_run.id).as_str());
    s.append(" of '");
    s.append(job_run.job_name.as_str());
    s.append("' (");
    s.append(job_run.job_id.as_str());
    s.append(") ");
    s.append(job_run.status.word());
    s.append(".");
    s
}

/// The command that shows everything a message leaves out.
pub open spec fn logs_text(job_run: JobRun) -> Seq<char> {
    "flowlite job-run logs "@ + signed_decimal(job_run.id as int)
}

/// Names the command that shows everything a message leaves out.
pub fn logs_command(job_run: &JobRun) -> (s: String)
    ensures
        s@ == logs_text(*job_run),
{
    let mut s = "flowlite job-run logs ".to_owned();
    s.append(decimal_i64(job_run.id).as_str());
    s
}

/// The end of a stream, which is where a command says why it stopped: all of it, less the
/// white space at its end, where that is few enough bytes; else the last of them, without
/// splitting a character, under a line that says how many they are.
pub open spec fn tail_text(stream: Seq<char>, max_output_bytes: nat) -> Seq<char> {
    let text = trimmed_end(stream);
    let bytes = encode_utf8(text);
    if stream.len() == 0 {
        "(nothing written)\n"@
    } else if bytes.len() <= max_output_bytes {
        text + "\n"@
    } else {
        let cut = boundary_from(bytes, bytes.len() - max_output_bytes);
        "(earlier output cut, last "@ + decimal((bytes.len() - cut) as nat) + " bytes follow)\n"@
            + from_byte(text, cut) + "\n"@
    }
}

/// Takes the end of a stream.
pub fn stream_tail(stream: &str, max_output_bytes: usize) -> (s: String)
    ensures
        s@ == tail_text(stream@, max_output_bytes as nat),
{
    if stream.is_empty() {
        return "(nothing written)\n".to_owned();
    }
    let text = trim_end(stream);
    let length: usize = byte_len(text.as_str());
    if length <= max_output_bytes {
        let mut s = text;
        s.append("\n");
        return s;
    }
    let cut: usize = next_boundary(text.as_str(), length - max_output_bytes);
    let mut s = "(earlier output cut, last ".to_owned();
    s.append(decimal_u64((length - cut) as u64).as_str());
    s.append(" bytes follow)\n");
    s.append(split_at_byte(text.as_str(), cut).1);
    s.append("\n");
    s
}

/// A cut stream keeps the end of it: what is kept is a suffix of the stream, no longer than
/// allowed and at most three bytes short of it.
pub proof fn a_cut_stream_keeps_its_end(stream: Seq<char>, max_output_bytes: nat)
    requires
        encode_utf8(trimmed_end(stream)).len() > max_output_bytes,
    ensures
        ({
            let text = trimmed_end(stream);
            let bytes = encode_utf8(text);
            let kept = from_byte(text, boundary_from(bytes, bytes.len() - max_output_bytes));
            &&& kept.is_suffix_of(text)
            &&& max_output_bytes - 3 <= encode_utf8(kept).len() <= max_output_bytes
        }),
{
    let text = trimmed_end(stream);
    let bytes = encode_utf8(text);
    encode_utf8_valid_utf8(text);
    boundary_from_is_near(bytes, bytes.len() - max_output_bytes);
    let cut = boundary_from(bytes, bytes.len() - max_output_bytes);
    cut_at_boundary(text, cut);
    let kept = from_byte(text, cut);
    assert(kept =~= text.subrange(text.len() - kept.len(), text.len() as int));
}

/// One `name=value` for each parameter of a run.
pub open spec fn parameter_texts(parameters: Seq<(String, String)>) -> Seq<Seq<char>> {
    parameters.map_values(|p: (String, String)| p.0@ + "="@ + p.1@)
}

fn parameter_list(parameters: &Vec<(String, String)>) -> (s: String)
    ensures
        s@ == joined(parameter_texts(parameters@), " "@),
{
    let mut parts: Vec<String> = Vec::new();
    let mut i: usize = 0;
    while i < parameters.len()
        invariant
            i <= parameters@.len(),
            texts(parts@) == parameter_texts(parameters@).take(i as int),
        decreases parameters.len() - i,
    {
        let mut part = parameters[i].0.as_str().to_owned();
        part.append("=");
        part.append(parameters[i].1.as_str());
        let ghost before = texts(parts@);
        let ghost said = part@;
        parts.push(part);
        i = i + 1;
        proof {
            assert(texts(parts@) =~= before.push(said));
            assert(parameter_texts(parameters@)[i - 1] == said);
            assert(parameter_texts(parameters@).take(i as int) =~= before.push(said));
        }
    }
    assert(texts(parts@) =~= parameter_texts(parameters@));
    join(&parts, " ")
}

/// The facts of a run's summary, in the order they are shown: each a label and a value.
pub open spec fn summary(job_run: JobRun) -> Seq<(Seq<char>, Seq<char>)> {
    let rows = seq![
        ("Job"@, job_run.job_id@),
        ("Run"@, signed_decimal(job_run.id as int)),
        ("Status"@, job_run.status.called()),
    ];
    let rows = match job_run.scheduled_at {
        Some(at) => rows.push(("Scheduled"@, timestamp_text(at@))),
        None => rows,
    };
    let rows = match job_run.started_at {
        Some(at) => rows.push(("Started"@, timestamp_text(at@))),
        None => rows,
    };
    let rows = match job_run.finished_at {
        Some(at) => rows.push(("Finished"@, timestamp_text(at@))),
        None => rows,
    };
    let rows = match (job_run.started_at, job_run.finished_at) {
        (Some(started_at), Some(finished_at)) => rows.push(
            ("Duration"@, duration_text(whole(finished_at@ - started_at@, 1_000_000_000))),
        ),
        _ => rows,
    };
    if job_run.parameters@.len() == 0 {
        rows
    } else {
        rows.push(("Parameters"@, joined(parameter_texts(job_run.parameters@), " "@)))
    }
}

/// The labels and values that a list of rows holds.
pub open spec fn rows_text(rows: Seq<(&'static str, String)>) -> Seq<(Seq<char>, Seq<char>)> {
    rows.map_values(|row: (&'static str, String)| (row.0@, row.1@))
}

/// Lists the facts of a run's summary. Every rendering shows this list.
pub fn summary_rows(job_run: &JobRun) -> (rows: Vec<(&'static str, String)>)
    ensures
        rows_text(rows@) == summary(*job_run),
{
    let mut rows: Vec<(&'static str, String)> = Vec::new();
    rows.push(("Job", job_run.job_id.as_str().to_owned()));
    rows.push(("Run", decimal_i64(job_run.id)));
    rows.push(("Status", job_run.status.word().to_owned()));
    let ghost mut so_far = seq![
        ("Job"@, job_run.job_id@),
        ("Run"@, signed_decimal(job_run.id as int)),
        ("Status"@, job_run.status.called()),
    ];
    assert(rows_text(rows@) =~= so_far);
    if let Some(at) = &job_run.scheduled_at {
        rows.push(("Scheduled", timestamp(at)));
        proof {
            so_far = so_far.push(("Scheduled"@, timestamp_text(at@)));
        }
        assert(rows_text(rows@) =~= so_far);
    }
    if let Some(at) = &job_run.started_at {
        rows.push(("Started", timestamp(at)));
        proof {
            so_far = so_far.push(("Started"@, timestamp_text(at@)));
        }
        assert(rows_text(rows@) =~= so_far);
    }
    if let Some(at) = &job_run.finished_at {
        rows.push(("Finished", timestamp(at)));
        proof {
            so_far = so_far.push(("Finished"@, timestamp_text(at@)));
        }
        assert(rows_text(rows@) =~= so_far);
    }
    if let (Some(started_at), Some(finished_at)) = (&job_run.started_at, &job_run.finished_at) {
        rows.push(("Duration", duration(finished_at.seconds_since(started_at))));
        proof {
            so_far = so_far.push(
                ("Duration"@, duration_text(whole(finished_at@ - started_at@, 1_000_000_000))),
            );
        }
        assert(rows_text(rows@) =~= so_far);
    }
    if job_run.parameters.len() > 0 {
        rows.push(("Parameters", parameter_list(&job_run.parameters)));
        proof {
            so_far = so_far.push(
                ("Parameters"@, joined(parameter_texts(job_run.parameters@), " "@)),
            );
        }
        assert(rows_text(rows@) =~= so_far);
    }
    rows
}

/// A fact on a line of its own, its value in a column.
pub open spec fn summary_line(row: (Seq<char>, Seq<char>)) -> Seq<char> {
    "  "@ + padded(row.0, 12) + row.1 + "\n"@
}

/// The summary as text.
pub open spec fn summary_text(job_run: JobRun) -> Seq<char> {
    all_together(summary(job_run).map_values(|row: (Seq<char>, Seq<char>)| summary_line(row)))
}

/// Writes the summary as text.
pub fn run_summary(job_run: &JobRun) -> (s: String)
    ensures
        s@ == summary_text(*job_run),
{
    let rows = summary_rows(job_run);
    let ghost lines = summary(*job_run).map_values(
        |row: (Seq<char>, Seq<char>)| summary_line(row),
    );
    let mut s = String::new();
    let mut i: usize = 0;
    assert(lines.take(0) =~= Seq::empty());
    while i < rows.len()
        invariant
            i <= rows@.len(),
            rows_text(rows@) == summary(*job_run),
            lines == summary(*job_run).map_values(
                |row: (Seq<char>, Seq<char>)| summary_line(row),
            ),
            s@ == all_together(lines.take(i as int)),
        decreases rows.len() - i,
    {
        let mut line = "  ".to_owned();
        line.append(pad_right(rows[i].0, 12).as_str());
        line.append(rows[i].1.as_str());
        line.append("\n");
        s.append(line.as_str());
        i = i + 1;
        proof {
            assert(rows_text(rows@)[i - 1] == (rows@[i - 1].0@, rows@[i - 1].1@));
            assert(lines.take(i as int).drop_last() =~= lines.take(i - 1));
            assert(lines.take(i as int).last() == line@);
        }
    }
    assert(lines.take(i as int) =~= lines);
    s
}

/// What a quoted failure is headed by. A task run that never got an attempt is still named:
/// it is why the tasks below it were skipped.
pub open spec fn failure_title_text(failure: JobRunFailureTask) -> Seq<char> {
    match failure.attempt {
        Some(attempt) => "Output of "@ + failure.task_run.task_id@ + ", attempt "@ + decimal(
            attempt.attempt as nat,
        ) + " of "@ + decimal((failure.task_run.max_retries + 1) as nat),
        None => failure.task_run.task_id@ + " "@ + failure.task_run.status.called()
            + ", with no attempt"@,
    }
}

/// Heads a quoted failure.
pub fn failure_title(failure: &JobRunFailureTask) -> (s: String)
    ensures
        s@ == failure_title_text(*failure),
{
    match &failure.attempt {
        Some(attempt) => {
            let mut s = "Output of ".to_owned();
            s.append(failure.task_run.task_id.as_str());
            s.append(", attempt ");
            s.append(decimal_u64(attempt.attempt as u64).as_str());
            s.append(" of ");
            s.append(decimal_u64(failure.task_run.max_retries as u64 + 1).as_str());
            s
        },
        None => {
            let mut s = failure.task_run.task_id.as_str().to_owned();
            s.append(" ");
            s.append(failure.task_run.status.word());
            s.append(", with no attempt");
            s
        },
    }
}

/// A failure as text: its title, and under it the end of each stream if there was an attempt.
pub open spec fn failure_text(failure: JobRunFailureTask, max_output_bytes: nat) -> Seq<char> {
    let title = failure_title_text(failure);
    match failure.attempt {
        None => title + "\n"@,
        Some(_) => title + "\n\n"@ + "stdout:\n"@ + tail_text(
            failure.streams.stdout@,
            max_output_bytes,
        ) + "stderr:\n"@ + tail_text(failure.streams.stderr@, max_output_bytes),
    }
}

/// Writes a failure as text.
pub fn failure_output(failure: &JobRunFailureTask, max_output_bytes: usize) -> (s: String)
    ensures
        s@ == failure_text(*failure, max_output_bytes as nat),
{
    let mut s = failure_title(failure);
    if failure.attempt.is_none() {
        s.append("\n");
        return s;
    }
    s.append("\n\n");
    s.append("stdout:\n");
    s.append(stream_tail(failure.streams.stdout.as_str(), max_output_bytes).as_str());
    s.append("stderr:\n");
    s.append(stream_tail(failure.streams.stderr.as_str(), max_output_bytes).as_str());
    s
}

/// A task run on a line of its own, its status in a column.
pub open spec fn task_line(task_run: TaskRun) -> Seq<char> {
    "  "@ + padded(task_run.task_id@, 24) + " "@ + task_run.status.called() + "\n"@
}

/// The message as text: what happened, the summary, how each task ended, the output of those
/// that broke, and the command that shows the rest.
pub open spec fn body_text(
    job_run: JobRun,
    task_runs: Seq<TaskRun>,
    failures: Seq<JobRunFailureTask>,
    max_output_bytes: nat,
) -> Seq<char> {
    lead_text(job_run) + "\n\n"@ + summary_text(job_run) + "\nTasks\n\n"@ + all_together(
        task_runs.map_values(|task_run: TaskRun| task_line(task_run)),
    ) + all_together(
        failures.map_values(
            |failure: JobRunFailureTask| "\n"@ + failure_text(failure, max_output_bytes),
        ),
    ) + "\nRun `"@ + logs_text(job_run) + "` for every task and attempt.\n"@
}

/// Writes the message as text.
pub fn message_body(
    job_run: &JobRun,
    task_runs: &Vec<TaskRun>,
    failures: &Vec<JobRunFailureTask>,
    max_output_bytes: usize,
) -> (body: String)
    ensures
        body@ == body_text(*job_run, task_runs@, failures@, max_output_bytes as nat),
{
    let mut body = message_lead(job_run);
    body.append("\n\n");
    body.append(run_summary(job_run).as_str());
    body.append("\nTasks\n\n");
    let ghost before_tasks = body@;
    let ghost task_lines = task_runs@.map_values(|task_run: TaskRun| task_line(task_run));
    let mut i: usize = 0;
    assert(task_lines.take(0) =~= Seq::empty());
    assert(before_tasks + all_together(task_lines.take(0)) =~= before_tasks);
    while i < task_runs.len()
        invariant
            i <= task_runs@.len(),
            task_lines == task_runs@.map_values(|task_run: TaskRun| task_line(task_run)),
            body@ == before_tasks + all_together(task_lines.take(i as int)),
        decreases task_runs.len() - i,
    {
        let mut line = "  ".to_owned();
        line.append(pad_right(task_runs[i].task_id.as_str(), 24).as_str());
        line.append(" ");
        line.append(task_runs[i].status.word());
        line.append("\n");
        body.append(line.as_str());
        i = i + 1;
        proof {
            assert(task_lines.take(i as int).drop_last() =~= task_lines.take(i - 1));
            assert(task_lines.take(i as int).last() == line@);
            assert(body@ =~= before_tasks + all_together(task_lines.take(i as int)));
        }
    }
    assert(task_lines.take(i as int) =~= task_lines);
    let ghost before_failures = body@;
    let ghost sections = failures@.map_values(
        |failure: JobRunFailureTask| "\n"@ + failure_text(failure, max_output_bytes as nat),
    );
    let mut k: usize = 0;
    assert(sections.take(0) =~= Seq::empty());
    assert(before_failures + all_together(sections.take(0)) =~= before_failures);
    while k < failures.len()
        invariant
            k <= failures@.len(),
            sections == failures@.map_values(
                |failure: JobRunFailureTask| "\n"@ + failure_text(failure, max_output_bytes as nat),
            ),
            body@ == before_failures + all_together(sections.take(k as int)),
        decreases failures.len() - k,
    {
        let mut section = "\n".to_owned();
        section.append(failure_output(&failures[k], max_output_bytes).as_str());
        body.append(section.as_str());
        k = k + 1;
        proof {
            assert(sections.take(k as int).drop_last() =~= sections.take(k - 1));
            assert(sections.take(k as int).last() == section@);
            assert(body@ =~= before_failures + all_together(sections.take(k as int)));
        }
    }
    assert(sections.take(k as int) =~= sections);
    body.append("\nRun `");
    body.append(logs_command(job_run).as_str());
    body.append("` for every task and attempt.\n");
    body
}

/// What the status of a job run looks like in Slack.
pub open spec fn job_run_sign(status: JobRunStatus) -> Seq<char> {
    match status {
        JobRunStatus::Scheduled => ":hourglass_flowing_sand:"@,
        JobRunStatus::Queued => ":hourglass_flowing_sand:"@,
        JobRunStatus::Running => ":arrows_counterclockwise:"@,
        JobRunStatus::Succeeded => ":white_check_mark:"@,
        JobRunStatus::Failed => ":x:"@,
        JobRunStatus::Skipped => ":heavy_minus_sign:"@,
        JobRunStatus::Aborted => ":octagonal_sign:"@,
        JobRunStatus::TimedOut => ":alarm_clock:"@,
        JobRunStatus::Invalid => ":warning:"@,
        JobRunStatus::Deleted => ":heavy_minus_sign:"@,
    }
}

/// What the status of a job run looks like in Slack.
pub fn job_run_emoji(status: JobRunStatus) -> (text: &'static str)
    ensures
        text@ == job_run_sign(status),
{
    match status {
        JobRunStatus::Scheduled => ":hourglass_flowing_sand:",
        JobRunStatus::Queued => ":hourglass_flowing_sand:",
        JobRunStatus::Running => ":arrows_counterclockwise:",
        JobRunStatus::Succeeded => ":white_check_mark:",
        JobRunStatus::Failed => ":x:",
        JobRunStatus::Skipped => ":heavy_minus_sign:",
        JobRunStatus::Aborted => ":octagonal_sign:",
        JobRunStatus::TimedOut => ":alarm_clock:",
        JobRunStatus::Invalid => ":warning:",
        JobRunStatus::Deleted => ":heavy_minus_sign:",
    }
}

/// What the status of a task run looks like in Slack.
pub open spec fn task_run_sign(status: TaskRunStatus) -> Seq<char> {
    match status {
        TaskRunStatus::Planned => ":hourglass_flowing_sand:"@,
        TaskRunStatus::Waiting => ":hourglass_flowing_sand:"@,
        TaskRunStatus::Running => ":arrows_counterclockwise:"@,
        TaskRunStatus::Succeeded => ":white_check_mark:"@,
        TaskRunStatus::Failed => ":x:"@,
        TaskRunStatus::Skipped => ":heavy_minus_sign:"@,
        TaskRunStatus::Aborted => ":octagonal_sign:"@,
        TaskRunStatus::TimedOut => ":alarm_clock:"@,
        TaskRunStatus::Invalid => ":warning:"@,
    }
}

/// What the status of a task run looks like in Slack.
pub fn task_run_emoji(status: TaskRunStatus) -> (text: &'static str)
    ensures
        text@ == task_run_sign(status),
{
    match status {
        TaskRunStatus::Planned => ":hourglass_flowing_sand:",
        TaskRunStatus::Waiting => ":hourglass_flowing_sand:",
        TaskRunStatus::Running => ":arrows_counterclockwise:",
        TaskRunStatus::Succeeded => ":white_check_mark:",
        TaskRunStatus::Failed => ":x:",
        TaskRunStatus::Skipped => ":heavy_minus_sign:",
        TaskRunStatus::Aborted => ":octagonal_sign:",
        TaskRunStatus::TimedOut => ":alarm_clock:",
        TaskRunStatus::Invalid => ":warning:",
    }
}

/// The colour the status of a job run is shown in.
pub open spec fn job_run_colour(status: JobRunStatus) -> Seq<char> {
    match status {
        JobRunStatus::Scheduled => "#6a737d"@,
        JobRunStatus::Queued => "#6a737d"@,
        JobRunStatus::Running => "#0969da"@,
        JobRunStatus::Succeeded => "#1a7f37"@,
        JobRunStatus::Failed => "#b42318"@,
        JobRunStatus::Skipped => "#6a737d"@,
        JobRunStatus::Aborted => "#b54708"@,
        JobRunStatus::TimedOut => "#b42318"@,
        JobRunStatus::Invalid => "#6f42c1"@,
        JobRunStatus::Deleted => "#6a737d"@,
    }
}

/// The colour the status of a job run is shown in.
pub fn job_run_accent(status: JobRunStatus) -> (text: &'static str)
    ensures
        text@ == job_run_colour(status),
{
    match status {
        JobRunStatus::Scheduled => "#6a737d",
        JobRunStatus::Queued => "#6a737d",
        JobRunStatus::Running => "#0969da",
        JobRunStatus::Succeeded => "#1a7f37",
        JobRunStatus::Failed => "#b42318",
        JobRunStatus::Skipped => "#6a737d",
        JobRunStatus::Aborted => "#b54708",
        JobRunStatus::TimedOut => "#b42318",
        JobRunStatus::Invalid => "#6f42c1",
        JobRunStatus::Deleted => "#6a737d",
    }
}

/// The colour the status of a task run is shown in.
pub open spec fn task_run_colour(status: TaskRunStatus) -> Seq<char> {
    match status {
        TaskRunStatus::Planned => "#6a737d"@,
        TaskRunStatus::Waiting => "#6a737d"@,
        TaskRunStatus::Running => "#0969da"@,
        TaskRunStatus::Succeeded => "#1a7f37"@,
        TaskRunStatus::Failed => "#b42318"@,
        TaskRunStatus::Skipped => "#6a737d"@,
        TaskRunStatus::Aborted => "#b54708"@,
        TaskRunStatus::TimedOut => "#b42318"@,
        TaskRunStatus::Invalid => "#6f42c1"@,
    }
}

/// The colour the status of a task run is shown in.
pub fn task_run_accent(status: TaskRunStatus) -> (text: &'static str)
    ensures
        text@ == task_run_colour(status),
{
    match status {
        TaskRunStatus::Planned => "#6a737d",
        TaskRunStatus::Waiting => "#6a737d",
        TaskRunStatus::Running => "#0969da",
        TaskRunStatus::Succeeded => "#1a7f37",
        TaskRunStatus::Failed => "#b42318",
        TaskRunStatus::Skipped => "#6a737d",
        TaskRunStatus::Aborted => "#b54708",
        TaskRunStatus::TimedOut => "#b42318",
        TaskRunStatus::Invalid => "#6f42c1",
    }
}

/// Slack's own limits on one message. It refuses a message that exceeds any of them.
pub const MAX_BLOCKS: usize = 50;

/// The most characters of a header.
pub const MAX_HEADER_CHARS: usize = 150;

/// The most characters of a section.
pub const MAX_SECTION_CHARS: usize = 3000;

/// The most characters of one field of a section.
pub const MAX_FIELD_CHARS: usize = 2000;

/// One block of a Slack post.
#[derive(Clone, Debug)]
pub enum Block {
    /// Plain text, shown large.
    Header { text: String },
    /// Marked-up text.
    Section { text: String },
    /// Pieces of marked-up text in two columns.
    Fields { fields: Vec<String> },
    /// Marked-up text, shown small.
    Context { text: String },
}

/// What a block shows.
pub enum BlockText {
    Header(Seq<char>),
    Section(Seq<char>),
    Fields(Seq<Seq<char>>),
    Context(Seq<char>),
}

impl View for Block {
    type V = BlockText;

    open spec fn view(&self) -> BlockText {
        match self {
            Block::Header { text } => BlockText::Header(text@),
            Block::Section { text } => BlockText::Section(text@),
            Block::Fields { fields } => BlockText::Fields(texts(fields@)),
            Block::Context { text } => BlockText::Context(text@),
        }
    }
}

/// What a list of blocks shows.
pub open spec fn shown(blocks: Seq<Block>) -> Seq<BlockText> {
    blocks.map_values(|block: Block| block@)
}

/// A block that fits into Slack's limits on its text.
pub open spec fn fits(block: BlockText) -> bool {
    match block {
        BlockText::Header(text) => text.len() <= MAX_HEADER_CHARS,
        BlockText::Section(text) => text.len() <= MAX_SECTION_CHARS,
        BlockText::Fields(fields) => forall|i: int|
            0 <= i < fields.len() ==> (#[trigger] fields[i]).len() <= MAX_FIELD_CHARS,
        BlockText::Context(text) => text.len() <= MAX_SECTION_CHARS,
    }
}

/// A header cut to fit.
pub open spec fn header(text: Seq<char>) -> BlockText {
    BlockText::Header(shortened(text, MAX_HEADER_CHARS as nat))
}

/// A section cut to fit.
pub open spec fn section(text: Seq<char>) -> BlockText {
    BlockText::Section(shortened(text, MAX_SECTION_CHARS as nat))
}

/// Fields cut to fit.
pub open spec fn fields(parts: Seq<Seq<char>>) -> BlockText {
    BlockText::Fields(parts.map_values(|part: Seq<char>| shortened(part, MAX_FIELD_CHARS as nat)))
}

/// A context line cut to fit.
pub open spec fn context(text: Seq<char>) -> BlockText {
    BlockText::Context(shortened(text, MAX_SECTION_CHARS as nat))
}

fn header_block(text: &str) -> (block: Block)
    ensures
        block@ == header(text@),
{
    Block::Header { text: shorten(text, MAX_HEADER_CHARS) }
}

fn section_block(text: &str) -> (block: Block)
    ensures
        block@ == section(text@),
{
    Block::Section { text: shorten(text, MAX_SECTION_CHARS) }
}

fn context_block(text: &str) -> (block: Block)
    ensures
        block@ == context(text@),
{
    Block::Context { text: shorten(text, MAX_SECTION_CHARS) }
}

/// A fact as a field.
pub open spec fn field_text(row: (Seq<char>, Seq<char>)) -> Seq<char> {
    "*"@ + row.0 + "*\n"@ + escaped(row.1)
}

fn fields_block(rows: &Vec<(&'static str, String)>) -> (block: Block)
    ensures
        block@ == fields(
            rows_text(rows@).map_values(|row: (Seq<char>, Seq<char>)| field_text(row)),
        ),
{
    let ghost parts = rows_text(rows@).map_values(|row: (Seq<char>, Seq<char>)| field_text(row));
    let ghost cut = parts.map_values(|part: Seq<char>| shortened(part, MAX_FIELD_CHARS as nat));
    let mut out: Vec<String> = Vec::new();
    let mut i: usize = 0;
    while i < rows.len()
        invariant
            i <= rows@.len(),
            parts == rows_text(rows@).map_values(
                |row: (Seq<char>, Seq<char>)| field_text(row),
            ),
            cut == parts.map_values(
                |part: Seq<char>| shortened(part, MAX_FIELD_CHARS as nat),
            ),
            texts(out@) == cut.take(i as int),
        decreases rows.len() - i,
    {
        let mut field = "*".to_owned();
        field.append(rows[i].0);
        field.append("*\n");
        field.append(escape(rows[i].1.as_str()).as_str());
        let ghost before = texts(out@);
        let shortened_field = shorten(field.as_str(), MAX_FIELD_CHARS);
        let ghost said = shortened_field@;
        out.push(shortened_field);
        i = i + 1;
        proof {
            assert(rows_text(rows@)[i - 1] == (rows@[i - 1].0@, rows@[i - 1].1@));
            assert(texts(out@) =~= before.push(said));
            assert(cut[i - 1] == said);
            assert(cut.take(i as int) =~= before.push(said));
        }
    }
    assert(cut.take(i as int) =~= cut);
    Block::Fields { fields: out }
}

/// A task run on a line of the task list.
pub open spec fn listed(task_run: TaskRun) -> Seq<char> {
    "\n"@ + task_run_sign(task_run.status) + " `"@ + escaped(task_run.task_id@) + "` — "@
        + task_run.status.called()
}

fn list_task(task_run: &TaskRun) -> (line: String)
    ensures
        line@ == listed(*task_run),
{
    let mut line = "\n".to_owned();
    line.append(task_run_emoji(task_run.status));
    line.append(" `");
    line.append(escape(task_run.task_id.as_str()).as_str());
    line.append("` — ");
    line.append(task_run.status.word());
    line
}

/// The sections a task list is split into: a new one is begun where a line would make the
/// one before it too long.
pub open spec fn split_list(lines: Seq<Seq<char>>, so_far: Seq<char>) -> Seq<BlockText>
    decreases lines.len(),
{
    if lines.len() == 0 {
        seq![section(trimmed_start(so_far))]
    } else if so_far.len() + lines[0].len() > MAX_SECTION_CHARS {
        seq![section(trimmed_start(so_far))] + split_list(lines.drop_first(), lines[0])
    } else {
        split_list(lines.drop_first(), so_far + lines[0])
    }
}

/// The task list as sections; a run without tasks has none.
pub open spec fn task_blocks(task_runs: Seq<TaskRun>) -> Seq<BlockText> {
    if task_runs.len() == 0 {
        Seq::empty()
    } else {
        split_list(task_runs.map_values(|task_run: TaskRun| listed(task_run)), "*Tasks*"@)
    }
}

/// Writes the task list, in as many sections as its length needs.
pub fn task_sections(task_runs: &Vec<TaskRun>) -> (blocks: Vec<Block>)
    ensures
        shown(blocks@) == task_blocks(task_runs@),
{
    let mut sections: Vec<Block> = Vec::new();
    if task_runs.len() == 0 {
        assert(shown(sections@) =~= task_blocks(task_runs@));
        return sections;
    }
    let ghost lines = task_runs@.map_values(|task_run: TaskRun| listed(task_run));
    let mut so_far = "*Tasks*".to_owned();
    let mut i: usize = 0;
    proof {
        assert(lines.skip(0) =~= lines);
        assert(shown(sections@) + split_list(lines, so_far@) =~= split_list(lines, so_far@));
    }
    while i < task_runs.len()
        invariant
            i <= task_runs@.len(),
            lines == task_runs@.map_values(|task_run: TaskRun| listed(task_run)),
            shown(sections@) + split_list(lines.skip(i as int), so_far@) == split_list(
                lines,
                "*Tasks*"@,
            ),
        decreases task_runs.len() - i,
    {
        let line = list_task(&task_runs[i]);
        let ghost rest = lines.skip(i as int);
        let ghost before = shown(sections@);
        let ghost told = so_far@;
        proof {
            assert(rest[0] == line@);
            assert(rest.drop_first() =~= lines.skip(i + 1));
        }
        let used: usize = so_far.as_str().unicode_len();
        let more: usize = line.as_str().unicode_len();
        if used > MAX_SECTION_CHARS || more > MAX_SECTION_CHARS - used {
            let full = section_block(trim_start(so_far.as_str()).as_str());
            let ghost block = full@;
            sections.push(full);
            so_far = line;
            proof {
                assert(shown(sections@) =~= before.push(block));
                assert(before + split_list(rest, told) =~= shown(sections@) + split_list(
                    lines.skip(i + 1),
                    so_far@,
                ));
            }
        } else {
            so_far.append(line.as_str());
        }
        i = i + 1;
    }
    let last = section_block(trim_start(so_far.as_str()).as_str());
    let ghost block = last@;
    let ghost before = shown(sections@);
    sections.push(last);
    proof {
        assert(shown(sections@) =~= before.push(block));
        assert(before + split_list(lines.skip(i as int), so_far@) =~= before.push(block));
    }
    sections
}

/// A stream under its own label in a code block, escaped, its fences broken up, and cut so
/// that the block and its closing fence fit into a section.
pub open spec fn fenced_text(label: Seq<char>, stream: Seq<char>) -> Seq<char> {
    let room = (MAX_SECTION_CHARS - label.len() - 11) as nat;
    code_block(label, shortened(fences_broken(escaped(trimmed_end(stream))), room))
}

/// Quotes a stream in a code block.
pub fn fenced(label: &str, stream: &str) -> (s: String)
    requires
        label@.len() + 11 < MAX_SECTION_CHARS,
    ensures
        s@ == fenced_text(label@, stream@),
        s@.len() <= MAX_SECTION_CHARS,
        is_closed_only_at_its_end(s@, label@),
{
    let quoted = fence_safe(escape(trim_end(stream).as_str()).as_str());
    let room: usize = MAX_SECTION_CHARS - label.unicode_len() - 11;
    let mut s = "*".to_owned();
    s.append(label);
    s.append("*\n```\n");
    s.append(shorten(quoted.as_str(), room).as_str());
    s.append("\n```");
    proof {
        reveal_strlit("*");
        reveal_strlit("*\n```\n");
        reveal_strlit("\n```");
        lemma_shortened_has_no_fence(quoted@, room as nat);
        a_block_is_closed_only_at_its_end(label@, shortened(quoted@, room as nat));
    }
    s
}

proof fn lemma_shortened_has_no_fence(text: Seq<char>, max: nat)
    requires
        !has_fence(text),
        max > 0,
    ensures
        !has_fence(shortened(text, max)),
{
    let short = shortened(text, max);
    assert forall|i: int| #[trigger] fence_at(short, i) implies false by {
        if text.len() > max {
            assert(short.last() == '\u{2026}');
            assert(i + 2 < max - 1);
        }
        assert(fence_at(text, i));
    }
}

/// A failure as blocks: its title, and under it each stream if there was an attempt.
pub open spec fn failure_blocks(failure: JobRunFailureTask, max_output_bytes: nat) -> Seq<
    BlockText,
> {
    let title = section("*"@ + escaped(failure_title_text(failure)) + "*"@);
    match failure.attempt {
        None => seq![title],
        Some(_) => seq![
            title,
            section(fenced_text("stdout"@, tail_text(failure.streams.stdout@, max_output_bytes))),
            section(fenced_text("stderr"@, tail_text(failure.streams.stderr@, max_output_bytes))),
        ],
    }
}

fn failure_sections(failure: &JobRunFailureTask, max_output_bytes: usize) -> (blocks: Vec<Block>)
    ensures
        shown(blocks@) == failure_blocks(*failure, max_output_bytes as nat),
{
    let mut blocks: Vec<Block> = Vec::new();
    let mut title = "*".to_owned();
    title.append(escape(failure_title(failure).as_str()).as_str());
    title.append("*");
    blocks.push(section_block(title.as_str()));
    if failure.attempt.is_some() {
        proof {
            reveal_strlit("stdout");
            reveal_strlit("stderr");
        }
        let stdout = stream_tail(failure.streams.stdout.as_str(), max_output_bytes);
        blocks.push(section_block(fenced("stdout", stdout.as_str()).as_str()));
        let stderr = stream_tail(failure.streams.stderr.as_str(), max_output_bytes);
        blocks.push(section_block(fenced("stderr", stderr.as_str()).as_str()));
    }
    assert(shown(blocks@) =~= failure_blocks(*failure, max_output_bytes as nat));
    blocks
}

/// Everything a post has to show, however long.
pub open spec fn all_blocks(
    job_run: JobRun,
    task_runs: Seq<TaskRun>,
    failures: Seq<JobRunFailureTask>,
    max_output_bytes: nat,
) -> Seq<BlockText> {
    seq![
        header(
            job_run_sign(job_run.status) + " "@ + job_run.job_name@ + " run "@ + signed_decimal(
                job_run.id as int,
            ) + " "@ + job_run.status.called(),
        ),
        fields(summary(job_run).map_values(|row: (Seq<char>, Seq<char>)| field_text(row))),
    ] + task_blocks(task_runs) + all_together(
        failures.map_values(
            |failure: JobRunFailureTask| failure_blocks(failure, max_output_bytes),
        ),
    ) + seq![context("Every task and attempt: `"@ + logs_text(job_run) + "`"@)]
}

/// Blocks cut to as many as Slack takes. What overran is cut from the end, and the command
/// that shows the rest is named again as the last block.
pub open spec fn within_block_limit(blocks: Seq<BlockText>, job_run: JobRun) -> Seq<BlockText> {
    if blocks.len() > MAX_BLOCKS {
        blocks.take(MAX_BLOCKS - 1).push(
            context(
                "Too long for one message. Everything it left out: `"@ + logs_text(job_run) + "`"@,
            ),
        )
    } else {
        blocks
    }
}

/// Writes the message as blocks.
pub fn message_blocks(
    job_run: &JobRun,
    task_runs: &Vec<TaskRun>,
    failures: &Vec<JobRunFailureTask>,
    max_output_bytes: usize,
) -> (blocks: Vec<Block>)
    ensures
        shown(blocks@) == within_block_limit(
            all_blocks(*job_run, task_runs@, failures@, max_output_bytes as nat),
            *job_run,
        ),
{
    let mut heading = job_run_emoji(job_run.status).to_owned();
    heading.append(" ");
    heading.append(job_run.job_name.as_str());
    heading.append(" run ");
    heading.append(decimal_i64(job_run.id).as_str());
    heading.append(" ");
    heading.append(job_run.status.word());
    let mut blocks: Vec<Block> = Vec::new();
    blocks.push(header_block(heading.as_str()));
    blocks.push(fields_block(&summary_rows(job_run)));
    let ghost opening = shown(blocks@);
    assert(opening =~= seq![
        header(
            job_run_sign(job_run.status) + " "@ + job_run.job_name@ + " run "@ + signed_decimal(
                job_run.id as int,
            ) + " "@ + job_run.status.called(),
        ),
        fields(summary(*job_run).map_values(|row: (Seq<char>, Seq<char>)| field_text(row))),
    ]);
    let mut sections = task_sections(task_runs);
    let ghost listed_tasks = shown(sections@);
    blocks.append(&mut sections);
    let ghost before = shown(blocks@);
    assert(before =~= opening + listed_tasks);
    let ghost quoted = failures@.map_values(
        |failure: JobRunFailureTask| failure_blocks(failure, max_output_bytes as nat),
    );
    let mut i: usize = 0;
    assert(quoted.take(0) =~= Seq::empty());
    assert(before + all_together(quoted.take(0)) =~= before);
    while i < failures.len()
        invariant
            i <= failures@.len(),
            quoted == failures@.map_values(
                |failure: JobRunFailureTask| failure_blocks(failure, max_output_bytes as nat),
            ),
            shown(blocks@) == before + all_together(quoted.take(i as int)),
        decreases failures.len() - i,
    {
        let ghost so_far = shown(blocks@);
        let mut more = failure_sections(&failures[i], max_output_bytes);
        let ghost added = shown(more@);
        blocks.append(&mut more);
        i = i + 1;
        proof {
            assert(shown(blocks@) =~= so_far + added);
            assert(quoted.take(i as int).drop_last() =~= quoted.take(i - 1));
            assert(quoted.take(i as int).last() == added);
            assert(shown(blocks@) =~= before + all_together(quoted.take(i as int)));
        }
    }
    assert(quoted.take(i as int) =~= quoted);
    let ghost so_far = shown(blocks@);
    let mut closing = "Every task and attempt: `".to_owned();
    closing.append(logs_command(job_run).as_str());
    closing.append("`");
    blocks.push(context_block(closing.as_str()));
    assert(shown(blocks@) =~= so_far + seq![
        context("Every task and attempt: `"@ + logs_text(*job_run) + "`"@),
    ]);
    let ghost all = all_blocks(*job_run, task_runs@, failures@, max_output_bytes as nat);
    assert(shown(blocks@) =~= all);
    if blocks.len() > MAX_BLOCKS {
        blocks.truncate(MAX_BLOCKS - 1);
        assert(shown(blocks@) =~= all.take(MAX_BLOCKS - 1));
        let mut rest = "Too long for one message. Everything it left out: `".to_owned();
        rest.append(logs_command(job_run).as_str());
        rest.append("`");
        blocks.push(context_block(rest.as_str()));
        assert(shown(blocks@) =~= within_block_limit(all, *job_run));
    }
    blocks
}

proof fn lemma_task_blocks_fit(lines: Seq<Seq<char>>, so_far: Seq<char>, i: int)
    requires
        0 <= i < split_list(lines, so_far).len(),
    ensures
        fits(split_list(lines, so_far)[i]),
    decreases lines.len(),
{
    if lines.len() > 0 {
        let blocks = split_list(lines, so_far);
        if so_far.len() + lines[0].len() > MAX_SECTION_CHARS {
            let rest = split_list(lines.drop_first(), lines[0]);
            if i > 0 {
                assert(blocks[i] == rest[i - 1]);
                lemma_task_blocks_fit(lines.drop_first(), lines[0], i - 1);
            }
        } else {
            lemma_task_blocks_fit(lines.drop_first(), so_far + lines[0], i);
        }
    }
}

proof fn lemma_failure_blocks_fit(quoted: Seq<Seq<BlockText>>, i: int)
    requires
        0 <= i < all_together(quoted).len(),
        forall|j: int, k: int|
            0 <= j < quoted.len() && 0 <= k < quoted[j].len() ==> fits(#[trigger] quoted[j][k]),
    ensures
        fits(all_together(quoted)[i]),
    decreases quoted.len(),
{
    if quoted.len() > 0 {
        let before = all_together(quoted.drop_last());
        if i < before.len() {
            assert forall|j: int, k: int|
                0 <= j < quoted.drop_last().len() && 0 <= k < quoted.drop_last()[j].len() implies fits(
                #[trigger] quoted.drop_last()[j][k],
            ) by {
                assert(fits(quoted[j][k]));
            }
            lemma_failure_blocks_fit(quoted.drop_last(), i);
        } else {
            assert(all_together(quoted)[i] == quoted[quoted.len() - 1][i - before.len()]);
        }
    }
}

/// Slack takes every message: a post is never more blocks than it allows, nor a block more
/// characters.
pub proof fn a_post_keeps_to_slacks_limits(
    job_run: JobRun,
    task_runs: Seq<TaskRun>,
    failures: Seq<JobRunFailureTask>,
    max_output_bytes: nat,
)
    ensures
        ({
            let blocks = within_block_limit(
                all_blocks(job_run, task_runs, failures, max_output_bytes),
                job_run,
            );
            &&& blocks.len() <= MAX_BLOCKS
            &&& forall|i: int| 0 <= i < blocks.len() ==> fits(#[trigger] blocks[i])
        }),
{
    let all = all_blocks(job_run, task_runs, failures, max_output_bytes);
    let tasks = task_blocks(task_runs);
    let quoted = failures.map_values(
        |failure: JobRunFailureTask| failure_blocks(failure, max_output_bytes),
    );
    assert forall|i: int| 0 <= i < all.len() implies fits(#[trigger] all[i]) by {
        let t = tasks.len() as int;
        let q = all_together(quoted).len() as int;
        if i < 2 {
        } else if i < 2 + t {
            assert(all[i] == tasks[i - 2]);
            lemma_task_blocks_fit(
                task_runs.map_values(|task_run: TaskRun| listed(task_run)),
                "*Tasks*"@,
                i - 2,
            );
        } else if i < 2 + t + q {
            assert(all[i] == all_together(quoted)[i - 2 - t]);
            assert forall|j: int, k: int|
                0 <= j < quoted.len() && 0 <= k < quoted[j].len() implies fits(
                #[trigger] quoted[j][k],
            ) by {
                assert(quoted[j] == failure_blocks(failures[j], max_output_bytes));
            }
            lemma_failure_blocks_fit(quoted, i - 2 - t);
        }
    }
}

proof fn lemma_decimal_is_short(n: nat, places: nat, bound: nat)
    requires
        places > 0,
        n < bound,
        bound == vstd::arithmetic::power::pow(10, places),
    ensures
        decimal(n).len() <= places,
    decreases places,
{
    reveal(vstd::arithmetic::power::pow);
    if n >= 10 {
        let smaller = vstd::arithmetic::power::pow(10, (places - 1) as nat);
        assert(bound == 10 * smaller);
        assert(places > 1) by {
            if places == 1 {
                assert(smaller == 1);
            }
        }
        lemma_decimal_is_short(n / 10, (places - 1) as nat, smaller as nat);
    }
}

/// However much of a message is cut, what is left says where the rest is: its last block
/// names the command that shows everything, in full.
pub proof fn a_post_ends_with_the_command(
    job_run: JobRun,
    task_runs: Seq<TaskRun>,
    failures: Seq<JobRunFailureTask>,
    max_output_bytes: nat,
)
    ensures
        ({
            let all = all_blocks(job_run, task_runs, failures, max_output_bytes);
            within_block_limit(all, job_run).last() == BlockText::Context(
                (if all.len() > MAX_BLOCKS {
                    "Too long for one message. Everything it left out: `"@
                } else {
                    "Every task and attempt: `"@
                }) + logs_text(job_run) + "`"@,
            )
        }),
{
    reveal_strlit("Too long for one message. Everything it left out: `");
    reveal_strlit("Every task and attempt: `");
    reveal_strlit("flowlite job-run logs ");
    reveal_strlit("`");
    let n = (if job_run.id < 0 { -job_run.id } else { job_run.id as int }) as nat;
    assert(vstd::arithmetic::power::pow(10, 19) == 10_000_000_000_000_000_000) by {
        reveal_with_fuel(vstd::arithmetic::power::pow, 20);
    }
    lemma_decimal_is_short(n, 19, 10_000_000_000_000_000_000);
}

/// Whether a text holds another somewhere.
pub open spec fn holds(text: Seq<char>, part: Seq<char>) -> bool {
    exists|at: int|
        0 <= at && at + part.len() <= text.len() && #[trigger] text.subrange(
            at,
            at + part.len(),
        ) == part
}

/// Whether a block is a section that holds a text.
pub open spec fn section_holds(block: BlockText, part: Seq<char>) -> bool {
    block matches BlockText::Section(text) && holds(text, part)
}

/// Whether some section of a list holds a text.
pub open spec fn some_section_holds(blocks: Seq<BlockText>, part: Seq<char>) -> bool {
    exists|b: int| 0 <= b < blocks.len() && section_holds(#[trigger] blocks[b], part)
}

/// Whether taking the white space off the start of a text takes at most a line break.
spec fn starts_plain(text: Seq<char>) -> bool {
    &&& text.len() > 0
    &&& !is_white_space(text[0]) || (text.len() > 1 && text[0] == '\n' && !is_white_space(text[1]))
}

proof fn lemma_section_keeps(so_far: Seq<char>, part: Seq<char>, at: int)
    requires
        starts_plain(so_far),
        so_far.len() <= MAX_SECTION_CHARS,
        1 <= at,
        at + part.len() <= so_far.len(),
        so_far.subrange(at, at + part.len()) == part,
    ensures
        section_holds(section(trimmed_start(so_far)), part),
{
    let text = trimmed_start(so_far);
    if is_white_space(so_far[0]) {
        let rest = so_far.drop_first();
        assert(trimmed_start(rest) == rest);
        assert(text.subrange(at - 1, at - 1 + part.len()) =~= part);
    } else {
        assert(text.subrange(at, at + part.len()) =~= part);
    }
}

proof fn lemma_list_keeps(lines: Seq<Seq<char>>, so_far: Seq<char>, part: Seq<char>, at: int)
    requires
        starts_plain(so_far),
        so_far.len() <= MAX_SECTION_CHARS,
        1 <= at,
        at + part.len() <= so_far.len(),
        so_far.subrange(at, at + part.len()) == part,
    ensures
        some_section_holds(split_list(lines, so_far), part),
    decreases lines.len(),
{
    let blocks = split_list(lines, so_far);
    if lines.len() == 0 || so_far.len() + lines[0].len() > MAX_SECTION_CHARS {
        lemma_section_keeps(so_far, part, at);
        assert(blocks[0] == section(trimmed_start(so_far)));
    } else {
        let longer = so_far + lines[0];
        assert(longer.subrange(at, at + part.len()) =~= part);
        lemma_list_keeps(lines.drop_first(), longer, part, at);
    }
}

proof fn lemma_line_is_listed(lines: Seq<Seq<char>>, so_far: Seq<char>, i: int)
    requires
        starts_plain(so_far),
        forall|j: int| 0 <= j < lines.len() ==> starts_plain(#[trigger] lines[j]),
        0 <= i < lines.len(),
        lines[i].len() <= MAX_SECTION_CHARS,
    ensures
        some_section_holds(split_list(lines, so_far), lines[i].skip(1)),
    decreases lines.len(),
{
    let blocks = split_list(lines, so_far);
    let rest = lines.drop_first();
    let line = lines[0];
    let part = lines[i].skip(1);
    let overflows = so_far.len() + line.len() > MAX_SECTION_CHARS;
    let next = if overflows { line } else { so_far + line };
    assert(starts_plain(line));
    let later = split_list(rest, next);
    if i == 0 {
        let at: int = if overflows { 1 } else { so_far.len() as int + 1 };
        assert(next.subrange(at, at + part.len()) =~= part);
        lemma_list_keeps(rest, next, part, at);
    } else {
        assert forall|j: int| 0 <= j < rest.len() implies starts_plain(#[trigger] rest[j]) by {
            assert(rest[j] == lines[j + 1]);
        }
        assert(rest[i - 1] == lines[i]);
        lemma_line_is_listed(rest, next, i - 1);
    }
    let b = choose|b: int| 0 <= b < later.len() && section_holds(#[trigger] later[b], part);
    if overflows {
        assert(blocks[b + 1] == later[b]);
    } else {
        assert(blocks[b] == later[b]);
    }
}

/// No task goes missing where the task list is split: each stands whole in some section, with
/// its sign, its id and its status, unless that line alone is too long for one.
pub proof fn every_task_is_listed(task_runs: Seq<TaskRun>, i: int)
    requires
        0 <= i < task_runs.len(),
        listed(task_runs[i]).len() <= MAX_SECTION_CHARS,
    ensures
        some_section_holds(task_blocks(task_runs), listed(task_runs[i]).skip(1)),
{
    reveal_strlit("\n");
    reveal_strlit("*Tasks*");
    assert("*Tasks*"@[0] == '*');
    let lines = task_runs.map_values(|task_run: TaskRun| listed(task_run));
    assert forall|j: int| 0 <= j < lines.len() implies starts_plain(#[trigger] lines[j]) by {
        lemma_sign_starts_with_colon(task_runs[j].status);
        assert(lines[j][0] == '\n');
        assert(lines[j][1] == ':');
    }
    lemma_line_is_listed(lines, "*Tasks*"@, i);
}

proof fn lemma_sign_starts_with_colon(status: TaskRunStatus)
    ensures
        task_run_sign(status).len() > 0,
        task_run_sign(status)[0] == ':',
{
    reveal_strlit(":hourglass_flowing_sand:");
    reveal_strlit(":arrows_counterclockwise:");
    reveal_strlit(":white_check_mark:");
    reveal_strlit(":x:");
    reveal_strlit(":heavy_minus_sign:");
    reveal_strlit(":octagonal_sign:");
    reveal_strlit(":alarm_clock:");
    reveal_strlit(":warning:");
}

/// A fact with a label, on a page.
#[derive(Clone, Debug)]
pub struct SummaryRow {
    pub label: String,
    pub value: String,
}

/// A task and how it ended, on a page.
#[derive(Clone, Debug)]
pub struct TaskRow {
    pub task_id: String,
    pub status_word: &'static str,
    pub accent: &'static str,
}

/// The end of each stream of a failed attempt.
#[derive(Clone, Debug)]
pub struct FailureStreams {
    pub stdout: String,
    pub stderr: String,
}

/// A failure, on a page. One that never got an attempt has no streams to quote.
#[derive(Clone, Debug)]
pub struct FailureSection {
    pub title: String,
    pub streams: Option<FailureStreams>,
}

/// The facts a page renders the message from.
#[derive(Clone, Debug)]
pub struct MessagePage {
    pub lead: String,
    pub status_word: &'static str,
    pub accent: &'static str,
    pub summary: Vec<SummaryRow>,
    pub tasks: Vec<TaskRow>,
    pub failures: Vec<FailureSection>,
    pub logs_command: String,
}

/// Whether a row of a page shows a fact.
pub open spec fn shows_fact(row: SummaryRow, fact: (Seq<char>, Seq<char>)) -> bool {
    row.label@ == fact.0 && row.value@ == fact.1
}

/// Whether a row of a page shows a task run.
pub open spec fn shows_task(row: TaskRow, task_run: TaskRun) -> bool {
    &&& row.task_id@ == task_run.task_id@
    &&& row.status_word@ == task_run.status.called()
    &&& row.accent@ == task_run_colour(task_run.status)
}

/// Whether a section of a page shows a failure.
pub open spec fn shows_failure(
    section: FailureSection,
    failure: JobRunFailureTask,
    max_output_bytes: nat,
) -> bool {
    &&& section.title@ == failure_title_text(failure)
    &&& section.streams is Some <==> failure.attempt is Some
    &&& section.streams matches Some(streams) ==> {
        &&& streams.stdout@ == tail_text(failure.streams.stdout@, max_output_bytes)
        &&& streams.stderr@ == tail_text(failure.streams.stderr@, max_output_bytes)
    }
}

/// Whether a page shows a message.
pub open spec fn shows_message(
    page: MessagePage,
    job_run: JobRun,
    task_runs: Seq<TaskRun>,
    failures: Seq<JobRunFailureTask>,
    max_output_bytes: nat,
) -> bool {
    &&& page.lead@ == lead_text(job_run)
    &&& page.status_word@ == job_run.status.called()
    &&& page.accent@ == job_run_colour(job_run.status)
    &&& page.logs_command@ == logs_text(job_run)
    &&& page.summary@.len() == summary(job_run).len()
    &&& forall|i: int|
        0 <= i < page.summary@.len() ==> shows_fact(
            #[trigger] page.summary@[i],
            summary(job_run)[i],
        )
    &&& page.tasks@.len() == task_runs.len()
    &&& forall|i: int|
        0 <= i < task_runs.len() ==> shows_task(#[trigger] page.tasks@[i], task_runs[i])
    &&& page.failures@.len() == failures.len()
    &&& forall|i: int|
        0 <= i < failures.len() ==> shows_failure(
            #[trigger] page.failures@[i],
            failures[i],
            max_output_bytes,
        )
}

/// Collects the facts a page renders the message from.
pub fn message_page(
    job_run: &JobRun,
    task_runs: &Vec<TaskRun>,
    failures: &Vec<JobRunFailureTask>,
    max_output_bytes: usize,
) -> (page: MessagePage)
    ensures
        shows_message(page, *job_run, task_runs@, failures@, max_output_bytes as nat),
{
    let rows = summary_rows(job_run);
    let mut facts: Vec<SummaryRow> = Vec::new();
    let mut i: usize = 0;
    while i < rows.len()
        invariant
            i <= rows@.len(),
            rows_text(rows@) == summary(*job_run),
            facts@.len() == i,
            forall|j: int|
                0 <= j < i ==> shows_fact(#[trigger] facts@[j], summary(*job_run)[j]),
        decreases rows.len() - i,
    {
        assert(rows_text(rows@)[i as int] == (rows@[i as int].0@, rows@[i as int].1@));
        facts.push(
            SummaryRow { label: rows[i].0.to_owned(), value: rows[i].1.as_str().to_owned() },
        );
        i = i + 1;
    }
    assert(rows_text(rows@).len() == rows@.len());
    let mut tasks: Vec<TaskRow> = Vec::new();
    let mut j: usize = 0;
    while j < task_runs.len()
        invariant
            j <= task_runs@.len(),
            tasks@.len() == j,
            forall|k: int| 0 <= k < j ==> shows_task(#[trigger] tasks@[k], task_runs@[k]),
        decreases task_runs.len() - j,
    {
        let task_run = &task_runs[j];
        tasks.push(
            TaskRow {
                task_id: task_run.task_id.as_str().to_owned(),
                status_word: task_run.status.word(),
                accent: task_run_accent(task_run.status),
            },
        );
        j = j + 1;
    }
    let mut sections: Vec<FailureSection> = Vec::new();
    let mut k: usize = 0;
    while k < failures.len()
        invariant
            k <= failures@.len(),
            sections@.len() == k,
            forall|m: int|
                0 <= m < k ==> shows_failure(
                    #[trigger] sections@[m],
                    failures@[m],
                    max_output_bytes as nat,
                ),
        decreases failures.len() - k,
    {
        let failure = &failures[k];
        let streams = match &failure.attempt {
            Some(_) => Some(
                FailureStreams {
                    stdout: stream_tail(failure.streams.stdout.as_str(), max_output_bytes),
                    stderr: stream_tail(failure.streams.stderr.as_str(), max_output_bytes),
                },
            ),
            None => None,
        };
        sections.push(FailureSection { title: failure_title(failure), streams });
        k = k + 1;
    }
    MessagePage {
        lead: message_lead(job_run),
        status_word: job_run.status.word(),
        accent: job_run_accent(job_run.status),
        summary: facts,
        tasks,
        failures: sections,
        logs_command: logs_command(job_run),
    }
}

/// What one notification says: the two parts every channel has some form of, and the same
/// thing for the channels that can show more than text. Mail renders the page beside the
/// body, Slack posts the blocks.
#[derive(Clone, Debug)]
pub struct NotificationMessage {
    pub subject: String,
    pub body: String,
    pub page: Option<MessagePage>,
    pub blocks: Option<Vec<Block>>,
}

/// Says how a job run ended. A success is the same message as a failure, with no output to
/// quote.
pub fn job_run_message(
    job_run: &JobRun,
    task_runs: &Vec<TaskRun>,
    failures: &Vec<JobRunFailureTask>,
    max_output_bytes: usize,
) -> (message: NotificationMessage)
    ensures
        message.subject@ == subject_text(*job_run),
        message.body@ == body_text(*job_run, task_runs@, failures@, max_output_bytes as nat),
        message.page matches Some(page) && shows_message(
            page,
            *job_run,
            task_runs@,
            failures@,
            max_output_bytes as nat,
        ),
        message.blocks matches Some(blocks) && shown(blocks@) == within_block_limit(
            all_blocks(*job_run, task_runs@, failures@, max_output_bytes as nat),
            *job_run,
        ),
{
    NotificationMessage {
        subject: message_subject(job_run),
        body: message_body(job_run, task_runs, failures, max_output_bytes),
        page: Some(message_page(job_run, task_runs, failures, max_output_bytes)),
        blocks: Some(message_blocks(job_run, task_runs, failures, max_output_bytes)),
    }
}

/// The end of a stream is quoted: all of it, less the white space behind it, where that is few
/// enough bytes; else an end of that, no longer than allowed and at most three bytes shorter,
/// under a line that says how many bytes it is.
pub proof fn what_is_quoted_ends_the_stream(stream: Seq<char>, max_output_bytes: nat) -> (sides: (
    Seq<char>,
    Seq<char>,
))
    requires
        stream.len() > 0,
    ensures
        trimmed_end(stream) == sides.0 + sides.1,
        encode_utf8(trimmed_end(stream)).len() <= max_output_bytes ==> sides.0.len() == 0
            && tail_text(stream, max_output_bytes) == sides.1 + "\n"@,
        encode_utf8(trimmed_end(stream)).len() > max_output_bytes ==> {
            &&& max_output_bytes - 3 <= encode_utf8(sides.1).len() <= max_output_bytes
            &&& tail_text(stream, max_output_bytes) == "(earlier output cut, last "@ + decimal(
                encode_utf8(sides.1).len(),
            ) + " bytes follow)\n"@ + sides.1 + "\n"@
        },
{
    let text = trimmed_end(stream);
    let bytes = encode_utf8(text);
    if bytes.len() <= max_output_bytes {
        assert(text =~= Seq::<char>::empty() + text);
        (Seq::empty(), text)
    } else {
        let cut = boundary_from(bytes, bytes.len() - max_output_bytes);
        encode_utf8_valid_utf8(text);
        boundary_from_is_near(bytes, bytes.len() - max_output_bytes);
        cut_at_boundary(text, cut);
        (up_to_byte(text, cut), from_byte(text, cut))
    }
}

/// A post that has too many blocks keeps the first of them as they were and ends with the
/// command that shows the rest; one that does not is posted as it is.
pub proof fn a_long_post_keeps_its_start(blocks: Seq<BlockText>, job_run: JobRun, i: int)
    ensures
        blocks.len() <= MAX_BLOCKS ==> within_block_limit(blocks, job_run) == blocks,
        blocks.len() > MAX_BLOCKS ==> within_block_limit(blocks, job_run).len() == MAX_BLOCKS,
        0 <= i < MAX_BLOCKS - 1 && i < blocks.len() ==> within_block_limit(blocks, job_run)[i]
            == blocks[i],
{
}

/// What the sections of a list say.
pub open spec fn section_texts(blocks: Seq<BlockText>) -> Seq<Seq<char>> {
    blocks.map_values(|block: BlockText| block->Section_0)
}

proof fn lemma_sections_spell_the_list(lines: Seq<Seq<char>>, so_far: Seq<char>)
    requires
        starts_plain(so_far),
        so_far.len() <= MAX_SECTION_CHARS,
        forall|j: int|
            0 <= j < lines.len() ==> starts_plain(#[trigger] lines[j]) && lines[j][0] == '\n'
                && lines[j].len() <= MAX_SECTION_CHARS,
    ensures
        split_list(lines, so_far).len() > 0,
        joined(section_texts(split_list(lines, so_far)), "\n"@) == trimmed_start(so_far)
            + all_together(lines),
    decreases lines.len(),
{
    reveal_strlit("\n");
    let blocks = split_list(lines, so_far);
    let text = trimmed_start(so_far);
    lemma_plain_start(so_far);
    if lines.len() == 0 {
        assert(section_texts(blocks) =~= seq![text]);
        assert(text + all_together(lines) =~= text);
    } else {
        let line = lines[0];
        let rest = lines.drop_first();
        assert(starts_plain(line));
        assert forall|j: int| 0 <= j < rest.len() implies starts_plain(#[trigger] rest[j])
            && rest[j][0] == '\n' && rest[j].len() <= MAX_SECTION_CHARS by {
            assert(rest[j] == lines[j + 1]);
        }
        parts_keep_their_order(seq![line], rest);
        assert(seq![line] + rest =~= lines);
        if so_far.len() + line.len() > MAX_SECTION_CHARS {
            lemma_sections_spell_the_list(rest, line);
            lemma_plain_start(line);
            let later = split_list(rest, line);
            assert(section_texts(blocks) =~= seq![text] + section_texts(later));
            a_separator_stands_between_each_two(seq![text], section_texts(later), "\n"@);
            assert(line =~= "\n"@ + trimmed_start(line)) by {
                assert(is_white_space('\n'));
            }
            assert(joined(section_texts(blocks), "\n"@) =~= text + all_together(lines));
        } else {
            let longer = so_far + line;
            assert(starts_plain(longer));
            lemma_sections_spell_the_list(rest, longer);
            lemma_plain_start(longer);
            assert(trimmed_start(longer) =~= text + line);
            assert(joined(section_texts(blocks), "\n"@) =~= text + all_together(lines));
        }
    }
}

proof fn lemma_plain_start(text: Seq<char>)
    requires
        starts_plain(text),
    ensures
        trimmed_start(text) == (if is_white_space(text[0]) {
            text.drop_first()
        } else {
            text
        }),
{
    if is_white_space(text[0]) {
        let rest = text.drop_first();
        assert(rest[0] == text[1]);
        assert(trimmed_start(rest) == rest);
    }
}

/// The sections of a task list spell it in order, from its heading to its last task, with
/// nothing lost between them: put on lines of their own they are the heading and each task's
/// line in turn, as long as no line alone is too long for a section.
pub proof fn a_split_list_spells_the_tasks_in_order(task_runs: Seq<TaskRun>)
    requires
        task_runs.len() > 0,
        forall|i: int|
            0 <= i < task_runs.len() ==> listed(#[trigger] task_runs[i]).len()
                <= MAX_SECTION_CHARS,
    ensures
        joined(section_texts(task_blocks(task_runs)), "\n"@) == "*Tasks*"@ + all_together(
            task_runs.map_values(|task_run: TaskRun| listed(task_run)),
        ),
{
    reveal_strlit("\n");
    reveal_strlit("*Tasks*");
    assert("*Tasks*"@[0] == '*');
    let lines = task_runs.map_values(|task_run: TaskRun| listed(task_run));
    assert forall|j: int| 0 <= j < lines.len() implies starts_plain(#[trigger] lines[j])
        && lines[j][0] == '\n' && lines[j].len() <= MAX_SECTION_CHARS by {
        lemma_sign_starts_with_colon(task_runs[j].status);
        assert(lines[j] == listed(task_runs[j]));
        assert(lines[j][0] == '\n');
        assert(lines[j][1] == ':');
    }
    lemma_sections_spell_the_list(lines, "*Tasks*"@);
    lemma_plain_start("*Tasks*"@);
}

/// The page of a message shows what the message is about: every fact of the run, every task
/// with how it ended, and every failure with the end of each stream of its attempt, all in
/// order and none left out.
pub proof fn a_message_page_leaves_nothing_out(
    job_run: JobRun,
    task_runs: Vec<TaskRun>,
    failures: Vec<JobRunFailureTask>,
    max_output_bytes: usize,
    page: MessagePage,
    i: int,
)
    requires
        call_ensures(message_page, (&job_run, &task_runs, &failures, max_output_bytes), page),
    ensures
        page.lead@ == lead_text(job_run),
        page.status_word@ == job_run.status.called(),
        page.accent@ == job_run_colour(job_run.status),
        page.logs_command@ == logs_text(job_run),
        page.summary@.len() == summary(job_run).len(),
        page.tasks@.len() == task_runs@.len(),
        page.failures@.len() == failures@.len(),
        0 <= i < page.summary@.len() ==> page.summary@[i].label@ == summary(job_run)[i].0
            && page.summary@[i].value@ == summary(job_run)[i].1,
        0 <= i < task_runs@.len() ==> {
            &&& page.tasks@[i].task_id@ == task_runs@[i].task_id@
            &&& page.tasks@[i].status_word@ == task_runs@[i].status.called()
            &&& page.tasks@[i].accent@ == task_run_colour(task_runs@[i].status)
        },
        0 <= i < failures@.len() ==> {
            let section = page.failures@[i];
            &&& section.title@ == failure_title_text(failures@[i])
            &&& section.streams is Some <==> failures@[i].attempt is Some
            &&& section.streams is Some ==> section.streams->0.stdout@ == tail_text(
                failures@[i].streams.stdout@,
                max_output_bytes as nat,
            ) && section.streams->0.stderr@ == tail_text(
                failures@[i].streams.stderr@,
                max_output_bytes as nat,
            )
        },
{
    if 0 <= i < page.summary@.len() {
        assert(shows_fact(page.summary@[i], summary(job_run)[i]));
    }
    if 0 <= i < task_runs@.len() {
        assert(shows_task(page.tasks@[i], task_runs@[i]));
    }
    if 0 <= i < failures@.len() {
        assert(shows_failure(page.failures@[i], failures@[i], max_output_bytes as nat));
    }
}

/// A summary begins with the job, the run and how it ended, and then gives each instant that
/// is known, how long it took where both its ends are, and its parameters where it has any.
pub proof fn a_summary_gives_what_is_known(job_run: JobRun)
    ensures
        summary(job_run)[0] == ("Job"@, job_run.job_id@),
        summary(job_run)[1] == ("Run"@, signed_decimal(job_run.id as int)),
        summary(job_run)[2] == ("Status"@, job_run.status.called()),
        summary(job_run).len() == 3 + (if job_run.scheduled_at is Some { 1int } else { 0 }) + (
        if job_run.started_at is Some { 1int } else { 0 }) + (if job_run.finished_at is Some {
            1int
        } else {
            0
        }) + (if job_run.started_at is Some && job_run.finished_at is Some { 1int } else { 0 }) + (
        if job_run.parameters@.len() > 0 { 1int } else { 0 }),
        job_run.scheduled_at matches Some(at) ==> summary(job_run)[3] == (
            "Scheduled"@,
            timestamp_text(at@),
        ),
        job_run.started_at matches Some(at) ==> summary(job_run).contains(
            ("Started"@, timestamp_text(at@)),
        ),
        job_run.finished_at matches Some(at) ==> summary(job_run).contains(
            ("Finished"@, timestamp_text(at@)),
        ),
        job_run.parameters@.len() > 0 ==> summary(job_run).last() == (
            "Parameters"@,
            joined(parameter_texts(job_run.parameters@), " "@),
        ),
{
    let rows = summary(job_run);
    let before: int = if job_run.scheduled_at is Some { 4 } else { 3 };
    if job_run.started_at is Some {
        assert(rows[before].0 == "Started"@);
        assert(rows.contains(rows[before]));
    }
    if job_run.finished_at is Some {
        let at: int = if job_run.started_at is Some { before + 1 } else { before };
        assert(rows[at].0 == "Finished"@);
        assert(rows.contains(rows[at]));
    }
}

/// How long a run took is given by what lies between its start and its end.
pub proof fn a_summary_gives_the_time_between(job_run: JobRun, seconds: int)
    requires
        seconds >= 0,
        job_run.started_at is Some,
        job_run.finished_at is Some,
        seconds * 1_000_000_000 <= job_run.finished_at->0@ - job_run.started_at->0@ < (seconds + 1)
            * 1_000_000_000,
    ensures
        summary(job_run).contains(("Duration"@, duration_text(seconds))),
{
    let rows = summary(job_run);
    let at: int = if job_run.scheduled_at is Some { 6 } else { 5 };
    assert(rows[at] == ("Duration"@, duration_text(seconds)));
}

/// A quoted failure says which attempt of how many it was: there is one more than the task has
/// retries.
pub proof fn a_failure_counts_every_attempt(failure: JobRunFailureTask, attempts: nat)
    requires
        failure.attempt is Some,
        attempts == failure.task_run.max_retries + 1,
    ensures
        failure_title_text(failure) == "Output of "@ + failure.task_run.task_id@ + ", attempt "@
            + decimal(failure.attempt->0.attempt as nat) + " of "@ + decimal(attempts),
{
}

/// A message as text opens with the sentence that says what happened and closes with the
/// command that shows the rest; a further task or failure adds to it and changes neither.
pub proof fn a_message_opens_and_closes_alike(
    job_run: JobRun,
    task_runs: Seq<TaskRun>,
    failures: Seq<JobRunFailureTask>,
    max_output_bytes: nat,
)
    ensures
        lead_text(job_run).is_prefix_of(
            body_text(job_run, task_runs, failures, max_output_bytes),
        ),
        ("\nRun `"@ + logs_text(job_run) + "` for every task and attempt.\n"@).is_suffix_of(
            body_text(job_run, task_runs, failures, max_output_bytes),
        ),
{
    let body = body_text(job_run, task_runs, failures, max_output_bytes);
    let lead = lead_text(job_run);
    let end = "\nRun `"@ + logs_text(job_run) + "` for every task and attempt.\n"@;
    assert(lead =~= body.take(lead.len() as int));
    assert(end =~= body.skip(body.len() - end.len()));
}

} // verus!
