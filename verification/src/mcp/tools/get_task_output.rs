//! Showing what each attempt of a run wrote, each stream cut to a budget from its end.
use crate::models::{
    TaskRunAttempt, TaskRunAttemptOutputStream, TaskRunAttemptOutputStreams,
};
use crate::orchestrator::task_run_attempt_monitor::{
    attempt_streams, stored_on, TaskRunAttemptOutputRow,
};
use crate::text::{
    boundary_from, boundary_from_is_near, byte_len, cut_at_boundary, decimal, decimal_u64,
    from_byte, next_boundary, split_at_byte, up_to_byte,
};
use vstd::prelude::*;
use vstd::string::*;
use vstd::utf8::*;

verus! {

/// How much of a stream is kept where nothing is asked for.
pub const DEFAULT_MAX_BYTES: usize = 20_000;

/// The most of a stream that is kept.
pub const MAX_STREAM_BYTES: usize = 200_000;

/// What is asked.
#[derive(Clone, Debug)]
pub struct GetTaskOutput {
    pub job_run_id: i64,
    /// Only the attempts of the task with this name.
    pub task: Option<String>,
    /// How many bytes of each stream to keep.
    pub max_bytes: Option<usize>,
}

/// What one attempt wrote.
#[derive(Clone, Debug)]
pub struct TaskRunAttemptLog {
    pub task_run_attempt: TaskRunAttempt,
    pub stdout: String,
    pub stderr: String,
}

/// How much of a stream is kept: something, however little is asked for, and never more than
/// the most.
pub open spec fn bounded_stream_bytes(max_bytes: Option<usize>) -> usize {
    match max_bytes {
        Some(n) => if n == 0 {
            DEFAULT_MAX_BYTES
        } else if n > MAX_STREAM_BYTES {
            MAX_STREAM_BYTES
        } else {
            n
        },
        None => DEFAULT_MAX_BYTES,
    }
}

/// Bounds how much of a stream is kept. None of it would answer nothing, so 0 means the
/// default.
pub fn clamp_stream_bytes(max_bytes: Option<usize>) -> (n: usize)
    ensures
        n == bounded_stream_bytes(max_bytes),
        1 <= n <= MAX_STREAM_BYTES,
{
    match max_bytes {
        Some(n) => if n == 0 {
            DEFAULT_MAX_BYTES
        } else if n > MAX_STREAM_BYTES {
            MAX_STREAM_BYTES
        } else {
            n
        },
        None => DEFAULT_MAX_BYTES,
    }
}

/// Where the kept end of a stream begins: so far back as the budget reaches, or on to the
/// next character if that falls inside one.
pub open spec fn tail_start(stream: Seq<char>, max_bytes: nat) -> int {
    boundary_from(encode_utf8(stream), encode_utf8(stream).len() - max_bytes)
}

/// A stream cut to a budget: whole if it fits, and its end behind a line that says how much
/// is missing if not.
pub open spec fn truncated_tail(stream: Seq<char>, max_bytes: nat) -> Seq<char> {
    if encode_utf8(stream).len() <= max_bytes {
        stream
    } else {
        "[truncated: "@ + decimal(tail_start(stream, max_bytes) as nat)
            + " earlier bytes dropped]\n"@ + from_byte(stream, tail_start(stream, max_bytes))
    }
}

/// Cuts a stream to a budget, from its end: the end of a log is where the error is.
pub fn truncate_tail(stream: &str, max_bytes: usize) -> (s: String)
    ensures
        s@ == truncated_tail(stream@, max_bytes as nat),
{
    let length: usize = byte_len(stream);
    if length <= max_bytes {
        return stream.to_owned();
    }
    let cut: usize = next_boundary(stream, length - max_bytes);
    let mut s = "[truncated: ".to_owned();
    s.append(decimal_u64(cut as u64).as_str());
    s.append(" earlier bytes dropped]\n");
    s.append(split_at_byte(stream, cut).1);
    s
}

/// What is kept of a stream over its budget is its end: no more than the budget, less than
/// four bytes short of it, and no character split.
pub proof fn a_truncated_stream_keeps_its_end(stream: Seq<char>, max_bytes: nat)
    requires
        encode_utf8(stream).len() > max_bytes,
    ensures
        ({
            let kept = from_byte(stream, tail_start(stream, max_bytes));
            &&& kept.is_suffix_of(stream)
            &&& encode_utf8(kept).len() == encode_utf8(stream).len() - tail_start(
                stream,
                max_bytes,
            )
            &&& max_bytes - 3 <= encode_utf8(kept).len() <= max_bytes
        }),
{
    let bytes = encode_utf8(stream);
    encode_utf8_valid_utf8(stream);
    boundary_from_is_near(bytes, bytes.len() - max_bytes);
    cut_at_boundary(stream, tail_start(stream, max_bytes));
}

/// Cuts both streams of an attempt, each to a budget of its own.
pub fn truncated_task_run_attempt_log(
    task_run_attempt: TaskRunAttempt,
    streams: TaskRunAttemptOutputStreams,
    max_bytes: usize,
) -> (log: TaskRunAttemptLog)
    ensures
        log.task_run_attempt == task_run_attempt,
        log.stdout@ == truncated_tail(streams.stdout@, max_bytes as nat),
        log.stderr@ == truncated_tail(streams.stderr@, max_bytes as nat),
{
    TaskRunAttemptLog {
        task_run_attempt,
        stdout: truncate_tail(streams.stdout.as_str(), max_bytes),
        stderr: truncate_tail(streams.stderr.as_str(), max_bytes),
    }
}

/// Shows what each attempt wrote, by the rows that hold it.
pub fn get_task_output_logs(
    task_run_attempts: Vec<TaskRunAttempt>,
    rows: &Vec<TaskRunAttemptOutputRow>,
    max_bytes: usize,
) -> (logs: Vec<TaskRunAttemptLog>)
    ensures
        logs@.len() == task_run_attempts@.len(),
        forall|i: int|
            0 <= i < logs@.len() ==> {
                let log = #[trigger] logs@[i];
                let id = task_run_attempts@[i].id;
                &&& log.task_run_attempt == task_run_attempts@[i]
                &&& log.stdout@ == truncated_tail(
                    stored_on(rows@, id, TaskRunAttemptOutputStream::Stdout),
                    max_bytes as nat,
                )
                &&& log.stderr@ == truncated_tail(
                    stored_on(rows@, id, TaskRunAttemptOutputStream::Stderr),
                    max_bytes as nat,
                )
            },
{
    let mut logs: Vec<TaskRunAttemptLog> = Vec::new();
    let mut rest = task_run_attempts;
    let ghost all = task_run_attempts@;
    while rest.len() > 0
        invariant
            logs@.len() + rest@.len() == all.len(),
            rest@ == all.skip(logs@.len() as int),
            forall|i: int|
                0 <= i < logs@.len() ==> {
                    let log = #[trigger] logs@[i];
                    let id = all[i].id;
                    &&& log.task_run_attempt == all[i]
                    &&& log.stdout@ == truncated_tail(
                        stored_on(rows@, id, TaskRunAttemptOutputStream::Stdout),
                        max_bytes as nat,
                    )
                    &&& log.stderr@ == truncated_tail(
                        stored_on(rows@, id, TaskRunAttemptOutputStream::Stderr),
                        max_bytes as nat,
                    )
                },
        decreases rest.len(),
    {
        let task_run_attempt = rest.remove(0);
        let streams = attempt_streams(rows, task_run_attempt.id);
        logs.push(truncated_task_run_attempt_log(task_run_attempt, streams, max_bytes));
        assert(rest@ =~= all.skip(logs@.len() as int));
    }
    logs
}

/// As much of a stream is kept as was asked for, from one byte up to the most; more than that
/// keeps the most, and nothing keeps as much as asking for nothing does.
pub proof fn a_budget_is_taken_as_far_as_it_goes(asked: usize)
    ensures
        1 <= asked <= MAX_STREAM_BYTES <==> bounded_stream_bytes(Some(asked)) == asked,
        asked > MAX_STREAM_BYTES ==> bounded_stream_bytes(Some(asked)) == MAX_STREAM_BYTES,
        asked == 0 ==> bounded_stream_bytes(Some(asked)) == bounded_stream_bytes(None),
        bounded_stream_bytes(None) == DEFAULT_MAX_BYTES,
{
}

/// A stream within its budget is shown whole. One over it is shown as an end of it, behind a
/// line that says how many bytes were dropped before that: those of what is missing, and no
/// more than have to be.
pub proof fn what_is_dropped_is_counted(stream: Seq<char>, max_bytes: nat) -> (sides: (
    Seq<char>,
    Seq<char>,
))
    ensures
        encode_utf8(stream).len() <= max_bytes ==> truncated_tail(stream, max_bytes) == stream,
        encode_utf8(stream).len() > max_bytes ==> {
            &&& stream == sides.0 + sides.1
            &&& truncated_tail(stream, max_bytes) == "[truncated: "@ + decimal(
                encode_utf8(sides.0).len(),
            ) + " earlier bytes dropped]\n"@ + sides.1
            &&& max_bytes - 3 <= encode_utf8(sides.1).len() <= max_bytes
        },
{
    let at = tail_start(stream, max_bytes);
    let bytes = encode_utf8(stream);
    if bytes.len() > max_bytes {
        encode_utf8_valid_utf8(stream);
        boundary_from_is_near(bytes, bytes.len() - max_bytes);
        cut_at_boundary(stream, at);
        a_truncated_stream_keeps_its_end(stream, max_bytes);
    }
    (up_to_byte(stream, at), from_byte(stream, at))
}

} // verus!
