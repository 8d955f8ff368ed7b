//! Finishing running attempts, and recording what they write.
use crate::models::{
    TaskRunAttempt, TaskRunAttemptOutputStream, TaskRunAttemptOutputStreams, TaskRunAttemptUpdate,
};
use crate::orchestrator::task_run_attempt_reader::{
    all_of, contents, recorded_stream, said, what_is_recorded_spells_the_stream, StreamRecorder,
    TaskRunAttemptOutputChunk,
};
use crate::status::TaskRunAttemptStatus;
use crate::text::all_together;
use crate::time::Timestamp;
use vstd::prelude::*;
use vstd::string::*;
use vstd::utf8::*;

verus! {

/// What is known of the process of a running attempt.
#[derive(Clone, Copy, Debug)]
pub struct ProcessState {
    /// Whether it exited with success, once it has exited.
    pub exited: Option<bool>,
    pub started_at: Timestamp,
    /// Seconds it may run for.
    pub timeout: u32,
}

/// What becomes of a running attempt on one pass.
#[derive(Clone, Copy, Debug, PartialEq, Eq, Structural)]
pub enum AttemptStep {
    /// It goes on: what it wrote so far is recorded and its process is kept.
    Keep,
    /// It ends. Its process group is killed first where `kill` says so: killing closes the
    /// pipes, which is what lets the rest of its output be read to the end.
    Finish { status: TaskRunAttemptStatus, kill: bool },
}

/// What becomes of a running attempt.
///
/// A real ending outranks a stop: a process that has exited says how it ended, then a
/// timeout, and only then a stop. An attempt whose process is not held has no ending that
/// could be claimed.
pub open spec fn running_outcome(
    process: Option<ProcessState>,
    now: int,
    stopped: bool,
) -> AttemptStep {
    match process {
        None => AttemptStep::Finish { status: TaskRunAttemptStatus::Invalid, kill: false },
        Some(process) => match process.exited {
            Some(true) => AttemptStep::Finish {
                status: TaskRunAttemptStatus::Succeeded,
                kill: false,
            },
            Some(false) => AttemptStep::Finish {
                status: TaskRunAttemptStatus::Failed,
                kill: false,
            },
            None => if now > process.started_at@ + process.timeout * 1_000_000_000 {
                AttemptStep::Finish { status: TaskRunAttemptStatus::TimedOut, kill: true }
            } else if stopped {
                AttemptStep::Finish { status: TaskRunAttemptStatus::Aborted, kill: true }
            } else {
                AttemptStep::Keep
            },
        },
    }
}

/// Decides what becomes of a running attempt.
pub fn settle_task_run_attempt(process: Option<ProcessState>, now: &Timestamp, stopped: bool) -> (
    step: AttemptStep)
    ensures
        step == running_outcome(process, now@, stopped),
{
    let process = match process {
        Some(process) => process,
        None => {
            return AttemptStep::Finish { status: TaskRunAttemptStatus::Invalid, kill: false };
        },
    };
    match process.exited {
        Some(true) => {
            return AttemptStep::Finish { status: TaskRunAttemptStatus::Succeeded, kill: false };
        },
        Some(false) => {
            return AttemptStep::Finish { status: TaskRunAttemptStatus::Failed, kill: false };
        },
        None => {},
    }
    if now.is_past(&process.started_at, process.timeout) {
        return AttemptStep::Finish { status: TaskRunAttemptStatus::TimedOut, kill: true };
    }
    if stopped {
        return AttemptStep::Finish { status: TaskRunAttemptStatus::Aborted, kill: true };
    }
    AttemptStep::Keep
}

/// One thing that is done about a running attempt.
#[derive(Clone, Copy, Debug, PartialEq, Eq, Structural)]
pub enum AttemptAction {
    /// Kills its process group.
    Kill,
    /// Reads its output to the end and records it.
    ReadToEnd,
    /// Records what it has written so far.
    RecordSoFar,
    /// Hands its process back, for the next pass.
    PutBack,
    /// Writes how it ended.
    Write(TaskRunAttemptStatus),
}

/// What is done about a running attempt, in order: killed before it is read, as killing
/// closes the pipes and so ends the reading; and read to the end before its end is written,
/// so that what reads as over has all of its output.
pub open spec fn actions_of(step: AttemptStep, has_process: bool) -> Seq<AttemptAction> {
    match step {
        AttemptStep::Keep => seq![AttemptAction::RecordSoFar, AttemptAction::PutBack],
        AttemptStep::Finish { status, kill } => (if kill {
            seq![AttemptAction::Kill]
        } else {
            Seq::empty()
        }) + (if has_process {
            seq![AttemptAction::ReadToEnd]
        } else {
            Seq::empty()
        }) + seq![AttemptAction::Write(status)],
    }
}

/// Lists what is done about a running attempt.
pub fn actions(step: AttemptStep, has_process: bool) -> (list: Vec<AttemptAction>)
    ensures
        list@ == actions_of(step, has_process),
{
    let mut list: Vec<AttemptAction> = Vec::new();
    match step {
        AttemptStep::Keep => {
            list.push(AttemptAction::RecordSoFar);
            list.push(AttemptAction::PutBack);
        },
        AttemptStep::Finish { status, kill } => {
            if kill {
                list.push(AttemptAction::Kill);
            }
            if has_process {
                list.push(AttemptAction::ReadToEnd);
            }
            list.push(AttemptAction::Write(status));
        },
    }
    assert(list@ =~= actions_of(step, has_process));
    list
}

/// An attempt that reads as over has all of its output: whatever becomes of one with a
/// process, its end is the last thing written, and its output was read to the end before.
/// One that is killed is killed before that.
pub proof fn output_is_complete_before_the_end_is_written(
    process: ProcessState,
    now: int,
    stopped: bool,
    i: int,
)
    requires
        ({
            let list = actions_of(running_outcome(Some(process), now, stopped), true);
            0 <= i < list.len() && list[i] is Write
        }),
    ensures
        ({
            let list = actions_of(running_outcome(Some(process), now, stopped), true);
            &&& i == list.len() - 1
            &&& i > 0
            &&& list[i - 1] == AttemptAction::ReadToEnd
            &&& forall|j: int|
                0 <= j < list.len() && #[trigger] list[j] == AttemptAction::Kill ==> j == 0 && i
                    == 2
        }),
{
    let list = actions_of(running_outcome(Some(process), now, stopped), true);
    assert(list.last() is Write);
}

/// What ending an attempt writes.
pub fn finish_task_run_attempt(status: TaskRunAttemptStatus, now: Timestamp) -> (update:
    TaskRunAttemptUpdate)
    ensures
        forall|attempt: TaskRunAttempt| #[trigger]
            update.applied_to(attempt) == (TaskRunAttempt {
                status,
                finished_at: Some(now),
                ..attempt
            }),
{
    TaskRunAttemptUpdate::settled(status, now)
}

/// What chunks say that belong to one stream, in order.
pub open spec fn said_on(
    chunks: Seq<TaskRunAttemptOutputChunk>,
    stream: TaskRunAttemptOutputStream,
) -> Seq<char>
    decreases chunks.len(),
{
    if chunks.len() == 0 {
        Seq::empty()
    } else if chunks.last().stream == stream {
        said_on(chunks.drop_last(), stream) + chunks.last().content@
    } else {
        said_on(chunks.drop_last(), stream)
    }
}

/// Puts the chunks of each stream together.
pub fn gather(chunks: &Vec<TaskRunAttemptOutputChunk>) -> (streams: TaskRunAttemptOutputStreams)
    ensures
        streams.stdout@ == said_on(chunks@, TaskRunAttemptOutputStream::Stdout),
        streams.stderr@ == said_on(chunks@, TaskRunAttemptOutputStream::Stderr),
{
    let mut stdout = String::new();
    let mut stderr = String::new();
    let mut i: usize = 0;
    assert(chunks@.take(0) =~= Seq::empty());
    while i < chunks.len()
        invariant
            i <= chunks@.len(),
            stdout@ == said_on(chunks@.take(i as int), TaskRunAttemptOutputStream::Stdout),
            stderr@ == said_on(chunks@.take(i as int), TaskRunAttemptOutputStream::Stderr),
        decreases chunks.len() - i,
    {
        match chunks[i].stream {
            TaskRunAttemptOutputStream::Stdout => stdout.append(chunks[i].content.as_str()),
            TaskRunAttemptOutputStream::Stderr => stderr.append(chunks[i].content.as_str()),
        }
        i = i + 1;
        assert(chunks@.take(i as int).drop_last() =~= chunks@.take(i - 1));
    }
    assert(chunks@.take(i as int) =~= chunks@);
    TaskRunAttemptOutputStreams { stdout, stderr }
}

/// A piece of one stream of one attempt, as it is stored.
#[derive(Clone, Debug)]
pub struct TaskRunAttemptOutputRow {
    pub task_run_attempt_id: i64,
    pub task_run_id: i64,
    pub job_run_id: i64,
    pub job_id: String,
    pub task_id: String,
    pub stream: TaskRunAttemptOutputStream,
    pub content: String,
}

/// Whether a row holds a piece of an attempt's stream.
pub open spec fn row_of(
    row: TaskRunAttemptOutputRow,
    attempt: TaskRunAttempt,
    stream: TaskRunAttemptOutputStream,
    content: Seq<char>,
) -> bool {
    &&& row.task_run_attempt_id == attempt.id
    &&& row.task_run_id == attempt.task_run_id
    &&& row.job_run_id == attempt.job_run_id
    &&& row.job_id@ == attempt.job_id@
    &&& row.task_id@ == attempt.task_id@
    &&& row.stream == stream
    &&& row.content@ == content
}

fn output_row(attempt: &TaskRunAttempt, stream: TaskRunAttemptOutputStream, content: String) -> (
    row: TaskRunAttemptOutputRow)
    ensures
        row_of(row, *attempt, stream, content@),
{
    TaskRunAttemptOutputRow {
        task_run_attempt_id: attempt.id,
        task_run_id: attempt.task_run_id,
        job_run_id: attempt.job_run_id,
        job_id: attempt.job_id.as_str().to_owned(),
        task_id: attempt.task_id.as_str().to_owned(),
        stream,
        content,
    }
}

/// The rows that store what one pass gathered: one for each stream that has something new,
/// standard output first.
pub fn insert_output(attempt: &TaskRunAttempt, streams: TaskRunAttemptOutputStreams) -> (rows: Vec<
    TaskRunAttemptOutputRow,
>)
    ensures
        rows@.len() == (if streams.stdout@.len() > 0 { 1int } else { 0 }) + (
        if streams.stderr@.len() > 0 { 1int } else { 0 }),
        streams.stdout@.len() > 0 ==> row_of(
            rows@[0],
            *attempt,
            TaskRunAttemptOutputStream::Stdout,
            streams.stdout@,
        ),
        streams.stderr@.len() > 0 ==> row_of(
            rows@.last(),
            *attempt,
            TaskRunAttemptOutputStream::Stderr,
            streams.stderr@,
        ),
{
    let mut rows: Vec<TaskRunAttemptOutputRow> = Vec::new();
    if !streams.stdout.as_str().is_empty() {
        rows.push(output_row(attempt, TaskRunAttemptOutputStream::Stdout, streams.stdout));
    }
    if !streams.stderr.as_str().is_empty() {
        rows.push(output_row(attempt, TaskRunAttemptOutputStream::Stderr, streams.stderr));
    }
    rows
}

/// What stored rows say of one stream of one attempt.
pub open spec fn stored_on(
    rows: Seq<TaskRunAttemptOutputRow>,
    task_run_attempt_id: i64,
    stream: TaskRunAttemptOutputStream,
) -> Seq<char>
    decreases rows.len(),
{
    if rows.len() == 0 {
        Seq::empty()
    } else {
        let before = stored_on(rows.drop_last(), task_run_attempt_id, stream);
        if rows.last().task_run_attempt_id == task_run_attempt_id && rows.last().stream == stream {
            before + rows.last().content@
        } else {
            before
        }
    }
}

/// Puts together what the stored rows hold of one attempt. An attempt with no rows wrote
/// nothing.
pub fn attempt_streams(rows: &Vec<TaskRunAttemptOutputRow>, task_run_attempt_id: i64) -> (streams:
    TaskRunAttemptOutputStreams)
    ensures
        streams.stdout@ == stored_on(rows@, task_run_attempt_id, TaskRunAttemptOutputStream::Stdout),
        streams.stderr@ == stored_on(rows@, task_run_attempt_id, TaskRunAttemptOutputStream::Stderr),
{
    let mut stdout = String::new();
    let mut stderr = String::new();
    let mut i: usize = 0;
    assert(rows@.take(0) =~= Seq::empty());
    while i < rows.len()
        invariant
            i <= rows@.len(),
            stdout@ == stored_on(
                rows@.take(i as int),
                task_run_attempt_id,
                TaskRunAttemptOutputStream::Stdout,
            ),
            stderr@ == stored_on(
                rows@.take(i as int),
                task_run_attempt_id,
                TaskRunAttemptOutputStream::Stderr,
            ),
        decreases rows.len() - i,
    {
        if rows[i].task_run_attempt_id == task_run_attempt_id {
            match rows[i].stream {
                TaskRunAttemptOutputStream::Stdout => stdout.append(rows[i].content.as_str()),
                TaskRunAttemptOutputStream::Stderr => stderr.append(rows[i].content.as_str()),
            }
        }
        i = i + 1;
        assert(rows@.take(i as int).drop_last() =~= rows@.take(i - 1));
    }
    assert(rows@.take(i as int) =~= rows@);
    TaskRunAttemptOutputStreams { stdout, stderr }
}

/// What a pass stores is what is read back: the rows of `insert_output` behind earlier rows
/// add exactly the gathered text to each stream of their attempt, and nothing to another
/// attempt's.
pub proof fn stored_output_reads_back(
    earlier: Seq<TaskRunAttemptOutputRow>,
    rows: Seq<TaskRunAttemptOutputRow>,
    attempt: TaskRunAttempt,
    streams: TaskRunAttemptOutputStreams,
    id: i64,
    stream: TaskRunAttemptOutputStream,
)
    requires
        rows.len() == (if streams.stdout@.len() > 0 { 1int } else { 0 }) + (
        if streams.stderr@.len() > 0 { 1int } else { 0 }),
        streams.stdout@.len() > 0 ==> row_of(
            rows[0],
            attempt,
            TaskRunAttemptOutputStream::Stdout,
            streams.stdout@,
        ),
        streams.stderr@.len() > 0 ==> row_of(
            rows.last(),
            attempt,
            TaskRunAttemptOutputStream::Stderr,
            streams.stderr@,
        ),
    ensures
        stored_on(earlier + rows, id, stream) == stored_on(earlier, id, stream) + (if id
            == attempt.id {
            match stream {
                TaskRunAttemptOutputStream::Stdout => streams.stdout@,
                TaskRunAttemptOutputStream::Stderr => streams.stderr@,
            }
        } else {
            Seq::empty()
        }),
{
    reveal_with_fuel(stored_on, 3);
    let all = earlier + rows;
    if rows.len() == 0 {
        assert(all =~= earlier);
    } else if rows.len() == 1 {
        assert(all.drop_last() =~= earlier);
    } else {
        assert(all.drop_last().drop_last() =~= earlier);
        assert(all.drop_last().last() == rows[0]);
    }
    assert(stored_on(all, id, stream) =~= stored_on(earlier, id, stream) + (if id == attempt.id {
        match stream {
            TaskRunAttemptOutputStream::Stdout => streams.stdout@,
            TaskRunAttemptOutputStream::Stderr => streams.stderr@,
        }
    } else {
        Seq::empty()
    }));
}

/// A process that has exited is judged by how it exited, whatever the clock says and whoever
/// asked it to stop, and it is not killed.
pub proof fn a_real_ending_outranks_a_stop(process: ProcessState, now: int, stopped: bool)
    requires
        process.exited is Some,
    ensures
        running_outcome(Some(process), now, stopped) == (AttemptStep::Finish {
            status: if process.exited->0 {
                TaskRunAttemptStatus::Succeeded
            } else {
                TaskRunAttemptStatus::Failed
            },
            kill: false,
        }),
{
}

/// A process is only ever ended by killing it, and only killed to end it: one that goes on
/// is kept, and one that exited or is not held is not signalled.
pub proof fn only_a_live_process_is_killed(process: Option<ProcessState>, now: int, stopped: bool)
    ensures
        running_outcome(process, now, stopped) matches AttemptStep::Finish { status, kill } ==> (
        kill <==> process is Some && process->0.exited is None),
{
}

/// Only how long a process has been running matters, not when it started: two processes that
/// stand alike and have run for equally long come to the same end.
pub proof fn only_the_time_a_process_has_run_counts(
    process: ProcessState,
    now: int,
    other: ProcessState,
    later: int,
    stopped: bool,
)
    requires
        process.exited == other.exited,
        process.timeout == other.timeout,
        now - process.started_at@ == later - other.started_at@,
    ensures
        running_outcome(Some(process), now, stopped) == running_outcome(
            Some(other),
            later,
            stopped,
        ),
{
}

/// A process that is still going is timed out exactly when it has run for longer than its
/// timeout, in seconds; until then it is aborted exactly when it was asked to stop, and goes
/// on exactly when it was not.
pub proof fn a_live_process_has_exactly_its_timeout(
    process: ProcessState,
    now: int,
    stopped: bool,
    run_for: int,
)
    requires
        process.exited is None,
        run_for == now - process.started_at@,
    ensures
        running_outcome(Some(process), now, stopped) == (AttemptStep::Finish {
            status: TaskRunAttemptStatus::TimedOut,
            kill: true,
        }) <==> run_for > process.timeout * 1_000_000_000,
        running_outcome(Some(process), now, stopped) == (AttemptStep::Finish {
            status: TaskRunAttemptStatus::Aborted,
            kill: true,
        }) <==> stopped && run_for <= process.timeout * 1_000_000_000,
        running_outcome(Some(process), now, stopped) == AttemptStep::Keep <==> !stopped && run_for
            <= process.timeout * 1_000_000_000,
{
}

/// An attempt whose process is not held is settled invalid, as nobody can say how it ended.
pub proof fn an_attempt_without_a_process_is_invalid(now: int, stopped: bool)
    ensures
        running_outcome(None, now, stopped) == (AttemptStep::Finish {
            status: TaskRunAttemptStatus::Invalid,
            kill: false,
        }),
{
}

/// An attempt that ends is killed first where it has to be, read to the end where it has a
/// process, and only then written, once and with its own ending. One that goes on has what it
/// wrote recorded before its process is put back, and nothing is written.
pub proof fn every_step_is_carried_out_in_order(
    step: AttemptStep,
    has_process: bool,
    status: TaskRunAttemptStatus,
    kill: bool,
    i: int,
    j: int,
)
    requires
        0 <= i < actions_of(step, has_process).len(),
        0 <= j < actions_of(step, has_process).len(),
    ensures
        step is Keep <==> actions_of(step, has_process).contains(AttemptAction::PutBack),
        step is Keep <==> actions_of(step, has_process).contains(AttemptAction::RecordSoFar),
        step == (AttemptStep::Finish { status, kill }) ==> {
            &&& actions_of(step, has_process).last() == AttemptAction::Write(status)
            &&& actions_of(step, has_process).contains(AttemptAction::Kill) <==> kill
            &&& actions_of(step, has_process).contains(AttemptAction::ReadToEnd) <==> has_process
        },
        actions_of(step, has_process)[i] is Kill && i != j ==> i < j,
        actions_of(step, has_process)[i] is Write && i != j ==> j < i,
        actions_of(step, has_process)[i] is RecordSoFar && i != j ==> i < j,
{
    let list = actions_of(step, has_process);
    match step {
        AttemptStep::Keep => {
            assert(list[0] == AttemptAction::RecordSoFar);
            assert(list[1] == AttemptAction::PutBack);
        },
        AttemptStep::Finish { status, kill } => {
            if kill {
                assert(list[0] == AttemptAction::Kill);
            }
            if has_process {
                assert(list[list.len() - 2] == AttemptAction::ReadToEnd);
            }
        },
    }
}

/// What is gathered of chunks that came one lot after another is what is gathered of the
/// first lot followed by what is gathered of the second; a chunk on its own says its content
/// on its stream and nothing on the other.
pub proof fn output_is_gathered_in_the_order_it_came(
    first: Seq<TaskRunAttemptOutputChunk>,
    second: Seq<TaskRunAttemptOutputChunk>,
    stream: TaskRunAttemptOutputStream,
)
    ensures
        said_on(first + second, stream) == said_on(first, stream) + said_on(second, stream),
        first.len() == 0 ==> said_on(first, stream).len() == 0,
        first.len() == 1 && first[0].stream == stream ==> said_on(first, stream)
            == first[0].content@,
        first.len() == 1 && first[0].stream != stream ==> said_on(first, stream).len() == 0,
    decreases second.len(),
{
    reveal_with_fuel(said_on, 2);
    if first.len() == 1 {
        assert(first.drop_last() =~= Seq::empty());
        assert(said_on(first.drop_last(), stream) =~= Seq::empty());
        if first[0].stream == stream {
            assert(said_on(first, stream) =~= first[0].content@);
        }
    }
    if second.len() == 0 {
        assert(first + second =~= first);
        assert(said_on(first, stream) + said_on(second, stream) =~= said_on(first, stream));
    } else {
        output_is_gathered_in_the_order_it_came(first, second.drop_last(), stream);
        assert((first + second).drop_last() =~= first + second.drop_last());
        assert((first + second).last() == second.last());
        assert(said_on(first + second, stream) =~= said_on(first, stream) + said_on(second, stream));
    }
}

/// Chunks of one stream are gathered as their contents, one after another in the order they
/// came; nothing is gathered of the other stream.
pub proof fn what_is_gathered_spells_the_chunks(
    chunks: Seq<TaskRunAttemptOutputChunk>,
    stream: TaskRunAttemptOutputStream,
    other: TaskRunAttemptOutputStream,
)
    requires
        forall|i: int| 0 <= i < chunks.len() ==> (#[trigger] chunks[i]).stream == stream,
        other != stream,
    ensures
        said_on(chunks, stream) == all_together(contents(chunks)),
        said_on(chunks, other).len() == 0,
    decreases chunks.len(),
{
    if chunks.len() > 0 {
        let before = chunks.drop_last();
        assert(chunks.last().stream == stream);
        assert forall|i: int| 0 <= i < before.len() implies (#[trigger] before[i]).stream
            == stream by {
            assert(before[i] == chunks[i]);
        }
        what_is_gathered_spells_the_chunks(before, stream, other);
        assert(contents(chunks).drop_last() =~= contents(before));
        assert(contents(chunks).last() == chunks.last().content@);
    }
}

/// The two streams do not disturb each other: what is gathered of one depends on that one's
/// chunks alone, however the other's come in between.
pub proof fn the_other_stream_makes_no_difference(
    chunks: Seq<TaskRunAttemptOutputChunk>,
    stream: TaskRunAttemptOutputStream,
)
    ensures
        said_on(chunks, stream) == said_on(
            chunks.filter(|chunk: TaskRunAttemptOutputChunk| chunk.stream == stream),
            stream,
        ),
    decreases chunks.len(),
{
    reveal(Seq::filter);
    let own = |chunk: TaskRunAttemptOutputChunk| chunk.stream == stream;
    if chunks.len() > 0 {
        the_other_stream_makes_no_difference(chunks.drop_last(), stream);
        let before = chunks.drop_last().filter(own);
        if own(chunks.last()) {
            assert(chunks.filter(own) =~= before.push(chunks.last()));
            assert(chunks.filter(own).drop_last() =~= before);
        } else {
            assert(chunks.filter(own) =~= before);
        }
    }
}

/// Stored rows read back in the order they were stored: what two lots of rows say of a stream
/// is what the first says followed by what the second says, and a row on its own says its
/// content of its own attempt's stream and nothing of any other.
pub proof fn stored_rows_read_back_in_order(
    first: Seq<TaskRunAttemptOutputRow>,
    second: Seq<TaskRunAttemptOutputRow>,
    id: i64,
    stream: TaskRunAttemptOutputStream,
)
    ensures
        stored_on(first + second, id, stream) == stored_on(first, id, stream) + stored_on(
            second,
            id,
            stream,
        ),
        first.len() == 0 ==> stored_on(first, id, stream).len() == 0,
        first.len() == 1 && first[0].stream == stream && first[0].task_run_attempt_id == id
            ==> stored_on(first, id, stream) == first[0].content@,
        first.len() == 1 && (first[0].stream != stream || first[0].task_run_attempt_id != id)
            ==> stored_on(first, id, stream).len() == 0,
    decreases second.len(),
{
    reveal_with_fuel(stored_on, 2);
    if first.len() == 1 {
        assert(first.drop_last() =~= Seq::empty());
        assert(stored_on(first.drop_last(), id, stream) =~= Seq::empty());
        if first[0].stream == stream && first[0].task_run_attempt_id == id {
            assert(stored_on(first, id, stream) =~= first[0].content@);
        }
    }
    if second.len() == 0 {
        assert(first + second =~= first);
        assert(stored_on(first, id, stream) + stored_on(second, id, stream) =~= stored_on(
            first,
            id,
            stream,
        ));
    } else {
        stored_rows_read_back_in_order(first, second.drop_last(), id, stream);
        assert((first + second).drop_last() =~= first + second.drop_last());
        assert((first + second).last() == second.last());
        assert(stored_on(first + second, id, stream) =~= stored_on(first, id, stream) + stored_on(
            second,
            id,
            stream,
        ));
    }
}

/// What an attempt writes is what is stored and read back of it: the chunks recorded of a
/// stream, gathered in one pass and stored behind what other attempts wrote, read back as the
/// text that the command wrote to that stream, as long as it stays under the cap.
pub proof fn what_is_stored_spells_what_was_written(
    recorders: Seq<StreamRecorder>,
    reads: Seq<Seq<u8>>,
    chunks: Seq<Seq<TaskRunAttemptOutputChunk>>,
    last: Seq<TaskRunAttemptOutputChunk>,
    ended: StreamRecorder,
    earlier: Seq<TaskRunAttemptOutputRow>,
    rows: Seq<TaskRunAttemptOutputRow>,
    attempt: TaskRunAttempt,
    streams: TaskRunAttemptOutputStreams,
)
    requires
        recorded_stream(recorders, reads, chunks, last, ended),
        encode_utf8(said(all_together(reads))).len() <= recorders[0].max(),
        streams.stdout@ == said_on(
            all_together(chunks) + last,
            TaskRunAttemptOutputStream::Stdout,
        ),
        streams.stderr@ == said_on(
            all_together(chunks) + last,
            TaskRunAttemptOutputStream::Stderr,
        ),
        rows.len() == (if streams.stdout@.len() > 0 { 1int } else { 0 }) + (
        if streams.stderr@.len() > 0 { 1int } else { 0 }),
        streams.stdout@.len() > 0 ==> row_of(
            rows[0],
            attempt,
            TaskRunAttemptOutputStream::Stdout,
            streams.stdout@,
        ),
        streams.stderr@.len() > 0 ==> row_of(
            rows.last(),
            attempt,
            TaskRunAttemptOutputStream::Stderr,
            streams.stderr@,
        ),
    ensures
        stored_on(earlier + rows, attempt.id, recorders[0].stream()) == stored_on(
            earlier,
            attempt.id,
            recorders[0].stream(),
        ) + said(all_together(reads)),
{
    let stream = recorders[0].stream();
    let other = match stream {
        TaskRunAttemptOutputStream::Stdout => TaskRunAttemptOutputStream::Stderr,
        TaskRunAttemptOutputStream::Stderr => TaskRunAttemptOutputStream::Stdout,
    };
    what_is_recorded_spells_the_stream(recorders, reads, chunks, last, ended);
    what_is_gathered_spells_the_chunks(all_together(chunks) + last, stream, other);
    stored_output_reads_back(earlier, rows, attempt, streams, attempt.id, stream);
}

/// Gathering the chunks of one stream puts their contents together in the order they came, and
/// leaves the other stream empty.
pub proof fn gathering_spells_what_came(
    chunks: Vec<TaskRunAttemptOutputChunk>,
    streams: TaskRunAttemptOutputStreams,
)
    requires
        call_ensures(gather, (&chunks,), streams),
    ensures
        all_of(chunks@, TaskRunAttemptOutputStream::Stdout) ==> streams.stdout@ == all_together(
            contents(chunks@),
        ) && streams.stderr@.len() == 0,
        all_of(chunks@, TaskRunAttemptOutputStream::Stderr) ==> streams.stderr@ == all_together(
            contents(chunks@),
        ) && streams.stdout@.len() == 0,
{
    let out = TaskRunAttemptOutputStream::Stdout;
    let err = TaskRunAttemptOutputStream::Stderr;
    if all_of(chunks@, out) {
        what_is_gathered_spells_the_chunks(chunks@, out, err);
    }
    if all_of(chunks@, err) {
        what_is_gathered_spells_the_chunks(chunks@, err, out);
    }
}

/// Gathering two lots of chunks at once gathers what they do one after the other, of each
/// stream.
pub proof fn gathering_in_lots_makes_no_difference(
    first: Vec<TaskRunAttemptOutputChunk>,
    second: Vec<TaskRunAttemptOutputChunk>,
    both: Vec<TaskRunAttemptOutputChunk>,
    from_first: TaskRunAttemptOutputStreams,
    from_second: TaskRunAttemptOutputStreams,
    from_both: TaskRunAttemptOutputStreams,
)
    requires
        both@ == first@ + second@,
        call_ensures(gather, (&first,), from_first),
        call_ensures(gather, (&second,), from_second),
        call_ensures(gather, (&both,), from_both),
    ensures
        from_both.stdout@ == from_first.stdout@ + from_second.stdout@,
        from_both.stderr@ == from_first.stderr@ + from_second.stderr@,
{
    output_is_gathered_in_the_order_it_came(
        first@,
        second@,
        TaskRunAttemptOutputStream::Stdout,
    );
    output_is_gathered_in_the_order_it_came(
        first@,
        second@,
        TaskRunAttemptOutputStream::Stderr,
    );
}

/// What one pass stores of an attempt reads back as what was read before with what the pass
/// gathered behind it, on each stream; another attempt reads as it did.
pub proof fn a_pass_adds_what_it_gathered(
    attempt: TaskRunAttempt,
    streams: TaskRunAttemptOutputStreams,
    earlier: Vec<TaskRunAttemptOutputRow>,
    rows: Vec<TaskRunAttemptOutputRow>,
    all: Vec<TaskRunAttemptOutputRow>,
    id: i64,
    before: TaskRunAttemptOutputStreams,
    after: TaskRunAttemptOutputStreams,
)
    requires
        call_ensures(insert_output, (&attempt, streams), rows),
        all@ == earlier@ + rows@,
        call_ensures(attempt_streams, (&earlier, id), before),
        call_ensures(attempt_streams, (&all, id), after),
    ensures
        id == attempt.id ==> after.stdout@ == before.stdout@ + streams.stdout@ && after.stderr@
            == before.stderr@ + streams.stderr@,
        id != attempt.id ==> after.stdout@ == before.stdout@ && after.stderr@ == before.stderr@,
{
    let out = TaskRunAttemptOutputStream::Stdout;
    let err = TaskRunAttemptOutputStream::Stderr;
    stored_output_reads_back(earlier@, rows@, attempt, streams, id, out);
    stored_output_reads_back(earlier@, rows@, attempt, streams, id, err);
    assert(before.stdout@ + Seq::<char>::empty() =~= before.stdout@);
    assert(before.stderr@ + Seq::<char>::empty() =~= before.stderr@);
}

/// A process that is going is let go on exactly as long as nobody stopped it and it has run
/// for no longer than its timeout; one that has run longer is timed out and killed, stopped or
/// not. What the clock shows matters only through how long that is.
pub proof fn a_process_gets_its_timeout_and_no_more(
    process: ProcessState,
    now: Timestamp,
    stopped: bool,
    step: AttemptStep,
)
    requires
        process.exited is None,
        call_ensures(settle_task_run_attempt, (Some(process), &now, stopped), step),
    ensures
        ({
            let seconds = process.timeout as int;
            let run_for = now@ - process.started_at@;
            &&& step is Keep <==> !stopped && run_for <= seconds * 1_000_000_000
            &&& step == (AttemptStep::Finish { status: TaskRunAttemptStatus::TimedOut, kill: true })
                <==> run_for > seconds * 1_000_000_000
            &&& step == (AttemptStep::Finish { status: TaskRunAttemptStatus::Aborted, kill: true })
                <==> stopped && run_for <= seconds * 1_000_000_000
        }),
{
}

/// Ending an attempt changes how it stands and when it ended, and nothing else.
pub proof fn an_ending_reads_back(
    status: TaskRunAttemptStatus,
    now: Timestamp,
    update: TaskRunAttemptUpdate,
    attempt: TaskRunAttempt,
)
    requires
        call_ensures(finish_task_run_attempt, (status, now), update),
    ensures
        ({
            let after = update.applied_to(attempt);
            &&& after.status == status
            &&& after.finished_at == Some(now)
            &&& after.id == attempt.id
            &&& after.attempt == attempt.attempt
            &&& after.started_at == attempt.started_at
            &&& after.process_group_id == attempt.process_group_id
        }),
{
}

/// Every row that stores output says whose it is: the attempt's, with the task run and the job
/// run it belongs to, by number and by name. There is one for each stream that has something,
/// standard output first, and none for one that has not.
pub proof fn a_stored_row_says_whose_it_is(
    attempt: TaskRunAttempt,
    streams: TaskRunAttemptOutputStreams,
    rows: Vec<TaskRunAttemptOutputRow>,
    i: int,
)
    requires
        call_ensures(insert_output, (&attempt, streams), rows),
        0 <= i < rows@.len(),
    ensures
        rows@[i].task_run_attempt_id == attempt.id,
        rows@[i].task_run_id == attempt.task_run_id,
        rows@[i].job_run_id == attempt.job_run_id,
        rows@[i].job_id@ == attempt.job_id@,
        rows@[i].task_id@ == attempt.task_id@,
        rows@[i].content@.len() > 0,
        rows@[i].content@ == (match rows@[i].stream {
            TaskRunAttemptOutputStream::Stdout => streams.stdout@,
            TaskRunAttemptOutputStream::Stderr => streams.stderr@,
        }),
        i > 0 ==> rows@[i].stream is Stderr && rows@[0].stream is Stdout,
{
    assert(rows@.last() == rows@[rows@.len() - 1]);
}

} // verus!
