//! The page of one task run: what each of its attempts wrote.
use crate::format::{duration, duration_text, optional_timestamp};
use crate::models::{
    TaskRun, TaskRunAttempt, TaskRunAttemptOutputStream, TaskRunAttemptOutputStreams,
};
use crate::orchestrator::task_run_attempt_monitor::{
    attempt_streams, stored_on, TaskRunAttemptOutputRow,
};
use crate::router::job_run::{instant_text, optional};
use crate::status::{TaskRunAttemptStatus, TaskRunStatus};
use crate::text::{a_number_reads_back, decimal, decimal_u64, is_digit};
use crate::time::{whole, Timestamp};
use vstd::prelude::*;
use vstd::string::*;

verus! {

/// A task run as its page shows it.
#[derive(Clone, Debug)]
pub struct TaskRunDisplay {
    pub id: i64,
    pub job_run_id: i64,
    pub job_id: String,
    pub task_id: String,
    pub status: TaskRunStatus,
    pub status_word: &'static str,
    pub started_at: Option<String>,
    pub finished_at: Option<String>,
    pub duration: Option<String>,
}

/// An attempt as the page shows it, the two streams apart: one that failed explains itself on
/// the one, and has what it managed to produce on the other.
#[derive(Clone, Debug)]
pub struct AttemptDisplay {
    pub attempt: u32,
    pub status: TaskRunAttemptStatus,
    pub status_word: &'static str,
    pub started_at: Option<String>,
    pub finished_at: Option<String>,
    pub duration: Option<String>,
    pub stdout: String,
    pub stderr: String,
}

/// What the page is laid out from.
#[derive(Clone, Debug)]
pub struct TaskRunPage {
    pub task_run: TaskRunDisplay,
    pub attempts: Vec<AttemptDisplay>,
    pub attempt_note: String,
    /// Whether the page keeps asking for news.
    pub polling: bool,
}

/// How long something has taken, in words, if it has started. What is still going is measured
/// against now.
pub open spec fn lasted_text(
    started_at: Option<Timestamp>,
    finished_at: Option<Timestamp>,
    now: Timestamp,
) -> Option<Seq<char>> {
    match started_at {
        Some(started_at) => {
            let end = match finished_at {
                Some(finished_at) => finished_at,
                None => now,
            };
            Some(duration_text(whole(end@ - started_at@, 1_000_000_000)))
        },
        None => None,
    }
}

fn lasted(started_at: &Option<Timestamp>, finished_at: &Option<Timestamp>, now: &Timestamp) -> (r:
    Option<String>)
    ensures
        optional(r) == lasted_text(*started_at, *finished_at, *now),
{
    match started_at {
        Some(started_at) => match finished_at {
            Some(finished_at) => Some(duration(finished_at.seconds_since(started_at))),
            None => Some(duration(now.seconds_since(started_at))),
        },
        None => None,
    }
}

/// Whether the page shows an attempt.
pub open spec fn shows(
    display: AttemptDisplay,
    attempt: TaskRunAttempt,
    stdout: Seq<char>,
    stderr: Seq<char>,
    now: Timestamp,
) -> bool {
    &&& display.attempt == attempt.attempt
    &&& display.status == attempt.status
    &&& display.status_word@ == attempt.status.called()
    &&& optional(display.started_at) == instant_text(attempt.started_at)
    &&& optional(display.finished_at) == instant_text(attempt.finished_at)
    &&& optional(display.duration) == lasted_text(attempt.started_at, attempt.finished_at, now)
    &&& display.stdout@ == stdout
    &&& display.stderr@ == stderr
}

/// Lays out an attempt and what it wrote.
pub fn build_attempt(
    attempt: &TaskRunAttempt,
    streams: TaskRunAttemptOutputStreams,
    now: &Timestamp,
) -> (display: AttemptDisplay)
    ensures
        shows(display, *attempt, streams.stdout@, streams.stderr@, *now),
{
    AttemptDisplay {
        attempt: attempt.attempt,
        status: attempt.status,
        status_word: attempt.status.word(),
        started_at: optional_timestamp(&attempt.started_at),
        finished_at: optional_timestamp(&attempt.finished_at),
        duration: lasted(&attempt.started_at, &attempt.finished_at, now),
        stdout: streams.stdout,
        stderr: streams.stderr,
    }
}

/// What is noted above so many attempts.
pub open spec fn note_text(count: nat) -> Seq<char> {
    if count == 0 {
        "no attempts yet"@
    } else if count == 1 {
        "1 attempt"@
    } else {
        decimal(count) + " attempts, newest last"@
    }
}

fn attempt_note(count: usize) -> (note: String)
    ensures
        note@ == note_text(count as nat),
{
    if count == 0 {
        "no attempts yet".to_owned()
    } else if count == 1 {
        "1 attempt".to_owned()
    } else {
        let mut note = decimal_u64(count as u64);
        note.append(" attempts, newest last");
        note
    }
}

/// Lays out the page of a task run from its attempts, oldest first, and the rows that hold
/// what they wrote.
pub fn task_run_page(
    task_run: TaskRun,
    attempts: &Vec<TaskRunAttempt>,
    rows: &Vec<TaskRunAttemptOutputRow>,
    now: &Timestamp,
) -> (page: TaskRunPage)
    ensures
        page.task_run.id == task_run.id,
        page.task_run.job_run_id == task_run.job_run_id,
        page.task_run.job_id == task_run.job_id,
        page.task_run.task_id == task_run.task_id,
        page.task_run.status == task_run.status,
        page.task_run.status_word@ == task_run.status.called(),
        optional(page.task_run.started_at) == instant_text(task_run.started_at),
        optional(page.task_run.finished_at) == instant_text(task_run.finished_at),
        optional(page.task_run.duration) == lasted_text(
            task_run.started_at,
            task_run.finished_at,
            *now,
        ),
        page.attempts@.len() == attempts@.len(),
        forall|i: int|
            0 <= i < attempts@.len() ==> shows(
                #[trigger] page.attempts@[i],
                attempts@[i],
                stored_on(rows@, attempts@[i].id, TaskRunAttemptOutputStream::Stdout),
                stored_on(rows@, attempts@[i].id, TaskRunAttemptOutputStream::Stderr),
                *now,
            ),
        page.attempt_note@ == note_text(attempts@.len()),
        page.polling == (task_run.status is Planned || task_run.status is Waiting
            || task_run.status is Running),
{
    let mut displays: Vec<AttemptDisplay> = Vec::new();
    let mut i: usize = 0;
    while i < attempts.len()
        invariant
            i <= attempts@.len(),
            displays@.len() == i,
            forall|j: int|
                0 <= j < i ==> shows(
                    #[trigger] displays@[j],
                    attempts@[j],
                    stored_on(rows@, attempts@[j].id, TaskRunAttemptOutputStream::Stdout),
                    stored_on(rows@, attempts@[j].id, TaskRunAttemptOutputStream::Stderr),
                    *now,
                ),
        decreases attempts.len() - i,
    {
        let streams = attempt_streams(rows, attempts[i].id);
        displays.push(build_attempt(&attempts[i], streams, now));
        i = i + 1;
    }
    let status = task_run.status;
    TaskRunPage {
        task_run: TaskRunDisplay {
            id: task_run.id,
            job_run_id: task_run.job_run_id,
            job_id: task_run.job_id,
            task_id: task_run.task_id,
            status,
            status_word: status.word(),
            started_at: optional_timestamp(&task_run.started_at),
            finished_at: optional_timestamp(&task_run.finished_at),
            duration: lasted(&task_run.started_at, &task_run.finished_at, now),
        },
        attempts: displays,
        attempt_note: attempt_note(attempts.len()),
        polling: matches!(
            status,
            TaskRunStatus::Planned | TaskRunStatus::Waiting | TaskRunStatus::Running
        ),
    }
}

/// Only how far apart a start and an end lie counts for how long something took, and what is
/// still going is measured against now; what has not started has taken no time.
pub proof fn only_the_time_between_counts(
    started_at: Timestamp,
    end: Timestamp,
    other_start: Timestamp,
    other_end: Timestamp,
)
    requires
        end@ - started_at@ == other_end@ - other_start@,
    ensures
        lasted_text(Some(started_at), Some(end), other_end) == lasted_text(
            Some(other_start),
            None,
            other_end,
        ),
        lasted_text(Some(started_at), Some(end), other_end) is Some,
        lasted_text(None, Some(end), other_end) is None,
{
}

/// The page of a task run shows each of its attempts in order, with how it stands and what is
/// stored of it on each stream, and says how many there are; it keeps asking for news exactly
/// while the task run is not over.
pub proof fn every_attempt_is_shown_in_order(
    task_run: TaskRun,
    attempts: Vec<TaskRunAttempt>,
    rows: Vec<TaskRunAttemptOutputRow>,
    now: Timestamp,
    page: TaskRunPage,
    i: int,
)
    requires
        call_ensures(task_run_page, (task_run, &attempts, &rows, &now), page),
        0 <= i < attempts@.len(),
    ensures
        page.attempts@.len() == attempts@.len(),
        page.polling <==> !task_run.status.finished(),
        ({
            let shown = page.attempts@[i];
            let attempt = attempts@[i];
            &&& shown.attempt == attempt.attempt
            &&& shown.status == attempt.status
            &&& shown.status_word@ == attempt.status.called()
            &&& optional(shown.started_at) == instant_text(attempt.started_at)
            &&& optional(shown.finished_at) == instant_text(attempt.finished_at)
            &&& optional(shown.duration) == lasted_text(
                attempt.started_at,
                attempt.finished_at,
                now,
            )
            &&& shown.stdout@ == stored_on(
                rows@,
                attempt.id,
                TaskRunAttemptOutputStream::Stdout,
            )
            &&& shown.stderr@ == stored_on(
                rows@,
                attempt.id,
                TaskRunAttemptOutputStream::Stderr,
            )
        }),
        attempts@.len() == 1 ==> page.attempt_note@ == "1 attempt"@,
        attempts@.len() > 1 ==> page.attempt_note@ == decimal(attempts@.len())
            + " attempts, newest last"@,
{
    assert(shows(
        page.attempts@[i],
        attempts@[i],
        stored_on(rows@, attempts@[i].id, TaskRunAttemptOutputStream::Stdout),
        stored_on(rows@, attempts@[i].id, TaskRunAttemptOutputStream::Stderr),
        now,
    ));
}

/// A task run without attempts says that it has none yet.
pub proof fn no_attempt_is_said_to_be_none(count: nat)
    ensures
        count == 0 <==> note_text(count) == "no attempts yet"@,
{
    reveal_strlit("no attempts yet");
    reveal_strlit("1 attempt");
    reveal_strlit(" attempts, newest last");
    assert("no attempts yet"@[0] == 'n');
    assert("1 attempt"@[0] == '1');
    if count > 1 {
        a_number_reads_back(count);
        assert(note_text(count)[0] == decimal(count)[0]);
        assert(is_digit(decimal(count)[0]));
    }
}

} // verus!
