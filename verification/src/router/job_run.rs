//! The page of one run: its timeline, and what may be done with it.
use crate::config::AppConfigUi;
use crate::format::{
    counted, counted_text, duration, duration_text, optional_timestamp, timestamp,
    timestamp_text,
};
use crate::models::{JobRun, TaskRun};
use crate::router::jobs::JobSummary;
use crate::status::{JobRunStatus, TaskRunStatus};
use crate::text::{
    a_dictionary_is_in_order, decimal_i64, is_before, join, joined, precedes,
    signed_decimal, texts,
};
use crate::time::{whole, Timestamp};
use vstd::prelude::*;
use vstd::string::*;

verus! {

/// A run as its page shows it.
#[derive(Clone, Debug)]
pub struct JobRunDisplay {
    pub id: i64,
    pub job_id: String,
    pub job_name: String,
    pub job_description: String,
    pub status: JobRunStatus,
    pub status_word: &'static str,
    pub created_at: String,
    pub scheduled_at: Option<String>,
    pub parameters: Vec<(String, String)>,
    pub started_at: Option<String>,
    pub finished_at: Option<String>,
    pub duration: Option<String>,
}

/// The bar of one task on the timeline, in hundredths of the whole run, so that the run
/// always fills the track once.
#[derive(Clone, Debug)]
pub struct Lane {
    pub task_run_id: i64,
    pub task_id: String,
    pub status: TaskRunStatus,
    pub depends_on: Option<String>,
    pub started: bool,
    pub start_pct: i64,
    pub span_pct: i64,
    pub duration: String,
    pub idle_label: &'static str,
}

/// A mark on the axis of the timeline.
#[derive(Clone, Debug)]
pub struct Tick {
    pub at_pct: i64,
    pub label: String,
}

/// What the lane of a task that has not started says.
pub open spec fn idle_text(status: TaskRunStatus) -> Seq<char> {
    match status {
        TaskRunStatus::Planned => "planned"@,
        TaskRunStatus::Waiting => "waiting"@,
        TaskRunStatus::Skipped => "skipped"@,
        TaskRunStatus::Aborted => "aborted"@,
        _ => "never started"@,
    }
}

/// Says why a lane is empty.
pub fn idle_label(status: TaskRunStatus) -> (label: &'static str)
    ensures
        label@ == idle_text(status),
{
    match status {
        TaskRunStatus::Planned => "planned",
        TaskRunStatus::Waiting => "waiting",
        TaskRunStatus::Skipped => "skipped",
        TaskRunStatus::Aborted => "aborted",
        _ => "never started",
    }
}

/// Into how many parts the axis of a timeline is divided. Four carry different labels only
/// from a few seconds on.
pub open spec fn axis_steps(window_seconds: int) -> int {
    if window_seconds >= 4 {
        4
    } else {
        1
    }
}

/// Marks the axis of a timeline at even distances, from its start to its end.
pub fn build_ticks(window_seconds: i64) -> (ticks: Vec<Tick>)
    requires
        0 <= window_seconds <= i64::MAX / 4,
    ensures
        ticks@.len() == axis_steps(window_seconds as int) + 1,
        forall|i: int|
            0 <= i < ticks@.len() ==> {
                let tick = #[trigger] ticks@[i];
                &&& tick.at_pct == i * 100 / axis_steps(window_seconds as int)
                &&& tick.label@ == duration_text(
                    window_seconds * i / axis_steps(window_seconds as int),
                )
            },
{
    let steps: i64 = if window_seconds >= 4 {
        4
    } else {
        1
    };
    let mut ticks: Vec<Tick> = Vec::new();
    let mut step: i64 = 0;
    while step <= steps
        invariant
            0 <= window_seconds <= i64::MAX / 4,
            steps == axis_steps(window_seconds as int),
            0 <= step <= steps + 1,
            ticks@.len() == step,
            forall|i: int|
                0 <= i < step ==> {
                    let tick = #[trigger] ticks@[i];
                    &&& tick.at_pct == i * 100 / steps as int
                    &&& tick.label@ == duration_text(window_seconds * i / steps as int)
                },
        decreases steps + 1 - step,
    {
        assert(0 <= window_seconds * step <= window_seconds * 4) by (nonlinear_arith)
            requires
                0 <= window_seconds,
                0 <= step <= 4,
        ;
        ticks.push(
            Tick { at_pct: step * 100 / steps, label: duration(window_seconds * step / steps) },
        );
        step = step + 1;
    }
    ticks
}

/// A number kept between two others.
pub open spec fn clamped(n: int, low: int, high: int) -> int {
    if n < low {
        low
    } else if n > high {
        high
    } else {
        n
    }
}

/// Where a bar starts, in hundredths of the window.
pub open spec fn start_of(started_at: Timestamp, window_start: Timestamp, window_ms: i64) -> int {
    clamped(
        whole(whole(started_at@ - window_start@, 1_000_000) * 100, window_ms as int),
        0,
        100,
    )
}

/// How much of the window a bar takes, in hundredths: no more than is left of it behind the
/// bar's start.
pub open spec fn span_of(
    started_at: Timestamp,
    finished_at: Timestamp,
    window_start: Timestamp,
    window_ms: i64,
) -> int {
    clamped(
        whole(whole(finished_at@ - started_at@, 1_000_000) * 100, window_ms as int),
        0,
        100 - start_of(started_at, window_start, window_ms),
    )
}

/// A lane of a timeline shows a task run.
pub open spec fn shows(
    lane: Lane,
    task_run: TaskRun,
    depends_on: Option<String>,
    window_start: Timestamp,
    window_end: Timestamp,
    window_ms: i64,
) -> bool {
    &&& lane.task_run_id == task_run.id
    &&& lane.task_id == task_run.task_id
    &&& lane.status == task_run.status
    &&& lane.depends_on == depends_on
    &&& lane.started == task_run.started_at is Some
    &&& match task_run.started_at {
        None => {
            &&& lane.start_pct == 0
            &&& lane.span_pct == 0
            &&& lane.duration@ == "\u{2014}"@
            &&& lane.idle_label@ == idle_text(task_run.status)
        },
        Some(started_at) => {
            let finished_at = match task_run.finished_at {
                Some(finished_at) => finished_at,
                None => window_end,
            };
            &&& lane.start_pct == start_of(started_at, window_start, window_ms)
            &&& lane.span_pct == span_of(started_at, finished_at, window_start, window_ms)
            &&& lane.duration@ == duration_text(
                whole(whole(finished_at@ - started_at@, 1_000_000), 1000),
            )
            &&& lane.idle_label@ == ""@
        },
    }
}

fn divided(n: i64, unit: i64) -> (r: i64)
    requires
        unit >= 1,
        n > i64::MIN,
    ensures
        r == whole(n as int, unit as int),
{
    if n >= 0 {
        n / unit
    } else {
        let positive: i64 = -n;
        assert(0 <= positive / unit <= positive) by (nonlinear_arith)
            requires
                positive >= 0,
                unit >= 1,
        ;
        -(positive / unit)
    }
}

fn clamp(n: i64, low: i64, high: i64) -> (r: i64)
    ensures
        r == clamped(n as int, low as int, high as int),
{
    if n < low {
        low
    } else if n > high {
        high
    } else {
        n
    }
}

/// Lays out the lane of a task run on a timeline.
pub fn build_lane(
    task_run: TaskRun,
    depends_on: Option<String>,
    window_start: &Timestamp,
    window_end: &Timestamp,
    window_ms: i64,
) -> (lane: Lane)
    requires
        window_ms >= 1,
    ensures
        shows(lane, task_run, depends_on, *window_start, *window_end, window_ms),
{
    match task_run.started_at {
        None => Lane {
            task_run_id: task_run.id,
            task_id: task_run.task_id,
            status: task_run.status,
            depends_on,
            started: false,
            start_pct: 0,
            span_pct: 0,
            duration: "\u{2014}".to_owned(),
            idle_label: idle_label(task_run.status),
        },
        Some(started_at) => {
            let finished_at: Timestamp = match task_run.finished_at {
                Some(finished_at) => finished_at,
                None => *window_end,
            };
            let offset_ms: i64 = started_at.millis_since(window_start);
            let elapsed_ms: i64 = finished_at.millis_since(&started_at);
            let start_pct: i64 = clamp(divided(offset_ms * 100, window_ms), 0, 100);
            let span_pct: i64 = clamp(divided(elapsed_ms * 100, window_ms), 0, 100 - start_pct);
            Lane {
                task_run_id: task_run.id,
                task_id: task_run.task_id,
                status: task_run.status,
                depends_on,
                started: true,
                start_pct,
                span_pct,
                duration: duration(divided(elapsed_ms, 1000)),
                idle_label: "",
            }
        },
    }
}

/// No bar leaves its track, whatever times its task run carries.
pub proof fn a_bar_stays_on_its_track(
    lane: Lane,
    task_run: TaskRun,
    depends_on: Option<String>,
    window_start: Timestamp,
    window_end: Timestamp,
    window_ms: i64,
)
    requires
        shows(lane, task_run, depends_on, window_start, window_end, window_ms),
    ensures
        0 <= lane.start_pct,
        0 <= lane.span_pct,
        lane.start_pct + lane.span_pct <= 100,
{
}

/// Whether a task run is read before another on a timeline: by when it started, and those
/// that never did come last; and then by name.
pub open spec fn reads_before(a: TaskRun, b: TaskRun) -> bool {
    match (a.started_at, b.started_at) {
        (Some(x), Some(y)) => x@ < y@ || (x@ == y@ && precedes(a.task_id@, b.task_id@)),
        (Some(_), None) => true,
        (None, Some(_)) => false,
        (None, None) => precedes(a.task_id@, b.task_id@),
    }
}

/// Some task runs in order, with another put behind all that are not read after it.
pub open spec fn inserted(task_runs: Seq<TaskRun>, next: TaskRun) -> Seq<TaskRun>
    decreases task_runs.len(),
{
    if task_runs.len() > 0 && reads_before(next, task_runs.last()) {
        inserted(task_runs.drop_last(), next).push(task_runs.last())
    } else {
        task_runs.push(next)
    }
}

/// Task runs in the order in which a timeline is read. Those that tie stay in the order they
/// came in.
pub open spec fn in_reading_order(task_runs: Seq<TaskRun>) -> Seq<TaskRun>
    decreases task_runs.len(),
{
    if task_runs.len() == 0 {
        Seq::empty()
    } else {
        inserted(in_reading_order(task_runs.drop_last()), task_runs.last())
    }
}

fn is_read_before(a: &TaskRun, b: &TaskRun) -> (r: bool)
    ensures
        r == reads_before(*a, *b),
{
    match (&a.started_at, &b.started_at) {
        (Some(x), Some(y)) => {
            if x.is_before(y) {
                true
            } else if y.is_before(x) {
                false
            } else {
                is_before(a.task_id.as_str(), b.task_id.as_str())
            }
        },
        (Some(_), None) => true,
        (None, Some(_)) => false,
        (None, None) => is_before(a.task_id.as_str(), b.task_id.as_str()),
    }
}

/// Puts task runs in the order in which a timeline is read.
pub fn sort_task_runs(task_runs: Vec<TaskRun>) -> (sorted: Vec<TaskRun>)
    ensures
        sorted@ == in_reading_order(task_runs@),
{
    let mut sorted: Vec<TaskRun> = Vec::new();
    let mut rest = task_runs;
    let ghost all = task_runs@;
    let ghost mut done: int = 0;
    assert(all.take(0) =~= Seq::empty());
    while rest.len() > 0
        invariant
            0 <= done <= all.len(),
            rest@ == all.skip(done),
            sorted@ == in_reading_order(all.take(done)),
        decreases rest.len(),
    {
        let next = rest.remove(0);
        assert(next == all[done]);
        let mut at: usize = sorted.len();
        assert(sorted@.take(at as int) =~= sorted@);
        assert(sorted@.skip(at as int) =~= Seq::empty());
        assert(inserted(sorted@, next) =~= inserted(sorted@.take(at as int), next) + sorted@.skip(
            at as int,
        ));
        while at > 0 && is_read_before(&next, &sorted[at - 1])
            invariant
                at <= sorted@.len(),
                inserted(sorted@, next) == inserted(sorted@.take(at as int), next) + sorted@.skip(
                    at as int,
                ),
            ensures
                at <= sorted@.len(),
                inserted(sorted@, next) == inserted(sorted@.take(at as int), next) + sorted@.skip(
                    at as int,
                ),
                at == 0 || !reads_before(next, sorted@[at - 1]),
            decreases at,
        {
            assert(sorted@.take(at as int).drop_last() =~= sorted@.take(at - 1));
            assert(sorted@.take(at as int).last() == sorted@[at - 1]);
            assert(inserted(sorted@.take(at as int), next) + sorted@.skip(at as int) =~= inserted(
                sorted@.take(at - 1),
                next,
            ) + sorted@.skip(at - 1));
            at = at - 1;
        }
        let ghost before = sorted@;
        assert(inserted(before.take(at as int), next) =~= before.take(at as int).push(next));
        sorted.insert(at, next);
        assert(sorted@ =~= inserted(before, next));
        proof {
            done = done + 1;
        }
        assert(rest@ =~= all.skip(done));
        assert(all.take(done).drop_last() =~= all.take(done - 1));
    }
    assert(all.take(done) =~= all);
    sorted
}

/// Whether no task run stands behind one that is read after it.
pub open spec fn is_in_reading_order(task_runs: Seq<TaskRun>) -> bool {
    forall|i: int, j: int|
        0 <= i < j < task_runs.len() ==> !reads_before(
            #[trigger] task_runs[j],
            #[trigger] task_runs[i],
        )
}

proof fn lemma_reading_order(a: TaskRun, b: TaskRun, c: TaskRun)
    ensures
        reads_before(a, b) ==> !reads_before(b, a),
        !reads_before(b, a) && !reads_before(c, b) ==> !reads_before(c, a),
{
    let x = a.task_id@;
    let y = b.task_id@;
    let z = c.task_id@;
    a_dictionary_is_in_order(x, y, x);
    a_dictionary_is_in_order(y, x, y);
    a_dictionary_is_in_order(x, y, z);
    a_dictionary_is_in_order(y, z, x);
    a_dictionary_is_in_order(z, x, y);
    a_dictionary_is_in_order(z, y, x);
    a_dictionary_is_in_order(y, x, z);
    a_dictionary_is_in_order(x, z, y);
}

proof fn lemma_inserted_in_order(task_runs: Seq<TaskRun>, next: TaskRun)
    requires
        is_in_reading_order(task_runs),
    ensures
        is_in_reading_order(inserted(task_runs, next)),
        inserted(task_runs, next).to_multiset() == task_runs.to_multiset().insert(next),
        inserted(task_runs, next).len() == task_runs.len() + 1,
        forall|i: int|
            0 <= i <= task_runs.len() ==> (#[trigger] inserted(task_runs, next)[i]) == next
                || task_runs.contains(inserted(task_runs, next)[i]),
    decreases task_runs.len(),
{
    broadcast use vstd::seq_lib::group_to_multiset_ensures;

    let result = inserted(task_runs, next);
    if task_runs.len() > 0 && reads_before(next, task_runs.last()) {
        let shorter = task_runs.drop_last();
        let last = task_runs.last();
        assert forall|i: int, j: int| 0 <= i < j < shorter.len() implies !reads_before(
            #[trigger] shorter[j],
            #[trigger] shorter[i],
        ) by {
            assert(!reads_before(task_runs[j], task_runs[i]));
        }
        lemma_inserted_in_order(shorter, next);
        let before = inserted(shorter, next);
        assert(task_runs =~= shorter.push(last));
        assert(result.to_multiset() =~= task_runs.to_multiset().insert(next));
        assert forall|i: int| 0 <= i <= task_runs.len() implies (#[trigger] result[i]) == next
            || task_runs.contains(result[i]) by {
            if i < before.len() {
                assert(result[i] == before[i]);
                if before[i] != next {
                    let k = choose|k: int| 0 <= k < shorter.len() && shorter[k] == before[i];
                    assert(task_runs[k] == result[i]);
                }
            } else {
                assert(task_runs[task_runs.len() - 1] == result[i]);
            }
        }
        assert forall|i: int, j: int| 0 <= i < j < result.len() implies !reads_before(
            #[trigger] result[j],
            #[trigger] result[i],
        ) by {
            if j < before.len() {
                assert(!reads_before(before[j], before[i]));
            } else {
                assert(result[i] == before[i]);
                if before[i] == next {
                    lemma_reading_order(next, last, next);
                } else {
                    let k = choose|k: int| 0 <= k < shorter.len() && shorter[k] == before[i];
                    assert(!reads_before(task_runs[task_runs.len() - 1], task_runs[k]));
                }
            }
        }
    } else {
        assert forall|i: int, j: int| 0 <= i < j < result.len() implies !reads_before(
            #[trigger] result[j],
            #[trigger] result[i],
        ) by {
            if j < task_runs.len() {
                assert(!reads_before(task_runs[j], task_runs[i]));
            } else if i < task_runs.len() - 1 {
                assert(!reads_before(task_runs[task_runs.len() - 1], task_runs[i]));
                lemma_reading_order(task_runs[i], task_runs.last(), next);
            }
        }
        assert forall|i: int| 0 <= i <= task_runs.len() implies (#[trigger] result[i]) == next
            || task_runs.contains(result[i]) by {
            if i < task_runs.len() {
                assert(task_runs[i] == result[i]);
            }
        }
    }
}

/// A timeline is read in order: by when the tasks started, those that never did come last,
/// and no task is lost or shown twice.
pub proof fn a_timeline_is_in_order(task_runs: Seq<TaskRun>)
    ensures
        is_in_reading_order(in_reading_order(task_runs)),
        in_reading_order(task_runs).to_multiset() == task_runs.to_multiset(),
    decreases task_runs.len(),
{
    broadcast use vstd::seq_lib::group_to_multiset_ensures;

    if task_runs.len() > 0 {
        let shorter = task_runs.drop_last();
        a_timeline_is_in_order(shorter);
        lemma_inserted_in_order(in_reading_order(shorter), task_runs.last());
        assert(task_runs =~= shorter.push(task_runs.last()));
    } else {
        assert(task_runs =~= Seq::empty());
    }
}

/// When the window of a run's timeline starts.
pub open spec fn window_start_of(job_run: JobRun) -> Timestamp {
    match job_run.started_at {
        Some(started_at) => started_at,
        None => job_run.created_at,
    }
}

/// When the window of a run's timeline ends.
pub open spec fn window_end_of(job_run: JobRun, now: Timestamp) -> Timestamp {
    match job_run.finished_at {
        Some(finished_at) => finished_at,
        None => now,
    }
}

/// How long the window of a run's timeline is, in milliseconds: never nothing.
pub open spec fn window_ms_of(job_run: JobRun, now: Timestamp) -> i64 {
    let ms = whole(window_end_of(job_run, now)@ - window_start_of(job_run)@, 1_000_000);
    if ms < 1 {
        1
    } else {
        ms as i64
    }
}

/// What a task run depends on, in a line, if it depends on anything. Names that spell nothing
/// count as none.
pub open spec fn dependencies_text(task_run: TaskRun) -> Option<Seq<char>> {
    let text = joined(texts(task_run.depends_on@), ", "@);
    if text.len() == 0 {
        None
    } else {
        Some(text)
    }
}

/// Which buttons a run offers.
#[derive(Clone, Copy, Debug, PartialEq, Eq, Structural)]
pub struct JobRunControls {
    pub deletable: bool,
    pub skippable: bool,
    pub stoppable: bool,
    pub rerunnable: bool,
}

/// Which buttons a run in a status offers. One that waits for its time can be deleted, which
/// gives its occurrence back, or skipped, which keeps it. One that is due or going can be
/// stopped. One that is over can be run again, unless its schedule writes it again anyway.
pub open spec fn controls_of(status: JobRunStatus) -> JobRunControls {
    JobRunControls {
        deletable: status is Scheduled,
        skippable: status is Scheduled,
        stoppable: status is Queued || status is Running,
        rerunnable: status.finished() && status.rerunnable(),
    }
}

/// Tells which buttons a run offers.
pub fn job_run_controls(status: JobRunStatus) -> (controls: JobRunControls)
    ensures
        controls == controls_of(status),
{
    JobRunControls {
        deletable: matches!(status, JobRunStatus::Scheduled),
        skippable: matches!(status, JobRunStatus::Scheduled),
        stoppable: matches!(status, JobRunStatus::Queued | JobRunStatus::Running),
        rerunnable: status.is_finished() && status.is_rerunnable(),
    }
}

/// No run can be both called off and run again, nor both stopped and deleted.
pub proof fn controls_exclude_each_other(status: JobRunStatus)
    ensures
        ({
            let controls = controls_of(status);
            &&& !(controls.rerunnable && (controls.stoppable || controls.deletable
                || controls.skippable))
            &&& !(controls.stoppable && (controls.deletable || controls.skippable))
        }),
{
}

/// What the page of a run is laid out from.
#[derive(Clone, Debug)]
pub struct JobRunPage {
    pub job_run: JobRunDisplay,
    pub lanes: Vec<Lane>,
    pub ticks: Vec<Tick>,
    pub task_count: String,
    /// Whether the page keeps asking for news.
    pub polling: bool,
    pub refresh_seconds: u32,
    pub controls: JobRunControls,
    /// Whether the run's name links to a job.
    pub job_exists: bool,
    pub theme: &'static str,
}

/// How long a run has taken, in words, if it has started.
pub open spec fn duration_of(job_run: JobRun, now: Timestamp) -> Option<Seq<char>> {
    match job_run.started_at {
        Some(started_at) => Some(
            duration_text(
                whole(window_end_of(job_run, now)@ - started_at@, 1_000_000_000),
            ),
        ),
        None => None,
    }
}

/// The view of a text that may be absent.
pub open spec fn optional(text: Option<String>) -> Option<Seq<char>> {
    match text {
        Some(text) => Some(text@),
        None => None,
    }
}

/// An instant in words, if it has come.
pub open spec fn instant_text(at: Option<Timestamp>) -> Option<Seq<char>> {
    match at {
        Some(at) => Some(timestamp_text(at@)),
        None => None,
    }
}

/// Whether a page shows a run.
pub open spec fn displays(display: JobRunDisplay, job_run: JobRun, now: Timestamp) -> bool {
    &&& display.id == job_run.id
    &&& display.job_id == job_run.job_id
    &&& display.job_name == job_run.job_name
    &&& display.job_description == job_run.job_description
    &&& display.status == job_run.status
    &&& display.status_word@ == job_run.status.called()
    &&& display.created_at@ == timestamp_text(job_run.created_at@)
    &&& optional(display.scheduled_at) == instant_text(job_run.scheduled_at)
    &&& display.parameters == job_run.parameters
    &&& optional(display.started_at) == instant_text(job_run.started_at)
    &&& optional(display.finished_at) == instant_text(job_run.finished_at)
    &&& optional(display.duration) == duration_of(job_run, now)
}

fn build_lanes(
    task_runs: Vec<TaskRun>,
    window_start: &Timestamp,
    window_end: &Timestamp,
    window_ms: i64,
) -> (lanes: Vec<Lane>)
    requires
        window_ms >= 1,
    ensures
        lanes@.len() == task_runs@.len(),
        forall|i: int|
            0 <= i < lanes@.len() ==> {
                let lane = #[trigger] lanes@[i];
                &&& shows(
                    lane,
                    task_runs@[i],
                    lane.depends_on,
                    *window_start,
                    *window_end,
                    window_ms,
                )
                &&& optional(lane.depends_on) == dependencies_text(task_runs@[i])
            },
{
    let mut lanes: Vec<Lane> = Vec::new();
    let mut rest = task_runs;
    let ghost all = task_runs@;
    while rest.len() > 0
        invariant
            window_ms >= 1,
            lanes@.len() + rest@.len() == all.len(),
            rest@ == all.skip(lanes@.len() as int),
            forall|i: int|
                0 <= i < lanes@.len() ==> {
                    let lane = #[trigger] lanes@[i];
                    &&& shows(
                        lane,
                        all[i],
                        lane.depends_on,
                        *window_start,
                        *window_end,
                        window_ms,
                    )
                    &&& optional(lane.depends_on) == dependencies_text(all[i])
                },
        decreases rest.len(),
    {
        let task_run = rest.remove(0);
        let text = join(&task_run.depends_on, ", ");
        let depends_on = if text.as_str().unicode_len() == 0 {
            None
        } else {
            Some(text)
        };
        assert(optional(depends_on) == dependencies_text(task_run));
        lanes.push(build_lane(task_run, depends_on, window_start, window_end, window_ms));
        assert(rest@ =~= all.skip(lanes@.len() as int));
    }
    lanes
}

/// Lays out the page of a run.
///
/// `job` is the job of the run, if it is installed: a run can outlive its job, and one that was
/// submitted from a file never had one.
pub fn job_run_page(
    job_run: JobRun,
    job: Option<&JobSummary>,
    task_runs: Vec<TaskRun>,
    ui: &AppConfigUi,
    now: &Timestamp,
) -> (page: JobRunPage)
    ensures
        displays(page.job_run, job_run, *now),
        page.lanes@.len() == in_reading_order(task_runs@).len(),
        forall|i: int|
            0 <= i < page.lanes@.len() ==> {
                let lane = #[trigger] page.lanes@[i];
                let task_run = in_reading_order(task_runs@)[i];
                &&& shows(
                    lane,
                    task_run,
                    lane.depends_on,
                    window_start_of(job_run),
                    window_end_of(job_run, *now),
                    window_ms_of(job_run, *now),
                )
                &&& optional(lane.depends_on) == dependencies_text(task_run)
            },
        ({
            let seconds = window_ms_of(job_run, *now) as int / 1000;
            &&& page.ticks@.len() == axis_steps(seconds) + 1
            &&& forall|i: int|
                0 <= i < page.ticks@.len() ==> {
                    let tick = #[trigger] page.ticks@[i];
                    &&& tick.at_pct == i * 100 / axis_steps(seconds)
                    &&& tick.label@ == duration_text(seconds * i / axis_steps(seconds))
                }
        }),
        page.task_count@ == counted_text(page.lanes@.len(), "task"@),
        page.polling == (job_run.status is Scheduled || job_run.status is Queued
            || job_run.status is Running),
        page.refresh_seconds == ui.refresh_interval_seconds,
        page.controls == controls_of(job_run.status),
        page.job_exists == job is Some,
        page.theme@ == ui.theme.called(),
{
    let sorted = sort_task_runs(task_runs);
    let window_start: Timestamp = match job_run.started_at {
        Some(started_at) => started_at,
        None => job_run.created_at,
    };
    let window_end: Timestamp = match job_run.finished_at {
        Some(finished_at) => finished_at,
        None => *now,
    };
    let spent_ms: i64 = window_end.millis_since(&window_start);
    let window_ms: i64 = if spent_ms < 1 {
        1
    } else {
        spent_ms
    };
    let window_seconds: i64 = window_ms / 1000;
    let lanes = build_lanes(sorted, &window_start, &window_end, window_ms);
    let task_count = counted(lanes.len(), "task");
    let lasted = match &job_run.started_at {
        Some(started_at) => Some(duration(window_end.seconds_since(started_at))),
        None => None,
    };
    let status = job_run.status;
    JobRunPage {
        job_run: JobRunDisplay {
            id: job_run.id,
            job_id: job_run.job_id,
            job_name: job_run.job_name,
            job_description: job_run.job_description,
            status,
            status_word: status.word(),
            created_at: timestamp(&job_run.created_at),
            scheduled_at: optional_timestamp(&job_run.scheduled_at),
            parameters: job_run.parameters,
            started_at: optional_timestamp(&job_run.started_at),
            finished_at: optional_timestamp(&job_run.finished_at),
            duration: lasted,
        },
        lanes,
        ticks: build_ticks(window_seconds),
        task_count,
        polling: matches!(
            status,
            JobRunStatus::Scheduled | JobRunStatus::Queued | JobRunStatus::Running
        ),
        refresh_seconds: ui.refresh_interval_seconds,
        controls: job_run_controls(status),
        job_exists: job.is_some(),
        theme: ui.theme.as_attribute(),
    }
}

/// The address of a run's page.
pub fn job_run_href(job_run_id: i64) -> (href: String)
    ensures
        href@ == "/job-runs/"@ + signed_decimal(job_run_id as int),
{
    let mut href = "/job-runs/".to_owned();
    href.append(decimal_i64(job_run_id).as_str());
    href
}

/// What is done about a button that was pressed on a run's page.
#[derive(Clone, Copy, Debug, PartialEq, Eq, Structural)]
pub enum ButtonStep {
    /// There is no such run.
    NotFound,
    /// The page was stale: it is shown again, and nothing is done.
    ShowAgain,
    /// It is done.
    Proceed,
}

/// Decides about a stop. One of a run that is over would never be read, so none is written.
pub fn stop_step(job_run: Option<&JobRun>) -> (step: ButtonStep)
    ensures
        step == (match job_run {
            None => ButtonStep::NotFound,
            Some(job_run) => if job_run.status.finished() {
                ButtonStep::ShowAgain
            } else {
                ButtonStep::Proceed
            },
        }),
{
    match job_run {
        None => ButtonStep::NotFound,
        Some(job_run) => if job_run.status.is_finished() {
            ButtonStep::ShowAgain
        } else {
            ButtonStep::Proceed
        },
    }
}

/// Decides about a rerun.
pub fn rerun_step(job_run: Option<&JobRun>) -> (step: ButtonStep)
    ensures
        step == (match job_run {
            None => ButtonStep::NotFound,
            Some(job_run) => if job_run.status.rerunnable() {
                ButtonStep::Proceed
            } else {
                ButtonStep::ShowAgain
            },
        }),
{
    match job_run {
        None => ButtonStep::NotFound,
        Some(job_run) => if job_run.status.is_rerunnable() {
            ButtonStep::Proceed
        } else {
            ButtonStep::ShowAgain
        },
    }
}

/// Decides about a delete: only a run that waits for its time is deleted.
pub fn delete_step(job_run: Option<&JobRun>) -> (step: ButtonStep)
    ensures
        step == (if job_run matches Some(job_run) && job_run.status is Scheduled {
            ButtonStep::Proceed
        } else {
            ButtonStep::ShowAgain
        }),
{
    match job_run {
        None => ButtonStep::ShowAgain,
        Some(job_run) => if matches!(job_run.status, JobRunStatus::Scheduled) {
            ButtonStep::Proceed
        } else {
            ButtonStep::ShowAgain
        },
    }
}

/// Only how far a bar lies behind the start of its window, and how long it is, count for where
/// it is drawn: moving everything by the same amount moves nothing on the page.
pub proof fn only_distances_count_on_a_timeline(
    started_at: Timestamp,
    finished_at: Timestamp,
    window_start: Timestamp,
    moved_start: Timestamp,
    moved_end: Timestamp,
    moved_window: Timestamp,
    window_ms: i64,
)
    requires
        started_at@ - window_start@ == moved_start@ - moved_window@,
        finished_at@ - started_at@ == moved_end@ - moved_start@,
    ensures
        start_of(started_at, window_start, window_ms) == start_of(
            moved_start,
            moved_window,
            window_ms,
        ),
        span_of(started_at, finished_at, window_start, window_ms) == span_of(
            moved_start,
            moved_end,
            moved_window,
            window_ms,
        ),
{
}

/// A task that ran from the start of the window to its end fills the track; one that started
/// with the window starts at the left; and one that took no time takes no room.
pub proof fn a_whole_run_fills_its_track(
    window_start: Timestamp,
    window_end: Timestamp,
    window_ms: i64,
)
    requires
        window_ms >= 1,
    ensures
        start_of(window_start, window_start, window_ms) == 0,
        span_of(window_start, window_start, window_start, window_ms) == 0,
        whole(window_end@ - window_start@, 1_000_000) == window_ms ==> span_of(
            window_start,
            window_end,
            window_start,
            window_ms,
        ) == 100 && start_of(window_end, window_start, window_ms) == 100,
{
    let w = window_ms as int;
    assert(0int / w == 0) by (nonlinear_arith)
        requires
            w >= 1,
    ;
    assert((w * 100) / w == 100) by (nonlinear_arith)
        requires
            w >= 1,
    ;
}

/// A task that starts later is drawn no further to the left.
pub proof fn a_later_start_is_drawn_further_right(
    earlier: Timestamp,
    later: Timestamp,
    window_start: Timestamp,
    window_ms: i64,
)
    requires
        window_ms >= 1,
        window_start@ <= earlier@ <= later@,
    ensures
        start_of(earlier, window_start, window_ms) <= start_of(later, window_start, window_ms),
{
    let a = (earlier@ - window_start@) / 1_000_000;
    let b = (later@ - window_start@) / 1_000_000;
    let w = window_ms as int;
    assert((a * 100) / w <= (b * 100) / w) by (nonlinear_arith)
        requires
            0 <= a <= b,
            w >= 1,
    ;
}

/// The axis of a timeline begins at its left end with nothing and ends at its right end with
/// the whole window, and its marks stand in order between.
pub proof fn an_axis_spans_the_window(window_seconds: int, i: int, j: int)
    requires
        window_seconds >= 0,
        0 <= i <= j <= axis_steps(window_seconds),
    ensures
        ({
            let steps = axis_steps(window_seconds);
            &&& 0int * 100 / steps == 0 && window_seconds * 0 / steps == 0
            &&& steps * 100 / steps == 100 && window_seconds * steps / steps == window_seconds
            &&& i * 100 / steps <= j * 100 / steps
            &&& window_seconds * i / steps <= window_seconds * j / steps
            &&& window_seconds >= 4 && i < j ==> window_seconds * i / steps < window_seconds * j
                / steps
        }),
{
    assert(window_seconds * i <= window_seconds * j) by (nonlinear_arith)
        requires
            window_seconds >= 0,
            i <= j,
    ;
    if window_seconds >= 4 && i < j {
        assert(window_seconds * i + 4 <= window_seconds * j) by (nonlinear_arith)
            requires
                window_seconds >= 4,
                i < j,
        ;
    }
}

/// The window of a timeline runs from the start of its run, or from its submission where it
/// has not started, to its end, or to now; and is never shorter than a millisecond.
pub proof fn a_window_runs_from_start_to_end(job_run: JobRun, now: Timestamp, ms: int)
    requires
        1 <= ms <= i64::MAX,
    ensures
        job_run.started_at matches Some(at) ==> window_start_of(job_run) == at,
        job_run.started_at is None ==> window_start_of(job_run) == job_run.created_at,
        job_run.finished_at matches Some(at) ==> window_end_of(job_run, now) == at,
        job_run.finished_at is None ==> window_end_of(job_run, now) == now,
        ({
            let spent = window_end_of(job_run, now)@ - window_start_of(job_run)@;
            &&& ms * 1_000_000 <= spent < (ms + 1) * 1_000_000 ==> window_ms_of(job_run, now) == ms
            &&& spent < 1_000_000 ==> window_ms_of(job_run, now) == 1
        }),
{
}

/// A task that started is read before one that started later and before one that never did;
/// of two that started together, or never did, the one whose name comes first is.
pub proof fn an_earlier_start_is_read_first(a: TaskRun, b: TaskRun)
    ensures
        a.started_at is Some && b.started_at is Some && a.started_at->0@ < b.started_at->0@
            ==> reads_before(a, b) && !reads_before(b, a),
        a.started_at is Some && b.started_at is None ==> reads_before(a, b) && !reads_before(b, a),
        (a.started_at is None && b.started_at is None) || (a.started_at is Some
            && b.started_at is Some && a.started_at->0@ == b.started_at->0@) ==> (reads_before(a, b)
            <==> precedes(a.task_id@, b.task_id@)),
{
}

/// A task run is put behind every one that is not read after it, and so behind those it ties
/// with, and before every one that is; the others stay in their order.
pub proof fn those_that_tie_stay_in_order(task_runs: Seq<TaskRun>, next: TaskRun) -> (at: int)
    ensures
        0 <= at <= task_runs.len(),
        inserted(task_runs, next) == task_runs.take(at).push(next) + task_runs.skip(at),
        at == 0 || !reads_before(next, task_runs[at - 1]),
        forall|i: int| at <= i < task_runs.len() ==> reads_before(next, #[trigger] task_runs[i]),
    decreases task_runs.len(),
{
    if task_runs.len() > 0 && reads_before(next, task_runs.last()) {
        let shorter = task_runs.drop_last();
        let last = task_runs.last();
        let at = those_that_tie_stay_in_order(shorter, next);
        assert forall|i: int| at <= i < task_runs.len() implies reads_before(
            next,
            #[trigger] task_runs[i],
        ) by {
            if i < shorter.len() {
                assert(shorter[i] == task_runs[i]);
            }
        }
        if at > 0 {
            assert(shorter[at - 1] == task_runs[at - 1]);
        }
        assert(shorter.take(at) =~= task_runs.take(at));
        assert(shorter.skip(at).push(last) =~= task_runs.skip(at));
        assert(inserted(task_runs, next) =~= task_runs.take(at).push(next) + task_runs.skip(at));
        at
    } else {
        let at = task_runs.len() as int;
        assert(inserted(task_runs, next) =~= task_runs.take(at).push(next) + task_runs.skip(at));
        at
    }
}

/// A run offers its buttons exactly where they do something: deleting and skipping while it
/// waits for its time, stopping while it is due or going, and running again once it is over
/// and was not deleted.
pub proof fn buttons_are_offered_where_they_act(status: JobRunStatus)
    ensures
        controls_of(status).deletable <==> status is Scheduled,
        controls_of(status).skippable <==> status is Scheduled,
        controls_of(status).stoppable <==> (status is Queued || status is Running),
        controls_of(status).rerunnable <==> (status is Succeeded || status is Failed
            || status is Skipped || status is Aborted || status is TimedOut || status is Invalid),
{
}

/// What a task depends on is named in a line, in the order it declares them; nothing is named
/// where it depends on nothing.
pub proof fn dependencies_are_named_in_order(task_run: TaskRun)
    ensures
        task_run.depends_on@.len() == 0 ==> dependencies_text(task_run) is None,
        dependencies_text(task_run) matches Some(text) ==> text.len() > 0 && text == joined(
            texts(task_run.depends_on@),
            ", "@,
        ),
        task_run.depends_on@.len() == 1 && task_run.depends_on@[0]@.len() > 0 ==> dependencies_text(
            task_run,
        ) == Some(task_run.depends_on@[0]@),
{
}

/// A button acts only on a run that is there and stands where the button does something: a
/// stop on one that is not over, a rerun on one that was not deleted, a delete on one that
/// waits for its time.
pub proof fn a_button_acts_only_where_it_may(
    job_run: JobRun,
    stop: ButtonStep,
    rerun: ButtonStep,
    delete: ButtonStep,
)
    requires
        call_ensures(stop_step, (Some(&job_run),), stop),
        call_ensures(rerun_step, (Some(&job_run),), rerun),
        call_ensures(delete_step, (Some(&job_run),), delete),
    ensures
        stop is Proceed <==> (job_run.status is Scheduled || job_run.status is Queued
            || job_run.status is Running),
        rerun is Proceed <==> !(job_run.status is Deleted),
        delete is Proceed <==> job_run.status is Scheduled,
        !(stop is NotFound) && !(rerun is NotFound) && !(delete is NotFound),
{
}

/// The axis of a window of four seconds or more is divided into four, and that of a shorter
/// one is not divided.
pub proof fn an_axis_is_divided_from_four_seconds_on(window_seconds: int)
    ensures
        axis_steps(window_seconds) == 4 <==> window_seconds >= 4,
        axis_steps(window_seconds) == 1 <==> window_seconds < 4,
{
}

/// A lane shows its own task: where and how long it ran once it has started, up to its end or
/// the end of the window; and before that no bar, and why there is none.
pub proof fn a_lane_shows_its_own_task(
    task_run: TaskRun,
    depends_on: Option<String>,
    window_start: Timestamp,
    window_end: Timestamp,
    window_ms: i64,
    lane: Lane,
)
    requires
        window_ms >= 1,
        call_ensures(
            build_lane,
            (task_run, depends_on, &window_start, &window_end, window_ms),
            lane,
        ),
    ensures
        lane.task_run_id == task_run.id,
        lane.task_id == task_run.task_id,
        lane.status == task_run.status,
        lane.depends_on == depends_on,
        lane.started <==> task_run.started_at is Some,
        !lane.started ==> lane.span_pct == 0 && lane.start_pct == 0 && lane.idle_label@
            == idle_text(task_run.status),
        lane.started ==> {
            let start = task_run.started_at->0;
            let end = if task_run.finished_at is Some {
                task_run.finished_at->0
            } else {
                window_end
            };
            &&& lane.start_pct == start_of(start, window_start, window_ms)
            &&& lane.span_pct == span_of(start, end, window_start, window_ms)
            &&& lane.duration@ == duration_text(whole(whole(end@ - start@, 1_000_000), 1000))
            &&& lane.idle_label@ == ""@
        },
{
}

/// The page of a run shows that run: its number, its job, how it stands and its times; it keeps
/// asking for news exactly while the run is not over, and has a lane for every task.
pub proof fn a_page_shows_its_own_run(
    job_run: JobRun,
    job: Option<&JobSummary>,
    task_runs: Vec<TaskRun>,
    ui: AppConfigUi,
    now: Timestamp,
    page: JobRunPage,
)
    requires
        call_ensures(job_run_page, (job_run, job, task_runs, &ui, &now), page),
    ensures
        page.job_run.id == job_run.id,
        page.job_run.job_id == job_run.job_id,
        page.job_run.job_name == job_run.job_name,
        page.job_run.job_description == job_run.job_description,
        page.job_run.status == job_run.status,
        page.job_run.status_word@ == job_run.status.called(),
        page.job_run.parameters == job_run.parameters,
        page.job_run.created_at@ == timestamp_text(job_run.created_at@),
        optional(page.job_run.scheduled_at) == instant_text(job_run.scheduled_at),
        optional(page.job_run.started_at) == instant_text(job_run.started_at),
        optional(page.job_run.finished_at) == instant_text(job_run.finished_at),
        job_run.started_at is Some ==> optional(page.job_run.duration) == Some(
            duration_text(
                whole(window_end_of(job_run, now)@ - job_run.started_at->0@, 1_000_000_000),
            ),
        ),
        job_run.started_at is None ==> page.job_run.duration is None,
        page.polling <==> !job_run.status.finished(),
        page.job_exists <==> job is Some,
        page.lanes@.len() == task_runs@.len(),
{
    a_timeline_is_in_order(task_runs@);
    broadcast use vstd::seq_lib::group_to_multiset_ensures;
    assert(in_reading_order(task_runs@).len() == task_runs@.len()) by {
        assert(in_reading_order(task_runs@).to_multiset().len() == task_runs@.to_multiset().len());
    }
}

/// A lane that is empty says why: that its task waits, was called off, or never started.
pub proof fn an_empty_lane_says_why(status: TaskRunStatus)
    ensures
        status is Planned || status is Waiting || status is Skipped || status is Aborted
            ==> idle_text(status) == status.called(),
        !(status is Planned || status is Waiting || status is Skipped || status is Aborted)
            ==> idle_text(status) == "never started"@,
{
}

} // verus!
