//! The table of runs on the home page, which is fetched again and again.
use crate::config::AppConfigUi;
use crate::format::{duration, duration_text, timestamp, timestamp_text};
use crate::models::JobRun;
use crate::router::home::{optional_text, runs_href, runs_link, HomeQuery, Pagination};
use crate::router::pages::rows_read;
use crate::status::JobRunStatus;
use crate::time::{whole, Timestamp};
use vstd::prelude::*;
use vstd::string::*;

verus! {

/// A run as the table shows it.
#[derive(Clone, Debug)]
pub struct JobRunDisplay {
    pub id: i64,
    pub job_id: String,
    pub job_name: String,
    pub status: JobRunStatus,
    /// Empty for a run that succeeded: its mark says so.
    pub status_word: &'static str,
    pub created_at: String,
    pub duration: String,
    /// How long it took, in hundredths of the slowest on the page.
    pub span_pct: i64,
}

/// How long a run has taken, in seconds, if it has started. One that is still going is
/// measured against now.
pub open spec fn seconds_taken(run: JobRun, now: Timestamp) -> Option<int> {
    match run.started_at {
        None => None,
        Some(started_at) => {
            let finished_at = match run.finished_at {
                Some(finished_at) => finished_at,
                None => now,
            };
            let seconds = whole(finished_at@ - started_at@, 1_000_000_000);
            Some(if seconds < 0 { 0 } else { seconds })
        },
    }
}

/// Tells how long a run has taken.
pub fn elapsed_seconds(run: &JobRun, now: &Timestamp) -> (r: Option<i64>)
    ensures
        match r {
            Some(seconds) => seconds_taken(*run, *now) == Some(seconds as int) && 0 <= seconds
                <= 20_000_000_000_000,
            None => seconds_taken(*run, *now) is None,
        },
{
    match &run.started_at {
        None => None,
        Some(started_at) => {
            let seconds: i64 = match &run.finished_at {
                Some(finished_at) => finished_at.seconds_since(started_at),
                None => now.seconds_since(started_at),
            };
            Some(
                if seconds < 0 {
                    0
                } else {
                    seconds
                },
            )
        },
    }
}

/// The longest that any of some runs has taken, in seconds.
pub open spec fn slowest(runs: Seq<JobRun>, now: Timestamp) -> int
    decreases runs.len(),
{
    if runs.len() == 0 {
        0
    } else {
        let before = slowest(runs.drop_last(), now);
        match seconds_taken(runs.last(), now) {
            Some(seconds) => if seconds > before {
                seconds
            } else {
                before
            },
            None => before,
        }
    }
}

fn slowest_seconds(runs: &Vec<JobRun>, now: &Timestamp) -> (seconds: i64)
    ensures
        seconds == slowest(runs@, *now),
        0 <= seconds <= 20_000_000_000_000,
{
    let mut most: i64 = 0;
    let mut i: usize = 0;
    assert(runs@.take(0) =~= Seq::empty());
    while i < runs.len()
        invariant
            i <= runs@.len(),
            most == slowest(runs@.take(i as int), *now),
            0 <= most <= 20_000_000_000_000,
        decreases runs.len() - i,
    {
        match elapsed_seconds(&runs[i], now) {
            Some(seconds) => if seconds > most {
                most = seconds;
            },
            None => {},
        }
        i = i + 1;
        assert(runs@.take(i as int).drop_last() =~= runs@.take(i - 1));
    }
    assert(runs@.take(i as int) =~= runs@);
    most
}

/// Whether a row of the table shows a run.
pub open spec fn shows(
    display: JobRunDisplay,
    run: JobRun,
    now: Timestamp,
    slowest_seconds: int,
) -> bool {
    &&& display.id == run.id
    &&& display.job_id@ == run.job_id@
    &&& display.job_name@ == run.job_name@
    &&& display.status == run.status
    &&& display.status_word@ == (if run.status is Succeeded {
        ""@
    } else {
        run.status.called()
    })
    &&& display.created_at@ == timestamp_text(run.created_at@)
    &&& match seconds_taken(run, now) {
        Some(seconds) => {
            &&& display.duration@ == duration_text(seconds)
            &&& display.span_pct == (if slowest_seconds > 0 {
                seconds * 100 / slowest_seconds
            } else {
                0
            })
        },
        None => display.duration@ == "\u{2014}"@ && display.span_pct == 0,
    }
}

fn display_job_run(run: &JobRun, now: &Timestamp, slowest_seconds: i64) -> (display: JobRunDisplay)
    requires
        0 <= slowest_seconds <= 20_000_000_000_000,
    ensures
        shows(display, *run, *now, slowest_seconds as int),
{
    let status_word: &'static str = match run.status {
        JobRunStatus::Succeeded => "",
        status => status.word(),
    };
    let seconds = elapsed_seconds(run, now);
    let lasted = match seconds {
        Some(seconds) => duration(seconds),
        None => "\u{2014}".to_owned(),
    };
    let span_pct: i64 = match seconds {
        Some(seconds) => if slowest_seconds > 0 {
            seconds * 100 / slowest_seconds
        } else {
            0
        },
        None => 0,
    };
    JobRunDisplay {
        id: run.id,
        job_id: run.job_id.as_str().to_owned(),
        job_name: run.job_name.as_str().to_owned(),
        status: run.status,
        status_word,
        created_at: timestamp(&run.created_at),
        duration: lasted,
        span_pct,
    }
}

/// Which rows to read for a page.
#[derive(Clone, Copy, Debug, PartialEq, Eq, Structural)]
pub struct JobRunWindow {
    /// One more than a page holds, which tells whether there is another.
    pub limit: i64,
    pub offset: i64,
}

/// Whether the rows of a page can be counted.
pub open spec fn is_countable(query: HomeQuery, ui: AppConfigUi) -> bool {
    &&& ui.max_page_size >= 1
    &&& (query.shown_page() - 1) * query.shown_page_size(ui) <= i64::MAX
    &&& query.shown_page() < usize::MAX
}

/// Tells which rows to read for a page.
pub fn job_run_window(query: &HomeQuery, ui: &AppConfigUi) -> (window: JobRunWindow)
    requires
        is_countable(*query, *ui),
    ensures
        window.limit == query.shown_page_size(*ui) + 1,
        window.offset == (query.shown_page() - 1) * query.shown_page_size(*ui),
{
    let page: usize = query.page();
    let page_size: usize = query.page_size(ui);
    let offset: u128 = (page as u128 - 1) * page_size as u128;
    JobRunWindow { limit: page_size as i64 + 1, offset: offset as i64 }
}

/// What the table is laid out from.
#[derive(Clone, Debug)]
pub struct JobRunTable {
    pub job_runs: Vec<JobRunDisplay>,
    pub pagination: Pagination,
    pub prev_href: Option<String>,
    pub next_href: Option<String>,
}

/// The rows that a page holds.
pub open spec fn first_rows<T>(rows: Seq<T>, page_size: usize) -> Seq<T> {
    if rows.len() > page_size {
        rows.take(page_size as int)
    } else {
        rows
    }
}

/// Lays out a page of the table from the rows of its window.
pub fn job_run_table(
    query: &HomeQuery,
    ui: &AppConfigUi,
    job_runs: Vec<JobRun>,
    now: &Timestamp,
) -> (table: JobRunTable)
    requires
        is_countable(*query, *ui),
    ensures
        ({
            let page = query.shown_page();
            let page_size = query.shown_page_size(*ui);
            let runs = first_rows(job_runs@, page_size);
            &&& table.job_runs@.len() == runs.len()
            &&& forall|i: int|
                0 <= i < runs.len() ==> shows(
                    #[trigger] table.job_runs@[i],
                    runs[i],
                    *now,
                    slowest(runs, *now),
                )
            &&& table.pagination.current_page == page
            &&& table.pagination.page_size == page_size
            &&& match table.pagination.filter_job_id {
                Some(job_id) => query.shown_job() == Some(job_id@),
                None => query.shown_job() is None,
            }
            &&& table.pagination.filter_status == query.filter_status
            &&& table.prev_href is Some <==> page > 1
            &&& table.prev_href matches Some(href) ==> href@ == runs_link(
                (page - 1) as usize,
                page_size,
                query.shown_job(),
                query.filter_status,
            )
            &&& table.next_href is Some <==> job_runs@.len() > page_size
            &&& table.next_href matches Some(href) ==> href@ == runs_link(
                (page + 1) as usize,
                page_size,
                query.shown_job(),
                query.filter_status,
            )
        }),
{
    let page: usize = query.page();
    let page_size: usize = query.page_size(ui);
    let filter_job_id = query.job_id();
    let has_next_page: bool = job_runs.len() > page_size;
    let mut runs = job_runs;
    if has_next_page {
        runs.truncate(page_size);
    }
    assert(runs@ =~= first_rows(job_runs@, page_size));
    let most: i64 = slowest_seconds(&runs, now);
    let mut displays: Vec<JobRunDisplay> = Vec::new();
    let mut i: usize = 0;
    while i < runs.len()
        invariant
            i <= runs@.len(),
            displays@.len() == i,
            most == slowest(runs@, *now),
            0 <= most <= 20_000_000_000_000,
            forall|j: int|
                0 <= j < i ==> shows(
                    #[trigger] displays@[j],
                    runs@[j],
                    *now,
                    slowest(runs@, *now),
                ),
        decreases runs.len() - i,
    {
        displays.push(display_job_run(&runs[i], now, most));
        i = i + 1;
    }
    let shown_job: Option<&str> = match &filter_job_id {
        Some(job_id) => Some(job_id.as_str()),
        None => None,
    };
    assert(optional_text(shown_job) == query.shown_job());
    let prev_href = if page > 1 {
        Some(runs_href(page - 1, page_size, shown_job, query.filter_status))
    } else {
        None
    };
    let next_href = if has_next_page {
        Some(runs_href(page + 1, page_size, shown_job, query.filter_status))
    } else {
        None
    };
    JobRunTable {
        job_runs: displays,
        pagination: Pagination {
            current_page: page,
            page_size,
            filter_job_id,
            filter_status: query.filter_status,
        },
        prev_href,
        next_href,
    }
}

/// A bar fills no more than its track: it takes between nothing and all of it.
pub proof fn a_bar_fits_its_track(runs: Seq<JobRun>, now: Timestamp, i: int)
    requires
        0 <= i < runs.len(),
    ensures
        seconds_taken(runs[i], now) matches Some(seconds) ==> 0 <= seconds <= slowest(runs, now)
            && (slowest(runs, now) > 0 ==> 0 <= seconds * 100 / slowest(runs, now) <= 100),
    decreases runs.len(),
{
    if i < runs.len() - 1 {
        a_bar_fits_its_track(runs.drop_last(), now, i);
        assert(runs.drop_last()[i] == runs[i]);
    }
    lemma_slowest_is_not_negative(runs.drop_last(), now);
    match seconds_taken(runs[i], now) {
        Some(seconds) => {
            let most = slowest(runs, now);
            if most > 0 {
                assert(0 <= seconds * 100 / most <= 100) by (nonlinear_arith)
                    requires
                        0 <= seconds <= most,
                        most > 0,
                ;
            }
        },
        None => {},
    }
}

proof fn lemma_slowest_is_not_negative(runs: Seq<JobRun>, now: Timestamp)
    ensures
        slowest(runs, now) >= 0,
    decreases runs.len(),
{
    if runs.len() > 0 {
        lemma_slowest_is_not_negative(runs.drop_last(), now);
    }
}

/// Only how far apart the start and the end of a run lie counts for how long it took: two that
/// lie equally far apart took equally long. One that is going is measured against now, and
/// none took less than nothing.
pub proof fn only_the_time_between_counts(
    run: JobRun,
    other: JobRun,
    now: Timestamp,
    later: Timestamp,
)
    requires
        run.started_at is Some,
        other.started_at is Some,
        (match run.finished_at {
            Some(at) => at@,
            None => now@,
        }) - run.started_at->0@ == (match other.finished_at {
            Some(at) => at@,
            None => later@,
        }) - other.started_at->0@,
    ensures
        seconds_taken(run, now) == seconds_taken(other, later),
        seconds_taken(run, now) matches Some(seconds) && seconds >= 0,
{
}

/// A run took as many whole seconds as lie between its start and its end, however long ago it
/// started; one that has not started has taken no time that could be shown.
pub proof fn a_run_took_the_seconds_between(run: JobRun, now: Timestamp, seconds: int)
    requires
        seconds >= 0,
    ensures
        run.started_at is None <==> seconds_taken(run, now) is None,
        run.started_at matches Some(started_at) ==> {
            let end = match run.finished_at {
                Some(at) => at@,
                None => now@,
            };
            seconds * 1_000_000_000 <= end - started_at@ < (seconds + 1) * 1_000_000_000
                ==> seconds_taken(run, now) == Some(seconds)
        },
{
}

/// The slowest run is one of them: none took longer, and some took as long, unless none has
/// taken any time at all.
pub proof fn the_slowest_is_one_of_them(runs: Seq<JobRun>, now: Timestamp, i: int)
    ensures
        0 <= i < runs.len() ==> (seconds_taken(runs[i], now) matches Some(seconds) ==> seconds
            <= slowest(runs, now)),
        slowest(runs, now) > 0 ==> exists|k: int|
            0 <= k < runs.len() && seconds_taken(#[trigger] runs[k], now) == Some(
                slowest(runs, now),
            ),
    decreases runs.len(),
{
    if runs.len() > 0 {
        let before = runs.drop_last();
        the_slowest_is_one_of_them(before, now, i);
        if 0 <= i < before.len() {
            assert(before[i] == runs[i]);
        }
        if slowest(runs, now) > 0 {
            if slowest(runs, now) == slowest(before, now) {
                let k = choose|k: int|
                    0 <= k < before.len() && seconds_taken(#[trigger] before[k], now) == Some(
                        slowest(before, now),
                    );
                assert(runs[k] == before[k]);
            } else {
                assert(seconds_taken(runs[runs.len() - 1], now) == Some(slowest(runs, now)));
            }
        }
    }
}

/// Of the rows that are read for a page of the table, the page shows exactly its part of all
/// the runs, and one is left over exactly if there are more behind that part.
pub proof fn a_table_shows_its_part<T>(all: Seq<T>, query: HomeQuery, ui: AppConfigUi)
    requires
        ui.max_page_size >= 1,
    ensures
        ({
            let page_size = query.shown_page_size(ui);
            let offset = (query.shown_page() - 1) * page_size;
            let read = rows_read(all, offset, page_size + 1);
            &&& first_rows(read, page_size) == rows_read(all, offset, page_size as int)
            &&& read.len() > page_size <==> all.len() > query.shown_page() * page_size
        }),
{
    let page_size = query.shown_page_size(ui);
    let shown = query.shown_page();
    let offset = (shown - 1) * page_size;
    assert(offset >= 0 && shown * page_size == offset + page_size) by (nonlinear_arith)
        requires
            shown >= 1,
            offset == (shown - 1) * page_size,
    ;
    let read = rows_read(all, offset, page_size + 1);
    assert(first_rows(read, page_size) =~= rows_read(all, offset, page_size as int));
}

/// A row of the table shows the run that stands in its place: its number, its job, how it
/// stands, when it was submitted and how long it took; its status is spelled out unless it
/// succeeded, and its bar is as long, against the slowest on the page, as it took.
pub proof fn a_row_shows_its_own_run(
    query: HomeQuery,
    ui: AppConfigUi,
    job_runs: Vec<JobRun>,
    now: Timestamp,
    table: JobRunTable,
    i: int,
)
    requires
        is_countable(query, ui),
        call_ensures(job_run_table, (&query, &ui, job_runs, &now), table),
        0 <= i < table.job_runs@.len(),
    ensures
        ({
            let row = table.job_runs@[i];
            let run = job_runs@[i];
            let most = slowest(first_rows(job_runs@, query.shown_page_size(ui)), now);
            &&& i < query.shown_page_size(ui)
            &&& row.id == run.id
            &&& row.job_id@ == run.job_id@
            &&& row.job_name@ == run.job_name@
            &&& row.status == run.status
            &&& row.created_at@ == timestamp_text(run.created_at@)
            &&& run.status is Succeeded ==> row.status_word@ == ""@
            &&& !(run.status is Succeeded) ==> row.status_word@ == run.status.called()
            &&& seconds_taken(run, now) matches Some(seconds) ==> row.duration@ == duration_text(
                seconds,
            ) && (most > 0 ==> row.span_pct == seconds * 100 / most)
            &&& seconds_taken(run, now) is None ==> row.span_pct == 0
        }),
{
    let runs = first_rows(job_runs@, query.shown_page_size(ui));
    assert(shows(table.job_runs@[i], runs[i], now, slowest(runs, now)));
    assert(runs[i] == job_runs@[i]);
}

/// The table links back from every page but the first, and on exactly where a row was read
/// that the page does not hold; both links keep its size and its filters.
pub proof fn a_table_links_to_its_neighbours(
    query: HomeQuery,
    ui: AppConfigUi,
    job_runs: Vec<JobRun>,
    now: Timestamp,
    table: JobRunTable,
    before: usize,
    after: usize,
)
    requires
        is_countable(query, ui),
        before + 1 == query.shown_page(),
        after == query.shown_page() + 1,
        call_ensures(job_run_table, (&query, &ui, job_runs, &now), table),
    ensures
        table.prev_href is Some <==> before >= 1,
        table.prev_href is Some ==> table.prev_href->0@ == runs_link(
            before,
            query.shown_page_size(ui),
            query.shown_job(),
            query.filter_status,
        ),
        table.next_href is Some <==> job_runs@.len() > query.shown_page_size(ui),
        table.next_href is Some ==> table.next_href->0@ == runs_link(
            after,
            query.shown_page_size(ui),
            query.shown_job(),
            query.filter_status,
        ),
{
}

/// The rows of a page of the table are read from behind those of the pages before it, with one
/// more than the page holds.
pub proof fn a_window_starts_behind_the_pages_before(
    query: HomeQuery,
    ui: AppConfigUi,
    window: JobRunWindow,
)
    requires
        is_countable(query, ui),
        call_ensures(job_run_window, (&query, &ui), window),
    ensures
        window.offset + query.shown_page_size(ui) == query.shown_page() * query.shown_page_size(ui),
        window.limit == query.shown_page_size(ui) + 1,
{
    let page = query.shown_page();
    let size = query.shown_page_size(ui);
    assert((page - 1) * size + size == page * size) by (nonlinear_arith);
}

} // verus!
