//! Which finished runs are deleted, so that a long-lived data directory does not fill the
//! disk: those past the newest that each job keeps, and then the oldest past the most that
//! are kept in all.
use crate::config::AppConfigRetention;
use crate::limits::{a_count_is_the_first_of_its_name, count, count_of};
use crate::status::JobRunStatus;
use crate::text::same;
use vstd::prelude::*;

verus! {

/// What the rules read of a run.
#[derive(Clone, Debug)]
pub struct RetentionRow {
    pub id: i64,
    pub job_id: String,
    pub status: JobRunStatus,
    /// Whether a notification of it is still to be delivered.
    pub owes_notification: bool,
}

/// Whether nothing needs a run any more: it is finished, and everybody who was to hear of it
/// has.
pub open spec fn deletable(row: RetentionRow) -> bool {
    row.status.finished() && !row.owes_notification
}

/// The runs that nothing needs any more, in the order of the rows; of one job if it is
/// named.
pub open spec fn deletable_ids(rows: Seq<RetentionRow>, job_id: Option<Seq<char>>) -> Seq<i64>
    decreases rows.len(),
{
    if rows.len() == 0 {
        Seq::empty()
    } else {
        let before = deletable_ids(rows.drop_last(), job_id);
        if deletable(rows.last()) && (job_id matches Some(job_id) ==> rows.last().job_id@
            == job_id) {
            before.push(rows.last().id)
        } else {
            before
        }
    }
}

/// How many runs are finished.
pub open spec fn finished_count(rows: Seq<RetentionRow>) -> nat
    decreases rows.len(),
{
    if rows.len() == 0 {
        0
    } else {
        finished_count(rows.drop_last()) + (if rows.last().status.finished() {
            1nat
        } else {
            0
        })
    }
}

/// The jobs that have finished runs, each once.
pub open spec fn finished_jobs(rows: Seq<RetentionRow>) -> Seq<Seq<char>>
    decreases rows.len(),
{
    if rows.len() == 0 {
        Seq::empty()
    } else {
        let before = finished_jobs(rows.drop_last());
        if rows.last().status.finished() && !before.contains(rows.last().job_id@) {
            before.push(rows.last().job_id@)
        } else {
            before
        }
    }
}

/// How many more runs a pass may delete; `None` is as many as there are.
pub open spec fn budget_left(budget: u32, selected_so_far: nat) -> Option<nat> {
    if budget == 0 {
        None
    } else if selected_so_far >= budget {
        Some(0)
    } else {
        Some((budget - selected_so_far) as nat)
    }
}

/// Tells how many more runs a pass may delete. A budget of 0 is no budget.
pub fn remaining_budget(budget: u32, selected_so_far: usize) -> (r: Option<u32>)
    ensures
        match budget_left(budget, selected_so_far as nat) {
            None => r is None,
            Some(n) => r matches Some(left) && left == n,
        },
{
    if budget == 0 {
        None
    } else if selected_so_far >= budget as usize {
        Some(0)
    } else {
        Some(budget - selected_so_far as u32)
    }
}

/// The first of some runs, as many as may be deleted.
pub open spec fn capped(ids: Seq<i64>, most: Option<nat>) -> Seq<i64> {
    match most {
        Some(n) => if n < ids.len() {
            ids.take(n as int)
        } else {
            ids
        },
        None => ids,
    }
}

/// How many runs a job keeps: as many as its own definition says, or as the default does
/// where there is no definition any more.
pub open spec fn keep_runs_of(jobs: Seq<(String, u32)>, default_keep_runs: u32, job_id: Seq<char>) -> u32 {
    match count_of(jobs, job_id) {
        Some(keep_runs) => keep_runs,
        None => default_keep_runs,
    }
}

/// The runs of a job past the newest that it keeps, oldest first. One that keeps 0 keeps all.
pub open spec fn past_keep_runs(rows: Seq<RetentionRow>, job_id: Seq<char>, keep_runs: u32) -> Seq<
    i64,
> {
    let ids = deletable_ids(rows, Some(job_id));
    if keep_runs == 0 || ids.len() <= keep_runs {
        Seq::empty()
    } else {
        ids.take(ids.len() - keep_runs)
    }
}

/// The runs past the newest that each job keeps, within a budget, job after job.
pub open spec fn per_job_selection(
    rows: Seq<RetentionRow>,
    job_ids: Seq<Seq<char>>,
    jobs: Seq<(String, u32)>,
    default_keep_runs: u32,
    budget: u32,
) -> Seq<i64>
    decreases job_ids.len(),
{
    if job_ids.len() == 0 {
        Seq::empty()
    } else {
        let before = per_job_selection(rows, job_ids.drop_last(), jobs, default_keep_runs, budget);
        before + capped(
            past_keep_runs(
                rows,
                job_ids.last(),
                keep_runs_of(jobs, default_keep_runs, job_ids.last()),
            ),
            budget_left(budget, before.len()),
        )
    }
}

/// How many finished runs there are past the most that are kept in all; a most of 0 is none.
pub open spec fn overflow_of(rows: Seq<RetentionRow>, keep_runs_total: u32) -> nat {
    if keep_runs_total == 0 || finished_count(rows) <= keep_runs_total {
        0
    } else {
        (finished_count(rows) - keep_runs_total) as nat
    }
}

/// The runs of a list that another does not hold.
pub open spec fn without(ids: Seq<i64>, others: Seq<i64>) -> Seq<i64>
    decreases ids.len(),
{
    if ids.len() == 0 {
        Seq::empty()
    } else if others.contains(ids.last()) {
        without(ids.drop_last(), others)
    } else {
        without(ids.drop_last(), others).push(ids.last())
    }
}

/// The oldest runs past the most that are kept in all, within what is left of the budget, and
/// without those that are selected already.
pub open spec fn overflow_selection(
    rows: Seq<RetentionRow>,
    keep_runs_total: u32,
    budget: u32,
    already_selected: Seq<i64>,
) -> Seq<i64> {
    without(
        capped(
            capped(deletable_ids(rows, None), Some(overflow_of(rows, keep_runs_total))),
            budget_left(budget, already_selected.len()),
        ),
        already_selected,
    )
}

/// All the runs that a pass deletes.
pub open spec fn selection(
    rows: Seq<RetentionRow>,
    jobs: Seq<(String, u32)>,
    default_keep_runs: u32,
    retention: AppConfigRetention,
) -> Seq<i64> {
    let per_job = per_job_selection(
        rows,
        finished_jobs(rows),
        jobs,
        default_keep_runs,
        retention.max_deletes_per_pass,
    );
    per_job + overflow_selection(
        rows,
        retention.keep_runs_total,
        retention.max_deletes_per_pass,
        per_job,
    )
}

fn select_deletable_job_runs(rows: &Vec<RetentionRow>, job_id: Option<&str>) -> (ids: Vec<i64>)
    ensures
        ids@ == deletable_ids(
            rows@,
            match job_id {
                Some(job_id) => Some(job_id@),
                None => None,
            },
        ),
{
    let ghost named: Option<Seq<char>> = match job_id {
        Some(job_id) => Some(job_id@),
        None => None,
    };
    let mut ids: Vec<i64> = Vec::new();
    let mut i: usize = 0;
    assert(rows@.take(0) =~= Seq::empty());
    while i < rows.len()
        invariant
            i <= rows@.len(),
            named == (match job_id {
                Some(job_id) => Some(job_id@),
                None => None::<Seq<char>>,
            }),
            ids@ == deletable_ids(rows@.take(i as int), named),
        decreases rows.len() - i,
    {
        let of_job: bool = match job_id {
            Some(job_id) => same(rows[i].job_id.as_str(), job_id),
            None => true,
        };
        if of_job && rows[i].status.is_finished() && !rows[i].owes_notification {
            ids.push(rows[i].id);
        }
        i = i + 1;
        assert(rows@.take(i as int).drop_last() =~= rows@.take(i - 1));
    }
    assert(rows@.take(i as int) =~= rows@);
    ids
}

fn count_finished_job_runs(rows: &Vec<RetentionRow>) -> (n: usize)
    ensures
        n == finished_count(rows@),
        n <= rows@.len(),
{
    let mut n: usize = 0;
    let mut i: usize = 0;
    assert(rows@.take(0) =~= Seq::empty());
    while i < rows.len()
        invariant
            n <= i <= rows@.len(),
            n == finished_count(rows@.take(i as int)),
        decreases rows.len() - i,
    {
        if rows[i].status.is_finished() {
            n = n + 1;
        }
        i = i + 1;
        assert(rows@.take(i as int).drop_last() =~= rows@.take(i - 1));
    }
    assert(rows@.take(i as int) =~= rows@);
    n
}

/// The names of rows by place.
pub open spec fn job_ids_at(rows: Seq<RetentionRow>, places: Seq<usize>) -> Seq<Seq<char>> {
    places.map_values(|place: usize| rows[place as int].job_id@)
}

/// Finds the jobs that have finished runs, each by the place of its first.
fn select_job_ids_with_finished_job_runs(rows: &Vec<RetentionRow>) -> (places: Vec<usize>)
    ensures
        forall|k: int| 0 <= k < places@.len() ==> #[trigger] places@[k] < rows@.len(),
        job_ids_at(rows@, places@) == finished_jobs(rows@),
{
    let mut places: Vec<usize> = Vec::new();
    let mut i: usize = 0;
    assert(rows@.take(0) =~= Seq::empty());
    assert(job_ids_at(rows@, places@) =~= Seq::empty());
    while i < rows.len()
        invariant
            i <= rows@.len(),
            forall|k: int| 0 <= k < places@.len() ==> #[trigger] places@[k] < rows@.len(),
            job_ids_at(rows@, places@) == finished_jobs(rows@.take(i as int)),
        decreases rows.len() - i,
    {
        let ghost before = job_ids_at(rows@, places@);
        if rows[i].status.is_finished() {
            let mut known: bool = false;
            let mut k: usize = 0;
            while k < places.len() && !known
                invariant
                    i < rows@.len(),
                    k <= places@.len(),
                    before == job_ids_at(rows@, places@),
                    forall|k: int| 0 <= k < places@.len() ==> #[trigger] places@[k] < rows@.len(),
                    known ==> before.contains(rows@[i as int].job_id@),
                    !known ==> forall|j: int|
                        0 <= j < k ==> #[trigger] before[j] != rows@[i as int].job_id@,
                decreases places.len() - k,
            {
                if same(rows[places[k]].job_id.as_str(), rows[i].job_id.as_str()) {
                    known = true;
                    assert(before[k as int] == rows@[i as int].job_id@);
                }
                k = k + 1;
            }
            if !known {
                places.push(i);
                assert(job_ids_at(rows@, places@) =~= before.push(rows@[i as int].job_id@));
            }
        }
        i = i + 1;
        assert(rows@.take(i as int).drop_last() =~= rows@.take(i - 1));
    }
    assert(rows@.take(i as int) =~= rows@);
    places
}

fn take_first(ids: &Vec<i64>, most: Option<usize>) -> (taken: Vec<i64>)
    ensures
        taken@ == capped(
            ids@,
            match most {
                Some(n) => Some(n as nat),
                None => None,
            },
        ),
{
    let n: usize = match most {
        Some(n) => if n < ids.len() {
            n
        } else {
            ids.len()
        },
        None => ids.len(),
    };
    let mut taken: Vec<i64> = Vec::new();
    let mut i: usize = 0;
    while i < n
        invariant
            i <= n <= ids@.len(),
            taken@ == ids@.take(i as int),
        decreases n - i,
    {
        taken.push(ids[i]);
        i = i + 1;
        assert(taken@ =~= ids@.take(i as int));
    }
    assert(ids@.take(ids@.len() as int) =~= ids@);
    taken
}

fn contains(ids: &Vec<i64>, id: i64) -> (b: bool)
    ensures
        b == ids@.contains(id),
{
    let mut i: usize = 0;
    while i < ids.len()
        invariant
            i <= ids@.len(),
            forall|j: int| 0 <= j < i ==> ids@[j] != id,
        decreases ids.len() - i,
    {
        if ids[i] == id {
            return true;
        }
        i = i + 1;
    }
    false
}

fn to_size(left: Option<u32>) -> (r: Option<usize>)
    ensures
        match left {
            Some(n) => r matches Some(m) && m == n,
            None => r is None,
        },
{
    match left {
        Some(n) => Some(n as usize),
        None => None,
    }
}

/// Selects the runs past the newest that each job keeps, one job at a time, oldest first, as
/// far as the budget goes. A job without a definition keeps as many as the default says: it
/// is not spared for having gone.
pub fn select_per_job_candidates(
    rows: &Vec<RetentionRow>,
    jobs: &Vec<(String, u32)>,
    default_keep_runs: u32,
    budget: u32,
) -> (ids: Vec<i64>)
    ensures
        ids@ == per_job_selection(rows@, finished_jobs(rows@), jobs@, default_keep_runs, budget),
{
    let places = select_job_ids_with_finished_job_runs(rows);
    let ghost job_ids = finished_jobs(rows@);
    let mut ids: Vec<i64> = Vec::new();
    let mut k: usize = 0;
    assert(job_ids.take(0) =~= Seq::empty());
    while k < places.len()
        invariant
            k <= places@.len(),
            places@.len() == job_ids.len(),
            job_ids == job_ids_at(rows@, places@),
            forall|k: int| 0 <= k < places@.len() ==> #[trigger] places@[k] < rows@.len(),
            ids@ == per_job_selection(
                rows@,
                job_ids.take(k as int),
                jobs@,
                default_keep_runs,
                budget,
            ),
        decreases places.len() - k,
    {
        let ghost before = ids@;
        let job_id = rows[places[k]].job_id.as_str();
        assert(job_id@ == job_ids[k as int]);
        let keep_runs: u32 = match count(jobs, job_id) {
            Some(keep_runs) => keep_runs,
            None => default_keep_runs,
        };
        let of_job = select_deletable_job_runs(rows, Some(job_id));
        let past = if keep_runs == 0 || of_job.len() <= keep_runs as usize {
            Vec::new()
        } else {
            take_first(&of_job, Some(of_job.len() - keep_runs as usize))
        };
        assert(past@ =~= past_keep_runs(rows@, job_id@, keep_runs));
        let left = to_size(remaining_budget(budget, ids.len()));
        let mut more = take_first(&past, left);
        ids.append(&mut more);
        k = k + 1;
        assert(job_ids.take(k as int).drop_last() =~= job_ids.take(k - 1));
    }
    assert(job_ids.take(k as int) =~= job_ids);
    ids
}

/// Selects the oldest runs past the most that are kept in all, as far as the budget goes.
///
/// How many those are does not count what is selected already as gone: too few is the safe
/// side, and a later pass counts again.
pub fn select_global_overflow_candidates(
    rows: &Vec<RetentionRow>,
    keep_runs_total: u32,
    budget: u32,
    already_selected: &Vec<i64>,
) -> (ids: Vec<i64>)
    ensures
        ids@ == overflow_selection(rows@, keep_runs_total, budget, already_selected@),
{
    let finished: usize = count_finished_job_runs(rows);
    let overflow: usize = if keep_runs_total == 0 || finished <= keep_runs_total as usize {
        0
    } else {
        finished - keep_runs_total as usize
    };
    let all = select_deletable_job_runs(rows, None);
    let oldest = take_first(&all, Some(overflow));
    let left = to_size(remaining_budget(budget, already_selected.len()));
    let candidates = take_first(&oldest, left);
    let mut ids: Vec<i64> = Vec::new();
    let mut i: usize = 0;
    assert(candidates@.take(0) =~= Seq::empty());
    while i < candidates.len()
        invariant
            i <= candidates@.len(),
            ids@ == without(candidates@.take(i as int), already_selected@),
        decreases candidates.len() - i,
    {
        if !contains(already_selected, candidates[i]) {
            ids.push(candidates[i]);
        }
        i = i + 1;
        assert(candidates@.take(i as int).drop_last() =~= candidates@.take(i - 1));
    }
    assert(candidates@.take(i as int) =~= candidates@);
    ids
}

/// Selects the runs that a pass deletes: those past what each job keeps, and then those past
/// what is kept in all. The rows are those of every run, oldest first.
pub fn select(
    rows: &Vec<RetentionRow>,
    jobs: &Vec<(String, u32)>,
    default_keep_runs: u32,
    retention: &AppConfigRetention,
) -> (ids: Vec<i64>)
    ensures
        ids@ == selection(rows@, jobs@, default_keep_runs, *retention),
{
    let budget: u32 = retention.max_deletes_per_pass;
    let mut ids = select_per_job_candidates(rows, jobs, default_keep_runs, budget);
    let mut more = select_global_overflow_candidates(
        rows,
        retention.keep_runs_total,
        budget,
        &ids,
    );
    ids.append(&mut more);
    ids
}

/// Whether no two rows are of the same run.
pub open spec fn ids_are_distinct(rows: Seq<RetentionRow>) -> bool {
    forall|i: int, j: int|
        0 <= i < j < rows.len() ==> (#[trigger] rows[i]).id != (#[trigger] rows[j]).id
}

/// Whether a run is one that nothing needs any more, of a job if it is named.
pub open spec fn may_go(rows: Seq<RetentionRow>, job_id: Option<Seq<char>>, id: i64) -> bool {
    exists|i: int|
        #![trigger rows[i]]
        0 <= i < rows.len() && rows[i].id == id && deletable(rows[i]) && (job_id matches Some(
            job_id,
        ) ==> rows[i].job_id@ == job_id)
}

proof fn lemma_deletable_ids_may_go(rows: Seq<RetentionRow>, job_id: Option<Seq<char>>, id: i64)
    requires
        deletable_ids(rows, job_id).contains(id),
    ensures
        may_go(rows, job_id, id),
    decreases rows.len(),
{
    let shorter = rows.drop_last();
    let ids = deletable_ids(rows, job_id);
    let k = choose|k: int| 0 <= k < ids.len() && ids[k] == id;
    if k < deletable_ids(shorter, job_id).len() {
        assert(deletable_ids(shorter, job_id)[k] == id);
        lemma_deletable_ids_may_go(shorter, job_id, id);
        let i = choose|i: int|
            #![trigger shorter[i]]
            0 <= i < shorter.len() && shorter[i].id == id && deletable(shorter[i]) && (
            job_id matches Some(job_id) ==> shorter[i].job_id@ == job_id);
        assert(rows[i] == shorter[i]);
    } else {
        assert(rows[rows.len() - 1] == rows.last());
    }
}

proof fn lemma_deletable_ids_are_distinct(rows: Seq<RetentionRow>, job_id: Option<Seq<char>>)
    requires
        ids_are_distinct(rows),
    ensures
        deletable_ids(rows, job_id).no_duplicates(),
    decreases rows.len(),
{
    if rows.len() > 0 {
        let shorter = rows.drop_last();
        assert forall|i: int, j: int| 0 <= i < j < shorter.len() implies (
        #[trigger] shorter[i]).id != (#[trigger] shorter[j]).id by {
            assert(rows[i].id != rows[j].id);
        }
        lemma_deletable_ids_are_distinct(shorter, job_id);
        let before = deletable_ids(shorter, job_id);
        if before.contains(rows.last().id) {
            lemma_deletable_ids_may_go(shorter, job_id, rows.last().id);
            let i = choose|i: int|
                #![trigger shorter[i]]
                0 <= i < shorter.len() && shorter[i].id == rows.last().id && deletable(shorter[i])
                    && (job_id matches Some(job_id) ==> shorter[i].job_id@ == job_id);
            assert(rows[i].id != rows[rows.len() - 1].id);
        }
        assert forall|i: int, j: int|
            0 <= i < j < deletable_ids(rows, job_id).len() implies deletable_ids(rows, job_id)[i]
            != deletable_ids(rows, job_id)[j] by {
            if j < before.len() {
                assert(before[i] != before[j]);
            } else {
                assert(before.contains(before[i]));
            }
        }
    }
}

proof fn lemma_jobs_share_no_run(rows: Seq<RetentionRow>, a: Seq<char>, b: Seq<char>, id: i64)
    requires
        ids_are_distinct(rows),
        may_go(rows, Some(a), id),
        may_go(rows, Some(b), id),
    ensures
        a == b,
{
    let i = choose|i: int|
        #![trigger rows[i]]
        0 <= i < rows.len() && rows[i].id == id && deletable(rows[i]) && rows[i].job_id@ == a;
    let j = choose|j: int|
        #![trigger rows[j]]
        0 <= j < rows.len() && rows[j].id == id && deletable(rows[j]) && rows[j].job_id@ == b;
    if i < j {
        assert(rows[i].id != rows[j].id);
    } else if j < i {
        assert(rows[j].id != rows[i].id);
    }
}

/// What one job adds to a pass.
pub open spec fn taken_of(
    rows: Seq<RetentionRow>,
    job_id: Seq<char>,
    keep_runs: u32,
    left: Option<nat>,
) -> Seq<i64> {
    capped(past_keep_runs(rows, job_id, keep_runs), left)
}

proof fn lemma_taken_are_the_first(
    rows: Seq<RetentionRow>,
    job_id: Seq<char>,
    keep_runs: u32,
    left: Option<nat>,
)
    ensures
        ({
            let ids = deletable_ids(rows, Some(job_id));
            let taken = taken_of(rows, job_id, keep_runs, left);
            &&& taken.len() <= ids.len()
            &&& taken =~= ids.take(taken.len() as int)
            &&& taken.len() == 0 || (keep_runs > 0 && taken.len() + keep_runs <= ids.len())
            &&& left matches Some(n) ==> taken.len() <= n
        }),
{
}

/// A run that each job's rule selects is one that nothing needs any more, of one of those
/// jobs.
proof fn lemma_per_job_may_go(
    rows: Seq<RetentionRow>,
    job_ids: Seq<Seq<char>>,
    jobs: Seq<(String, u32)>,
    default_keep_runs: u32,
    budget: u32,
    id: i64,
)
    requires
        per_job_selection(rows, job_ids, jobs, default_keep_runs, budget).contains(id),
    ensures
        exists|k: int| 0 <= k < job_ids.len() && may_go(rows, Some(#[trigger] job_ids[k]), id),
    decreases job_ids.len(),
{
    let shorter = job_ids.drop_last();
    let before = per_job_selection(rows, shorter, jobs, default_keep_runs, budget);
    let keep_runs = keep_runs_of(jobs, default_keep_runs, job_ids.last());
    let left = budget_left(budget, before.len());
    let taken = taken_of(rows, job_ids.last(), keep_runs, left);
    let all = before + taken;
    let at = choose|at: int| 0 <= at < all.len() && all[at] == id;
    if at < before.len() {
        assert(before[at] == id);
        lemma_per_job_may_go(rows, shorter, jobs, default_keep_runs, budget, id);
        let k = choose|k: int|
            0 <= k < shorter.len() && may_go(rows, Some(#[trigger] shorter[k]), id);
        assert(job_ids[k] == shorter[k]);
    } else {
        lemma_taken_are_the_first(rows, job_ids.last(), keep_runs, left);
        let ids = deletable_ids(rows, Some(job_ids.last()));
        assert(ids[at - before.len()] == id);
        lemma_deletable_ids_may_go(rows, Some(job_ids.last()), id);
        assert(may_go(rows, Some(job_ids[job_ids.len() - 1]), id));
    }
}

proof fn lemma_per_job_distinct(
    rows: Seq<RetentionRow>,
    job_ids: Seq<Seq<char>>,
    jobs: Seq<(String, u32)>,
    default_keep_runs: u32,
    budget: u32,
)
    requires
        ids_are_distinct(rows),
        job_ids.no_duplicates(),
    ensures
        per_job_selection(rows, job_ids, jobs, default_keep_runs, budget).no_duplicates(),
        budget > 0 ==> per_job_selection(rows, job_ids, jobs, default_keep_runs, budget).len()
            <= budget,
    decreases job_ids.len(),
{
    if job_ids.len() > 0 {
        let shorter = job_ids.drop_last();
        let last = job_ids.last();
        lemma_per_job_distinct(rows, shorter, jobs, default_keep_runs, budget);
        let before = per_job_selection(rows, shorter, jobs, default_keep_runs, budget);
        let keep_runs = keep_runs_of(jobs, default_keep_runs, last);
        let left = budget_left(budget, before.len());
        let taken = taken_of(rows, last, keep_runs, left);
        let ids = deletable_ids(rows, Some(last));
        lemma_taken_are_the_first(rows, last, keep_runs, left);
        lemma_deletable_ids_are_distinct(rows, Some(last));
        let all = before + taken;
        assert forall|i: int, j: int| 0 <= i < j < all.len() implies all[i] != all[j] by {
            if i < before.len() && j >= before.len() {
                if all[i] == all[j] {
                    assert(before.contains(before[i]));
                    lemma_per_job_may_go(rows, shorter, jobs, default_keep_runs, budget, all[i]);
                    let k = choose|k: int|
                        0 <= k < shorter.len() && may_go(rows, Some(#[trigger] shorter[k]), all[i]);
                    assert(ids[j - before.len()] == all[j]);
                    lemma_deletable_ids_may_go(rows, Some(last), all[j]);
                    lemma_jobs_share_no_run(rows, shorter[k], last, all[i]);
                    assert(job_ids[k] == job_ids[job_ids.len() - 1]);
                }
            } else if i >= before.len() {
                assert(ids[i - before.len()] != ids[j - before.len()]);
            } else {
                assert(before[i] != before[j]);
            }
        }
    }
}

proof fn lemma_finished_jobs_are_distinct(rows: Seq<RetentionRow>)
    ensures
        finished_jobs(rows).no_duplicates(),
    decreases rows.len(),
{
    if rows.len() > 0 {
        lemma_finished_jobs_are_distinct(rows.drop_last());
        let before = finished_jobs(rows.drop_last());
        assert forall|i: int, j: int|
            0 <= i < j < finished_jobs(rows).len() implies finished_jobs(rows)[i]
            != finished_jobs(rows)[j] by {
            if j < before.len() {
                assert(before[i] != before[j]);
            } else {
                assert(before.contains(before[i]));
            }
        }
    }
}

proof fn lemma_without(ids: Seq<i64>, others: Seq<i64>)
    ensures
        without(ids, others).len() <= ids.len(),
        forall|id: i64|
            #![trigger without(ids, others).contains(id)]
            without(ids, others).contains(id) <==> ids.contains(id) && !others.contains(id),
        ids.no_duplicates() ==> without(ids, others).no_duplicates(),
    decreases ids.len(),
{
    if ids.len() > 0 {
        let shorter = ids.drop_last();
        let rest = without(shorter, others);
        let all = without(ids, others);
        lemma_without(shorter, others);
        assert forall|id: i64| #[trigger] all.contains(id) implies ids.contains(id)
            && !others.contains(id) by {
            let at = choose|at: int| 0 <= at < all.len() && all[at] == id;
            if at < rest.len() {
                assert(rest[at] == id);
                assert(rest.contains(id));
                let k = choose|k: int| 0 <= k < shorter.len() && shorter[k] == id;
                assert(ids[k] == id);
            } else {
                assert(ids[ids.len() - 1] == id);
            }
        }
        assert forall|id: i64| ids.contains(id) && !others.contains(id) implies
            #[trigger] all.contains(id) by {
            let k = choose|k: int| 0 <= k < ids.len() && ids[k] == id;
            if k < shorter.len() {
                assert(shorter[k] == id);
                assert(rest.contains(id));
                let at = choose|at: int| 0 <= at < rest.len() && rest[at] == id;
                assert(all[at] == id);
            } else {
                assert(all[all.len() - 1] == id);
            }
        }
        if ids.no_duplicates() {
            assert forall|i: int, j: int|
                0 <= i < j < shorter.len() implies shorter[i] != shorter[j] by {
                assert(ids[i] != ids[j]);
            }
            assert forall|i: int, j: int| 0 <= i < j < all.len() implies all[i] != all[j] by {
                if j >= rest.len() {
                    assert(rest.contains(rest[i]));
                    let k = choose|k: int| 0 <= k < shorter.len() && shorter[k] == rest[i];
                    assert(ids[k] != ids[ids.len() - 1]);
                } else {
                    assert(rest[i] != rest[j]);
                }
            }
        }
    }
}

proof fn lemma_overflow(
    rows: Seq<RetentionRow>,
    keep_runs_total: u32,
    budget: u32,
    already_selected: Seq<i64>,
)
    ensures
        ({
            let ids = deletable_ids(rows, None);
            let selected = overflow_selection(rows, keep_runs_total, budget, already_selected);
            &&& selected.len() <= overflow_of(rows, keep_runs_total)
            &&& budget_left(budget, already_selected.len()) matches Some(n) ==> selected.len() <= n
            &&& forall|id: i64|
                #![trigger selected.contains(id)]
                selected.contains(id) ==> ids.contains(id) && !already_selected.contains(id)
            &&& ids.no_duplicates() ==> selected.no_duplicates()
        }),
{
    let ids = deletable_ids(rows, None);
    let candidates = capped(
        capped(ids, Some(overflow_of(rows, keep_runs_total))),
        budget_left(budget, already_selected.len()),
    );
    assert(candidates.len() <= ids.len());
    assert(candidates =~= ids.take(candidates.len() as int));
    lemma_without(candidates, already_selected);
    assert forall|id: i64| candidates.contains(id) implies #[trigger] ids.contains(id) by {
        let k = choose|k: int| 0 <= k < candidates.len() && candidates[k] == id;
        assert(ids[k] == id);
    }
    if ids.no_duplicates() {
        assert forall|i: int, j: int| 0 <= i < j < candidates.len() implies candidates[i]
            != candidates[j] by {
            assert(ids[i] != ids[j]);
        }
    }
}

/// Only a finished run that owes nobody a notification is ever deleted.
pub proof fn only_settled_runs_are_deleted(
    rows: Seq<RetentionRow>,
    jobs: Seq<(String, u32)>,
    default_keep_runs: u32,
    retention: AppConfigRetention,
    id: i64,
)
    requires
        selection(rows, jobs, default_keep_runs, retention).contains(id),
    ensures
        exists|i: int| 0 <= i < rows.len() && (#[trigger] rows[i]).id == id && deletable(rows[i]),
{
    let budget = retention.max_deletes_per_pass;
    let per_job = per_job_selection(rows, finished_jobs(rows), jobs, default_keep_runs, budget);
    let more = overflow_selection(rows, retention.keep_runs_total, budget, per_job);
    let at = choose|at: int| 0 <= at < (per_job + more).len() && (per_job + more)[at] == id;
    if at < per_job.len() {
        assert(per_job.contains(id));
        lemma_per_job_may_go(rows, finished_jobs(rows), jobs, default_keep_runs, budget, id);
        let k = choose|k: int|
            0 <= k < finished_jobs(rows).len() && may_go(
                rows,
                Some(#[trigger] finished_jobs(rows)[k]),
                id,
            );
        assert(may_go(rows, Some(finished_jobs(rows)[k]), id));
    } else {
        assert(more[at - per_job.len()] == id);
        assert(more.contains(id));
        lemma_overflow(rows, retention.keep_runs_total, budget, per_job);
        lemma_deletable_ids_may_go(rows, None, id);
        assert(may_go(rows, None, id));
    }
}

/// A pass deletes no run twice, and no more runs than its budget.
pub proof fn a_pass_keeps_to_its_budget(
    rows: Seq<RetentionRow>,
    jobs: Seq<(String, u32)>,
    default_keep_runs: u32,
    retention: AppConfigRetention,
)
    requires
        ids_are_distinct(rows),
    ensures
        selection(rows, jobs, default_keep_runs, retention).no_duplicates(),
        retention.max_deletes_per_pass > 0 ==> selection(
            rows,
            jobs,
            default_keep_runs,
            retention,
        ).len() <= retention.max_deletes_per_pass,
{
    let budget = retention.max_deletes_per_pass;
    let per_job = per_job_selection(rows, finished_jobs(rows), jobs, default_keep_runs, budget);
    let more = overflow_selection(rows, retention.keep_runs_total, budget, per_job);
    lemma_finished_jobs_are_distinct(rows);
    lemma_per_job_distinct(rows, finished_jobs(rows), jobs, default_keep_runs, budget);
    lemma_deletable_ids_are_distinct(rows, None);
    lemma_overflow(rows, retention.keep_runs_total, budget, per_job);
    let all = per_job + more;
    assert forall|i: int, j: int| 0 <= i < j < all.len() implies all[i] != all[j] by {
        if i < per_job.len() && j >= per_job.len() {
            assert(more.contains(more[j - per_job.len()]));
            assert(per_job.contains(per_job[i]));
        } else if i >= per_job.len() {
            assert(more[i - per_job.len()] != more[j - per_job.len()]);
        } else {
            assert(per_job[i] != per_job[j]);
        }
    }
}

/// A job keeps its newest runs, as many as it is to keep: its own rule never selects one of
/// them, nor any of its runs if it is to keep all.
pub proof fn a_job_keeps_its_newest_runs(
    rows: Seq<RetentionRow>,
    job_ids: Seq<Seq<char>>,
    jobs: Seq<(String, u32)>,
    default_keep_runs: u32,
    budget: u32,
    job_id: Seq<char>,
    at: int,
)
    requires
        ids_are_distinct(rows),
        0 <= at < deletable_ids(rows, Some(job_id)).len(),
        ({
            let keep_runs = keep_runs_of(jobs, default_keep_runs, job_id);
            keep_runs == 0 || at >= deletable_ids(rows, Some(job_id)).len() - keep_runs
        }),
    ensures
        !per_job_selection(rows, job_ids, jobs, default_keep_runs, budget).contains(
            deletable_ids(rows, Some(job_id))[at],
        ),
    decreases job_ids.len(),
{
    let id = deletable_ids(rows, Some(job_id))[at];
    if job_ids.len() > 0 {
        let shorter = job_ids.drop_last();
        let last = job_ids.last();
        a_job_keeps_its_newest_runs(rows, shorter, jobs, default_keep_runs, budget, job_id, at);
        let before = per_job_selection(rows, shorter, jobs, default_keep_runs, budget);
        let keep_runs = keep_runs_of(jobs, default_keep_runs, last);
        let left = budget_left(budget, before.len());
        let taken = taken_of(rows, last, keep_runs, left);
        let ids = deletable_ids(rows, Some(last));
        lemma_taken_are_the_first(rows, last, keep_runs, left);
        let all = before + taken;
        if all.contains(id) {
            let k = choose|k: int| 0 <= k < all.len() && all[k] == id;
            if k < before.len() {
                assert(before.contains(before[k]));
            } else {
                assert(ids[k - before.len()] == id);
                lemma_deletable_ids_may_go(rows, Some(last), id);
                assert(deletable_ids(rows, Some(job_id)).contains(id));
                lemma_deletable_ids_may_go(rows, Some(job_id), id);
                lemma_jobs_share_no_run(rows, job_id, last, id);
                lemma_deletable_ids_are_distinct(rows, Some(last));
                assert(ids[k - before.len()] == ids[at]);
            }
        }
    }
}

/// The ceiling on all runs never takes more than those past it: as many finished runs stay as
/// it allows.
pub proof fn the_ceiling_takes_only_the_overflow(
    rows: Seq<RetentionRow>,
    keep_runs_total: u32,
    budget: u32,
    already_selected: Seq<i64>,
)
    ensures
        overflow_selection(rows, keep_runs_total, budget, already_selected).len() <= overflow_of(
            rows,
            keep_runs_total,
        ),
        keep_runs_total == 0 ==> overflow_selection(
            rows,
            keep_runs_total,
            budget,
            already_selected,
        ).len() == 0,
{
    lemma_overflow(rows, keep_runs_total, budget, already_selected);
}

/// Whether a run is over and nobody is still to hear of it, of a job if it is named.
pub open spec fn is_over_and_told(row: RetentionRow, job_id: Option<Seq<char>>) -> bool {
    &&& !(row.status is Scheduled || row.status is Queued || row.status is Running)
    &&& !row.owes_notification
    &&& job_id matches Some(job_id) ==> row.job_id@ == job_id
}

/// Whether places lie in a range, each after the one before.
pub open spec fn rises_within(places: Seq<int>, low: int, high: int) -> bool {
    &&& forall|k: int| 0 <= k < places.len() ==> low <= #[trigger] places[k] < high
    &&& forall|k: int, m: int|
        0 <= k < m < places.len() ==> #[trigger] places[k] < #[trigger] places[m]
}

/// Whether places are of settled runs that come in some range, of a job if it is named.
pub open spec fn are_settled_runs(
    rows: Seq<RetentionRow>,
    job_id: Option<Seq<char>>,
    places: Seq<int>,
    low: int,
    high: int,
) -> bool {
    &&& rises_within(places, low, high)
    &&& forall|k: int|
        0 <= k < places.len() ==> is_over_and_told(rows[#[trigger] places[k]], job_id)
}

/// Whether places are of all the settled runs before a place.
pub open spec fn are_all_settled_before(rows: Seq<RetentionRow>, places: Seq<int>, at: int) -> bool {
    &&& are_settled_runs(rows, None, places, 0, at)
    &&& forall|j: int| 0 <= j < at && is_over_and_told(#[trigger] rows[j], None) ==> places.contains(j)
}

/// Whether places are of finished runs.
pub open spec fn are_finished_runs(rows: Seq<RetentionRow>, places: Seq<int>) -> bool {
    &&& rises_within(places, 0, rows.len() as int)
    &&& forall|k: int|
        0 <= k < places.len() ==> {
            let status = rows[#[trigger] places[k]].status;
            !(status is Scheduled || status is Queued || status is Running)
        }
}

proof fn lemma_one_more_row(rows: Seq<RetentionRow>, job_id: Option<Seq<char>>, i: int)
    requires
        0 <= i < rows.len(),
    ensures
        deletable_ids(rows.take(i + 1), job_id) == (if is_over_and_told(rows[i], job_id) {
            deletable_ids(rows.take(i), job_id).push(rows[i].id)
        } else {
            deletable_ids(rows.take(i), job_id)
        }),
{
    assert(rows.take(i + 1).drop_last() =~= rows.take(i));
    assert(rows.take(i + 1).last() == rows[i]);
}

proof fn lemma_earlier_rows_come_first(
    rows: Seq<RetentionRow>,
    job_id: Option<Seq<char>>,
    i: int,
    j: int,
)
    requires
        0 <= i <= j <= rows.len(),
    ensures
        deletable_ids(rows.take(i), job_id).len() <= deletable_ids(rows.take(j), job_id).len(),
        forall|k: int|
            0 <= k < deletable_ids(rows.take(i), job_id).len()
                ==> #[trigger] deletable_ids(rows.take(i), job_id)[k] == deletable_ids(
                rows.take(j),
                job_id,
            )[k],
    decreases j - i,
{
    if i < j {
        lemma_earlier_rows_come_first(rows, job_id, i, j - 1);
        lemma_one_more_row(rows, job_id, j - 1);
    }
}

/// Where a settled run stands among those of its kind: behind those of the rows before it.
proof fn lemma_place(rows: Seq<RetentionRow>, job_id: Option<Seq<char>>, i: int)
    requires
        0 <= i < rows.len(),
        is_over_and_told(rows[i], job_id),
    ensures
        ({
            let place = deletable_ids(rows.take(i), job_id).len() as int;
            &&& place < deletable_ids(rows, job_id).len()
            &&& deletable_ids(rows, job_id)[place] == rows[i].id
            &&& deletable_ids(rows.take(i + 1), job_id).len() == place + 1
        }),
{
    lemma_one_more_row(rows, job_id, i);
    lemma_earlier_rows_come_first(rows, job_id, i + 1, rows.len() as int);
    assert(rows.take(rows.len() as int) =~= rows);
    let place = deletable_ids(rows.take(i), job_id).len() as int;
    assert(deletable_ids(rows.take(i + 1), job_id)[place] == rows[i].id);
}

proof fn lemma_at_least_so_many(
    rows: Seq<RetentionRow>,
    job_id: Option<Seq<char>>,
    places: Seq<int>,
    low: int,
    high: int,
)
    requires
        0 <= low <= high <= rows.len(),
        are_settled_runs(rows, job_id, places, low, high),
    ensures
        deletable_ids(rows.take(low), job_id).len() + places.len() <= deletable_ids(
            rows.take(high),
            job_id,
        ).len(),
    decreases places.len(),
{
    if places.len() == 0 {
        lemma_earlier_rows_come_first(rows, job_id, low, high);
    } else {
        let last = places.last();
        let fewer = places.drop_last();
        assert(last == places[places.len() - 1]);
        assert forall|k: int| 0 <= k < fewer.len() implies low <= #[trigger] fewer[k] < last by {
            assert(fewer[k] == places[k]);
            assert(places[k] < places[places.len() - 1]);
        }
        assert forall|k: int, m: int| 0 <= k < m < fewer.len() implies #[trigger] fewer[k]
            < #[trigger] fewer[m] by {
            assert(places[k] < places[m]);
        }
        assert forall|k: int| 0 <= k < fewer.len() implies is_over_and_told(
            rows[#[trigger] fewer[k]],
            job_id,
        ) by {
            assert(fewer[k] == places[k]);
        }
        lemma_at_least_so_many(rows, job_id, fewer, low, last);
        lemma_one_more_row(rows, job_id, last);
        lemma_earlier_rows_come_first(rows, job_id, last + 1, high);
    }
}

proof fn lemma_settled_runs(
    rows: Seq<RetentionRow>,
    job_id: Option<Seq<char>>,
    low: int,
    high: int,
) -> (places: Seq<int>)
    requires
        0 <= low <= high <= rows.len(),
    ensures
        are_settled_runs(rows, job_id, places, low, high),
        deletable_ids(rows.take(low), job_id).len() + places.len() == deletable_ids(
            rows.take(high),
            job_id,
        ).len(),
    decreases high - low,
{
    if low == high {
        Seq::empty()
    } else {
        let before = lemma_settled_runs(rows, job_id, low, high - 1);
        lemma_one_more_row(rows, job_id, high - 1);
        if is_over_and_told(rows[high - 1], job_id) {
            before.push(high - 1)
        } else {
            before
        }
    }
}

proof fn lemma_at_most_so_many(rows: Seq<RetentionRow>, places: Seq<int>, at: int)
    requires
        0 <= at <= rows.len(),
        are_all_settled_before(rows, places, at),
    ensures
        deletable_ids(rows.take(at), None).len() == places.len(),
    decreases at,
{
    if at == 0 {
        assert(rows.take(0) =~= Seq::empty());
        if places.len() > 0 {
            assert(places[0] < 0);
        }
    } else {
        lemma_one_more_row(rows, None, at - 1);
        if is_over_and_told(rows[at - 1], None) {
            assert(places.contains(at - 1));
            let k = choose|k: int| 0 <= k < places.len() && places[k] == at - 1;
            if k < places.len() - 1 {
                assert(places[k] < places[places.len() - 1]);
            }
            let fewer = places.drop_last();
            assert forall|k: int| 0 <= k < fewer.len() implies 0 <= #[trigger] fewer[k] < at - 1 by {
                assert(fewer[k] == places[k]);
                assert(places[k] < places[places.len() - 1]);
            }
            assert forall|k: int, m: int| 0 <= k < m < fewer.len() implies #[trigger] fewer[k]
                < #[trigger] fewer[m] by {
                assert(places[k] < places[m]);
            }
            assert forall|k: int| 0 <= k < fewer.len() implies is_over_and_told(
                rows[#[trigger] fewer[k]],
                None,
            ) by {
                assert(fewer[k] == places[k]);
            }
            assert forall|j: int|
                0 <= j < at - 1 && is_over_and_told(#[trigger] rows[j], None) implies fewer.contains(
                j,
            ) by {
                assert(places.contains(j));
                let m = choose|m: int| 0 <= m < places.len() && places[m] == j;
                assert(fewer[m] == j);
            }
            lemma_at_most_so_many(rows, fewer, at - 1);
        } else {
            assert forall|k: int| 0 <= k < places.len() implies 0 <= #[trigger] places[k] < at
                - 1 by {
                assert(is_over_and_told(rows[places[k]], None));
            }
            assert(rises_within(places, 0, at - 1));
            assert(are_settled_runs(rows, None, places, 0, at - 1));
            lemma_at_most_so_many(rows, places, at - 1);
        }
    }
}

proof fn lemma_finished_count_step(rows: Seq<RetentionRow>, i: int)
    requires
        0 <= i < rows.len(),
    ensures
        finished_count(rows.take(i + 1)) == finished_count(rows.take(i)) + (if rows[i].status is Scheduled
            || rows[i].status is Queued || rows[i].status is Running {
            0nat
        } else {
            1
        }),
{
    assert(rows.take(i + 1).drop_last() =~= rows.take(i));
    assert(rows.take(i + 1).last() == rows[i]);
}

proof fn lemma_finished_at_least(rows: Seq<RetentionRow>, places: Seq<int>, high: int)
    requires
        0 <= high <= rows.len(),
        are_finished_runs(rows, places),
        forall|k: int| 0 <= k < places.len() ==> #[trigger] places[k] < high,
    ensures
        places.len() <= finished_count(rows.take(high)),
    decreases high,
{
    if high == 0 {
        if places.len() > 0 {
            assert(places[0] < 0);
        }
    } else {
        lemma_finished_count_step(rows, high - 1);
        if places.len() > 0 && places.last() == high - 1 {
            let fewer = places.drop_last();
            assert forall|k: int| 0 <= k < fewer.len() implies 0 <= #[trigger] fewer[k] < high
                - 1 by {
                assert(fewer[k] == places[k]);
                assert(places[k] < places[places.len() - 1]);
            }
            assert forall|k: int, m: int| 0 <= k < m < fewer.len() implies #[trigger] fewer[k]
                < #[trigger] fewer[m] by {
                assert(places[k] < places[m]);
            }
            assert forall|k: int| 0 <= k < fewer.len() implies ({
                let status = rows[#[trigger] fewer[k]].status;
                !(status is Scheduled || status is Queued || status is Running)
            }) by {
                assert(fewer[k] == places[k]);
            }
            lemma_finished_at_least(rows, fewer, high - 1);
            assert(rows[places[places.len() - 1]] == rows[high - 1]);
        } else {
            assert forall|k: int| 0 <= k < places.len() implies #[trigger] places[k] < high - 1 by {
                if k < places.len() - 1 {
                    assert(places[k] < places[places.len() - 1]);
                }
                assert(places[places.len() - 1] < high);
            }
            lemma_finished_at_least(rows, places, high - 1);
        }
    }
}

proof fn lemma_finished_runs(rows: Seq<RetentionRow>, high: int) -> (places: Seq<int>)
    requires
        0 <= high <= rows.len(),
    ensures
        are_finished_runs(rows, places),
        forall|k: int| 0 <= k < places.len() ==> #[trigger] places[k] < high,
        places.len() == finished_count(rows.take(high)),
    decreases high,
{
    if high == 0 {
        Seq::empty()
    } else {
        let before = lemma_finished_runs(rows, high - 1);
        lemma_finished_count_step(rows, high - 1);
        if rows[high - 1].status.finished() {
            before.push(high - 1)
        } else {
            before
        }
    }
}

proof fn lemma_every_finished_job_is_listed(rows: Seq<RetentionRow>, i: int)
    requires
        0 <= i < rows.len(),
        rows[i].status.finished(),
    ensures
        finished_jobs(rows).contains(rows[i].job_id@),
    decreases rows.len(),
{
    let before = finished_jobs(rows.drop_last());
    if i < rows.len() - 1 {
        assert(rows.drop_last()[i] == rows[i]);
        lemma_every_finished_job_is_listed(rows.drop_last(), i);
        let k = choose|k: int| 0 <= k < before.len() && before[k] == rows[i].job_id@;
        assert(finished_jobs(rows)[k] == rows[i].job_id@);
    } else if before.contains(rows[i].job_id@) {
        let k = choose|k: int| 0 <= k < before.len() && before[k] == rows[i].job_id@;
        assert(finished_jobs(rows)[k] == rows[i].job_id@);
    } else {
        assert(finished_jobs(rows)[before.len() as int] == rows[i].job_id@);
    }
}

/// Every listed job is cut to what it keeps, unless the budget is used up.
proof fn lemma_every_listed_job_is_cut(
    rows: Seq<RetentionRow>,
    job_ids: Seq<Seq<char>>,
    jobs: Seq<(String, u32)>,
    default_keep_runs: u32,
    budget: u32,
    k: int,
    at: int,
)
    requires
        0 <= k < job_ids.len(),
        ({
            let keep_runs = keep_runs_of(jobs, default_keep_runs, job_ids[k]);
            keep_runs > 0 && 0 <= at < deletable_ids(rows, Some(job_ids[k])).len() - keep_runs
        }),
    ensures
        per_job_selection(rows, job_ids, jobs, default_keep_runs, budget).contains(
            deletable_ids(rows, Some(job_ids[k]))[at],
        ) || (budget > 0 && per_job_selection(rows, job_ids, jobs, default_keep_runs, budget).len()
            == budget),
    decreases job_ids.len(),
{
    let shorter = job_ids.drop_last();
    let last = job_ids.last();
    let before = per_job_selection(rows, shorter, jobs, default_keep_runs, budget);
    let past = past_keep_runs(rows, last, keep_runs_of(jobs, default_keep_runs, last));
    let taken = capped(past, budget_left(budget, before.len()));
    let all = before + taken;
    let id = deletable_ids(rows, Some(job_ids[k]))[at];
    lemma_within_budget(rows, shorter, jobs, default_keep_runs, budget);
    if k < shorter.len() {
        assert(shorter[k] == job_ids[k]);
        lemma_every_listed_job_is_cut(rows, shorter, jobs, default_keep_runs, budget, k, at);
        if before.contains(id) {
            let m = choose|m: int| 0 <= m < before.len() && before[m] == id;
            assert(all[m] == id);
        }
    } else {
        assert(past[at] == id);
        if at < taken.len() {
            assert(taken[at] == id);
            assert(all[before.len() + at] == id);
        }
    }
}

proof fn lemma_within_budget(
    rows: Seq<RetentionRow>,
    job_ids: Seq<Seq<char>>,
    jobs: Seq<(String, u32)>,
    default_keep_runs: u32,
    budget: u32,
)
    ensures
        budget > 0 ==> per_job_selection(rows, job_ids, jobs, default_keep_runs, budget).len()
            <= budget,
    decreases job_ids.len(),
{
    if job_ids.len() > 0 {
        lemma_within_budget(rows, job_ids.drop_last(), jobs, default_keep_runs, budget);
    }
}

/// Every job is cut to what it keeps: a settled run with as many newer settled runs of the
/// same job as the job keeps is selected, whichever job it is of, unless the budget is used
/// up on others.
pub proof fn every_job_is_cut_to_what_it_keeps(
    rows: Seq<RetentionRow>,
    jobs: Seq<(String, u32)>,
    default_keep_runs: u32,
    budget: u32,
    i: int,
    newer: Seq<int>,
)
    requires
        0 <= i < rows.len(),
        is_over_and_told(rows[i], None),
        are_settled_runs(rows, Some(rows[i].job_id@), newer, i + 1, rows.len() as int),
        newer.len() == keep_runs_of(jobs, default_keep_runs, rows[i].job_id@),
        newer.len() > 0,
    ensures
        budget == 0 ==> per_job_selection(
            rows,
            finished_jobs(rows),
            jobs,
            default_keep_runs,
            budget,
        ).contains(rows[i].id),
        budget > 0 ==> per_job_selection(
            rows,
            finished_jobs(rows),
            jobs,
            default_keep_runs,
            budget,
        ).contains(rows[i].id) || per_job_selection(
            rows,
            finished_jobs(rows),
            jobs,
            default_keep_runs,
            budget,
        ).len() == budget,
{
    let job_id = rows[i].job_id@;
    let job_ids = finished_jobs(rows);
    let high = rows.len() as int;
    lemma_place(rows, Some(job_id), i);
    lemma_at_least_so_many(rows, Some(job_id), newer, i + 1, high);
    assert(rows.take(high) =~= rows);
    lemma_every_finished_job_is_listed(rows, i);
    let k = choose|k: int| 0 <= k < job_ids.len() && job_ids[k] == job_id;
    lemma_every_listed_job_is_cut(
        rows,
        job_ids,
        jobs,
        default_keep_runs,
        budget,
        k,
        deletable_ids(rows.take(i), Some(job_id)).len() as int,
    );
}

/// Nothing else is cut: a run that its job's rule selects is settled, its job does not keep
/// all, and as many newer settled runs of the same job stand behind it as the job keeps.
pub proof fn a_run_is_cut_only_behind_those_its_job_keeps(
    rows: Seq<RetentionRow>,
    jobs: Seq<(String, u32)>,
    default_keep_runs: u32,
    budget: u32,
    i: int,
)
    requires
        ids_are_distinct(rows),
        0 <= i < rows.len(),
        per_job_selection(rows, finished_jobs(rows), jobs, default_keep_runs, budget).contains(
            rows[i].id,
        ),
    ensures
        is_over_and_told(rows[i], None),
        keep_runs_of(jobs, default_keep_runs, rows[i].job_id@) > 0,
        exists|newer: Seq<int>| #[trigger]
            are_settled_runs(rows, Some(rows[i].job_id@), newer, i + 1, rows.len() as int)
                && newer.len() == keep_runs_of(jobs, default_keep_runs, rows[i].job_id@),
{
    let job_ids = finished_jobs(rows);
    let job_id = rows[i].job_id@;
    let keep_runs = keep_runs_of(jobs, default_keep_runs, job_id);
    lemma_per_job_may_go(rows, job_ids, jobs, default_keep_runs, budget, rows[i].id);
    let k = choose|k: int|
        0 <= k < job_ids.len() && may_go(rows, Some(#[trigger] job_ids[k]), rows[i].id);
    let j = choose|j: int|
        #![trigger rows[j]]
        0 <= j < rows.len() && rows[j].id == rows[i].id && deletable(rows[j]) && rows[j].job_id@
            == job_ids[k];
    if i < j {
        assert(rows[i].id != rows[j].id);
    } else if j < i {
        assert(rows[j].id != rows[i].id);
    }
    lemma_place(rows, Some(job_id), i);
    let at = deletable_ids(rows.take(i), Some(job_id)).len() as int;
    if keep_runs == 0 || at >= deletable_ids(rows, Some(job_id)).len() - keep_runs {
        a_job_keeps_its_newest_runs(rows, job_ids, jobs, default_keep_runs, budget, job_id, at);
    }
    let high = rows.len() as int;
    let all = lemma_settled_runs(rows, Some(job_id), i + 1, high);
    assert(rows.take(high) =~= rows);
    let newer = all.take(keep_runs as int);
    assert(are_settled_runs(rows, Some(job_id), newer, i + 1, high));
}

proof fn lemma_older_go_first(
    rows: Seq<RetentionRow>,
    job_ids: Seq<Seq<char>>,
    jobs: Seq<(String, u32)>,
    default_keep_runs: u32,
    budget: u32,
    job_id: Seq<char>,
    a: int,
    b: int,
)
    requires
        ids_are_distinct(rows),
        0 <= a <= b < deletable_ids(rows, Some(job_id)).len(),
        per_job_selection(rows, job_ids, jobs, default_keep_runs, budget).contains(
            deletable_ids(rows, Some(job_id))[b],
        ),
    ensures
        per_job_selection(rows, job_ids, jobs, default_keep_runs, budget).contains(
            deletable_ids(rows, Some(job_id))[a],
        ),
    decreases job_ids.len(),
{
    let shorter = job_ids.drop_last();
    let last = job_ids.last();
    let before = per_job_selection(rows, shorter, jobs, default_keep_runs, budget);
    let keep_runs = keep_runs_of(jobs, default_keep_runs, last);
    let left = budget_left(budget, before.len());
    let taken = taken_of(rows, last, keep_runs, left);
    let all = before + taken;
    let ids = deletable_ids(rows, Some(job_id));
    lemma_taken_are_the_first(rows, last, keep_runs, left);
    let m = choose|m: int| 0 <= m < all.len() && all[m] == ids[b];
    if m < before.len() {
        assert(before[m] == ids[b]);
        lemma_older_go_first(rows, shorter, jobs, default_keep_runs, budget, job_id, a, b);
        let n = choose|n: int| 0 <= n < before.len() && before[n] == ids[a];
        assert(all[n] == ids[a]);
    } else {
        let of_last = deletable_ids(rows, Some(last));
        assert(of_last[m - before.len()] == ids[b]);
        lemma_deletable_ids_may_go(rows, Some(last), ids[b]);
        lemma_deletable_ids_may_go(rows, Some(job_id), ids[b]);
        lemma_jobs_share_no_run(rows, job_id, last, ids[b]);
        lemma_deletable_ids_are_distinct(rows, Some(last));
        assert(m - before.len() == b);
        assert(taken[a] == ids[a]);
        assert(all[before.len() + a] == ids[a]);
    }
}

/// A job loses its oldest runs first: where the rule selects one of its runs, it selects every
/// older settled one of the same job as well, however small the budget.
pub proof fn a_job_loses_its_oldest_runs_first(
    rows: Seq<RetentionRow>,
    jobs: Seq<(String, u32)>,
    default_keep_runs: u32,
    budget: u32,
    older: int,
    newer: int,
)
    requires
        ids_are_distinct(rows),
        0 <= older < newer < rows.len(),
        rows[older].job_id@ == rows[newer].job_id@,
        is_over_and_told(rows[older], None),
        per_job_selection(rows, finished_jobs(rows), jobs, default_keep_runs, budget).contains(
            rows[newer].id,
        ),
    ensures
        per_job_selection(rows, finished_jobs(rows), jobs, default_keep_runs, budget).contains(
            rows[older].id,
        ),
{
    let job_id = rows[older].job_id@;
    a_run_is_cut_only_behind_those_its_job_keeps(rows, jobs, default_keep_runs, budget, newer);
    lemma_place(rows, Some(job_id), older);
    lemma_place(rows, Some(job_id), newer);
    lemma_earlier_rows_come_first(rows, Some(job_id), older, newer);
    lemma_older_go_first(
        rows,
        finished_jobs(rows),
        jobs,
        default_keep_runs,
        budget,
        job_id,
        deletable_ids(rows.take(older), Some(job_id)).len() as int,
        deletable_ids(rows.take(newer), Some(job_id)).len() as int,
    );
}

/// A job keeps as many runs as the first definition of that name says, or as the default
/// where none has its name.
pub proof fn a_job_keeps_what_its_definition_says(
    jobs: Seq<(String, u32)>,
    default_keep_runs: u32,
    job_id: Seq<char>,
    k: int,
)
    ensures
        0 <= k < jobs.len() && jobs[k].0@ == job_id && (forall|j: int|
            0 <= j < k ==> (#[trigger] jobs[j]).0@ != job_id) ==> keep_runs_of(
            jobs,
            default_keep_runs,
            job_id,
        ) == jobs[k].1,
        (forall|j: int| 0 <= j < jobs.len() ==> (#[trigger] jobs[j]).0@ != job_id) ==> keep_runs_of(
            jobs,
            default_keep_runs,
            job_id,
        ) == default_keep_runs,
{
    a_count_is_the_first_of_its_name(jobs, job_id, k);
}

/// The ceiling on all runs takes the oldest settled runs: one is selected, or was before, if
/// the finished runs outnumber the ceiling by more than the settled ones older than it, and
/// the budget is not used up by those.
pub proof fn the_ceiling_takes_the_oldest_runs(
    rows: Seq<RetentionRow>,
    keep_runs_total: u32,
    budget: u32,
    already_selected: Seq<i64>,
    i: int,
    older: Seq<int>,
    finished: Seq<int>,
)
    requires
        0 <= i < rows.len(),
        is_over_and_told(rows[i], None),
        are_all_settled_before(rows, older, i),
        are_finished_runs(rows, finished),
        keep_runs_total > 0,
        finished.len() > keep_runs_total + older.len(),
        budget == 0 || already_selected.len() + older.len() < budget,
    ensures
        overflow_selection(rows, keep_runs_total, budget, already_selected).contains(rows[i].id)
            || already_selected.contains(rows[i].id),
{
    let high = rows.len() as int;
    lemma_place(rows, None, i);
    lemma_at_most_so_many(rows, older, i);
    lemma_finished_at_least(rows, finished, high);
    assert(rows.take(high) =~= rows);
    let ids = deletable_ids(rows, None);
    let place = older.len() as int;
    let candidates = capped(
        capped(ids, Some(overflow_of(rows, keep_runs_total))),
        budget_left(budget, already_selected.len()),
    );
    assert(candidates[place] == rows[i].id);
    assert(candidates.contains(rows[i].id));
    lemma_without(candidates, already_selected);
}

/// The ceiling takes nothing else: a run it selects is settled and was not selected before,
/// and the finished runs outnumber the ceiling by more than the settled ones older than it.
pub proof fn the_ceiling_takes_only_the_oldest_runs(
    rows: Seq<RetentionRow>,
    keep_runs_total: u32,
    budget: u32,
    already_selected: Seq<i64>,
    i: int,
    older: Seq<int>,
)
    requires
        ids_are_distinct(rows),
        0 <= i < rows.len(),
        are_all_settled_before(rows, older, i),
        overflow_selection(rows, keep_runs_total, budget, already_selected).contains(rows[i].id),
    ensures
        is_over_and_told(rows[i], None),
        !already_selected.contains(rows[i].id),
        keep_runs_total > 0,
        exists|finished: Seq<int>| #[trigger]
            are_finished_runs(rows, finished) && finished.len() > keep_runs_total + older.len(),
        budget == 0 || already_selected.len() + older.len() < budget,
{
    let high = rows.len() as int;
    let ids = deletable_ids(rows, None);
    let candidates = capped(
        capped(ids, Some(overflow_of(rows, keep_runs_total))),
        budget_left(budget, already_selected.len()),
    );
    lemma_overflow(rows, keep_runs_total, budget, already_selected);
    lemma_without(candidates, already_selected);
    lemma_deletable_ids_may_go(rows, None, rows[i].id);
    let j = choose|j: int|
        #![trigger rows[j]]
        0 <= j < rows.len() && rows[j].id == rows[i].id && deletable(rows[j]);
    if i < j {
        assert(rows[i].id != rows[j].id);
    } else if j < i {
        assert(rows[j].id != rows[i].id);
    }
    lemma_place(rows, None, i);
    lemma_at_most_so_many(rows, older, i);
    lemma_deletable_ids_are_distinct(rows, None);
    assert(candidates.contains(rows[i].id));
    let at = choose|at: int| 0 <= at < candidates.len() && candidates[at] == rows[i].id;
    assert(ids[at] == ids[older.len() as int]);
    let finished = lemma_finished_runs(rows, high);
    assert(rows.take(high) =~= rows);
    assert(are_finished_runs(rows, finished));
}

/// A pass deletes what either rule selects and nothing else, what the jobs' own rules select
/// first; the ceiling is applied to what those leave of the budget.
pub proof fn a_pass_applies_both_rules(
    rows: Seq<RetentionRow>,
    jobs: Seq<(String, u32)>,
    default_keep_runs: u32,
    retention: AppConfigRetention,
    id: i64,
)
    ensures
        ({
            let budget = retention.max_deletes_per_pass;
            let per_job = per_job_selection(
                rows,
                finished_jobs(rows),
                jobs,
                default_keep_runs,
                budget,
            );
            let more = overflow_selection(rows, retention.keep_runs_total, budget, per_job);
            let all = selection(rows, jobs, default_keep_runs, retention);
            &&& all.contains(id) <==> per_job.contains(id) || more.contains(id)
            &&& per_job.len() <= all.len()
            &&& all.take(per_job.len() as int) == per_job
        }),
{
    let budget = retention.max_deletes_per_pass;
    let per_job = per_job_selection(rows, finished_jobs(rows), jobs, default_keep_runs, budget);
    let more = overflow_selection(rows, retention.keep_runs_total, budget, per_job);
    let all = per_job + more;
    assert(all.take(per_job.len() as int) =~= per_job);
    if per_job.contains(id) {
        let k = choose|k: int| 0 <= k < per_job.len() && per_job[k] == id;
        assert(all[k] == id);
    }
    if more.contains(id) {
        let k = choose|k: int| 0 <= k < more.len() && more[k] == id;
        assert(all[per_job.len() + k] == id);
    }
    if all.contains(id) {
        let k = choose|k: int| 0 <= k < all.len() && all[k] == id;
        if k < per_job.len() {
            assert(per_job[k] == id);
        } else {
            assert(more[k - per_job.len()] == id);
        }
    }
}

/// With no budget, a run past what its job keeps is deleted in that same pass, and so is every
/// oldest run past the ceiling.
pub proof fn an_unbounded_pass_leaves_nothing_over(
    rows: Seq<RetentionRow>,
    jobs: Seq<(String, u32)>,
    default_keep_runs: u32,
    retention: AppConfigRetention,
    i: int,
    newer: Seq<int>,
    older: Seq<int>,
    finished: Seq<int>,
)
    requires
        retention.max_deletes_per_pass == 0,
        0 <= i < rows.len(),
        is_over_and_told(rows[i], None),
        ({
            ||| {
                &&& are_settled_runs(rows, Some(rows[i].job_id@), newer, i + 1, rows.len() as int)
                &&& newer.len() == keep_runs_of(jobs, default_keep_runs, rows[i].job_id@)
                &&& newer.len() > 0
            }
            ||| {
                &&& are_all_settled_before(rows, older, i)
                &&& are_finished_runs(rows, finished)
                &&& retention.keep_runs_total > 0
                &&& finished.len() > retention.keep_runs_total + older.len()
            }
        }),
    ensures
        selection(rows, jobs, default_keep_runs, retention).contains(rows[i].id),
{
    let per_job = per_job_selection(rows, finished_jobs(rows), jobs, default_keep_runs, 0);
    a_pass_applies_both_rules(rows, jobs, default_keep_runs, retention, rows[i].id);
    if are_settled_runs(rows, Some(rows[i].job_id@), newer, i + 1, rows.len() as int)
        && newer.len() == keep_runs_of(jobs, default_keep_runs, rows[i].job_id@) && newer.len()
        > 0 {
        every_job_is_cut_to_what_it_keeps(rows, jobs, default_keep_runs, 0, i, newer);
    } else {
        the_ceiling_takes_the_oldest_runs(
            rows,
            retention.keep_runs_total,
            0,
            per_job,
            i,
            older,
            finished,
        );
    }
}

/// Selecting without a budget selects, of every job that does not keep all of its runs, each
/// settled run that has as many newer settled runs of the same job as the job keeps, and no
/// other.
pub proof fn a_selection_cuts_every_job(
    rows: Vec<RetentionRow>,
    jobs: Vec<(String, u32)>,
    default_keep_runs: u32,
    ids: Vec<i64>,
    i: int,
)
    requires
        ids_are_distinct(rows@),
        call_ensures(select_per_job_candidates, (&rows, &jobs, default_keep_runs, 0), ids),
        0 <= i < rows@.len(),
    ensures
        ids@.contains(rows@[i].id) <==> {
            &&& is_over_and_told(rows@[i], None)
            &&& keep_runs_of(jobs@, default_keep_runs, rows@[i].job_id@) > 0
            &&& exists|newer: Seq<int>| #[trigger]
                are_settled_runs(rows@, Some(rows@[i].job_id@), newer, i + 1, rows@.len() as int)
                    && newer.len() == keep_runs_of(jobs@, default_keep_runs, rows@[i].job_id@)
        },
{
    let keep_runs = keep_runs_of(jobs@, default_keep_runs, rows@[i].job_id@);
    let high = rows@.len() as int;
    if ids@.contains(rows@[i].id) {
        a_run_is_cut_only_behind_those_its_job_keeps(rows@, jobs@, default_keep_runs, 0, i);
    } else if is_over_and_told(rows@[i], None) && keep_runs > 0 && exists|newer: Seq<int>|
        #[trigger]
        are_settled_runs(rows@, Some(rows@[i].job_id@), newer, i + 1, high) && newer.len()
            == keep_runs {
        let newer = choose|newer: Seq<int>| #[trigger]
            are_settled_runs(rows@, Some(rows@[i].job_id@), newer, i + 1, high) && newer.len()
                == keep_runs;
        every_job_is_cut_to_what_it_keeps(rows@, jobs@, default_keep_runs, 0, i, newer);
    }
}

/// What is left of a budget and what is used of it make it up; a budget that is used up leaves
/// nothing, and one of 0 is none.
pub proof fn a_budget_is_used_up_run_by_run(budget: u32, used: usize, left: Option<u32>)
    requires
        call_ensures(remaining_budget, (budget, used), left),
    ensures
        left is None <==> budget == 0,
        left matches Some(left) ==> {
            &&& used <= budget ==> left + used == budget
            &&& used >= budget ==> left == 0
        },
{
}

} // verus!
