//! The ceilings on how many attempts run at once: one for the whole server, and named ones
//! for narrower resources. A ceiling of 0 is no ceiling.
use crate::text::same;
use vstd::prelude::*;

verus! {

/// The row name of the ceiling on every attempt anywhere.
pub const GLOBAL: &'static str = "global";

/// One ceiling and how much of it is in use.
#[derive(Clone, Debug)]
pub struct LimitRow {
    pub name: String,
    pub in_use: u32,
    pub max: u32,
}

/// Whether so many attempts in use leave no room under a ceiling.
pub open spec fn reached(in_use: u32, max: u32) -> bool {
    max != 0 && in_use >= max
}

/// The count a list gives a name, if it names it.
pub open spec fn count_of(counts: Seq<(String, u32)>, name: Seq<char>) -> Option<u32>
    decreases counts.len(),
{
    if counts.len() == 0 {
        None
    } else if counts[0].0@ == name {
        Some(counts[0].1)
    } else {
        count_of(counts.drop_first(), name)
    }
}

/// The count a list gives a name, or 0.
pub open spec fn count_or_zero(counts: Seq<(String, u32)>, name: Seq<char>) -> u32 {
    match count_of(counts, name) {
        Some(n) => n,
        None => 0,
    }
}

/// Looks a name up in a list of counts.
pub fn count(counts: &Vec<(String, u32)>, name: &str) -> (r: Option<u32>)
    ensures
        r == count_of(counts@, name@),
{
    let mut i: usize = 0;
    assert(counts@.skip(0) =~= counts@);
    while i < counts.len()
        invariant
            i <= counts@.len(),
            count_of(counts@, name@) == count_of(counts@.skip(i as int), name@),
        decreases counts.len() - i,
    {
        if same(counts[i].0.as_str(), name) {
            return Some(counts[i].1);
        }
        assert(counts@.skip(i as int).drop_first() =~= counts@.skip(i + 1));
        i = i + 1;
    }
    None
}

/// Whether a row has no room left. A ceiling of 0 is never reached.
pub fn is_full(row: &LimitRow) -> (b: bool)
    ensures
        b == reached(row.in_use, row.max),
{
    row.max != 0 && row.in_use >= row.max
}

/// The rows of every ceiling: the server's own first, and each named one in the order it is
/// configured in.
pub fn limit_rows(
    max_running_attempts: u32,
    running_attempts: u32,
    concurrency_limits: &Vec<(String, u32)>,
    claimed_limit_slots: &Vec<(String, u32)>,
) -> (rows: Vec<LimitRow>)
    ensures
        rows@.len() == concurrency_limits@.len() + 1,
        rows@[0].name@ == GLOBAL@,
        rows@[0].in_use == running_attempts,
        rows@[0].max == max_running_attempts,
        forall|i: int|
            0 <= i < concurrency_limits@.len() ==> {
                let row = #[trigger] rows@[i + 1];
                &&& row.name@ == concurrency_limits@[i].0@
                &&& row.max == concurrency_limits@[i].1
                &&& row.in_use == count_or_zero(claimed_limit_slots@, row.name@)
            },
{
    let mut rows: Vec<LimitRow> = Vec::new();
    rows.push(
        LimitRow { name: GLOBAL.to_owned(), in_use: running_attempts, max: max_running_attempts },
    );
    let mut i: usize = 0;
    while i < concurrency_limits.len()
        invariant
            i <= concurrency_limits@.len(),
            rows@.len() == i + 1,
            rows@[0].name@ == GLOBAL@,
            rows@[0].in_use == running_attempts,
            rows@[0].max == max_running_attempts,
            forall|j: int|
                0 <= j < i ==> {
                    let row = #[trigger] rows@[j + 1];
                    &&& row.name@ == concurrency_limits@[j].0@
                    &&& row.max == concurrency_limits@[j].1
                    &&& row.in_use == count_or_zero(claimed_limit_slots@, row.name@)
                },
        decreases concurrency_limits.len() - i,
    {
        let name = concurrency_limits[i].0.as_str();
        let in_use: u32 = match count(claimed_limit_slots, name) {
            Some(n) => n,
            None => 0,
        };
        rows.push(LimitRow { name: name.to_owned(), in_use, max: concurrency_limits[i].1 });
        i = i + 1;
    }
    rows
}

/// A ceiling of 0 is never full, however much is in use.
pub proof fn zero_is_never_full(in_use: u32)
    ensures
        !reached(in_use, 0),
{
}

/// A list gives a name the count of its first entry of that name, and none where no entry has
/// it.
pub proof fn a_count_is_the_first_of_its_name(counts: Seq<(String, u32)>, name: Seq<char>, k: int)
    ensures
        0 <= k < counts.len() && counts[k].0@ == name && (forall|j: int|
            0 <= j < k ==> (#[trigger] counts[j]).0@ != name) ==> count_of(counts, name) == Some(
            counts[k].1,
        ) && count_or_zero(counts, name) == counts[k].1,
        (forall|j: int| 0 <= j < counts.len() ==> (#[trigger] counts[j]).0@ != name) ==> count_of(
            counts,
            name,
        ) is None && count_or_zero(counts, name) == 0,
    decreases counts.len(),
{
    if counts.len() > 0 {
        let rest = counts.drop_first();
        a_count_is_the_first_of_its_name(rest, name, k - 1);
        assert forall|j: int| 0 <= j < rest.len() implies #[trigger] rest[j] == counts[j + 1] by {}
        if k > 0 && k < counts.len() {
            assert(rest[k - 1] == counts[k]);
        }
    }
}

/// A ceiling above 0 is full exactly when at least as many attempts are in use as it allows:
/// one fewer leaves room.
pub proof fn a_ceiling_is_full_exactly_when_it_is_used_up(in_use: u32, max: u32)
    ensures
        reached(in_use, max) <==> max > 0 && in_use >= max,
        max > 0 ==> reached(max, max) && !reached((max - 1) as u32, max),
{
}

/// Every ceiling has a row: the server's own first, and then each named one in the order it is
/// configured in, with what is claimed of it, or nothing where nothing is.
pub proof fn every_ceiling_has_a_row(
    max_running: u32,
    running: u32,
    limits: Vec<(String, u32)>,
    claimed: Vec<(String, u32)>,
    rows: Vec<LimitRow>,
    i: int,
    k: int,
)
    requires
        call_ensures(limit_rows, (max_running, running, &limits, &claimed), rows),
        0 <= i < limits@.len(),
        0 <= k <= claimed@.len(),
        k < claimed@.len() ==> claimed@[k].0@ == limits@[i].0@,
        forall|j: int| 0 <= j < k ==> (#[trigger] claimed@[j]).0@ != limits@[i].0@,
    ensures
        rows@.len() == limits@.len() + 1,
        rows@[0].in_use == running && rows@[0].max == max_running,
        rows@[i + 1].name@ == limits@[i].0@ && rows@[i + 1].max == limits@[i].1,
        rows@[i + 1].in_use == (if k < claimed@.len() {
            claimed@[k].1
        } else {
            0
        }),
{
    a_count_is_the_first_of_its_name(claimed@, limits@[i].0@, k);
}

} // verus!
