//! The panel that shows every ceiling and how much of it is in use.
use crate::limits::{count_or_zero, is_full, limit_rows, reached, LimitRow, GLOBAL};
use vstd::prelude::*;
use vstd::string::*;

verus! {

/// One ceiling as the panel shows it.
#[derive(Clone, Debug)]
pub struct LimitPanelRow {
    pub name: String,
    pub in_use: u32,
    pub max: u32,
    pub full: bool,
}

/// Whether a row of the panel shows a ceiling.
pub open spec fn shows(shown: LimitPanelRow, row: LimitRow) -> bool {
    &&& shown.name@ == row.name@
    &&& shown.in_use == row.in_use
    &&& shown.max == row.max
    &&& shown.full == reached(row.in_use, row.max)
}

/// Lays out the ceilings for the panel, in their order.
pub fn limit_panel_rows(rows: Vec<LimitRow>) -> (shown: Vec<LimitPanelRow>)
    ensures
        shown@.len() == rows@.len(),
        forall|i: int| 0 <= i < rows@.len() ==> shows(#[trigger] shown@[i], rows@[i]),
{
    let mut shown: Vec<LimitPanelRow> = Vec::new();
    let mut i: usize = 0;
    while i < rows.len()
        invariant
            i <= rows@.len(),
            shown@.len() == i,
            forall|j: int| 0 <= j < i ==> shows(#[trigger] shown@[j], rows@[j]),
        decreases rows.len() - i,
    {
        shown.push(
            LimitPanelRow {
                name: rows[i].name.as_str().to_owned(),
                in_use: rows[i].in_use,
                max: rows[i].max,
                full: is_full(&rows[i]),
            },
        );
        i = i + 1;
    }
    shown
}

/// Lays out the panel: the ceiling on every attempt first, and each named one in the order it
/// is configured in.
pub fn limits_panel(
    max_running_attempts: u32,
    running_attempts: u32,
    concurrency_limits: &Vec<(String, u32)>,
    claimed_limit_slots: &Vec<(String, u32)>,
) -> (shown: Vec<LimitPanelRow>)
    ensures
        shown@.len() == concurrency_limits@.len() + 1,
        shown@[0].name@ == GLOBAL@,
        shown@[0].in_use == running_attempts,
        shown@[0].max == max_running_attempts,
        shown@[0].full == reached(running_attempts, max_running_attempts),
        forall|i: int|
            0 <= i < concurrency_limits@.len() ==> {
                let row = #[trigger] shown@[i + 1];
                &&& row.name@ == concurrency_limits@[i].0@
                &&& row.max == concurrency_limits@[i].1
                &&& row.in_use == count_or_zero(claimed_limit_slots@, row.name@)
                &&& row.full == reached(row.in_use, row.max)
            },
{
    let rows = limit_rows(
        max_running_attempts,
        running_attempts,
        concurrency_limits,
        claimed_limit_slots,
    );
    let ghost before = rows@;
    let shown = limit_panel_rows(rows);
    assert(shows(shown@[0], before[0]));
    assert forall|i: int| 0 <= i < concurrency_limits@.len() implies ({
        let row = #[trigger] shown@[i + 1];
        &&& row.name@ == concurrency_limits@[i].0@
        &&& row.max == concurrency_limits@[i].1
        &&& row.in_use == count_or_zero(claimed_limit_slots@, row.name@)
        &&& row.full == reached(row.in_use, row.max)
    }) by {
        assert(shows(shown@[i + 1], before[i + 1]));
    }
    shown
}

/// The panel shows every ceiling as it stands, the server's own first and each named one in its
/// order, and marks exactly those that are used up.
pub proof fn the_panel_shows_every_ceiling(
    max_running: u32,
    running: u32,
    limits: Vec<(String, u32)>,
    claimed: Vec<(String, u32)>,
    shown: Vec<LimitPanelRow>,
    i: int,
)
    requires
        call_ensures(limits_panel, (max_running, running, &limits, &claimed), shown),
        0 <= i < shown@.len(),
    ensures
        shown@.len() == limits@.len() + 1,
        shown@[0].in_use == running,
        shown@[0].max == max_running,
        i > 0 ==> shown@[i].name@ == limits@[i - 1].0@ && shown@[i].max == limits@[i - 1].1
            && shown@[i].in_use == count_or_zero(claimed@, limits@[i - 1].0@),
        shown@[i].full <==> shown@[i].max > 0 && shown@[i].in_use >= shown@[i].max,
{
    if i > 0 {
        let k = i - 1;
        assert(shown@[k + 1].name@ == limits@[k].0@);
    }
}

} // verus!
