//! The page that lists schedules, and that of one schedule.
use crate::config::AppConfigUi;
use crate::format::optional_timestamp;
use crate::router::job_run::{instant_text, optional};
use crate::router::pages::{
    are_links_around, is_countable, links_around, list_href, list_link, list_window, page_number,
    search, searched, shown_page, ListWindow,
};
use crate::scheduler::ScheduleJob;
use crate::time::Timestamp;
use vstd::prelude::*;
use vstd::string::*;

verus! {

/// What the page is asked for.
#[derive(Clone, Debug)]
pub struct SchedulesRouteQuery {
    pub schedule_name_like: Option<String>,
    pub page: Option<u32>,
}

/// A schedule.
#[derive(Clone, Debug)]
pub struct Schedule {
    pub schedule_id: String,
    pub name: String,
    pub description: String,
    pub cron: String,
    pub timezone: String,
    /// The first day on which it fires, written as a date.
    pub start_date: Option<String>,
    /// The last day on which it fires, written as a date.
    pub end_date: Option<String>,
    pub next_run: Option<Timestamp>,
    pub disabled: bool,
}

/// A schedule as the page lists it.
#[derive(Clone, Debug)]
pub struct ScheduleEntry {
    pub schedule_id: String,
    pub name: String,
    pub description: String,
    pub cron: String,
    pub next_run: Option<String>,
    pub disabled: bool,
}

/// A schedule as its own page shows it.
#[derive(Clone, Debug)]
pub struct ScheduleDisplay {
    pub schedule_id: String,
    pub name: String,
    pub description: String,
    pub cron: String,
    pub timezone: String,
    pub start_date: Option<String>,
    pub end_date: Option<String>,
    pub next_run: Option<String>,
    pub disabled: bool,
}

/// What the list is laid out from.
#[derive(Clone, Debug)]
pub struct SchedulesPage {
    pub schedules: Vec<ScheduleEntry>,
    pub current_name: Option<String>,
    pub prev_href: Option<String>,
    pub next_href: Option<String>,
    pub refresh_seconds: u32,
    /// The page's own address, so that it asks the same again.
    pub self_href: String,
}

/// Whether an entry lists a schedule.
pub open spec fn lists(entry: ScheduleEntry, schedule: Schedule) -> bool {
    &&& entry.schedule_id == schedule.schedule_id
    &&& entry.name == schedule.name
    &&& entry.description == schedule.description
    &&& entry.cron == schedule.cron
    &&& optional(entry.next_run) == instant_text(schedule.next_run)
    &&& entry.disabled == schedule.disabled
}

/// Tells which schedules to read for a page.
pub fn schedules_window(query: &SchedulesRouteQuery, ui: &AppConfigUi) -> (window: ListWindow)
    requires
        is_countable(query.page, ui.page_size),
    ensures
        window.limit == ui.page_size + 1,
        window.offset == (shown_page(query.page) - 1) * ui.page_size,
{
    list_window(query.page, ui.page_size)
}

/// Lays out a page from the schedules of its window.
pub fn schedules_page(query: SchedulesRouteQuery, schedules: Vec<Schedule>, ui: &AppConfigUi) -> (page:
    SchedulesPage)
    requires
        is_countable(query.page, ui.page_size),
    ensures
        page.schedules@.len() == (if schedules@.len() > ui.page_size {
            ui.page_size as nat
        } else {
            schedules@.len()
        }),
        forall|i: int|
            0 <= i < page.schedules@.len() ==> lists(
                #[trigger] page.schedules@[i],
                schedules@[i],
            ),
        page.current_name == searched(query.schedule_name_like),
        are_links_around(
            page.prev_href,
            page.next_href,
            "/schedules"@,
            shown_page(query.page),
            "schedule_name_like"@,
            searched(query.schedule_name_like),
            schedules@.len() > ui.page_size,
        ),
        page.refresh_seconds == ui.refresh_interval_seconds,
        page.self_href@ == list_link(
            "/schedules"@,
            shown_page(query.page),
            "schedule_name_like"@,
            searched(query.schedule_name_like),
        ),
{
    let shown: u32 = page_number(query.page);
    let page_size: usize = ui.page_size as usize;
    let current_name = search(query.schedule_name_like);
    let has_next_page: bool = schedules.len() > page_size;
    let ghost all = schedules@;
    let mut rest = schedules;
    let mut entries: Vec<ScheduleEntry> = Vec::new();
    while rest.len() > 0 && entries.len() < page_size
        invariant
            entries@.len() <= page_size,
            entries@.len() + rest@.len() == all.len(),
            rest@ == all.skip(entries@.len() as int),
            forall|i: int| 0 <= i < entries@.len() ==> lists(#[trigger] entries@[i], all[i]),
        decreases rest.len(),
    {
        let schedule = rest.remove(0);
        let next_run = optional_timestamp(&schedule.next_run);
        entries.push(
            ScheduleEntry {
                schedule_id: schedule.schedule_id,
                name: schedule.name,
                description: schedule.description,
                cron: schedule.cron,
                next_run,
                disabled: schedule.disabled,
            },
        );
        assert(rest@ =~= all.skip(entries@.len() as int));
    }
    let (prev_href, next_href) = links_around(
        "/schedules",
        shown,
        "schedule_name_like",
        &current_name,
        has_next_page,
    );
    let self_href = list_href("/schedules", shown, "schedule_name_like", &current_name);
    SchedulesPage {
        schedules: entries,
        current_name,
        prev_href,
        next_href,
        refresh_seconds: ui.refresh_interval_seconds,
        self_href,
    }
}

/// Whether a page shows a schedule.
pub open spec fn displays(display: ScheduleDisplay, schedule: Schedule) -> bool {
    &&& display.schedule_id == schedule.schedule_id
    &&& display.name == schedule.name
    &&& display.description == schedule.description
    &&& display.cron == schedule.cron
    &&& display.timezone == schedule.timezone
    &&& display.start_date == schedule.start_date
    &&& display.end_date == schedule.end_date
    &&& optional(display.next_run) == instant_text(schedule.next_run)
    &&& display.disabled == schedule.disabled
}

fn schedule_display(schedule: Schedule) -> (display: ScheduleDisplay)
    ensures
        displays(display, schedule),
{
    let next_run = optional_timestamp(&schedule.next_run);
    ScheduleDisplay {
        schedule_id: schedule.schedule_id,
        name: schedule.name,
        description: schedule.description,
        cron: schedule.cron,
        timezone: schedule.timezone,
        start_date: schedule.start_date,
        end_date: schedule.end_date,
        next_run,
        disabled: schedule.disabled,
    }
}

/// What the page of a schedule is laid out from.
#[derive(Clone, Debug)]
pub struct SchedulePage {
    pub schedule: ScheduleDisplay,
    pub schedule_jobs: Vec<ScheduleJob>,
    pub refresh_seconds: u32,
}

/// Lays out the page of a schedule, if there is one.
pub fn schedule_page(
    schedule: Option<Schedule>,
    schedule_jobs: Vec<ScheduleJob>,
    ui: &AppConfigUi,
) -> (r: Result<SchedulePage, &'static str>)
    ensures
        r is Ok <==> schedule is Some,
        r matches Err(text) ==> text@ == "Schedule not found"@,
        r matches Ok(page) ==> {
            &&& displays(page.schedule, schedule->0)
            &&& page.schedule_jobs == schedule_jobs
            &&& page.refresh_seconds == ui.refresh_interval_seconds
        },
{
    match schedule {
        None => Err("Schedule not found"),
        Some(schedule) => Ok(
            SchedulePage {
                schedule: schedule_display(schedule),
                schedule_jobs,
                refresh_seconds: ui.refresh_interval_seconds,
            },
        ),
    }
}

/// A page of schedules lists those of its window in order, as many as it holds, each with when
/// it fires and whether it does.
pub proof fn a_page_lists_its_schedules_in_order(
    query: SchedulesRouteQuery,
    schedules: Vec<Schedule>,
    ui: AppConfigUi,
    page: SchedulesPage,
    i: int,
)
    requires
        is_countable(query.page, ui.page_size),
        call_ensures(schedules_page, (query, schedules, &ui), page),
        0 <= i < schedules@.len(),
    ensures
        i < page.schedules@.len() <==> i < ui.page_size,
        i < ui.page_size ==> {
            let entry = page.schedules@[i];
            &&& entry.schedule_id == schedules@[i].schedule_id
            &&& entry.name == schedules@[i].name
            &&& entry.description == schedules@[i].description
            &&& entry.cron == schedules@[i].cron
            &&& entry.disabled == schedules@[i].disabled
            &&& optional(entry.next_run) == instant_text(schedules@[i].next_run)
        },
        page.next_href is Some <==> schedules@.len() > ui.page_size,
        page.prev_href is Some <==> shown_page(query.page) > 1,
{
    if i < ui.page_size {
        assert(lists(page.schedules@[i], schedules@[i]));
    }
}

/// The page of a schedule shows that schedule, with its days, its zone and whether it fires.
pub proof fn a_page_shows_its_own_schedule(
    schedule: Schedule,
    jobs: Vec<ScheduleJob>,
    ui: AppConfigUi,
    r: Result<SchedulePage, &'static str>,
)
    requires
        call_ensures(schedule_page, (Some(schedule), jobs, &ui), r),
    ensures
        r is Ok,
        r->Ok_0.schedule_jobs == jobs,
        r->Ok_0.schedule.schedule_id == schedule.schedule_id,
        r->Ok_0.schedule.name == schedule.name,
        r->Ok_0.schedule.description == schedule.description,
        r->Ok_0.schedule.cron == schedule.cron,
        r->Ok_0.schedule.timezone == schedule.timezone,
        r->Ok_0.schedule.start_date == schedule.start_date,
        r->Ok_0.schedule.end_date == schedule.end_date,
        r->Ok_0.schedule.disabled == schedule.disabled,
        optional(r->Ok_0.schedule.next_run) == instant_text(schedule.next_run),
{
}

} // verus!
