//! The home page: the filters above the table of runs.
use crate::config::AppConfigUi;
use crate::status::JobRunStatus;
use crate::text::{decimal, decimal_u64};
use vstd::prelude::*;
use vstd::string::*;

verus! {

/// Every status a run can have, in the order in which they are offered.
pub const ALL_STATUSES: [JobRunStatus; 10] = JobRunStatus::ALL;

/// What the page is asked for.
#[derive(Clone, Debug)]
pub struct HomeQuery {
    pub page: Option<usize>,
    pub page_size: Option<usize>,
    pub filter_job_id: Option<String>,
    pub filter_status: Option<JobRunStatus>,
}

impl HomeQuery {
    /// The page that is shown: the first unless a later one is asked for.
    pub open spec fn shown_page(self) -> usize {
        match self.page {
            Some(page) => if page < 1 {
                1
            } else {
                page
            },
            None => 1,
        }
    }

    /// How many rows are shown: at least one, and no more than the configuration allows.
    pub open spec fn shown_page_size(self, ui: AppConfigUi) -> usize {
        let asked = match self.page_size {
            Some(page_size) => page_size,
            None => ui.page_size as usize,
        };
        if asked < 1 {
            1
        } else if asked > ui.max_page_size {
            ui.max_page_size as usize
        } else {
            asked
        }
    }

    /// The job whose runs are shown; an empty name is no filter.
    pub open spec fn shown_job(self) -> Option<Seq<char>> {
        match self.filter_job_id {
            Some(job_id) => if job_id@.len() == 0 {
                None
            } else {
                Some(job_id@)
            },
            None => None,
        }
    }

    /// Tells which page is shown.
    pub fn page(&self) -> (page: usize)
        ensures
            page == self.shown_page(),
            page >= 1,
    {
        match self.page {
            Some(page) => if page < 1 {
                1
            } else {
                page
            },
            None => 1,
        }
    }

    /// Tells how many rows are shown.
    pub fn page_size(&self, ui: &AppConfigUi) -> (page_size: usize)
        requires
            ui.max_page_size >= 1,
        ensures
            page_size == self.shown_page_size(*ui),
            1 <= page_size <= ui.max_page_size,
    {
        let asked: usize = match self.page_size {
            Some(page_size) => page_size,
            None => ui.page_size as usize,
        };
        if asked < 1 {
            1
        } else if asked > ui.max_page_size as usize {
            ui.max_page_size as usize
        } else {
            asked
        }
    }

    /// Tells whose runs are shown.
    pub fn job_id(&self) -> (job_id: Option<String>)
        ensures
            match job_id {
                Some(job_id) => self.shown_job() == Some(job_id@),
                None => self.shown_job() is None,
            },
    {
        match &self.filter_job_id {
            Some(job_id) => if job_id.as_str().unicode_len() == 0 {
                None
            } else {
                Some(job_id.as_str().to_owned())
            },
            None => None,
        }
    }
}

/// Where a table stands in all its pages.
#[derive(Clone, Debug)]
pub struct Pagination {
    pub current_page: usize,
    pub page_size: usize,
    pub filter_job_id: Option<String>,
    pub filter_status: Option<JobRunStatus>,
}

/// What filters add to a link to a list of runs: nothing, or something that begins with `&`.
pub open spec fn suffix_text(
    filter_job_id: Option<Seq<char>>,
    filter_status: Option<JobRunStatus>,
) -> Seq<char> {
    (match filter_job_id {
        Some(job_id) => "&filter_job_id="@ + job_id,
        None => Seq::empty(),
    }) + (match filter_status {
        Some(status) => "&filter_status="@ + status.key(),
        None => Seq::empty(),
    })
}

/// The view of a text that may be absent.
pub open spec fn optional_text(text: Option<&str>) -> Option<Seq<char>> {
    match text {
        Some(text) => Some(text@),
        None => None,
    }
}

fn filter_suffix(filter_job_id: Option<&str>, filter_status: Option<JobRunStatus>) -> (suffix:
    String)
    ensures
        suffix@ == suffix_text(optional_text(filter_job_id), filter_status),
{
    let mut suffix = String::new();
    match filter_job_id {
        Some(job_id) => {
            suffix.append("&filter_job_id=");
            suffix.append(job_id);
        },
        None => {},
    }
    match filter_status {
        Some(status) => {
            suffix.append("&filter_status=");
            suffix.append(status.as_str());
        },
        None => {},
    }
    assert(suffix@ =~= suffix_text(optional_text(filter_job_id), filter_status));
    suffix
}

/// A link to a page of something, with filters.
pub open spec fn page_link(
    start: Seq<char>,
    page: usize,
    page_size: usize,
    filter_job_id: Option<Seq<char>>,
    filter_status: Option<JobRunStatus>,
) -> Seq<char> {
    start + "page="@ + decimal(page as nat) + "&page_size="@ + decimal(page_size as nat)
        + suffix_text(filter_job_id, filter_status)
}

fn page_href(
    start: &str,
    page: usize,
    page_size: usize,
    filter_job_id: Option<&str>,
    filter_status: Option<JobRunStatus>,
) -> (href: String)
    ensures
        href@ == page_link(
            start@,
            page,
            page_size,
            optional_text(filter_job_id),
            filter_status,
        ),
{
    let mut href = start.to_owned();
    href.append("page=");
    href.append(decimal_u64(page as u64).as_str());
    href.append("&page_size=");
    href.append(decimal_u64(page_size as u64).as_str());
    href.append(filter_suffix(filter_job_id, filter_status).as_str());
    href
}

/// The link to a page of runs.
pub open spec fn runs_link(
    page: usize,
    page_size: usize,
    filter_job_id: Option<Seq<char>>,
    filter_status: Option<JobRunStatus>,
) -> Seq<char> {
    page_link("/?"@, page, page_size, filter_job_id, filter_status)
}

/// Writes the link to a page of runs.
pub fn runs_href(
    page: usize,
    page_size: usize,
    filter_job_id: Option<&str>,
    filter_status: Option<JobRunStatus>,
) -> (href: String)
    ensures
        href@ == runs_link(page, page_size, optional_text(filter_job_id), filter_status),
{
    page_href("/?", page, page_size, filter_job_id, filter_status)
}

/// A status to filter by.
#[derive(Clone, Debug)]
pub struct StatusChip {
    pub label: &'static str,
    pub status: Option<JobRunStatus>,
    pub href: String,
    pub selected: bool,
}

/// Whether a chip offers a status, on a page with a job and a status selected.
pub open spec fn offers(
    chip: StatusChip,
    status: Option<JobRunStatus>,
    page_size: usize,
    filter_job_id: Option<Seq<char>>,
    filter_status: Option<JobRunStatus>,
) -> bool {
    &&& chip.label@ == (match status {
        Some(status) => status.called(),
        None => "all"@,
    })
    &&& chip.status == status
    &&& chip.href@ == runs_link(1, page_size, filter_job_id, status)
    &&& chip.selected == (filter_status == status)
}

/// Offers every status to filter by, and first of all none. Each leads to the first page.
pub fn status_chips(
    page_size: usize,
    filter_job_id: Option<&str>,
    filter_status: Option<JobRunStatus>,
) -> (chips: Vec<StatusChip>)
    ensures
        chips@.len() == 11,
        offers(
            chips@[0],
            None,
            page_size,
            optional_text(filter_job_id),
            filter_status,
        ),
        forall|i: int|
            1 <= i < 11 ==> offers(
                #[trigger] chips@[i],
                Some(ALL_STATUSES@[i - 1]),
                page_size,
                optional_text(filter_job_id),
                filter_status,
            ),
{
    let mut chips: Vec<StatusChip> = Vec::new();
    chips.push(
        StatusChip {
            label: "all",
            status: None,
            href: runs_href(1, page_size, filter_job_id, None),
            selected: filter_status.is_none(),
        },
    );
    let all: [JobRunStatus; 10] = ALL_STATUSES;
    let mut i: usize = 0;
    while i < 10
        invariant
            i <= 10,
            all@ == ALL_STATUSES@,
            all@.len() == 10,
            chips@.len() == i + 1,
            offers(
                chips@[0],
                None,
                page_size,
                optional_text(filter_job_id),
                filter_status,
            ),
            forall|j: int|
                1 <= j < i + 1 ==> offers(
                    #[trigger] chips@[j],
                    Some(ALL_STATUSES@[j - 1]),
                    page_size,
                    optional_text(filter_job_id),
                    filter_status,
                ),
        decreases 10 - i,
    {
        let status = all[i];
        let selected: bool = match filter_status {
            Some(filter_status) => filter_status == status,
            None => false,
        };
        chips.push(
            StatusChip {
                label: status.word(),
                status: Some(status),
                href: runs_href(1, page_size, filter_job_id, Some(status)),
                selected,
            },
        );
        i = i + 1;
    }
    chips
}

/// What the home page is laid out from, besides the jobs and the ceilings.
#[derive(Clone, Debug)]
pub struct HomePage {
    pub page_size: usize,
    pub refresh_seconds: u32,
    /// Where the page gets its table from.
    pub table_href: String,
    pub selected_job_id: Option<String>,
    pub selected_status: Option<JobRunStatus>,
    pub status_chips: Vec<StatusChip>,
}

/// Lays the home page out.
pub fn home_page(query: &HomeQuery, ui: &AppConfigUi) -> (page: HomePage)
    requires
        ui.max_page_size >= 1,
    ensures
        page.page_size == query.shown_page_size(*ui),
        page.refresh_seconds == ui.refresh_interval_seconds,
        page.table_href@ == page_link(
            "/job-run-table?"@,
            query.shown_page(),
            query.shown_page_size(*ui),
            query.shown_job(),
            query.filter_status,
        ),
        match page.selected_job_id {
            Some(job_id) => query.shown_job() == Some(job_id@),
            None => query.shown_job() is None,
        },
        page.selected_status == query.filter_status,
        page.status_chips@.len() == 11,
        forall|i: int|
            0 <= i < 11 ==> offers(
                #[trigger] page.status_chips@[i],
                if i == 0 {
                    None
                } else {
                    Some(ALL_STATUSES@[i - 1])
                },
                query.shown_page_size(*ui),
                query.shown_job(),
                query.filter_status,
            ),
{
    let page: usize = query.page();
    let page_size: usize = query.page_size(ui);
    let selected_job_id = query.job_id();
    let filter_job_id: Option<&str> = match &selected_job_id {
        Some(job_id) => Some(job_id.as_str()),
        None => None,
    };
    assert(optional_text(filter_job_id) == query.shown_job());
    let status_chips = status_chips(page_size, filter_job_id, query.filter_status);
    let table_href = page_href(
        "/job-run-table?",
        page,
        page_size,
        filter_job_id,
        query.filter_status,
    );
    HomePage {
        page_size,
        refresh_seconds: ui.refresh_interval_seconds,
        table_href,
        selected_job_id,
        selected_status: query.filter_status,
        status_chips,
    }
}

/// The page that is asked for is shown, from the first on; nothing, and a page before the
/// first, show the first.
pub proof fn the_page_asked_for_is_shown(query: HomeQuery, asked: usize)
    ensures
        query.page == Some(asked) && asked >= 1 ==> query.shown_page() == asked,
        query.page == Some(0usize) || query.page is None ==> query.shown_page() == 1,
{
}

/// As many rows are shown as were asked for, from one up to the most the configuration allows;
/// more than that shows the most, and asking for nothing asks for as many as the configuration
/// says.
pub proof fn as_many_rows_are_shown_as_asked_for(query: HomeQuery, ui: AppConfigUi, asked: usize)
    requires
        ui.max_page_size >= 1,
        query.page_size == Some(asked) || (query.page_size is None && asked == ui.page_size),
    ensures
        1 <= asked <= ui.max_page_size <==> query.shown_page_size(ui) == asked,
        asked > ui.max_page_size ==> query.shown_page_size(ui) == ui.max_page_size,
        asked == 0 ==> query.shown_page_size(ui) == 1,
{
}

/// A job is filtered by exactly where one is named, and by that name.
pub proof fn an_empty_name_is_no_filter(query: HomeQuery, job_id: Seq<char>)
    ensures
        query.shown_job() == Some(job_id) <==> query.filter_job_id is Some
            && query.filter_job_id->0@ == job_id && job_id.len() > 0,
        query.shown_job() is None <==> (query.filter_job_id is None
            || query.filter_job_id->0@.len() == 0),
{
}

/// A filter only ever adds to a link: it leads to the same page of the same size, and names
/// the job and the status behind that, each exactly where it is filtered by.
pub proof fn a_filter_only_adds_to_a_link(
    page: usize,
    page_size: usize,
    job_id: Seq<char>,
    status: JobRunStatus,
)
    ensures
        runs_link(page, page_size, None, None) == "/?page="@ + decimal(page as nat)
            + "&page_size="@ + decimal(page_size as nat),
        runs_link(page, page_size, Some(job_id), None) == runs_link(page, page_size, None, None)
            + "&filter_job_id="@ + job_id,
        runs_link(page, page_size, None, Some(status)) == runs_link(page, page_size, None, None)
            + "&filter_status="@ + status.key(),
        runs_link(page, page_size, Some(job_id), Some(status)) == runs_link(
            page,
            page_size,
            Some(job_id),
            None,
        ) + "&filter_status="@ + status.key(),
{
    reveal_strlit("/?");
    reveal_strlit("page=");
    reveal_strlit("/?page=");
    assert("/?"@ + "page="@ =~= "/?page="@);
    assert(runs_link(page, page_size, None, None) =~= "/?page="@ + decimal(page as nat)
        + "&page_size="@ + decimal(page_size as nat));
    assert(runs_link(page, page_size, Some(job_id), None) =~= runs_link(page, page_size, None, None)
        + "&filter_job_id="@ + job_id);
    assert(runs_link(page, page_size, None, Some(status)) =~= runs_link(page, page_size, None, None)
        + "&filter_status="@ + status.key());
    assert(runs_link(page, page_size, Some(job_id), Some(status)) =~= runs_link(
        page,
        page_size,
        Some(job_id),
        None,
    ) + "&filter_status="@ + status.key());
}

/// Every status is offered to filter by, and none twice.
pub proof fn every_status_is_offered_once(status: JobRunStatus, i: int, j: int)
    ensures
        ALL_STATUSES@.contains(status),
        0 <= i < j < ALL_STATUSES@.len() ==> ALL_STATUSES@[i] != ALL_STATUSES@[j],
{
    match status {
        JobRunStatus::Scheduled => assert(ALL_STATUSES@[0] == status),
        JobRunStatus::Queued => assert(ALL_STATUSES@[1] == status),
        JobRunStatus::Running => assert(ALL_STATUSES@[2] == status),
        JobRunStatus::Succeeded => assert(ALL_STATUSES@[3] == status),
        JobRunStatus::Failed => assert(ALL_STATUSES@[4] == status),
        JobRunStatus::Skipped => assert(ALL_STATUSES@[5] == status),
        JobRunStatus::Aborted => assert(ALL_STATUSES@[6] == status),
        JobRunStatus::TimedOut => assert(ALL_STATUSES@[7] == status),
        JobRunStatus::Invalid => assert(ALL_STATUSES@[8] == status),
        JobRunStatus::Deleted => assert(ALL_STATUSES@[9] == status),
    }
}

/// The filters offer every status once, and first none; each leads to the first page of the
/// runs it names, of the same size and of the same job, and the one that is applied is marked.
pub proof fn each_chip_leads_to_its_own_runs(
    page_size: usize,
    job_id: &str,
    filter_status: Option<JobRunStatus>,
    chips: Vec<StatusChip>,
    i: int,
)
    requires
        call_ensures(status_chips, (page_size, Some(job_id), filter_status), chips),
        0 <= i < chips@.len(),
    ensures
        chips@.len() == 11,
        chips@[0].status is None,
        i > 0 ==> chips@[i].status == Some(ALL_STATUSES@[i - 1]),
        i > 0 ==> chips@[i].label@ == ALL_STATUSES@[i - 1].called(),
        chips@[i].href@ == runs_link(1, page_size, Some(job_id@), chips@[i].status),
        chips@[i].selected <==> chips@[i].status == filter_status,
{
    if i > 0 {
        assert(offers(
            chips@[i],
            Some(ALL_STATUSES@[i - 1]),
            page_size,
            Some(job_id@),
            filter_status,
        ));
    }
}

} // verus!
