//! The page that lists jobs, and those of a job and of a task.
use crate::config::AppConfigUi;
use crate::format::{counted, counted_text};
use crate::router::dag::{
    all_curves, build, drawing_height, drawing_width, draws, has_dependencies, paths, Dag,
    NODE_HEIGHT, NODE_WIDTH,
};
use crate::router::pages::{
    are_links_around, is_countable, links_around, list_window, page_number, search, searched,
    shown_page, ListWindow,
};
use vstd::prelude::*;
use vstd::string::*;

verus! {

/// What the page is asked for.
#[derive(Clone, Debug)]
pub struct JobsRouteQuery {
    pub job_name_like: Option<String>,
    pub page: Option<u32>,
}

/// A job, with how many tasks it has.
#[derive(Clone, Debug)]
pub struct JobSummary {
    pub job_id: String,
    pub name: String,
    pub description: String,
    pub tasks: usize,
}

/// A job as the page lists it.
#[derive(Clone, Debug)]
pub struct JobEntry {
    pub job_id: String,
    pub name: String,
    pub description: String,
    pub task_count: String,
}

/// A task as it is declared.
#[derive(Clone, Debug)]
pub struct TaskDisplay {
    pub task_id: String,
    pub job_id: String,
    pub description: String,
    pub command: String,
    pub depends_on: Vec<String>,
    pub timeout: u32,
    pub max_retries: u32,
    pub retry_delay: u32,
    /// Names and values, in the order of the names.
    pub env: Vec<(String, String)>,
    pub working_dir: String,
}

/// What the page is laid out from.
#[derive(Clone, Debug)]
pub struct JobsPage {
    pub jobs: Vec<JobEntry>,
    pub current_name: Option<String>,
    pub prev_href: Option<String>,
    pub next_href: Option<String>,
}

/// Whether an entry lists a job.
pub open spec fn lists(entry: JobEntry, job: JobSummary) -> bool {
    &&& entry.job_id == job.job_id
    &&& entry.name == job.name
    &&& entry.description == job.description
    &&& entry.task_count@ == counted_text(job.tasks as nat, "task"@)
}

/// Tells which jobs to read for a page.
pub fn jobs_window(query: &JobsRouteQuery, ui: &AppConfigUi) -> (window: ListWindow)
    requires
        is_countable(query.page, ui.page_size),
    ensures
        window.limit == ui.page_size + 1,
        window.offset == (shown_page(query.page) - 1) * ui.page_size,
{
    list_window(query.page, ui.page_size)
}

/// Lays out a page from the jobs of its window.
pub fn jobs_page(query: JobsRouteQuery, jobs: Vec<JobSummary>, ui: &AppConfigUi) -> (page:
    JobsPage)
    requires
        is_countable(query.page, ui.page_size),
    ensures
        page.jobs@.len() == (if jobs@.len() > ui.page_size {
            ui.page_size as nat
        } else {
            jobs@.len()
        }),
        forall|i: int| 0 <= i < page.jobs@.len() ==> lists(#[trigger] page.jobs@[i], jobs@[i]),
        page.current_name == searched(query.job_name_like),
        are_links_around(
            page.prev_href,
            page.next_href,
            "/jobs"@,
            shown_page(query.page),
            "job_name_like"@,
            searched(query.job_name_like),
            jobs@.len() > ui.page_size,
        ),
{
    let shown: u32 = page_number(query.page);
    let current_name = search(query.job_name_like);
    let has_next_page: bool = jobs.len() > ui.page_size as usize;
    let ghost all = jobs@;
    let mut rest = jobs;
    let mut entries: Vec<JobEntry> = Vec::new();
    while rest.len() > 0 && entries.len() < ui.page_size as usize
        invariant
            entries@.len() <= ui.page_size,
            entries@.len() + rest@.len() == all.len(),
            rest@ == all.skip(entries@.len() as int),
            forall|i: int| 0 <= i < entries@.len() ==> lists(#[trigger] entries@[i], all[i]),
        decreases rest.len(),
    {
        let job = rest.remove(0);
        entries.push(
            JobEntry {
                job_id: job.job_id,
                name: job.name,
                description: job.description,
                task_count: counted(job.tasks, "task"),
            },
        );
        assert(rest@ =~= all.skip(entries@.len() as int));
    }
    let (prev_href, next_href) = links_around(
        "/jobs",
        shown,
        "job_name_like",
        &current_name,
        has_next_page,
    );
    JobsPage { jobs: entries, current_name, prev_href, next_href }
}

/// What the page of a job is laid out from.
#[derive(Clone, Debug)]
pub struct JobPage {
    pub job: JobSummary,
    pub tasks: Vec<TaskDisplay>,
    pub dag: Dag,
    pub has_dependencies: bool,
}

/// Lays out the page of a job, if there is one, with the drawing of its tasks.
pub fn job_page(job: Option<JobSummary>, tasks: Vec<TaskDisplay>) -> (r: Result<
    JobPage,
    &'static str,
>)
    requires
        tasks@.len() <= u32::MAX,
    ensures
        r is Ok <==> job is Some,
        r matches Err(text) ==> text@ == "Job not found"@,
        r matches Ok(page) ==> {
            &&& job == Some(page.job)
            &&& page.tasks == tasks
            &&& page.dag.nodes@.len() == tasks@.len()
            &&& forall|i: int|
                0 <= i < tasks@.len() ==> draws(#[trigger] page.dag.nodes@[i], tasks@, i)
            &&& paths(page.dag.edges@) == all_curves(tasks@, tasks@.len())
            &&& page.dag.node_width == NODE_WIDTH
            &&& page.dag.node_height == NODE_HEIGHT
            &&& page.dag.width == drawing_width(tasks@)
            &&& page.dag.height == drawing_height(tasks@)
            &&& page.has_dependencies == (all_curves(tasks@, tasks@.len()).len() > 0)
        },
{
    match job {
        None => Err("Job not found"),
        Some(job) => {
            let dag = build(&tasks);
            let has_dependencies: bool = has_dependencies(&dag);
            Ok(JobPage { job, tasks, dag, has_dependencies })
        },
    }
}

/// What the page of a task is laid out from.
#[derive(Clone, Debug)]
pub struct TaskPage {
    pub job_name: String,
    pub task: TaskDisplay,
}

/// Lays out the page of a task, if there is such a job and it has such a task.
pub fn task_page(job: Option<JobSummary>, task: Option<TaskDisplay>) -> (r: Result<
    TaskPage,
    &'static str,
>)
    ensures
        r is Ok <==> job is Some && task is Some,
        r matches Err(text) ==> text@ == (if job is None {
            "Job not found"@
        } else {
            "Task not found"@
        }),
        r matches Ok(page) ==> page.job_name == job->0.name && task == Some(page.task),
{
    match job {
        None => Err("Job not found"),
        Some(job) => match task {
            None => Err("Task not found"),
            Some(task) => Ok(TaskPage { job_name: job.name, task }),
        },
    }
}

/// A page of jobs lists those of its window in order, as many as it holds, each under its own
/// name and with how many tasks it has.
pub proof fn a_page_lists_its_jobs_in_order(
    query: JobsRouteQuery,
    jobs: Vec<JobSummary>,
    ui: AppConfigUi,
    page: JobsPage,
    i: int,
)
    requires
        is_countable(query.page, ui.page_size),
        call_ensures(jobs_page, (query, jobs, &ui), page),
        0 <= i < jobs@.len(),
    ensures
        i < page.jobs@.len() <==> i < ui.page_size,
        i < ui.page_size ==> {
            let entry = page.jobs@[i];
            &&& entry.job_id == jobs@[i].job_id
            &&& entry.name == jobs@[i].name
            &&& entry.description == jobs@[i].description
            &&& entry.task_count@ == counted_text(jobs@[i].tasks as nat, "task"@)
        },
        page.next_href is Some <==> jobs@.len() > ui.page_size,
        page.prev_href is Some <==> shown_page(query.page) > 1,
{
    if i < ui.page_size {
        assert(lists(page.jobs@[i], jobs@[i]));
    }
}

} // verus!
