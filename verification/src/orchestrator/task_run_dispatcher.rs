//! Starting waiting task runs, or deciding not to.
use crate::models::{TaskRun, TaskRunUpdate};
use crate::status::TaskRunStatus;
use crate::text::{decimal_i64, same, signed_decimal};
use crate::time::Timestamp;
use vstd::prelude::*;
use vstd::string::*;

verus! {

/// A dependency that its job run has no task run for.
#[derive(Clone, Debug)]
pub struct MissingDependency {
    pub task_id: String,
    pub job_run_id: i64,
}

impl MissingDependency {
    /// What the error says.
    pub open spec fn says(&self) -> Seq<char> {
        "Task run not found for task_id: "@ + self.task_id@ + ", job_run_id: "@ + signed_decimal(
            self.job_run_id as int,
        )
    }

    /// The error in words.
    pub fn message(&self) -> (s: String)
        ensures
            s@ == self.says(),
    {
        let mut s = "Task run not found for task_id: ".to_owned();
        s.append(self.task_id.as_str());
        s.append(", job_run_id: ");
        s.append(decimal_i64(self.job_run_id).as_str());
        s
    }
}

/// Whether a task run is the one of its job run that a task id names.
pub open spec fn stands_for(candidate: TaskRun, task_run: TaskRun, task_id: Seq<char>) -> bool {
    &&& candidate.job_run_id == task_run.job_run_id
    &&& candidate.job_id@ == task_run.job_id@
    &&& candidate.task_id@ == task_id
}

/// The first of some task runs that a task id names.
pub open spec fn dependency(
    task_runs: Seq<TaskRun>,
    task_run: TaskRun,
    task_id: Seq<char>,
) -> Option<TaskRun>
    decreases task_runs.len(),
{
    if task_runs.len() == 0 {
        None
    } else if stands_for(task_runs[0], task_run, task_id) {
        Some(task_runs[0])
    } else {
        dependency(task_runs.drop_first(), task_run, task_id)
    }
}

fn find_dependency<'a>(task_runs: &'a Vec<TaskRun>, task_run: &TaskRun, task_id: &str) -> (r: Option<
    &'a TaskRun,
>)
    ensures
        r matches Some(found) ==> dependency(task_runs@, *task_run, task_id@) == Some(*found),
        r is None ==> dependency(task_runs@, *task_run, task_id@) is None,
{
    let mut i: usize = 0;
    assert(task_runs@.skip(0) =~= task_runs@);
    while i < task_runs.len()
        invariant
            i <= task_runs@.len(),
            dependency(task_runs@, *task_run, task_id@) == dependency(
                task_runs@.skip(i as int),
                *task_run,
                task_id@,
            ),
        decreases task_runs.len() - i,
    {
        let candidate = &task_runs[i];
        if candidate.job_run_id == task_run.job_run_id && same(
            candidate.job_id.as_str(),
            task_run.job_id.as_str(),
        ) && same(candidate.task_id.as_str(), task_id) {
            return Some(candidate);
        }
        assert(task_runs@.skip(i as int).drop_first() =~= task_runs@.skip(i + 1));
        i = i + 1;
    }
    None
}

/// Whether every dependency of a task run has a task run.
pub open spec fn all_found(task_run: TaskRun, task_runs: Seq<TaskRun>) -> bool {
    forall|i: int|
        0 <= i < task_run.depends_on@.len() ==> dependency(
            task_runs,
            task_run,
            (#[trigger] task_run.depends_on@[i])@,
        ) is Some
}

/// Where each dependency of a task run stands, in the order it names them.
pub open spec fn dependency_statuses(task_run: TaskRun, task_runs: Seq<TaskRun>) -> Seq<
    TaskRunStatus,
> {
    task_run.depends_on@.map_values(
        |task_id: String| dependency(task_runs, task_run, task_id@)->0.status,
    )
}

/// Looks up where the task runs of the same job run stand that a task run depends on, or
/// names the first one that is not there.
pub fn get_dependent_task_runs(task_run: &TaskRun, task_runs: &Vec<TaskRun>) -> (r: Result<
    Vec<TaskRunStatus>,
    MissingDependency,
>)
    ensures
        r is Ok <==> all_found(*task_run, task_runs@),
        r matches Ok(statuses) ==> statuses@ == dependency_statuses(*task_run, task_runs@),
        r matches Err(missing) ==> exists|i: int|
            {
                &&& 0 <= i < task_run.depends_on@.len()
                &&& missing.task_id@ == (#[trigger] task_run.depends_on@[i])@
                &&& missing.job_run_id == task_run.job_run_id
                &&& dependency(task_runs@, *task_run, missing.task_id@) is None
                &&& forall|j: int|
                    0 <= j < i ==> dependency(
                        task_runs@,
                        *task_run,
                        (#[trigger] task_run.depends_on@[j])@,
                    ) is Some
            },
{
    let mut statuses: Vec<TaskRunStatus> = Vec::new();
    let depends_on = &task_run.depends_on;
    let mut i: usize = 0;
    while i < depends_on.len()
        invariant
            i <= depends_on@.len(),
            depends_on@ == task_run.depends_on@,
            statuses@ == dependency_statuses(*task_run, task_runs@).take(i as int),
            forall|j: int|
                0 <= j < i ==> dependency(
                    task_runs@,
                    *task_run,
                    (#[trigger] task_run.depends_on@[j])@,
                ) is Some,
        decreases depends_on.len() - i,
    {
        match find_dependency(task_runs, task_run, depends_on[i].as_str()) {
            Some(found) => {
                statuses.push(found.status);
            },
            None => {
                return Err(
                    MissingDependency {
                        task_id: depends_on[i].as_str().to_owned(),
                        job_run_id: task_run.job_run_id,
                    },
                );
            },
        }
        i = i + 1;
        assert(statuses@ =~= dependency_statuses(*task_run, task_runs@).take(i as int));
    }
    assert(statuses@ =~= dependency_statuses(*task_run, task_runs@));
    Ok(statuses)
}

/// Whether some dependency ended without succeeding.
pub open spec fn some_did_not_succeed(dependencies: Seq<TaskRunStatus>) -> bool {
    exists|i: int|
        0 <= i < dependencies.len() && (#[trigger] dependencies[i]).finished() && dependencies[i]
            != TaskRunStatus::Succeeded
}

/// Whether some dependency is still going.
pub open spec fn some_is_unfinished(dependencies: Seq<TaskRunStatus>) -> bool {
    exists|i: int| 0 <= i < dependencies.len() && !(#[trigger] dependencies[i]).finished()
}

/// Where a waiting task run goes: skipped if its job run was stopped or a dependency ended
/// without succeeding, waiting while one is still going, running once each has succeeded.
pub open spec fn waiting_outcome(stopped: bool, dependencies: Seq<TaskRunStatus>) -> TaskRunStatus {
    if stopped || some_did_not_succeed(dependencies) {
        TaskRunStatus::Skipped
    } else if some_is_unfinished(dependencies) {
        TaskRunStatus::Waiting
    } else {
        TaskRunStatus::Running
    }
}

/// Decides where a waiting task run goes, given where its dependencies stand. One that could
/// not be read is settled invalid, unless a stop already decides.
pub fn derive_next_status(
    stopped: bool,
    dependencies: &Result<Vec<TaskRunStatus>, MissingDependency>,
) -> (status: TaskRunStatus)
    ensures
        stopped ==> status == TaskRunStatus::Skipped,
        !stopped && dependencies is Err ==> status == TaskRunStatus::Invalid,
        dependencies matches Ok(statuses) ==> status == waiting_outcome(stopped, statuses@),
{
    if stopped {
        return TaskRunStatus::Skipped;
    }
    let statuses = match dependencies {
        Ok(statuses) => statuses,
        Err(_) => {
            return TaskRunStatus::Invalid;
        },
    };
    let mut unfinished: bool = false;
    let mut i: usize = 0;
    while i < statuses.len()
        invariant
            i <= statuses@.len(),
            *dependencies == Ok::<Vec<TaskRunStatus>, MissingDependency>(*statuses),
            unfinished == some_is_unfinished(statuses@.take(i as int)),
            forall|j: int|
                0 <= j < i && (#[trigger] statuses@[j]).finished() ==> statuses@[j]
                    == TaskRunStatus::Succeeded,
        decreases statuses.len() - i,
    {
        let status = statuses[i];
        if matches!(
            status,
            TaskRunStatus::Failed | TaskRunStatus::Skipped | TaskRunStatus::Aborted
                | TaskRunStatus::TimedOut | TaskRunStatus::Invalid
        ) {
            assert(statuses@[i as int].finished());
            return TaskRunStatus::Skipped;
        }
        let ghost before = unfinished;
        unfinished = unfinished || !status.is_finished();
        i = i + 1;
        proof {
            let now = statuses@.take(i as int);
            let earlier = statuses@.take(i - 1);
            if before {
                let j = choose|j: int| 0 <= j < earlier.len() && !(#[trigger] earlier[j]).finished();
                assert(!now[j].finished());
            }
            if !status.finished() {
                assert(!now[i - 1].finished());
            }
            if some_is_unfinished(now) && status.finished() {
                let j = choose|j: int| 0 <= j < now.len() && !(#[trigger] now[j]).finished();
                assert(!earlier[j].finished());
            }
        }
    }
    assert(statuses@.take(i as int) =~= statuses@);
    if unfinished {
        TaskRunStatus::Waiting
    } else {
        TaskRunStatus::Running
    }
}

/// What a decision writes: nothing while the task run waits; the start where it runs; else
/// the end.
pub fn record_status(status: TaskRunStatus, now: Timestamp) -> (update: Option<TaskRunUpdate>)
    requires
        !(status is Planned),
    ensures
        update is None <==> status is Waiting,
        update is Some ==> forall|task_run: TaskRun| #[trigger]
            update->0.applied_to(task_run) == (if status is Running {
                TaskRun { status, started_at: Some(now), ..task_run }
            } else {
                TaskRun { status, finished_at: Some(now), ..task_run }
            }),
{
    match status {
        TaskRunStatus::Waiting => None,
        TaskRunStatus::Running => Some(
            TaskRunUpdate {
                status: Some(TaskRunStatus::Running),
                started_at: Some(Some(now)),
                finished_at: None,
            },
        ),
        _ => Some(TaskRunUpdate::settled(status, now)),
    }
}

/// A task never starts before everything it depends on has succeeded.
pub proof fn a_task_waits_for_its_dependencies(stopped: bool, dependencies: Seq<TaskRunStatus>)
    ensures
        waiting_outcome(stopped, dependencies) == TaskRunStatus::Running ==> forall|i: int|
            0 <= i < dependencies.len() ==> #[trigger] dependencies[i] == TaskRunStatus::Succeeded,
{
    if waiting_outcome(stopped, dependencies) == TaskRunStatus::Running {
        assert forall|i: int| 0 <= i < dependencies.len() implies #[trigger] dependencies[i]
            == TaskRunStatus::Succeeded by {
            assert(dependencies[i].finished());
        }
    }
}

/// Everything downstream of a task that did not succeed is skipped, at whatever distance:
/// a task that depends on one that ended without succeeding is skipped, and a skipped task
/// is itself one that ended without succeeding.
pub proof fn a_broken_dependency_skips_what_depends_on_it(
    stopped: bool,
    dependencies: Seq<TaskRunStatus>,
    i: int,
)
    requires
        0 <= i < dependencies.len(),
        dependencies[i].finished(),
        dependencies[i] != TaskRunStatus::Succeeded,
    ensures
        waiting_outcome(stopped, dependencies) == TaskRunStatus::Skipped,
        waiting_outcome(stopped, dependencies).finished(),
        waiting_outcome(stopped, dependencies) != TaskRunStatus::Succeeded,
{
}

/// A task starts exactly when its job run was not stopped and everything it depends on has
/// succeeded; one that depends on nothing starts at once.
pub proof fn a_task_starts_exactly_when_its_dependencies_have_succeeded(
    stopped: bool,
    dependencies: Seq<TaskRunStatus>,
)
    ensures
        waiting_outcome(stopped, dependencies) == TaskRunStatus::Running <==> !stopped && forall|
            i: int,
        |
            0 <= i < dependencies.len() ==> #[trigger] dependencies[i] == TaskRunStatus::Succeeded,
        !stopped && dependencies.len() == 0 ==> waiting_outcome(stopped, dependencies)
            == TaskRunStatus::Running,
{
    if !stopped && forall|i: int|
        0 <= i < dependencies.len() ==> #[trigger] dependencies[i] == TaskRunStatus::Succeeded {
        if some_is_unfinished(dependencies) {
            let i = choose|i: int|
                0 <= i < dependencies.len() && !(#[trigger] dependencies[i]).finished();
            assert(dependencies[i] == TaskRunStatus::Succeeded);
        }
    }
    a_task_waits_for_its_dependencies(stopped, dependencies);
}

/// A task is skipped exactly when its job run was stopped or something it depends on failed,
/// was skipped, was aborted, ran out of time or could not be accounted for.
pub proof fn a_task_is_skipped_exactly_when_it_cannot_start(
    stopped: bool,
    dependencies: Seq<TaskRunStatus>,
)
    ensures
        waiting_outcome(stopped, dependencies) == TaskRunStatus::Skipped <==> stopped || exists|
            i: int,
        |
            0 <= i < dependencies.len() && ((#[trigger] dependencies[i]) is Failed
                || dependencies[i] is Skipped || dependencies[i] is Aborted
                || dependencies[i] is TimedOut || dependencies[i] is Invalid),
{
    if some_did_not_succeed(dependencies) {
        let i = choose|i: int|
            0 <= i < dependencies.len() && (#[trigger] dependencies[i]).finished()
                && dependencies[i] != TaskRunStatus::Succeeded;
        assert(dependencies[i] is Failed || dependencies[i] is Skipped || dependencies[i] is Aborted
            || dependencies[i] is TimedOut || dependencies[i] is Invalid);
    }
    if exists|i: int|
        0 <= i < dependencies.len() && ((#[trigger] dependencies[i]) is Failed
            || dependencies[i] is Skipped || dependencies[i] is Aborted
            || dependencies[i] is TimedOut || dependencies[i] is Invalid) {
        let i = choose|i: int|
            0 <= i < dependencies.len() && ((#[trigger] dependencies[i]) is Failed
                || dependencies[i] is Skipped || dependencies[i] is Aborted
                || dependencies[i] is TimedOut || dependencies[i] is Invalid);
        assert(dependencies[i].finished());
    }
}

/// A task waits exactly when its job run was not stopped, nothing it depends on ended without
/// succeeding, and something it depends on has yet to end.
pub proof fn a_task_waits_exactly_while_a_dependency_is_going(
    stopped: bool,
    dependencies: Seq<TaskRunStatus>,
)
    ensures
        waiting_outcome(stopped, dependencies) == TaskRunStatus::Waiting <==> {
            &&& !stopped
            &&& forall|i: int|
                0 <= i < dependencies.len() ==> (#[trigger] dependencies[i]) is Planned
                    || dependencies[i] is Waiting || dependencies[i] is Running
                    || dependencies[i] is Succeeded
            &&& exists|i: int|
                0 <= i < dependencies.len() && (#[trigger] dependencies[i]) !is Succeeded
        },
        waiting_outcome(stopped, dependencies) is Waiting || waiting_outcome(
            stopped,
            dependencies,
        ) is Running || waiting_outcome(stopped, dependencies) is Skipped,
{
    a_task_starts_exactly_when_its_dependencies_have_succeeded(stopped, dependencies);
    a_task_is_skipped_exactly_when_it_cannot_start(stopped, dependencies);
}

/// A dependency is the task run of the same job run that carries the task's id, wherever
/// among the task runs it stands.
pub proof fn a_dependency_is_found_by_its_task_id(
    task_runs: Seq<TaskRun>,
    task_run: TaskRun,
    task_id: Seq<char>,
    k: int,
)
    requires
        0 <= k < task_runs.len(),
        task_runs[k].job_run_id == task_run.job_run_id,
        task_runs[k].job_id@ == task_run.job_id@,
        task_runs[k].task_id@ == task_id,
        forall|j: int|
            0 <= j < k ==> !((#[trigger] task_runs[j]).job_run_id == task_run.job_run_id
                && task_runs[j].job_id@ == task_run.job_id@ && task_runs[j].task_id@ == task_id),
    ensures
        dependency(task_runs, task_run, task_id) == Some(task_runs[k]),
    decreases k,
{
    if k > 0 {
        let rest = task_runs.drop_first();
        assert(!stands_for(task_runs[0], task_run, task_id));
        assert(rest[k - 1] == task_runs[k]);
        assert forall|j: int| 0 <= j < k - 1 implies !((#[trigger] rest[j]).job_run_id
            == task_run.job_run_id && rest[j].job_id@ == task_run.job_id@ && rest[j].task_id@
            == task_id) by {
            assert(rest[j] == task_runs[j + 1]);
        }
        a_dependency_is_found_by_its_task_id(rest, task_run, task_id, k - 1);
    }
}

/// A dependency is missing exactly when no task run of the same job run carries its id.
pub proof fn a_dependency_is_missing_exactly_when_no_task_run_carries_it(
    task_runs: Seq<TaskRun>,
    task_run: TaskRun,
    task_id: Seq<char>,
)
    ensures
        dependency(task_runs, task_run, task_id) is None <==> forall|j: int|
            0 <= j < task_runs.len() ==> !((#[trigger] task_runs[j]).job_run_id
                == task_run.job_run_id && task_runs[j].job_id@ == task_run.job_id@
                && task_runs[j].task_id@ == task_id),
    decreases task_runs.len(),
{
    if task_runs.len() > 0 {
        let rest = task_runs.drop_first();
        a_dependency_is_missing_exactly_when_no_task_run_carries_it(rest, task_run, task_id);
        assert forall|j: int| 0 <= j < rest.len() implies #[trigger] rest[j] == task_runs[j + 1] by {}
        if dependency(task_runs, task_run, task_id) is None {
            assert forall|j: int| 0 <= j < task_runs.len() implies !((
            #[trigger] task_runs[j]).job_run_id == task_run.job_run_id && task_runs[j].job_id@
                == task_run.job_id@ && task_runs[j].task_id@ == task_id) by {
                if j > 0 {
                    assert(rest[j - 1] == task_runs[j]);
                }
            }
        }
        if stands_for(task_runs[0], task_run, task_id) {
            assert(task_runs[0].task_id@ == task_id);
        }
    }
}

/// What is decided of a waiting task run is written so that it reads back: a start changes
/// its status and says when it started, an end its status and when it ended, and waiting
/// changes nothing.
pub proof fn a_decision_reads_back(
    status: TaskRunStatus,
    now: Timestamp,
    update: Option<TaskRunUpdate>,
    task_run: TaskRun,
)
    requires
        !(status is Planned),
        call_ensures(record_status, (status, now), update),
    ensures
        update is None <==> status is Waiting,
        update matches Some(update) ==> {
            let after = update.applied_to(task_run);
            &&& after.status == status
            &&& after.id == task_run.id
            &&& status is Running ==> after.started_at == Some(now) && after.finished_at
                == task_run.finished_at
            &&& status.finished() ==> after.finished_at == Some(now) && after.started_at
                == task_run.started_at
        },
{
}

/// Deciding on a waiting task run starts it exactly where nobody stopped its job run, its
/// dependencies could be read, and every one of them has succeeded, if there are any.
pub proof fn a_task_run_starts_once_it_may(
    stopped: bool,
    dependencies: Result<Vec<TaskRunStatus>, MissingDependency>,
    status: TaskRunStatus,
)
    requires
        call_ensures(derive_next_status, (stopped, &dependencies), status),
    ensures
        status is Running <==> !stopped && dependencies is Ok && forall|i: int|
            0 <= i < dependencies->Ok_0@.len() ==> (#[trigger] dependencies->Ok_0@[i]) is Succeeded,
        status is Invalid <==> !stopped && dependencies is Err,
        stopped ==> status is Skipped,
{
    if let Ok(statuses) = dependencies {
        a_task_starts_exactly_when_its_dependencies_have_succeeded(stopped, statuses@);
        if status is Running {
            assert forall|i: int| 0 <= i < statuses@.len() implies (
            #[trigger] statuses@[i]) is Succeeded by {}
        }
        if !stopped && forall|i: int|
            0 <= i < statuses@.len() ==> (#[trigger] statuses@[i]) is Succeeded {
            assert forall|i: int| 0 <= i < statuses@.len() implies #[trigger] statuses@[i]
                == TaskRunStatus::Succeeded by {}
        }
    }
}

/// What a task run depends on is read in the order it names it, each from the task run of the
/// same job run that carries its id.
pub proof fn dependencies_are_read_in_order(
    task_run: TaskRun,
    task_runs: Vec<TaskRun>,
    r: Result<Vec<TaskRunStatus>, MissingDependency>,
    i: int,
    k: int,
)
    requires
        call_ensures(get_dependent_task_runs, (&task_run, &task_runs), r),
        r is Ok,
        0 <= i < task_run.depends_on@.len(),
        0 <= k < task_runs@.len(),
        task_runs@[k].job_run_id == task_run.job_run_id,
        task_runs@[k].job_id@ == task_run.job_id@,
        task_runs@[k].task_id@ == task_run.depends_on@[i]@,
        forall|j: int|
            0 <= j < k ==> !((#[trigger] task_runs@[j]).job_run_id == task_run.job_run_id
                && task_runs@[j].job_id@ == task_run.job_id@ && task_runs@[j].task_id@
                == task_run.depends_on@[i]@),
    ensures
        r->Ok_0@.len() == task_run.depends_on@.len(),
        r->Ok_0@[i] == task_runs@[k].status,
{
    a_dependency_is_found_by_its_task_id(task_runs@, task_run, task_run.depends_on@[i]@, k);
}

} // verus!
