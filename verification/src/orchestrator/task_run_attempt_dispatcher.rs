//! Starting queued attempts, or deciding not to.
use crate::limits::{
    a_count_is_the_first_of_its_name, count, count_of, count_or_zero, reached,
};
use crate::models::{JobRun, TaskRun, TaskRunAttempt, TaskRunAttemptUpdate};
use crate::orchestrator::task_run_attempt_env::{
    all_configured, attempt_env, build_task_run_attempt_env, is_first_missing, is_own, stripped,
    MissingSecret,
};
use crate::status::TaskRunAttemptStatus;
use crate::text::texts;
use crate::time::Timestamp;
use crate::vars::Vars;
use vstd::prelude::*;
use vstd::string::*;

verus! {

/// What is known when a queued attempt is looked at.
#[derive(Debug)]
pub struct Admission {
    pub now: Timestamp,
    /// Whether its job run was asked to stop.
    pub stopped: bool,
    /// The ceiling on attempts anywhere, 0 for none.
    pub max_running_attempts: u32,
    pub running_attempts: u32,
    /// The named ceilings, 0 for none.
    pub concurrency_limits: Vec<(String, u32)>,
    /// How many running attempts claim each name.
    pub claimed_limit_slots: Vec<(String, u32)>,
}

/// What becomes of a queued attempt on one pass.
#[derive(Debug)]
pub enum AttemptDecision {
    /// A spawn was begun for it and never recorded: its command may be running, and must not
    /// run twice.
    Invalid,
    /// Its job run was stopped before its command started.
    Skipped,
    /// It waits for a retry's delay to pass or for room under a ceiling.
    Queued,
    /// Its command starts. The limits it claims that nothing configures bound nothing, and
    /// are named here to be warned of.
    Start { unconfigured: Vec<String> },
}

/// Which decision a pass comes to.
pub open spec fn outcome(
    attempt: TaskRunAttempt,
    task_run: TaskRun,
    admission: Admission,
) -> AttemptOutcome {
    if attempt.started_at is Some {
        AttemptOutcome::Invalid
    } else if admission.stopped {
        AttemptOutcome::Skipped
    } else if admission.makes_wait(attempt, task_run) {
        AttemptOutcome::Queued
    } else {
        AttemptOutcome::Start
    }
}

/// The four decisions, without what they carry.
#[derive(Clone, Copy, Debug, PartialEq, Eq, Structural)]
pub enum AttemptOutcome {
    Invalid,
    Skipped,
    Queued,
    Start,
}

impl AttemptDecision {
    /// Which decision this is.
    pub open spec fn outcome(&self) -> AttemptOutcome {
        match self {
            AttemptDecision::Invalid => AttemptOutcome::Invalid,
            AttemptDecision::Skipped => AttemptOutcome::Skipped,
            AttemptDecision::Queued => AttemptOutcome::Queued,
            AttemptDecision::Start { unconfigured } => AttemptOutcome::Start,
        }
    }
}

/// Whether a retry's delay has yet to pass since the attempt was created. A first attempt
/// waits for nothing.
pub open spec fn delay_is_running(attempt: TaskRunAttempt, task_run: TaskRun, now: int) -> bool {
    attempt.attempt > 1 && now < attempt.created_at@ + task_run.retry_delay * 1_000_000_000
}

/// Whether a claimed limit has no room. One that nothing configures always has: blocking on
/// it would stall the run for good.
pub open spec fn blocks(
    limit: Seq<char>,
    configured: Seq<(String, u32)>,
    claimed: Seq<(String, u32)>,
) -> bool {
    match count_of(configured, limit) {
        Some(max) => reached(count_or_zero(claimed, limit), max),
        None => false,
    }
}

/// Whether some claimed limit has no room.
pub open spec fn some_limit_blocks(
    limits: Seq<String>,
    configured: Seq<(String, u32)>,
    claimed: Seq<(String, u32)>,
) -> bool {
    exists|i: int| 0 <= i < limits.len() && blocks((#[trigger] limits[i])@, configured, claimed)
}

/// The claimed limits that nothing configures.
pub open spec fn unconfigured_limits(
    limits: Seq<String>,
    configured: Seq<(String, u32)>,
) -> Seq<Seq<char>> {
    texts(limits).filter(|limit: Seq<char>| count_of(configured, limit) is None)
}

impl Admission {
    /// Whether the attempt has to wait, for any of the three reasons there are.
    pub open spec fn makes_wait(&self, attempt: TaskRunAttempt, task_run: TaskRun) -> bool {
        ||| delay_is_running(attempt, task_run, self.now@)
        ||| reached(self.running_attempts, self.max_running_attempts)
        ||| some_limit_blocks(
            task_run.limits@,
            self.concurrency_limits@,
            self.claimed_limit_slots@,
        )
    }
}

/// Whether some limit that a task run claims is already full; if none is, the claimed limits
/// that nothing configures.
pub fn a_claimed_limit_is_full(
    limits: &Vec<String>,
    concurrency_limits: &Vec<(String, u32)>,
    claimed_limit_slots: &Vec<(String, u32)>,
) -> (r: Result<Vec<String>, ()>)
    ensures
        r is Err <==> some_limit_blocks(limits@, concurrency_limits@, claimed_limit_slots@),
        r matches Ok(unconfigured) ==> texts(unconfigured@) == unconfigured_limits(
            limits@,
            concurrency_limits@,
        ),
{
    let mut unconfigured: Vec<String> = Vec::new();
    let ghost missing = |limit: Seq<char>| count_of(concurrency_limits@, limit) is None;
    let mut i: usize = 0;
    proof {
        reveal(Seq::filter);
        assert(texts(limits@).take(0).filter(missing) =~= Seq::<Seq<char>>::empty());
        assert(texts(unconfigured@) =~= Seq::<Seq<char>>::empty());
    }
    while i < limits.len()
        invariant
            i <= limits@.len(),
            missing == (|limit: Seq<char>| count_of(concurrency_limits@, limit) is None),
            texts(unconfigured@) == texts(limits@).take(i as int).filter(missing),
            forall|j: int|
                0 <= j < i ==> !blocks(
                    (#[trigger] limits@[j])@,
                    concurrency_limits@,
                    claimed_limit_slots@,
                ),
        decreases limits.len() - i,
    {
        let limit = limits[i].as_str();
        proof {
            reveal(Seq::filter);
            assert(texts(limits@).take(i + 1).drop_last() =~= texts(limits@).take(i as int));
            assert(texts(limits@).take(i + 1).last() == limit@);
        }
        match count(concurrency_limits, limit) {
            None => {
                unconfigured.push(limit.to_owned());
                assert(texts(unconfigured@) =~= texts(limits@).take(i as int).filter(missing).push(
                    limit@,
                ));
            },
            Some(max) => {
                let claimed: u32 = match count(claimed_limit_slots, limit) {
                    Some(n) => n,
                    None => 0,
                };
                if max != 0 && claimed >= max {
                    assert(blocks(limits@[i as int]@, concurrency_limits@, claimed_limit_slots@));
                    return Err(());
                }
            },
        }
        i = i + 1;
    }
    assert(texts(limits@).take(i as int) =~= texts(limits@));
    Ok(unconfigured)
}

/// Decides what becomes of a queued attempt.
///
/// A spawn already begun is asked about first: a stop would otherwise skip the attempt,
/// claiming that nothing ran.
pub fn decide(attempt: &TaskRunAttempt, task_run: &TaskRun, admission: &Admission) -> (decision:
    AttemptDecision)
    ensures
        decision.outcome() == outcome(*attempt, *task_run, *admission),
        decision matches AttemptDecision::Start { unconfigured } ==> texts(unconfigured@)
            == unconfigured_limits(task_run.limits@, admission.concurrency_limits@),
{
    if attempt.started_at.is_some() {
        return AttemptDecision::Invalid;
    }
    if admission.stopped {
        return AttemptDecision::Skipped;
    }
    if attempt.attempt > 1 && admission.now.is_within(&attempt.created_at, task_run.retry_delay) {
        return AttemptDecision::Queued;
    }
    if admission.max_running_attempts > 0 && admission.running_attempts
        >= admission.max_running_attempts {
        return AttemptDecision::Queued;
    }
    match a_claimed_limit_is_full(
        &task_run.limits,
        &admission.concurrency_limits,
        &admission.claimed_limit_slots,
    ) {
        Err(()) => AttemptDecision::Queued,
        Ok(unconfigured) => AttemptDecision::Start { unconfigured },
    }
}

/// Everything that starting an attempt's command takes.
#[derive(Debug)]
pub struct SpawnPlan {
    /// Run by `sh -c`, in a process group of its own.
    pub command: String,
    /// Variables of the server's own that the command must not inherit.
    pub stripped: Vec<Vec<u8>>,
    /// Variables laid over what the command does inherit.
    pub env: Vars,
    /// `None` for the server's own.
    pub working_dir: Option<String>,
    /// Written before the command is spawned, so that a crash in between leaves an attempt
    /// that is never started again.
    pub intent: TaskRunAttemptUpdate,
}

/// Plans the start of an attempt, unless a secret it needs is not configured.
pub fn plan_spawn(
    attempt: &TaskRunAttempt,
    task_run: &TaskRun,
    job_run: &JobRun,
    data_dir: &str,
    secrets: &Vars,
    inherited: &Vec<Vec<u8>>,
    now: Timestamp,
) -> (r: Result<SpawnPlan, MissingSecret>)
    ensures
        r is Ok <==> all_configured(task_run.secret_env@, secrets@),
        r matches Err(missing) ==> is_first_missing(
            missing,
            task_run.secret_env@,
            secrets@,
            *attempt,
        ),
        r matches Ok(plan) ==> {
            &&& plan.command@ == task_run.command@
            &&& plan.stripped.deep_view() == inherited.deep_view().filter(
                |name: Seq<u8>| is_own(name),
            )
            &&& plan.env@ == attempt_env(*task_run, *job_run, *attempt, data_dir@, secrets@)
            &&& plan.working_dir is Some <==> task_run.working_dir@.len() > 0
            &&& plan.working_dir matches Some(dir) ==> dir@ == task_run.working_dir@
            &&& plan.intent.applied_to(*attempt) == (TaskRunAttempt {
                started_at: Some(now),
                ..*attempt
            })
        },
{
    let env = match build_task_run_attempt_env(task_run, job_run, attempt, data_dir, secrets) {
        Ok(env) => env,
        Err(missing) => {
            return Err(missing);
        },
    };
    let working_dir = if task_run.working_dir.as_str().is_empty() {
        None
    } else {
        Some(task_run.working_dir.as_str().to_owned())
    };
    Ok(
        SpawnPlan {
            command: task_run.command.as_str().to_owned(),
            stripped: stripped(inherited),
            env,
            working_dir,
            intent: TaskRunAttemptUpdate {
                status: None,
                started_at: Some(Some(now)),
                finished_at: None,
                process_group_id: None,
            },
        },
    )
}

/// How a spawn failure is described.
pub open spec fn spawn_failure(task_run: TaskRun) -> Seq<char> {
    "Failed to spawn task '"@ + task_run.task_id@ + "' in working directory "@ + (
    if task_run.working_dir@.len() == 0 {
        "the server's current directory"@
    } else {
        "'"@ + task_run.working_dir@ + "'"@
    })
}

/// Describes a spawn failure by the task and the directory it was to run in.
pub fn describe_spawn_failure(task_run: &TaskRun) -> (s: String)
    ensures
        s@ == spawn_failure(*task_run),
{
    let mut dir = String::new();
    if task_run.working_dir.as_str().is_empty() {
        dir.append("the server's current directory");
        assert(dir@ =~= "the server's current directory"@);
    } else {
        dir = "'".to_owned();
        dir.append(task_run.working_dir.as_str());
        dir.append("'");
    }
    let mut s = "Failed to spawn task '".to_owned();
    s.append(task_run.task_id.as_str());
    s.append("' in working directory ");
    s.append(dir.as_str());
    s
}

/// What to write once the command was spawned, or could not be.
///
/// `spawned` is the process id of the command, which leads its own process group. A spawn
/// that failed started nothing, so the intent is taken back and the attempt is tried again.
pub fn record_spawn(spawned: Result<Option<u32>, ()>) -> (update: TaskRunAttemptUpdate)
    ensures
        forall|attempt: TaskRunAttempt| #[trigger]
            update.applied_to(attempt) == (match spawned {
                Ok(pid) => (TaskRunAttempt {
                    status: TaskRunAttemptStatus::Running,
                    process_group_id: match pid {
                        Some(pid) => Some(pid as i64),
                        None => None,
                    },
                    ..attempt
                }),
                Err(_) => (TaskRunAttempt { started_at: None, ..attempt }),
            }),
{
    match spawned {
        Ok(pid) => {
            let group: Option<i64> = match pid {
                Some(pid) => Some(pid as i64),
                None => None,
            };
            TaskRunAttemptUpdate {
                status: Some(TaskRunAttemptStatus::Running),
                started_at: None,
                finished_at: None,
                process_group_id: Some(group),
            }
        },
        Err(_) => TaskRunAttemptUpdate {
            status: None,
            started_at: Some(None),
            finished_at: None,
            process_group_id: None,
        },
    }
}

/// What a decision other than starting writes: a status that ends the attempt, or nothing.
pub fn record_decision(decision: &AttemptDecision, now: Timestamp) -> (update: Option<
    TaskRunAttemptUpdate,
>)
    ensures
        update is Some ==> forall|attempt: TaskRunAttempt| #[trigger]
            update->0.applied_to(attempt) == (TaskRunAttempt {
                status: (if decision is Invalid {
                    TaskRunAttemptStatus::Invalid
                } else {
                    TaskRunAttemptStatus::Skipped
                }),
                finished_at: Some(now),
                ..attempt
            }),
        update is Some <==> decision is Invalid || decision is Skipped,
{
    match decision {
        AttemptDecision::Invalid => Some(
            TaskRunAttemptUpdate::settled(TaskRunAttemptStatus::Invalid, now),
        ),
        AttemptDecision::Skipped => Some(
            TaskRunAttemptUpdate::settled(TaskRunAttemptStatus::Skipped, now),
        ),
        _ => None,
    }
}

/// A command is never started twice: once the intent to start it is written, a crash before
/// the start is recorded leaves an attempt that every later pass settles invalid, whatever
/// else has come to pass.
pub proof fn a_begun_start_is_never_repeated(
    attempt: TaskRunAttempt,
    task_run: TaskRun,
    intent: TaskRunAttemptUpdate,
    started_at: Timestamp,
    later: Admission,
)
    requires
        intent.applied_to(attempt) == (TaskRunAttempt { started_at: Some(started_at), ..attempt }),
    ensures
        outcome(intent.applied_to(attempt), task_run, later) == AttemptOutcome::Invalid,
{
}

/// A spawn that failed leaves the attempt as it was before it was planned, to be tried again
/// on a later pass.
pub proof fn a_failed_start_is_withdrawn(
    attempt: TaskRunAttempt,
    intent: TaskRunAttemptUpdate,
    withdrawal: TaskRunAttemptUpdate,
    started_at: Timestamp,
)
    requires
        attempt.started_at is None,
        intent.applied_to(attempt) == (TaskRunAttempt { started_at: Some(started_at), ..attempt }),
        withdrawal.applied_to(intent.applied_to(attempt)) == (TaskRunAttempt {
            started_at: None,
            ..intent.applied_to(attempt)
        }),
    ensures
        withdrawal.applied_to(intent.applied_to(attempt)) == attempt,
{
}

/// The server's own variables never reach a command by inheritance: each of them, and
/// nothing else, is stripped.
pub proof fn own_variables_are_stripped(inherited: Seq<Seq<u8>>, name: Seq<u8>)
    ensures
        inherited.filter(|name: Seq<u8>| is_own(name)).contains(name) <==> inherited.contains(name)
            && is_own(name),
{
    let own = |name: Seq<u8>| is_own(name);
    broadcast use vstd::seq_lib::group_seq_properties;

    if inherited.contains(name) && is_own(name) {
        let i = choose|i: int| 0 <= i < inherited.len() && inherited[i] == name;
        inherited.lemma_filter_contains(own, i);
    }
    if inherited.filter(own).contains(name) {
        let kept = inherited.filter(own);
        let i = choose|i: int| 0 <= i < kept.len() && kept[i] == name;
        inherited.lemma_filter_pred(own, i);
        lemma_filter_keeps_elements(inherited, own, name);
    }
}

proof fn lemma_filter_keeps_elements<T>(s: Seq<T>, keep: spec_fn(T) -> bool, x: T)
    requires
        s.filter(keep).contains(x),
    ensures
        s.contains(x),
    decreases s.len(),
{
    reveal(Seq::filter);
    if s.len() > 0 {
        let kept = s.filter(keep);
        let i = choose|i: int| 0 <= i < kept.len() && kept[i] == x;
        if keep(s.last()) && i == kept.len() - 1 {
            assert(s[s.len() - 1] == x);
        } else {
            assert(s.drop_last().filter(keep)[i] == x);
            lemma_filter_keeps_elements(s.drop_last(), keep, x);
            let j = choose|j: int| 0 <= j < s.drop_last().len() && s.drop_last()[j] == x;
            assert(s[j] == x);
        }
    }
}

/// A limit with no ceiling, or one that nothing configures, never holds an attempt back.
pub proof fn an_unbounded_limit_never_blocks(
    limit: Seq<char>,
    configured: Seq<(String, u32)>,
    claimed: Seq<(String, u32)>,
)
    requires
        count_of(configured, limit) is None || count_of(configured, limit) == Some(0u32),
    ensures
        !blocks(limit, configured, claimed),
{
}

/// Only the time since an attempt was queued counts for its delay, and a retry waits exactly
/// as long as it has not lasted the delay, in seconds. A first attempt never waits for one.
pub proof fn a_retry_waits_out_its_delay(
    attempt: TaskRunAttempt,
    task_run: TaskRun,
    now: int,
    waited: int,
)
    requires
        waited == now - attempt.created_at@,
    ensures
        attempt.attempt > 1 ==> (delay_is_running(attempt, task_run, now) <==> waited
            < task_run.retry_delay * 1_000_000_000),
        attempt.attempt <= 1 ==> !delay_is_running(attempt, task_run, now),
{
}

/// A limit holds an attempt back exactly when it is configured with a ceiling above 0 and at
/// least as many running attempts claim it as that ceiling allows.
pub proof fn a_limit_blocks_exactly_when_it_is_used_up(
    limit: Seq<char>,
    configured: Seq<(String, u32)>,
    claimed: Seq<(String, u32)>,
    k: int,
    m: int,
)
    requires
        0 <= k < configured.len(),
        configured[k].0@ == limit,
        forall|j: int| 0 <= j < k ==> (#[trigger] configured[j]).0@ != limit,
        0 <= m <= claimed.len(),
        m < claimed.len() ==> claimed[m].0@ == limit,
        forall|j: int| 0 <= j < m ==> (#[trigger] claimed[j]).0@ != limit,
    ensures
        blocks(limit, configured, claimed) <==> {
            &&& configured[k].1 > 0
            &&& (if m < claimed.len() {
                claimed[m].1
            } else {
                0
            }) >= configured[k].1
        },
{
    a_count_is_the_first_of_its_name(configured, limit, k);
    a_count_is_the_first_of_its_name(claimed, limit, m);
}

/// A command starts exactly when no start of it was begun, nobody stopped its run, no retry
/// delay is running, and there is room under the server's ceiling and under every limit it
/// claims.
pub proof fn an_attempt_starts_exactly_when_nothing_holds_it(
    attempt: TaskRunAttempt,
    task_run: TaskRun,
    admission: Admission,
)
    ensures
        outcome(attempt, task_run, admission) is Invalid <==> attempt.started_at is Some,
        outcome(attempt, task_run, admission) is Skipped <==> attempt.started_at is None
            && admission.stopped,
        outcome(attempt, task_run, admission) is Start <==> {
            &&& attempt.started_at is None
            &&& !admission.stopped
            &&& attempt.attempt > 1 ==> admission.now@ - attempt.created_at@
                >= task_run.retry_delay * 1_000_000_000
            &&& admission.max_running_attempts > 0 ==> admission.running_attempts
                < admission.max_running_attempts
            &&& forall|i: int|
                0 <= i < task_run.limits@.len() ==> !blocks(
                    (#[trigger] task_run.limits@[i])@,
                    admission.concurrency_limits@,
                    admission.claimed_limit_slots@,
                )
        },
{
}

/// A claimed limit is named as unconfigured exactly when no ceiling has its name.
pub proof fn exactly_the_unconfigured_limits_are_named(
    limits: Seq<String>,
    configured: Seq<(String, u32)>,
    limit: Seq<char>,
)
    ensures
        unconfigured_limits(limits, configured).contains(limit) <==> texts(limits).contains(limit)
            && forall|j: int| 0 <= j < configured.len() ==> (#[trigger] configured[j]).0@ != limit,
{
    let names = texts(limits);
    let missing = |limit: Seq<char>| count_of(configured, limit) is None;
    lemma_named_exactly_when_counted(configured, limit);
    if names.contains(limit) && missing(limit) {
        let i = choose|i: int| 0 <= i < names.len() && names[i] == limit;
        names.lemma_filter_contains(missing, i);
    }
    if names.filter(missing).contains(limit) {
        let i = choose|i: int| 0 <= i < names.filter(missing).len() && names.filter(missing)[i] == limit;
        names.lemma_filter_pred(missing, i);
        lemma_filter_keeps_elements(names, missing, limit);
    }
}

proof fn lemma_named_exactly_when_counted(configured: Seq<(String, u32)>, limit: Seq<char>)
    ensures
        count_of(configured, limit) is None <==> forall|j: int|
            0 <= j < configured.len() ==> (#[trigger] configured[j]).0@ != limit,
    decreases configured.len(),
{
    if configured.len() > 0 {
        let rest = configured.drop_first();
        lemma_named_exactly_when_counted(rest, limit);
        assert forall|j: int| 0 <= j < rest.len() implies #[trigger] rest[j] == configured[j + 1] by {}
        assert forall|j: int| 0 < j < configured.len() implies #[trigger] configured[j] == rest[j
            - 1] by {}
    }
}

/// A spawn that was made leaves the attempt running in the group its process leads; one that
/// could not be takes the intent back, so that the attempt stands as it did before.
pub proof fn a_spawn_reads_back(
    pid: Option<u32>,
    spawned: TaskRunAttemptUpdate,
    failed: TaskRunAttemptUpdate,
    attempt: TaskRunAttempt,
)
    requires
        call_ensures(record_spawn, (Ok(pid),), spawned),
        call_ensures(record_spawn, (Err(()),), failed),
    ensures
        spawned.applied_to(attempt).status is Running,
        spawned.applied_to(attempt).started_at == attempt.started_at,
        pid is None ==> spawned.applied_to(attempt).process_group_id is None,
        pid matches Some(pid) ==> spawned.applied_to(attempt).process_group_id == Some(pid as i64),
        failed.applied_to(attempt) == (TaskRunAttempt { started_at: None, ..attempt }),
{
}

/// Of the decisions that start nothing, exactly those that end the attempt are written: one
/// whose start was begun reads as invalid, one whose run was stopped as skipped.
pub proof fn a_refused_start_reads_back(
    decision: AttemptDecision,
    now: Timestamp,
    update: Option<TaskRunAttemptUpdate>,
    attempt: TaskRunAttempt,
)
    requires
        call_ensures(record_decision, (&decision, now), update),
    ensures
        decision is Queued || decision is Start <==> update is None,
        update is Some ==> {
            let after = update->0.applied_to(attempt);
            &&& after.finished_at == Some(now)
            &&& decision is Invalid ==> after.status is Invalid
            &&& decision is Skipped ==> after.status is Skipped
            &&& after.started_at == attempt.started_at
        },
{
}

} // verus!
