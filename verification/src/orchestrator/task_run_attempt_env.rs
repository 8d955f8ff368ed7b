//! The environment variables an attempt's command runs with.
//!
//! They are laid over what the server itself inherited, less every `FLOWLITE_*` variable of
//! that: see `stripped`.
use crate::models::{JobRun, TaskRun, TaskRunAttempt};
use crate::text::{decimal, decimal_i64, decimal_u64, signed_decimal, to_upper, upper};
use crate::time::rfc3339_text;
use crate::vars::{the_last_entry_of_a_name_decides, with_entries, Vars};
use vstd::prelude::*;
use vstd::string::*;

verus! {

/// A variable whose value is a secret that nothing configures.
#[derive(Clone, Debug)]
pub struct MissingSecret {
    pub task_run_attempt_id: i64,
    pub variable: String,
    pub secret: String,
}

impl MissingSecret {
    /// What the error says.
    pub open spec fn says(&self) -> Seq<char> {
        "Task run attempt "@ + signed_decimal(self.task_run_attempt_id as int)
            + " needs environment variable '"@ + self.variable@ + "' from secret '"@ + self.secret@
            + "', but no such secret is configured"@
    }

    /// The error in words, naming both sides.
    pub fn message(&self) -> (s: String)
        ensures
            s@ == self.says(),
    {
        let mut s = "Task run attempt ".to_owned();
        s.append(decimal_i64(self.task_run_attempt_id).as_str());
        s.append(" needs environment variable '");
        s.append(self.variable.as_str());
        s.append("' from secret '");
        s.append(self.secret.as_str());
        s.append("', but no such secret is configured");
        s
    }
}

/// The variable a parameter reaches a command as.
pub open spec fn parameter_name(name: Seq<char>) -> Seq<char> {
    "FLOWLITE_PARAM_"@ + upper(name)
}

/// The variable a parameter reaches a command as: prefixed, so it cannot shadow a variable
/// the command needs, and in capitals.
pub fn parameter_env_name(name: &str) -> (s: String)
    ensures
        s@ == parameter_name(name@),
{
    let mut s = "FLOWLITE_PARAM_".to_owned();
    s.append(to_upper(name).as_str());
    s
}

/// Whether every secret that is asked for is configured.
pub open spec fn all_configured(
    secret_env: Seq<(String, String)>,
    secrets: Map<Seq<char>, Seq<char>>,
) -> bool {
    forall|i: int|
        0 <= i < secret_env.len() ==> secrets.contains_key((#[trigger] secret_env[i]).1@)
}

/// Variables after each that is a secret was given its value.
pub open spec fn with_secrets(
    env: Map<Seq<char>, Seq<char>>,
    secret_env: Seq<(String, String)>,
    secrets: Map<Seq<char>, Seq<char>>,
) -> Map<Seq<char>, Seq<char>>
    decreases secret_env.len(),
{
    if secret_env.len() == 0 {
        env
    } else {
        let last = secret_env.last();
        with_secrets(env, secret_env.drop_last(), secrets).insert(last.0@, secrets[last.1@])
    }
}

/// Variables after the parameters of the run were put in.
pub open spec fn with_parameters(
    env: Map<Seq<char>, Seq<char>>,
    parameters: Seq<(String, String)>,
) -> Map<Seq<char>, Seq<char>>
    decreases parameters.len(),
{
    if parameters.len() == 0 {
        env
    } else {
        let last = parameters.last();
        with_parameters(env, parameters.drop_last()).insert(parameter_name(last.0@), last.1@)
    }
}

/// Variables after the facts about the run were put in, the instant it fired for taken out
/// where it has none.
pub open spec fn with_metadata(
    env: Map<Seq<char>, Seq<char>>,
    task_run: TaskRun,
    job_run: JobRun,
    attempt: TaskRunAttempt,
    data_dir: Seq<char>,
) -> Map<Seq<char>, Seq<char>> {
    let env = env.insert("FLOWLITE_DATA_DIR"@, data_dir).insert(
        "FLOWLITE_JOB_ID"@,
        job_run.job_id@,
    ).insert("FLOWLITE_JOB_RUN_ID"@, signed_decimal(job_run.id as int)).insert(
        "FLOWLITE_TASK_ID"@,
        task_run.task_id@,
    ).insert("FLOWLITE_TASK_RUN_ID"@, signed_decimal(task_run.id as int)).insert(
        "FLOWLITE_TASK_RUN_ATTEMPT_ID"@,
        signed_decimal(attempt.id as int),
    ).insert("FLOWLITE_ATTEMPT"@, decimal(attempt.attempt as nat));
    match job_run.scheduled_at {
        Some(at) => env.insert("FLOWLITE_SCHEDULED_AT"@, rfc3339_text(at@)),
        None => env.remove("FLOWLITE_SCHEDULED_AT"@),
    }
}

/// The variables of an attempt: the task's own, then its secrets, then the run's parameters,
/// then the facts about the run, a later layer winning over an earlier one.
pub open spec fn attempt_env(
    task_run: TaskRun,
    job_run: JobRun,
    attempt: TaskRunAttempt,
    data_dir: Seq<char>,
    secrets: Map<Seq<char>, Seq<char>>,
) -> Map<Seq<char>, Seq<char>> {
    let own = with_entries(Map::empty(), task_run.env@);
    let secret = with_secrets(own, task_run.secret_env@, secrets);
    let parameters = with_parameters(secret, job_run.parameters@);
    with_metadata(parameters, task_run, job_run, attempt, data_dir)
}

/// Whether an error names the first secret of a list that nothing configures.
pub open spec fn is_first_missing(
    missing: MissingSecret,
    secret_env: Seq<(String, String)>,
    secrets: Map<Seq<char>, Seq<char>>,
    attempt: TaskRunAttempt,
) -> bool {
    exists|i: int|
        {
            &&& 0 <= i < secret_env.len()
            &&& all_configured(secret_env.take(i), secrets)
            &&& missing.task_run_attempt_id == attempt.id
            &&& missing.variable@ == (#[trigger] secret_env[i]).0@
            &&& missing.secret@ == secret_env[i].1@
            &&& !secrets.contains_key(missing.secret@)
        }
}

/// Composes the variables of an attempt, or names the first secret that nothing configures.
pub fn build_task_run_attempt_env(
    task_run: &TaskRun,
    job_run: &JobRun,
    task_run_attempt: &TaskRunAttempt,
    data_dir: &str,
    secrets: &Vars,
) -> (r: Result<Vars, MissingSecret>)
    ensures
        r is Ok <==> all_configured(task_run.secret_env@, secrets@),
        r matches Ok(env) ==> env@ == attempt_env(
            *task_run,
            *job_run,
            *task_run_attempt,
            data_dir@,
            secrets@,
        ),
        r matches Err(missing) ==> is_first_missing(
            missing,
            task_run.secret_env@,
            secrets@,
            *task_run_attempt,
        ),
{
    let mut env = Vars::from_entries(&task_run.env);
    let ghost own = env@;
    let secret_env = &task_run.secret_env;
    let mut i: usize = 0;
    assert(secret_env@.take(0) =~= Seq::empty());
    while i < secret_env.len()
        invariant
            i <= secret_env@.len(),
            secret_env@ == task_run.secret_env@,
            all_configured(secret_env@.take(i as int), secrets@),
            env@ == with_secrets(own, secret_env@.take(i as int), secrets@),
        decreases secret_env.len() - i,
    {
        let name = secret_env[i].0.as_str();
        let secret_name = secret_env[i].1.as_str();
        match secrets.get(secret_name) {
            Some(value) => {
                env.insert(name, value.as_str());
            },
            None => {
                return Err(
                    MissingSecret {
                        task_run_attempt_id: task_run_attempt.id,
                        variable: name.to_owned(),
                        secret: secret_name.to_owned(),
                    },
                );
            },
        }
        i = i + 1;
        assert(secret_env@.take(i as int).drop_last() =~= secret_env@.take(i - 1));
        assert forall|j: int| 0 <= j < i implies secrets@.contains_key(
            (#[trigger] secret_env@.take(i as int)[j]).1@,
        ) by {
            if j < i - 1 {
                assert(secret_env@.take(i - 1)[j] == secret_env@.take(i as int)[j]);
            }
        }
    }
    assert(secret_env@.take(i as int) =~= secret_env@);
    let ghost with_secret = env@;
    let parameters = &job_run.parameters;
    let mut k: usize = 0;
    assert(parameters@.take(0) =~= Seq::empty());
    while k < parameters.len()
        invariant
            k <= parameters@.len(),
            env@ == with_parameters(with_secret, parameters@.take(k as int)),
        decreases parameters.len() - k,
    {
        env.insert(parameter_env_name(parameters[k].0.as_str()).as_str(), parameters[k].1.as_str());
        k = k + 1;
        assert(parameters@.take(k as int).drop_last() =~= parameters@.take(k - 1));
    }
    assert(parameters@.take(k as int) =~= parameters@);
    env.insert("FLOWLITE_DATA_DIR", data_dir);
    env.insert("FLOWLITE_JOB_ID", job_run.job_id.as_str());
    env.insert("FLOWLITE_JOB_RUN_ID", decimal_i64(job_run.id).as_str());
    env.insert("FLOWLITE_TASK_ID", task_run.task_id.as_str());
    env.insert("FLOWLITE_TASK_RUN_ID", decimal_i64(task_run.id).as_str());
    env.insert("FLOWLITE_TASK_RUN_ATTEMPT_ID", decimal_i64(task_run_attempt.id).as_str());
    env.insert("FLOWLITE_ATTEMPT", decimal_u64(task_run_attempt.attempt as u64).as_str());
    match job_run.scheduled_at {
        Some(at) => {
            env.insert("FLOWLITE_SCHEDULED_AT", at.to_rfc3339().as_str());
        },
        None => {
            env.remove("FLOWLITE_SCHEDULED_AT");
        },
    }
    Ok(env)
}

/// A name that the server keeps for the facts about a run.
pub open spec fn is_metadata(name: Seq<char>) -> bool {
    ||| name == "FLOWLITE_DATA_DIR"@
    ||| name == "FLOWLITE_JOB_ID"@
    ||| name == "FLOWLITE_JOB_RUN_ID"@
    ||| name == "FLOWLITE_TASK_ID"@
    ||| name == "FLOWLITE_TASK_RUN_ID"@
    ||| name == "FLOWLITE_TASK_RUN_ATTEMPT_ID"@
    ||| name == "FLOWLITE_ATTEMPT"@
    ||| name == "FLOWLITE_SCHEDULED_AT"@
}

proof fn lemma_metadata_names()
    ensures
        forall|name: Seq<char>| #[trigger] is_metadata(name) ==> "FLOWLITE_"@.is_prefix_of(name),
        forall|name: Seq<char>| !is_metadata(#[trigger] parameter_name(name)),
        forall|name: Seq<char>| "FLOWLITE_"@.is_prefix_of(#[trigger] parameter_name(name)),
{
    reveal_strlit("FLOWLITE_DATA_DIR");
    reveal_strlit("FLOWLITE_JOB_ID");
    reveal_strlit("FLOWLITE_JOB_RUN_ID");
    reveal_strlit("FLOWLITE_TASK_ID");
    reveal_strlit("FLOWLITE_TASK_RUN_ID");
    reveal_strlit("FLOWLITE_TASK_RUN_ATTEMPT_ID");
    reveal_strlit("FLOWLITE_ATTEMPT");
    reveal_strlit("FLOWLITE_SCHEDULED_AT");
    reveal_strlit("FLOWLITE_");
    reveal_strlit("FLOWLITE_PARAM_");
    assert("FLOWLITE_DATA_DIR"@[9] == 'D');
    assert("FLOWLITE_JOB_ID"@[9] == 'J');
    assert("FLOWLITE_JOB_RUN_ID"@[9] == 'J');
    assert("FLOWLITE_TASK_ID"@[9] == 'T');
    assert("FLOWLITE_TASK_RUN_ID"@[9] == 'T');
    assert("FLOWLITE_TASK_RUN_ATTEMPT_ID"@[9] == 'T');
    assert("FLOWLITE_ATTEMPT"@[9] == 'A');
    assert("FLOWLITE_SCHEDULED_AT"@[9] == 'S');
    assert("FLOWLITE_"@.is_prefix_of("FLOWLITE_DATA_DIR"@));
    assert("FLOWLITE_"@.is_prefix_of("FLOWLITE_JOB_ID"@));
    assert("FLOWLITE_"@.is_prefix_of("FLOWLITE_JOB_RUN_ID"@));
    assert("FLOWLITE_"@.is_prefix_of("FLOWLITE_TASK_ID"@));
    assert("FLOWLITE_"@.is_prefix_of("FLOWLITE_TASK_RUN_ID"@));
    assert("FLOWLITE_"@.is_prefix_of("FLOWLITE_TASK_RUN_ATTEMPT_ID"@));
    assert("FLOWLITE_"@.is_prefix_of("FLOWLITE_ATTEMPT"@));
    assert("FLOWLITE_"@.is_prefix_of("FLOWLITE_SCHEDULED_AT"@));
    assert("FLOWLITE_PARAM_"@[9] == 'P');
    assert("FLOWLITE_"@.is_prefix_of("FLOWLITE_PARAM_"@));
    assert forall|name: Seq<char>| !is_metadata(#[trigger] parameter_name(name)) by {
        assert(parameter_name(name)[9] == 'P');
    }
    assert forall|name: Seq<char>| "FLOWLITE_"@.is_prefix_of(
        #[trigger] parameter_name(name),
    ) by {
        assert("FLOWLITE_"@ =~= parameter_name(name).take(9));
    }
}

/// Nothing a user writes can make a command lie about which run it belongs to: the facts
/// about the run win over every other layer.
pub proof fn metadata_wins(
    task_run: TaskRun,
    job_run: JobRun,
    attempt: TaskRunAttempt,
    data_dir: Seq<char>,
    secrets: Map<Seq<char>, Seq<char>>,
)
    ensures
        ({
            let env = attempt_env(task_run, job_run, attempt, data_dir, secrets);
            &&& env.contains_pair("FLOWLITE_DATA_DIR"@, data_dir)
            &&& env.contains_pair("FLOWLITE_JOB_ID"@, job_run.job_id@)
            &&& env.contains_pair("FLOWLITE_JOB_RUN_ID"@, signed_decimal(job_run.id as int))
            &&& env.contains_pair("FLOWLITE_TASK_ID"@, task_run.task_id@)
            &&& env.contains_pair("FLOWLITE_TASK_RUN_ID"@, signed_decimal(task_run.id as int))
            &&& env.contains_pair(
                "FLOWLITE_TASK_RUN_ATTEMPT_ID"@,
                signed_decimal(attempt.id as int),
            )
            &&& env.contains_pair("FLOWLITE_ATTEMPT"@, decimal(attempt.attempt as nat))
        }),
{
    reveal_strlit("FLOWLITE_DATA_DIR");
    reveal_strlit("FLOWLITE_JOB_ID");
    reveal_strlit("FLOWLITE_JOB_RUN_ID");
    reveal_strlit("FLOWLITE_TASK_ID");
    reveal_strlit("FLOWLITE_TASK_RUN_ID");
    reveal_strlit("FLOWLITE_TASK_RUN_ATTEMPT_ID");
    reveal_strlit("FLOWLITE_ATTEMPT");
    reveal_strlit("FLOWLITE_SCHEDULED_AT");
    assert("FLOWLITE_DATA_DIR"@.len() == 17);
    assert("FLOWLITE_JOB_ID"@.len() == 15);
    assert("FLOWLITE_JOB_RUN_ID"@.len() == 19);
    assert("FLOWLITE_TASK_ID"@.len() == 16);
    assert("FLOWLITE_TASK_RUN_ID"@.len() == 20);
    assert("FLOWLITE_TASK_RUN_ATTEMPT_ID"@.len() == 28);
    assert("FLOWLITE_ATTEMPT"@.len() == 16);
    assert("FLOWLITE_SCHEDULED_AT"@.len() == 21);
    assert("FLOWLITE_TASK_ID"@[9] == 'T');
    assert("FLOWLITE_ATTEMPT"@[9] == 'A');
}

/// A run a schedule fired carries the instant it fired for; another carries no such variable
/// at all, whatever its task's own variables claim.
pub proof fn only_a_scheduled_run_has_an_instant(
    task_run: TaskRun,
    job_run: JobRun,
    attempt: TaskRunAttempt,
    data_dir: Seq<char>,
    secrets: Map<Seq<char>, Seq<char>>,
)
    ensures
        ({
            let env = attempt_env(task_run, job_run, attempt, data_dir, secrets);
            match job_run.scheduled_at {
                Some(at) => env.contains_pair("FLOWLITE_SCHEDULED_AT"@, rfc3339_text(at@)),
                None => !env.contains_key("FLOWLITE_SCHEDULED_AT"@),
            }
        }),
{
}

proof fn lemma_secret_in_layer(
    env: Map<Seq<char>, Seq<char>>,
    secret_env: Seq<(String, String)>,
    secrets: Map<Seq<char>, Seq<char>>,
    i: int,
)
    requires
        0 <= i < secret_env.len(),
        forall|j: int| i < j < secret_env.len() ==> (#[trigger] secret_env[j]).0@ != secret_env[i].0@,
    ensures
        with_secrets(env, secret_env, secrets).contains_pair(
            secret_env[i].0@,
            secrets[secret_env[i].1@],
        ),
    decreases secret_env.len(),
{
    if i < secret_env.len() - 1 {
        assert(secret_env.last().0@ != secret_env[i].0@);
        lemma_secret_in_layer(env, secret_env.drop_last(), secrets, i);
    }
}

proof fn lemma_parameters_leave(
    env: Map<Seq<char>, Seq<char>>,
    parameters: Seq<(String, String)>,
    name: Seq<char>,
)
    requires
        !"FLOWLITE_"@.is_prefix_of(name),
    ensures
        with_parameters(env, parameters).contains_key(name) == env.contains_key(name),
        with_parameters(env, parameters)[name] == env[name],
    decreases parameters.len(),
{
    lemma_metadata_names();
    if parameters.len() > 0 {
        lemma_parameters_leave(env, parameters.drop_last(), name);
        assert("FLOWLITE_"@.is_prefix_of(parameter_name(parameters.last().0@)));
    }
}

/// A variable that is a secret has the secret's value: neither the task's own variables nor
/// the run's parameters can shadow it.
///
/// Names under `FLOWLITE_` are the server's own and are left out; `i` is the last entry of
/// its name.
pub proof fn a_secret_wins_over_plain_values(
    task_run: TaskRun,
    job_run: JobRun,
    attempt: TaskRunAttempt,
    data_dir: Seq<char>,
    secrets: Map<Seq<char>, Seq<char>>,
    i: int,
)
    requires
        0 <= i < task_run.secret_env@.len(),
        forall|j: int|
            i < j < task_run.secret_env@.len() ==> (#[trigger] task_run.secret_env@[j]).0@
                != task_run.secret_env@[i].0@,
        !"FLOWLITE_"@.is_prefix_of(task_run.secret_env@[i].0@),
    ensures
        attempt_env(task_run, job_run, attempt, data_dir, secrets).contains_pair(
            task_run.secret_env@[i].0@,
            secrets[task_run.secret_env@[i].1@],
        ),
{
    let name = task_run.secret_env@[i].0@;
    let own = with_entries(Map::empty(), task_run.env@);
    let secret = with_secrets(own, task_run.secret_env@, secrets);
    lemma_secret_in_layer(own, task_run.secret_env@, secrets, i);
    lemma_parameters_leave(secret, job_run.parameters@, name);
    lemma_metadata_names();
    assert(!is_metadata(name));
}

proof fn lemma_parameter_in_layer(
    env: Map<Seq<char>, Seq<char>>,
    parameters: Seq<(String, String)>,
    i: int,
)
    requires
        0 <= i < parameters.len(),
        forall|j: int|
            i < j < parameters.len() ==> parameter_name((#[trigger] parameters[j]).0@)
                != parameter_name(parameters[i].0@),
    ensures
        with_parameters(env, parameters).contains_pair(
            parameter_name(parameters[i].0@),
            parameters[i].1@,
        ),
    decreases parameters.len(),
{
    if i < parameters.len() - 1 {
        assert(parameter_name(parameters.last().0@) != parameter_name(parameters[i].0@));
        lemma_parameter_in_layer(env, parameters.drop_last(), i);
    }
}

/// A parameter reaches the command under its own variable, whatever the task's variables and
/// secrets say, and never under one of the server's: `i` is the last parameter of its
/// variable.
pub proof fn a_parameter_wins_over_the_task(
    task_run: TaskRun,
    job_run: JobRun,
    attempt: TaskRunAttempt,
    data_dir: Seq<char>,
    secrets: Map<Seq<char>, Seq<char>>,
    i: int,
)
    requires
        0 <= i < job_run.parameters@.len(),
        forall|j: int|
            i < j < job_run.parameters@.len() ==> parameter_name(
                (#[trigger] job_run.parameters@[j]).0@,
            ) != parameter_name(job_run.parameters@[i].0@),
    ensures
        attempt_env(task_run, job_run, attempt, data_dir, secrets).contains_pair(
            parameter_name(job_run.parameters@[i].0@),
            job_run.parameters@[i].1@,
        ),
        !is_metadata(parameter_name(job_run.parameters@[i].0@)),
{
    let own = with_entries(Map::empty(), task_run.env@);
    let secret = with_secrets(own, task_run.secret_env@, secrets);
    lemma_parameter_in_layer(secret, job_run.parameters@, i);
    lemma_metadata_names();
}

/// Whether a variable of the server's own environment is kept from its commands.
pub open spec fn is_own(name: Seq<u8>) -> bool {
    FLOWLITE_PREFIX@.is_prefix_of(name)
}

/// The bytes every variable of the server's own begins with: `FLOWLITE_`.
pub const FLOWLITE_PREFIX: [u8; 9] = [70, 76, 79, 87, 76, 73, 84, 69, 95];

/// Whether a variable of the server's own environment is kept from its commands. A name is
/// matched as bytes, since it need not be text.
pub fn is_own_name(name: &[u8]) -> (b: bool)
    ensures
        b == is_own(name@),
{
    let prefix: [u8; 9] = FLOWLITE_PREFIX;
    if name.len() < 9 {
        return false;
    }
    let mut i: usize = 0;
    while i < 9
        invariant
            i <= 9 <= name@.len(),
            prefix@ == FLOWLITE_PREFIX@,
            forall|j: int| 0 <= j < i ==> name@[j] == #[trigger] prefix@[j],
        decreases 9 - i,
    {
        if name[i] != prefix[i] {
            assert(name@.take(9)[i as int] != prefix@[i as int]);
            return false;
        }
        i = i + 1;
    }
    assert(FLOWLITE_PREFIX@ =~= name@.take(9));
    true
}

/// Picks the variables out of the server's environment that its commands must not inherit.
pub fn stripped(inherited: &Vec<Vec<u8>>) -> (names: Vec<Vec<u8>>)
    ensures
        names.deep_view() == inherited.deep_view().filter(|name: Seq<u8>| is_own(name)),
{
    let mut names: Vec<Vec<u8>> = Vec::new();
    let mut i: usize = 0;
    let ghost all = inherited.deep_view();
    let ghost own = |name: Seq<u8>| is_own(name);
    assert(all.take(0).filter(own) =~= Seq::<Seq<u8>>::empty()) by {
        reveal(Seq::filter);
    }
    assert(names.deep_view() =~= Seq::<Seq<u8>>::empty());
    while i < inherited.len()
        invariant
            i <= inherited@.len(),
            all == inherited.deep_view(),
            own == (|name: Seq<u8>| is_own(name)),
            names.deep_view() == all.take(i as int).filter(own),
        decreases inherited.len() - i,
    {
        proof {
            reveal(Seq::filter);
            assert(all.take(i + 1).drop_last() =~= all.take(i as int));
            assert(all.take(i + 1).last() == inherited@[i as int].deep_view());
            assert(inherited@[i as int].deep_view() =~= inherited@[i as int]@);
        }
        let ghost before = names@;
        if is_own_name(inherited[i].as_slice()) {
            let name: Vec<u8> = inherited[i].clone();
            assert(name@ =~= inherited@[i as int]@);
            assert(name.deep_view() =~= name@);
            names.push(name);
            assert(names.deep_view() =~= all.take(i as int).filter(own).push(name.deep_view()));
        }
        i = i + 1;
    }
    assert(all.take(i as int) =~= all);
    names
}

proof fn lemma_secrets_leave(
    env: Map<Seq<char>, Seq<char>>,
    secret_env: Seq<(String, String)>,
    secrets: Map<Seq<char>, Seq<char>>,
    name: Seq<char>,
)
    requires
        forall|j: int| 0 <= j < secret_env.len() ==> (#[trigger] secret_env[j]).0@ != name,
    ensures
        with_secrets(env, secret_env, secrets).contains_key(name) == env.contains_key(name),
        with_secrets(env, secret_env, secrets)[name] == env[name],
    decreases secret_env.len(),
{
    if secret_env.len() > 0 {
        let before = secret_env.drop_last();
        assert(secret_env.last() == secret_env[secret_env.len() - 1]);
        assert forall|j: int| 0 <= j < before.len() implies (#[trigger] before[j]).0@ != name by {
            assert(before[j] == secret_env[j]);
        }
        lemma_secrets_leave(env, before, secrets, name);
    }
}

proof fn lemma_other_parameters_leave(
    env: Map<Seq<char>, Seq<char>>,
    parameters: Seq<(String, String)>,
    name: Seq<char>,
)
    requires
        forall|j: int|
            0 <= j < parameters.len() ==> parameter_name((#[trigger] parameters[j]).0@) != name,
    ensures
        with_parameters(env, parameters).contains_key(name) == env.contains_key(name),
        with_parameters(env, parameters)[name] == env[name],
    decreases parameters.len(),
{
    if parameters.len() > 0 {
        let before = parameters.drop_last();
        assert(parameters.last() == parameters[parameters.len() - 1]);
        assert forall|j: int| 0 <= j < before.len() implies parameter_name(
            (#[trigger] before[j]).0@,
        ) != name by {
            assert(before[j] == parameters[j]);
        }
        lemma_other_parameters_leave(env, before, name);
    }
}

/// A variable of the task's own reaches the command with its value, unless a secret, a
/// parameter or a fact about the run has the same name: `i` is the last entry of its name.
pub proof fn a_plain_value_reaches_the_command(
    task_run: TaskRun,
    job_run: JobRun,
    attempt: TaskRunAttempt,
    data_dir: Seq<char>,
    secrets: Map<Seq<char>, Seq<char>>,
    i: int,
)
    requires
        0 <= i < task_run.env@.len(),
        forall|j: int|
            i < j < task_run.env@.len() ==> (#[trigger] task_run.env@[j]).0@
                != task_run.env@[i].0@,
        forall|j: int|
            0 <= j < task_run.secret_env@.len() ==> (#[trigger] task_run.secret_env@[j]).0@
                != task_run.env@[i].0@,
        forall|j: int|
            0 <= j < job_run.parameters@.len() ==> parameter_name(
                (#[trigger] job_run.parameters@[j]).0@,
            ) != task_run.env@[i].0@,
        !is_metadata(task_run.env@[i].0@),
    ensures
        attempt_env(task_run, job_run, attempt, data_dir, secrets).contains_pair(
            task_run.env@[i].0@,
            task_run.env@[i].1@,
        ),
{
    let name = task_run.env@[i].0@;
    let own = with_entries(Map::empty(), task_run.env@);
    let secret = with_secrets(own, task_run.secret_env@, secrets);
    the_last_entry_of_a_name_decides(Map::empty(), task_run.env@, name, i);
    lemma_secrets_leave(own, task_run.secret_env@, secrets, name);
    lemma_other_parameters_leave(secret, job_run.parameters@, name);
}

/// Nothing else reaches the command from the server: a variable that is none of the task's own,
/// no secret's, no parameter's and no fact about the run is not set.
pub proof fn nothing_else_reaches_the_command(
    task_run: TaskRun,
    job_run: JobRun,
    attempt: TaskRunAttempt,
    data_dir: Seq<char>,
    secrets: Map<Seq<char>, Seq<char>>,
    name: Seq<char>,
)
    requires
        forall|j: int|
            0 <= j < task_run.env@.len() ==> (#[trigger] task_run.env@[j]).0@ != name,
        forall|j: int|
            0 <= j < task_run.secret_env@.len() ==> (#[trigger] task_run.secret_env@[j]).0@
                != name,
        forall|j: int|
            0 <= j < job_run.parameters@.len() ==> parameter_name(
                (#[trigger] job_run.parameters@[j]).0@,
            ) != name,
        !is_metadata(name),
    ensures
        !attempt_env(task_run, job_run, attempt, data_dir, secrets).contains_key(name),
{
    let own = with_entries(Map::empty(), task_run.env@);
    let secret = with_secrets(own, task_run.secret_env@, secrets);
    the_last_entry_of_a_name_decides(Map::empty(), task_run.env@, name, -1);
    lemma_secrets_leave(own, task_run.secret_env@, secrets, name);
    lemma_other_parameters_leave(secret, job_run.parameters@, name);
}

/// A parameter's variable is its name in capitals behind the server's own prefix: two
/// parameters share one exactly where their names differ in the case of letters alone.
pub proof fn a_parameter_is_named_in_capitals(a: Seq<char>, b: Seq<char>)
    ensures
        parameter_name(a) == "FLOWLITE_PARAM_"@ + upper(a),
        parameter_name(a) == parameter_name(b) <==> upper(a) == upper(b),
{
    let prefix = "FLOWLITE_PARAM_"@;
    assert(parameter_name(a).skip(prefix.len() as int) =~= upper(a));
    assert(parameter_name(b).skip(prefix.len() as int) =~= upper(b));
}

/// A start is planned exactly where every secret it asks for is configured; where one is not,
/// the error names the first of those, and the variable that asks for it.
pub proof fn the_first_missing_secret_is_named(
    task_run: TaskRun,
    job_run: JobRun,
    attempt: TaskRunAttempt,
    data_dir: &str,
    secrets: Vars,
    r: Result<Vars, MissingSecret>,
    i: int,
)
    requires
        call_ensures(
            build_task_run_attempt_env,
            (&task_run, &job_run, &attempt, data_dir, &secrets),
            r,
        ),
        0 <= i < task_run.secret_env@.len(),
        !secrets@.contains_key(task_run.secret_env@[i].1@),
        forall|j: int|
            0 <= j < i ==> secrets@.contains_key((#[trigger] task_run.secret_env@[j]).1@),
    ensures
        r is Err,
        r->Err_0.variable@ == task_run.secret_env@[i].0@,
        r->Err_0.secret@ == task_run.secret_env@[i].1@,
        r->Err_0.task_run_attempt_id == attempt.id,
{
    let missing = r->Err_0;
    let list = task_run.secret_env@;
    let k = choose|k: int|
        {
            &&& 0 <= k < list.len()
            &&& all_configured(list.take(k), secrets@)
            &&& missing.task_run_attempt_id == attempt.id
            &&& missing.variable@ == (#[trigger] list[k]).0@
            &&& missing.secret@ == list[k].1@
            &&& !secrets@.contains_key(missing.secret@)
        };
    if i < k {
        assert(list.take(k)[i] == list[i]);
    }
}

} // verus!
