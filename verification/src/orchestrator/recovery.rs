//! Settling what an earlier run of the server left running.
use crate::models::{TaskRunAttempt, TaskRunAttemptUpdate};
use crate::status::TaskRunAttemptStatus;
use crate::text::{find_line_after_prefix, line_after_prefix, parse_i64, parsed_i64, trim, trimmed};
use crate::time::{Timestamp, MAX_SECONDS, MIN_SECONDS};
use vstd::prelude::*;

verus! {

/// Which process group of an orphaned attempt may be killed.
///
/// A group id is a number that is handed out again, so a kill is made only where it cannot
/// have been: the attempt started since the machine last booted. Where either instant is not
/// known nothing is killed.
pub open spec fn killable(attempt: TaskRunAttempt, system_boot_time: Option<Timestamp>) -> Option<
    i64,
> {
    match (attempt.process_group_id, attempt.started_at, system_boot_time) {
        (Some(group), Some(started_at), Some(boot)) => if started_at@ >= boot@ {
            Some(group)
        } else {
            None
        },
        _ => None,
    }
}

/// Tells which process group of an orphaned attempt is to be killed, if any.
pub fn orphan_process_group(
    attempt: &TaskRunAttempt,
    system_boot_time: &Option<Timestamp>,
) -> (group: Option<i64>)
    ensures
        group == killable(*attempt, *system_boot_time),
{
    let process_group_id: i64 = match attempt.process_group_id {
        Some(group) => group,
        None => {
            return None;
        },
    };
    match (attempt.started_at, system_boot_time) {
        (Some(started_at), Some(boot)) => {
            if started_at.is_before(boot) {
                None
            } else {
                Some(process_group_id)
            }
        },
        _ => None,
    }
}

/// What to do about one attempt that was left running.
#[derive(Clone, Copy, Debug)]
pub struct Recovery {
    /// The process group to kill first.
    pub kill: Option<i64>,
    /// Written whether or not the kill was made: what the command had done by then is not
    /// known.
    pub update: TaskRunAttemptUpdate,
}

/// Decides what to do about an attempt that was left running.
pub fn recover_orphaned_task_run_attempt(
    attempt: &TaskRunAttempt,
    system_boot_time: &Option<Timestamp>,
    now: Timestamp,
) -> (recovery: Recovery)
    ensures
        recovery.kill == killable(*attempt, *system_boot_time),
        recovery.update.applied_to(*attempt) == (TaskRunAttempt {
            status: TaskRunAttemptStatus::Invalid,
            finished_at: Some(now),
            ..*attempt
        }),
{
    Recovery {
        kill: orphan_process_group(attempt, system_boot_time),
        update: TaskRunAttemptUpdate::settled(TaskRunAttemptStatus::Invalid, now),
    }
}

/// The seconds since 1970 that the machine's statistics give as its boot: what is written
/// behind `btime` on the first line that begins with it.
pub open spec fn boot_seconds(stat: Seq<char>) -> Option<int> {
    match line_after_prefix(stat, 0, "btime "@) {
        Some(rest) => parsed_i64(trimmed(rest)),
        None => None,
    }
}

/// Reads when the machine last booted out of the text of `/proc/stat`.
pub fn boot_time(stat: &str) -> (r: Option<Timestamp>)
    ensures
        r is Some <==> boot_seconds(stat@) is Some && MIN_SECONDS <= boot_seconds(stat@)->0
            <= MAX_SECONDS,
        r matches Some(at) ==> at@ == boot_seconds(stat@)->0 * 1_000_000_000,
{
    match find_line_after_prefix(stat, "btime ") {
        Some(rest) => match parse_i64(trim(rest.as_str()).as_str()) {
            Some(seconds) => Timestamp::new(seconds, 0),
            None => None,
        },
        None => None,
    }
}

/// Nothing is signalled for an attempt from before the machine last booted.
pub proof fn an_attempt_from_before_the_boot_kills_nothing(
    attempt: TaskRunAttempt,
    boot: Timestamp,
)
    requires
        attempt.started_at matches Some(started_at) ==> started_at@ < boot@,
    ensures
        killable(attempt, Some(boot)) is None,
{
}

/// A process group is killed exactly where it is known and the attempt is known to have
/// started since the machine last booted, the instant of the boot included; and it is that
/// group and no other.
pub proof fn only_a_group_of_this_boot_is_killed(
    attempt: TaskRunAttempt,
    boot: Option<Timestamp>,
    group: i64,
)
    ensures
        killable(attempt, boot) == Some(group) <==> {
            &&& attempt.process_group_id == Some(group)
            &&& attempt.started_at is Some
            &&& boot is Some
            &&& attempt.started_at->0@ - boot->0@ >= 0
        },
{
}

/// An orphaned attempt is settled invalid, whether or not anything is killed for it, and only
/// its own process group is, where the attempt is known to have started since the boot.
pub proof fn an_orphan_is_settled_invalid(
    attempt: TaskRunAttempt,
    boot: Option<Timestamp>,
    now: Timestamp,
    recovery: Recovery,
)
    requires
        call_ensures(recover_orphaned_task_run_attempt, (&attempt, &boot, now), recovery),
    ensures
        recovery.update.applied_to(attempt).status is Invalid,
        recovery.update.applied_to(attempt).finished_at == Some(now),
        recovery.update.applied_to(attempt).started_at == attempt.started_at,
        recovery.kill matches Some(group) ==> attempt.process_group_id == Some(group)
            && attempt.started_at is Some && boot is Some && attempt.started_at->0@ >= boot->0@,
        attempt.process_group_id is Some && attempt.started_at is Some && boot is Some
            && attempt.started_at->0@ >= boot->0@ ==> recovery.kill == attempt.process_group_id,
{
}

} // verus!
