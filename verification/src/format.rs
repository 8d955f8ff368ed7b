//! How times and durations read on a page and in a message.
use crate::text::{decimal, decimal_u64};
use crate::time::{formatted, is_date_pattern, Timestamp};
use vstd::prelude::*;
use vstd::string::*;

verus! {

/// A duration in words: hours, minutes and seconds, from the largest that is not zero on.
/// One that would be negative counts as none.
pub open spec fn duration_text(seconds: int) -> Seq<char> {
    let n = (if seconds < 0 { 0 } else { seconds }) as nat;
    let s = decimal(n % 60) + "s"@;
    if n < 60 {
        s
    } else if n < 3600 {
        decimal(n / 60) + "m "@ + s
    } else {
        decimal(n / 3600) + "h "@ + decimal(n / 60 % 60) + "m "@ + s
    }
}

/// Writes a duration.
pub fn duration(seconds: i64) -> (text: String)
    ensures
        text@ == duration_text(seconds as int),
{
    let n: u64 = if seconds < 0 { 0 } else { seconds as u64 };
    let mut s = decimal_u64(n % 60);
    s.append("s");
    if n < 60 {
        return s;
    }
    let mut text = String::new();
    if n < 3600 {
        text = decimal_u64(n / 60);
    } else {
        text = decimal_u64(n / 3600);
        text.append("h ");
        text.append(decimal_u64(n / 60 % 60).as_str());
    }
    text.append("m ");
    text.append(s.as_str());
    text
}

/// An instant as a date and a time of day in UTC, as in `2026-09-09 02:00:01`.
pub open spec fn timestamp_text(at: int) -> Seq<char> {
    formatted(at, "%Y-%m-%d %H:%M:%S"@)
}

/// Writes an instant, as a date and a time of day in UTC.
pub fn timestamp(at: &Timestamp) -> (text: String)
    ensures
        text@ == timestamp_text(at@),
{
    proof {
        lemma_is_date_pattern();
    }
    at.to_text("%Y-%m-%d %H:%M:%S")
}

proof fn lemma_is_date_pattern()
    ensures
        is_date_pattern("%Y-%m-%d %H:%M:%S"@),
{
    reveal_strlit("%Y-%m-%d %H:%M:%S");
    let pattern = "%Y-%m-%d %H:%M:%S"@;
    let late = pattern.skip(2).skip(1).skip(2).skip(1).skip(2).skip(1);
    assert(late =~= seq!['%', 'H', ':', '%', 'M', ':', '%', 'S']);
    reveal_with_fuel(is_date_pattern, 12);
}

/// Writes an instant that may not have come.
pub fn optional_timestamp(at: &Option<Timestamp>) -> (text: Option<String>)
    ensures
        text is Some <==> at is Some,
        text matches Some(text) ==> text@ == timestamp_text(at->0@),
{
    match at {
        Some(at) => Some(timestamp(at)),
        None => None,
    }
}

/// A count with its noun, which takes an `s` unless there is one of it.
pub open spec fn counted_text(n: nat, noun: Seq<char>) -> Seq<char> {
    decimal(n) + " "@ + noun + (if n == 1 { ""@ } else { "s"@ })
}

/// Writes a count with its noun.
pub fn counted(n: usize, noun: &str) -> (text: String)
    ensures
        text@ == counted_text(n as nat, noun@),
{
    let mut text = decimal_u64(n as u64);
    text.append(" ");
    text.append(noun);
    text.append(if n == 1 { "" } else { "s" });
    text
}

/// A duration is written by its hours, minutes and seconds: those that make it up, with fewer
/// than 60 seconds and 60 minutes, from the largest that is not zero on. One below zero is
/// written as none.
pub proof fn a_duration_is_written_by_its_parts(hours: nat, minutes: nat, seconds: nat)
    requires
        minutes < 60,
        seconds < 60,
    ensures
        hours > 0 ==> duration_text((hours * 3600 + minutes * 60 + seconds) as int) == decimal(hours)
            + "h "@ + decimal(minutes) + "m "@ + decimal(seconds) + "s"@,
        hours == 0 && minutes > 0 ==> duration_text((minutes * 60 + seconds) as int) == decimal(minutes)
            + "m "@ + decimal(seconds) + "s"@,
        duration_text(seconds as int) == decimal(seconds) + "s"@,
        duration_text(-(seconds as int)) == duration_text(0) || seconds == 0,
{
    let n = hours * 3600 + minutes * 60 + seconds;
    assert(n / 3600 == hours);
    assert(n / 60 == hours * 60 + minutes);
    assert((hours * 60 + minutes) % 60 == minutes);
    assert(n % 60 == seconds);
    if hours > 0 {
        assert(duration_text(n as int) =~= decimal(hours) + "h "@ + decimal(minutes) + "m "@
            + decimal(seconds) + "s"@);
    }
    if hours == 0 && minutes > 0 {
        let m = minutes * 60 + seconds;
        assert(m / 60 == minutes && m % 60 == seconds);
        assert(duration_text(m as int) =~= decimal(minutes) + "m "@ + decimal(seconds) + "s"@);
    }
}

/// A noun takes an `s` for every count but one, none at all included.
pub proof fn only_one_is_singular(n: nat, noun: Seq<char>)
    ensures
        counted_text(1, noun) == decimal(1) + " "@ + noun,
        n != 1 ==> counted_text(n, noun) == decimal(n) + " "@ + noun + "s"@,
{
    reveal_strlit("");
    assert(counted_text(1, noun) =~= decimal(1) + " "@ + noun);
}

} // verus!
