//! Instants, to the nanosecond.
use vstd::prelude::*;

verus! {

/// The first second a `Timestamp` can hold: the start of the year 262144 BCE.
pub const MIN_SECONDS: i64 = -8_334_601_228_800;

/// The last second a `Timestamp` can hold: the end of the year 262142 CE.
pub const MAX_SECONDS: i64 = 8_210_266_876_799;

/// An instant in UTC, as whole seconds since 1970 and nanoseconds into that second.
#[derive(Clone, Copy, Debug, PartialEq, Eq, Structural)]
pub struct Timestamp {
    seconds: i64,
    nanos: u32,
}

/// A quotient with its fraction dropped, whichever side of zero it lies on.
pub open spec fn whole(n: int, unit: int) -> int {
    if n >= 0 {
        n / unit
    } else {
        -((-n) / unit)
    }
}

/// Chrono's RFC 3339 text of an instant, given as nanoseconds since 1970.
pub uninterp spec fn rfc3339_text(at: int) -> Seq<char>;

/// Chrono's text of an instant, given as nanoseconds since 1970, by a pattern.
pub uninterp spec fn formatted(at: int, pattern: Seq<char>) -> Seq<char>;

/// Whether a pattern asks only for the year, the month, the day, the hour, the minute and the
/// second, by `%` and `Y`, `m`, `d`, `H`, `M` or `S`. Every instant can be written by it.
pub open spec fn is_date_pattern(pattern: Seq<char>) -> bool
    decreases pattern.len(),
{
    if pattern.len() == 0 {
        true
    } else if pattern[0] == '%' {
        &&& pattern.len() >= 2
        &&& pattern[1] == 'Y' || pattern[1] == 'm' || pattern[1] == 'd' || pattern[1] == 'H'
            || pattern[1] == 'M' || pattern[1] == 'S'
        &&& is_date_pattern(pattern.skip(2))
    } else {
        is_date_pattern(pattern.skip(1))
    }
}

impl View for Timestamp {
    type V = int;

    /// Nanoseconds since 1970.
    closed spec fn view(&self) -> int {
        self.seconds * 1_000_000_000 + self.nanos
    }
}

impl Timestamp {
    #[verifier::type_invariant]
    spec fn in_range(self) -> bool {
        &&& MIN_SECONDS <= self.seconds <= MAX_SECONDS
        &&& self.nanos < 1_000_000_000
    }

    /// The instant that many seconds and nanoseconds after the start of 1970, where the
    /// calendar reaches that far.
    pub fn new(seconds: i64, nanos: u32) -> (r: Option<Timestamp>)
        ensures
            r is Some <==> MIN_SECONDS <= seconds <= MAX_SECONDS && nanos < 1_000_000_000,
            r matches Some(t) ==> t@ == seconds * 1_000_000_000 + nanos,
    {
        if seconds < MIN_SECONDS || seconds > MAX_SECONDS || nanos >= 1_000_000_000 {
            None
        } else {
            Some(Timestamp { seconds, nanos })
        }
    }

    /// Whole seconds since 1970, rounded down.
    pub fn seconds(&self) -> (s: i64)
        ensures
            s == self@ / 1_000_000_000,
            MIN_SECONDS <= s <= MAX_SECONDS,
    {
        proof {
            use_type_invariant(self);
        }
        self.seconds
    }

    /// Nanoseconds into the second.
    pub fn nanos(&self) -> (n: u32)
        ensures
            n == self@ % 1_000_000_000,
    {
        proof {
            use_type_invariant(self);
        }
        self.nanos
    }

    /// Whether this instant comes strictly before another.
    pub fn is_before(&self, other: &Timestamp) -> (b: bool)
        ensures
            b == (self@ < other@),
    {
        proof {
            use_type_invariant(self);
            use_type_invariant(other);
        }
        self.seconds < other.seconds || (self.seconds == other.seconds && self.nanos < other.nanos)
    }

    fn nanos_since(&self, earlier: &Timestamp) -> (n: i128)
        ensures
            n == self@ - earlier@,
            -20_000_000_000_000_000_000_000 <= n <= 20_000_000_000_000_000_000_000,
    {
        proof {
            use_type_invariant(self);
            use_type_invariant(earlier);
        }
        (self.seconds - earlier.seconds) as i128 * 1_000_000_000 + self.nanos as i128
            - earlier.nanos as i128
    }

    /// Whole milliseconds from an earlier instant to this one; negative where it is later.
    pub fn millis_since(&self, earlier: &Timestamp) -> (n: i64)
        ensures
            n == whole(self@ - earlier@, 1_000_000),
            -20_000_000_000_000_000 <= n <= 20_000_000_000_000_000,
    {
        let nanos: i128 = self.nanos_since(earlier);
        if nanos >= 0 {
            (nanos / 1_000_000) as i64
        } else {
            -(((-nanos) / 1_000_000) as i64)
        }
    }

    /// Whole seconds from an earlier instant to this one; negative where it is later.
    pub fn seconds_since(&self, earlier: &Timestamp) -> (n: i64)
        ensures
            n == whole(self@ - earlier@, 1_000_000_000),
            -20_000_000_000_000 <= n <= 20_000_000_000_000,
    {
        let nanos: i128 = self.nanos_since(earlier);
        if nanos >= 0 {
            (nanos / 1_000_000_000) as i64
        } else {
            -(((-nanos) / 1_000_000_000) as i64)
        }
    }

    /// Whether this instant lies more than so many seconds after another.
    pub fn is_past(&self, since: &Timestamp, seconds: u32) -> (b: bool)
        ensures
            b == (self@ > since@ + seconds * 1_000_000_000),
    {
        self.nanos_since(since) > seconds as i128 * 1_000_000_000
    }

    /// Whether so many seconds have yet to go by since another instant.
    pub fn is_within(&self, since: &Timestamp, seconds: u32) -> (b: bool)
        ensures
            b == (self@ < since@ + seconds * 1_000_000_000),
    {
        self.nanos_since(since) < seconds as i128 * 1_000_000_000
    }

    /// The instant as RFC 3339 text, as `chrono::DateTime::to_rfc3339` writes it for UTC.
    /// What the text is beyond that is left to its name.
    #[verifier::external_body]
    pub(crate) fn to_rfc3339(&self) -> (text: String)
        ensures
            text@ == rfc3339_text(self@),
    {
        chrono::DateTime::from_timestamp(self.seconds, self.nanos).unwrap_or_default().to_rfc3339()
    }

    /// The instant in UTC by a pattern, as `chrono::DateTime::format` writes it. What the text
    /// is beyond that is left to its name.
    #[verifier::external_body]
    pub(crate) fn to_text(&self, pattern: &str) -> (text: String)
        requires
            is_date_pattern(pattern@),
        ensures
            text@ == formatted(self@, pattern@),
    {
        let at = chrono::DateTime::from_timestamp(self.seconds, self.nanos).unwrap_or_default();
        at.format(pattern).to_string()
    }
}

/// A whole quotient counts the units that fit into an amount: as many as it says, and not one
/// more; an amount below zero counts as the same amount above it does, the other way.
pub proof fn a_whole_quotient_counts_what_fits(n: int, unit: int)
    requires
        unit > 0,
    ensures
        n >= 0 ==> 0 <= whole(n, unit) && whole(n, unit) * unit <= n < (whole(n, unit) + 1) * unit,
        whole(-n, unit) == -whole(n, unit),
        n < unit && n > -unit ==> whole(n, unit) == 0,
{
    if n >= 0 {
        assert(n / unit * unit <= n < (n / unit + 1) * unit && n / unit >= 0) by (nonlinear_arith)
            requires
                n >= 0,
                unit > 0,
        ;
    }
    if 0 <= n < unit {
        assert(n / unit == 0) by (nonlinear_arith)
            requires
                0 <= n < unit,
        ;
    }
    if -unit < n < 0 {
        assert((-n) / unit == 0) by (nonlinear_arith)
            requires
                0 < -n < unit,
        ;
    }
    if n == 0 {
        assert(0int / unit == 0) by (nonlinear_arith)
            requires
                unit > 0,
        ;
    }
}

/// An instant is past another by some seconds exactly where more than those lie between them,
/// and within them exactly where fewer do; only what lies between counts.
pub proof fn only_what_lies_between_counts(
    now: Timestamp,
    since: Timestamp,
    seconds: u32,
    past: bool,
    within: bool,
    before: bool,
)
    requires
        call_ensures(Timestamp::is_past, (&now, &since, seconds), past),
        call_ensures(Timestamp::is_within, (&now, &since, seconds), within),
        call_ensures(Timestamp::is_before, (&now, &since), before),
    ensures
        past <==> now@ - since@ > seconds * 1_000_000_000,
        within <==> now@ - since@ < seconds * 1_000_000_000,
        before <==> now@ - since@ < 0,
        !(past && within),
{
}

} // verus!
