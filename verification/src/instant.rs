//! Instants, as nanoseconds from the start of 1970, and the cutoff that
//! decides which releases are old enough.

use vstd::prelude::*;

verus! {

/// Why `jiff` could not read a timestamp.
#[verifier::external_type_specification]
#[verifier::external_body]
pub struct ExError(jiff::Error);

/// The first instant that a timestamp can write, early in the year -9999.
pub const FIRST_INSTANT: i128 = -377_705_023_201_000_000_000;

/// The last instant that a timestamp can write, at the end of the year 9999.
pub const LAST_INSTANT: i128 = 253_402_207_200_999_999_999;

/// The nanoseconds in an hour.
pub const HOUR: i128 = 3_600_000_000_000;

/// The instant that a timestamp writes, as `jiff` reads it.
pub uninterp spec fn instant_of(timestamp: Seq<char>) -> Option<int>;

/// `Timestamp::from_str` of `jiff`, and the instant that it holds in
/// nanoseconds. Every instant lies between the first and the last.
#[verifier::external_body]
fn read_timestamp(timestamp: &str) -> (r: Result<i128, jiff::Error>)
    ensures
        match instant_of(timestamp@) {
            Some(t) => r is Ok && r->Ok_0 == t,
            None => r is Err,
        },
        r is Ok ==> FIRST_INSTANT <= r->Ok_0 <= LAST_INSTANT,
{
    timestamp.parse::<jiff::Timestamp>().map(|t| t.as_nanosecond())
}

/// `Timestamp::now` of `jiff`: what the clock of the machine shows. It panics
/// where the clock is set beyond the first or the last instant; nothing that is
/// handed to it can rule that out.
#[verifier::external_body]
fn now() -> (r: i128)
    ensures
        FIRST_INSTANT <= r <= LAST_INSTANT,
{
    jiff::Timestamp::now().as_nanosecond()
}

/// The instant that a timestamp writes.
pub fn parse_instant(timestamp: &str) -> (r: Option<i128>)
    ensures
        match instant_of(timestamp@) {
            Some(t) => r is Some && r->Some_0 == t,
            None => r is None,
        },
{
    match read_timestamp(timestamp) {
        Ok(t) => Some(t),
        Err(_) => None,
    }
}

/// The instant `hours` hours before `now`, if a timestamp can write it.
pub open spec fn hours_before(now: int, hours: int) -> Option<int> {
    if FIRST_INSTANT <= now - hours * HOUR <= LAST_INSTANT {
        Some(now - hours * HOUR)
    } else {
        None
    }
}

/// Whether something that happened at `at` happened no later than `cutoff`.
/// What has no known time never did.
pub open spec fn old_enough(cutoff: int, at: Option<int>) -> bool {
    match at {
        Some(t) => t <= cutoff,
        None => false,
    }
}

/// An optional instant as a mathematical number.
pub open spec fn instant_view(at: Option<i128>) -> Option<int> {
    match at {
        Some(t) => Some(t as int),
        None => None,
    }
}

/// Tells old releases from new ones.
#[derive(Debug, Clone, Copy)]
pub struct CutoffChecker {
    cutoff: i128,
}

impl CutoffChecker {
    /// The last instant that is old enough.
    pub closed spec fn spec_cutoff(self) -> int {
        self.cutoff as int
    }

    /// The checker for releases at least `min_age_hours` old by the clock of
    /// the machine. There is none if the cutoff would lie before the first instant.
    pub fn new(min_age_hours: u32) -> (r: Option<CutoffChecker>)
        ensures
            exists|now: int|
                {
                    &&& FIRST_INSTANT <= now <= LAST_INSTANT
                    &&& match #[trigger] hours_before(now, min_age_hours as int) {
                        Some(t) => r is Some && r->Some_0.spec_cutoff() == t,
                        None => r is None,
                    }
                },
    {
        let t = now();
        let r = CutoffChecker::at(t, min_age_hours);
        assert(hours_before(t as int, min_age_hours as int) is Some <==> r is Some);
        r
    }

    /// The checker for releases that are at least `min_age_hours` old at the instant `now`.
    pub fn at(now: i128, min_age_hours: u32) -> (r: Option<CutoffChecker>)
        requires
            FIRST_INSTANT <= now <= LAST_INSTANT,
        ensures
            match hours_before(now as int, min_age_hours as int) {
                Some(t) => r is Some && r->Some_0.spec_cutoff() == t,
                None => r is None,
            },
    {
        let cutoff: i128 = now - (min_age_hours as i128) * HOUR;
        if FIRST_INSTANT <= cutoff && cutoff <= LAST_INSTANT {
            Some(CutoffChecker { cutoff })
        } else {
            None
        }
    }

    /// Whether a release of that time is old enough. One without a known time is not.
    pub fn is_old_enough(&self, at: Option<i128>) -> (r: bool)
        ensures
            r == old_enough(self.spec_cutoff(), instant_view(at)),
    {
        match at {
            Some(t) => t <= self.cutoff,
            None => false,
        }
    }

    /// The last instant that is old enough.
    pub fn cutoff(&self) -> (r: i128)
        ensures
            r == self.spec_cutoff(),
    {
        self.cutoff
    }
}

/// A longer quarantine never lets through what a shorter one holds back.
pub proof fn lemma_longer_is_stricter(now: int, short: int, long: int, at: Option<int>)
    requires
        short <= long,
        hours_before(now, short) is Some,
        hours_before(now, long) is Some,
        old_enough(hours_before(now, long)->Some_0, at),
    ensures
        old_enough(hours_before(now, short)->Some_0, at),
{
    assert(short * HOUR <= long * HOUR) by (nonlinear_arith)
        requires
            short <= long,
            HOUR > 0,
    ;
}

/// What is old enough stays so as the clock moves on.
pub proof fn lemma_age_only_grows(now: int, later: int, hours: int, at: Option<int>)
    requires
        now <= later,
        hours_before(now, hours) is Some,
        hours_before(later, hours) is Some,
        old_enough(hours_before(now, hours)->Some_0, at),
    ensures
        old_enough(hours_before(later, hours)->Some_0, at),
{
}

} // verus!
