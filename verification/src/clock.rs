//! Instants, to the microsecond that the store keeps.

use vstd::prelude::*;

verus! {

/// The earliest instant that can be read back, in microseconds since the Unix epoch.
pub const MIN_MICROSECOND: i64 = -377_705_023_201_000_000;

/// The latest instant that can be read back, in microseconds since the Unix epoch.
pub const MAX_MICROSECOND: i64 = 253_402_207_200_000_000;

/// `microsecond` counts an instant that can be read back.
pub open spec fn readable_instant(microsecond: int) -> bool {
    MIN_MICROSECOND <= microsecond <= MAX_MICROSECOND
}

/// `microsecond` counts an instant that the clock can show. That reaches into the last
/// second of its range, beyond what can be read back.
pub open spec fn clock_reading(microsecond: int) -> bool {
    MIN_MICROSECOND <= microsecond < MAX_MICROSECOND + 1_000_000
}

/// An instant in time.
#[derive(Clone, Copy, Debug, PartialEq, Eq, PartialOrd, Ord, Hash)]
pub struct Timestamp {
    /// Microseconds since the Unix epoch.
    pub microsecond: i64,
}

impl View for Timestamp {
    type V = int;

    open spec fn view(&self) -> int {
        self.microsecond as int
    }
}

/// The text of `jiff`'s error for an instant out of range.
pub open spec fn range_error_text() -> Seq<char> {
    "parameter 'Unix timestamp microseconds' is not in the required range of -377705023201000000..=253402207200000000"@
}

/// Calls `jiff::Timestamp::from_microsecond`, which accepts exactly the
/// microsecond counts of its range and keeps them. The error names the range.
#[verifier::external_body]
fn jiff_from_microsecond(microsecond: i64) -> (r: Result<i64, String>)
    ensures
        r is Ok <==> readable_instant(microsecond as int),
        r matches Ok(m) ==> m == microsecond,
        r matches Err(t) ==> t@ == range_error_text(),
{
    jiff::Timestamp::from_microsecond(microsecond).map(|t| t.as_microsecond()).map_err(
        |e| e.to_string(),
    )
}

/// Calls `jiff::Timestamp::now`, which reads the system clock. All that is
/// claimed is the range of the type.
#[verifier::external_body]
fn jiff_now() -> (m: i64)
    ensures
        clock_reading(m as int),
{
    jiff::Timestamp::now().as_microsecond()
}

impl Timestamp {
    /// The instant `microsecond` after the Unix epoch, or why it cannot be one.
    pub fn from_microsecond(microsecond: i64) -> (r: Result<Timestamp, String>)
        ensures
            r is Ok <==> readable_instant(microsecond as int),
            r matches Ok(t) ==> t@ == microsecond,
            r matches Err(e) ==> e@ == range_error_text(),
    {
        match jiff_from_microsecond(microsecond) {
            Ok(microsecond) => Ok(Timestamp { microsecond }),
            Err(e) => Err(e),
        }
    }
}

/// `m` is what a look at the system clock showed.
pub closed spec fn shown_by_the_clock(m: i64) -> bool {
    call_ensures(jiff_now, (), m)
}

/// What counts as shown by the clock came from a look at it, and lies in its range.
proof fn law_the_time_is_read_off_the_clock(m: i64)
    requires
        shown_by_the_clock(m),
    ensures
        call_ensures(jiff_now, (), m),
        clock_reading(m as int),
{
}

/// The system clock's reading, in whole microseconds since the Unix epoch.
pub fn now_microsecond() -> (m: i64)
    ensures
        clock_reading(m as int),
        shown_by_the_clock(m),
{
    jiff_now()
}

} // verus!
