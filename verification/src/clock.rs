//! The wall clock, and the minute-aligned windows derived from it.

use vstd::prelude::*;

verus! {

/// The start of the minute that holds second `t`. The sixty seconds at the
/// very bottom of the range of `i64`, whose minute may begin below it, are
/// all sent to `i64::MIN`.
pub open spec fn minute_floor(t: int) -> int {
    if t >= i64::MIN + 60 {
        t - t % 60
    } else {
        i64::MIN as int
    }
}

/// Rounds `t` down to the start of its minute.
pub fn minute_start(t: i64) -> (r: i64)
    ensures
        r == minute_floor(t as int),
        t >= i64::MIN + 60 ==> r % 60 == 0 && r <= t < r + 60,
{
    if t >= 0 {
        t - t % 60
    } else if t < i64::MIN + 60 {
        i64::MIN
    } else {
        let ahead: i64 = (-(t + 1)) % 60;
        t - (59 - ahead)
    }
}

/// Reads the system clock through `chrono::Utc::now().timestamp()`: the
/// current time as whole seconds since the Unix epoch. Nothing is claimed of
/// the value.
#[verifier::external_body]
pub(crate) fn now_timestamp() -> (r: i64) {
    chrono::Utc::now().timestamp()
}

/// `m` is where the minute of some second starts.
pub open spec fn is_minute_start(m: i64) -> bool {
    exists|now: i64| m == minute_floor(now as int)
}

/// The start of the current minute, in seconds since the Unix epoch.
pub fn cur_min_timestamp() -> (r: i64)
    ensures
        is_minute_start(r),
{
    let now = now_timestamp();
    let r = minute_start(now);
    assert(r == minute_floor(now as int));
    r
}

/// The offset of the zone in which times are shown, in seconds east of
/// Greenwich: eight hours.
pub const EAST8_SECS: i32 = 28800;

/// The date and time of second `secs` since the Unix epoch, as `chrono`
/// writes it for a zone `offset_secs` seconds east of Greenwich; `None` where
/// `chrono` has no such date or no such zone.
pub uninterp spec fn datetime_text(secs: i64, offset_secs: i32) -> Option<Seq<char>>;

/// Makes a `chrono::DateTime` of `secs` with `DateTime::from_timestamp`,
/// moves it to the zone that `FixedOffset::east_opt` gives for
/// `offset_secs`, and writes it out with `to_string`. Either of the two
/// constructors may give `None`, which is handed on. The text depends on the
/// two numbers alone.
#[verifier::external_body]
pub(crate) fn datetime_string(secs: i64, offset_secs: i32) -> (r: Option<String>)
    ensures
        match r {
            Some(text) => datetime_text(secs, offset_secs) == Some(text@),
            None => datetime_text(secs, offset_secs) is None,
        },
{
    let zone = chrono::FixedOffset::east_opt(offset_secs)?;
    let utc = chrono::DateTime::from_timestamp(secs, 0)?;
    Some(utc.with_timezone(&zone).to_string())
}

} // verus!
