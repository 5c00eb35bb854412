//! The clock and the calendar.

use vstd::prelude::*;

verus! {

/// Calls `chrono::Utc::now` and `timestamp_nanos_opt`: the time of the system in nanoseconds since
/// the epoch, or none where 64 bits cannot hold it. Nothing is claimed of a reading.
#[verifier::external_body]
fn utc_nanos() -> (r: Option<i64>)
{
    chrono::Utc::now().timestamp_nanos_opt()
}

/// The time of the system in nanoseconds since the epoch, as [`time_of`] takes the reading. Nothing
/// is claimed of it, as any time may be read.
pub(crate) fn now_nanos() -> (t: i64) {
    let reading = utc_nanos();
    time_of(reading)
}

/// The time that a reading of the clock tells. A time that 64 bits cannot hold reads as the last
/// that they can.
pub fn time_of(reading: Option<i64>) -> (t: i64)
    ensures
        t == match reading {
            Some(nanos) => nanos,
            None => i64::MAX,
        },
{
    match reading {
        Some(nanos) => nanos,
        None => i64::MAX,
    }
}

/// The reading of the clock at a place; the last one stands for those that are missing.
pub open spec fn reading(times: Seq<i64>, i: int) -> i64 {
    if i < times.len() {
        times[i]
    } else {
        times.last()
    }
}

/// The reading of the clock at a place.
pub fn time_at(times: &Vec<i64>, i: usize) -> (t: i64)
    requires
        times@.len() > 0,
    ensures
        t == reading(times@, i as int),
{
    if i < times.len() {
        times[i]
    } else {
        times[times.len() - 1]
    }
}

/// Calls `chrono::Utc::now` and `timestamp_millis`: the time of the system in milliseconds since
/// the epoch. Nothing is claimed of a reading.
#[verifier::external_body]
pub(crate) fn utc_millis() -> (t: i64)
{
    chrono::Utc::now().timestamp_millis()
}

/// The length of a day, in nanoseconds.
pub const DAY_NANOS: i64 = 86_400_000_000_000;

/// The day of a time in nanoseconds since the epoch, counted from the day of the epoch.
pub open spec fn day_of(nanos: int) -> int {
    nanos / (DAY_NANOS as int)
}

/// The day of a time in nanoseconds since the epoch.
pub fn day(nanos: i64) -> (d: i64)
    ensures
        d == day_of(nanos as int),
{
    if nanos >= 0 {
        nanos / DAY_NANOS
    } else {
        let d: i64 = (-(nanos + 1)) / DAY_NANOS;
        proof {
            let back = -(nanos + 1);
            assert((-1 - back) / (DAY_NANOS as int) == -1 - back / (DAY_NANOS as int)) by {
                vstd::arithmetic::div_mod::lemma_fundamental_div_mod(back, DAY_NANOS as int);
                vstd::arithmetic::div_mod::lemma_fundamental_div_mod_converse(
                    -1 - back,
                    DAY_NANOS as int,
                    -1 - back / (DAY_NANOS as int),
                    DAY_NANOS - 1 - back % (DAY_NANOS as int),
                );
            }
        }
        -1 - d
    }
}

/// The days that times of 64 bits fall on.
pub open spec fn in_days(d: int) -> bool {
    day_of(i64::MIN as int) <= d <= day_of(i64::MAX as int)
}

/// A time of 64 bits falls on one of these days.
pub proof fn lemma_in_days(nanos: i64)
    ensures
        in_days(day_of(nanos as int)),
{
    vstd::arithmetic::div_mod::lemma_div_is_ordered(i64::MIN as int, nanos as int, DAY_NANOS as int);
    vstd::arithmetic::div_mod::lemma_div_is_ordered(nanos as int, i64::MAX as int, DAY_NANOS as int);
}

/// Whether a day has a label of its own: eight characters that no other day has.
pub open spec fn is_labelled(day: int) -> bool {
    &&& in_days(day)
    &&& date_label(day).len() == 8
    &&& forall|d: int| in_days(d) && #[trigger] date_label(d) == date_label(day) ==> d == day
}

/// The year, the month and the day of the month of a day, as `%Y%m%d` writes them.
pub uninterp spec fn date_label(day: int) -> Seq<char>;

/// Calls `chrono::DateTime::from_timestamp_nanos`, `date_naive` and `format` with `%Y%m%d`. The
/// text is that of the day in UTC: eight characters, and no two days that times of 64 bits fall on
/// have the same.
#[verifier::external_body]
pub(crate) fn date_text(nanos: i64) -> (s: String)
    ensures
        s@ == date_label(day_of(nanos as int)),
        s@.len() == 8,
        forall|d: int| in_days(d) && #[trigger] date_label(d) == s@ ==> d == day_of(nanos as int),
{
    chrono::DateTime::from_timestamp_nanos(nanos).date_naive().format("%Y%m%d").to_string()
}

/// A day is the time from one midnight to the next: a time lies on its day, and two times lie on the
/// same day only where less than a day is between them.
pub proof fn law_times_lie_on_their_day(nanos: int, other: int)
    ensures
        day_of(nanos) * 86_400_000_000_000 <= nanos,
        nanos < (day_of(nanos) + 1) * 86_400_000_000_000,
        day_of(nanos) == day_of(other) ==> -86_400_000_000_000 < nanos - other
            < 86_400_000_000_000,
        day_of(nanos + 86_400_000_000_000) == day_of(nanos) + 1,
        day_of(0) == 0,
{
    let n = DAY_NANOS as int;
    vstd::arithmetic::div_mod::lemma_fundamental_div_mod(nanos, n);
    vstd::arithmetic::div_mod::lemma_mod_bound(nanos, n);
    vstd::arithmetic::div_mod::lemma_fundamental_div_mod(other, n);
    vstd::arithmetic::div_mod::lemma_mod_bound(other, n);
    vstd::arithmetic::div_mod::lemma_fundamental_div_mod_converse(
        nanos + n,
        n,
        nanos / n + 1,
        nanos % n,
    );
}

/// A place has its own reading where there is one, and the last reading otherwise.
pub proof fn law_readings_stand_at_their_place(times: Seq<i64>, i: int)
    requires
        times.len() > 0,
        i >= 0,
    ensures
        i < times.len() ==> reading(times, i) == times[i],
        i >= times.len() ==> reading(times, i) == times[times.len() - 1],
        times.contains(reading(times, i)),
{
    if i >= times.len() {
        assert(times[times.len() - 1] == reading(times, i));
    }
}

} // verus!
