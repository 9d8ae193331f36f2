use vstd::prelude::*;

verus! {

/// A calendar timestamp with nanosecond precision: the library's model of the
/// `time` column of the utilization tables and of the `start`/`end` query
/// parameters.
#[derive(Clone, Copy, Debug, PartialEq, Eq, Structural)]
pub struct Timestamp {
    pub year: u32,
    pub month: u32,
    pub day: u32,
    pub hour: u32,
    pub minute: u32,
    pub second: u32,
    /// Subsecond part in nanoseconds.
    pub nanos: u32,
}

pub open spec fn leap_year(y: int) -> bool {
    y % 4 == 0 && (y % 100 != 0 || y % 400 == 0)
}

pub open spec fn days_in_month(y: int, m: int) -> int {
    if m == 2 {
        if leap_year(y) {
            29
        } else {
            28
        }
    } else if m == 4 || m == 6 || m == 9 || m == 11 {
        30
    } else {
        31
    }
}

impl Timestamp {
    /// A valid calendar date and time: four-digit year, real month and day,
    /// time of day within bounds, nanoseconds below one second.
    pub open spec fn wf(self) -> bool {
        &&& self.year <= 9999
        &&& 1 <= self.month <= 12
        &&& 1 <= self.day <= days_in_month(self.year as int, self.month as int)
        &&& self.hour <= 23
        &&& self.minute <= 59
        &&& self.second <= 59
        &&& self.nanos <= 999_999_999
    }
}

/// One level of a mixed-radix encoding; the radix is large enough for every
/// `u32` field, so the encoding is injective and orders lexicographically.
pub open spec fn combine(h: int, l: int) -> int {
    h * 0x1_0000_0000 + l
}

/// Encodes a timestamp as one integer, most significant field first, so that
/// integer order on keys is exactly lexicographic order on
/// (year, month, day, hour, minute, second, nanos).
pub open spec fn ts_key(t: Timestamp) -> int {
    combine(
        combine(
            combine(
                combine(
                    combine(combine(t.year as int, t.month as int), t.day as int),
                    t.hour as int,
                ),
                t.minute as int,
            ),
            t.second as int,
        ),
        t.nanos as int,
    )
}

pub proof fn lemma_combine_order(h1: int, l1: int, h2: int, l2: int)
    requires
        0 <= l1 < 0x1_0000_0000,
        0 <= l2 < 0x1_0000_0000,
    ensures
        combine(h1, l1) <= combine(h2, l2) <==> (h1 < h2 || (h1 == h2 && l1 <= l2)),
        combine(h1, l1) == combine(h2, l2) <==> (h1 == h2 && l1 == l2),
{
}

/// Equal keys come only from equal timestamps.
pub proof fn lemma_ts_key_injective(a: Timestamp, b: Timestamp)
    requires
        ts_key(a) == ts_key(b),
    ensures
        a == b,
{
    lemma_combine_order(
        combine(
            combine(
                combine(combine(combine(a.year as int, a.month as int), a.day as int), a.hour as int),
                a.minute as int,
            ),
            a.second as int,
        ),
        a.nanos as int,
        combine(
            combine(
                combine(combine(combine(b.year as int, b.month as int), b.day as int), b.hour as int),
                b.minute as int,
            ),
            b.second as int,
        ),
        b.nanos as int,
    );
    lemma_combine_order(
        combine(
            combine(combine(combine(a.year as int, a.month as int), a.day as int), a.hour as int),
            a.minute as int,
        ),
        a.second as int,
        combine(
            combine(combine(combine(b.year as int, b.month as int), b.day as int), b.hour as int),
            b.minute as int,
        ),
        b.second as int,
    );
    lemma_combine_order(
        combine(combine(combine(a.year as int, a.month as int), a.day as int), a.hour as int),
        a.minute as int,
        combine(combine(combine(b.year as int, b.month as int), b.day as int), b.hour as int),
        b.minute as int,
    );
    lemma_combine_order(
        combine(combine(a.year as int, a.month as int), a.day as int),
        a.hour as int,
        combine(combine(b.year as int, b.month as int), b.day as int),
        b.hour as int,
    );
    lemma_combine_order(
        combine(a.year as int, a.month as int),
        a.day as int,
        combine(b.year as int, b.month as int),
        b.day as int,
    );
    lemma_combine_order(a.year as int, a.month as int, b.year as int, b.month as int);
}

/// Compares two timestamps; the result agrees with the order of their keys.
pub fn ts_le(a: &Timestamp, b: &Timestamp) -> (r: bool)
    ensures
        r == (ts_key(*a) <= ts_key(*b)),
{
    let r = if a.year != b.year {
        a.year < b.year
    } else if a.month != b.month {
        a.month < b.month
    } else if a.day != b.day {
        a.day < b.day
    } else if a.hour != b.hour {
        a.hour < b.hour
    } else if a.minute != b.minute {
        a.minute < b.minute
    } else if a.second != b.second {
        a.second < b.second
    } else {
        a.nanos <= b.nanos
    };
    r
}

/// The start of the hour that contains `t`.
pub open spec fn hour_floor(t: Timestamp) -> Timestamp {
    Timestamp {
        year: t.year,
        month: t.month,
        day: t.day,
        hour: t.hour,
        minute: 0,
        second: 0,
        nanos: 0,
    }
}

/// The start of the day that contains `t`.
pub open spec fn day_floor(t: Timestamp) -> Timestamp {
    Timestamp { year: t.year, month: t.month, day: t.day, hour: 0, minute: 0, second: 0, nanos: 0 }
}

pub fn trunc_to_hour(t: &Timestamp) -> (r: Timestamp)
    ensures
        r == hour_floor(*t),
{
    Timestamp {
        year: t.year,
        month: t.month,
        day: t.day,
        hour: t.hour,
        minute: 0,
        second: 0,
        nanos: 0,
    }
}

pub fn trunc_to_day(t: &Timestamp) -> (r: Timestamp)
    ensures
        r == day_floor(*t),
{
    Timestamp { year: t.year, month: t.month, day: t.day, hour: 0, minute: 0, second: 0, nanos: 0 }
}

} // verus!
