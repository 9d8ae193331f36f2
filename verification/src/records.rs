use vstd::prelude::*;

use crate::timestamp::{combine, lemma_ts_key_injective, ts_key, ts_le, Timestamp};

verus! {

/// One observation of a utilization series, or one aggregated bucket:
/// the sampling time (or the bucket start), the allocated units and the
/// total units at that time.
#[derive(Clone, Copy, Debug, PartialEq, Eq, Structural)]
pub struct Utilization {
    pub time: Timestamp,
    pub allocated: i32,
    pub total: i32,
}

/// An optional inclusive time window taken from the `start` and `end` query
/// parameters. The window restricts a query only when both bounds are
/// present.
#[derive(Clone, Copy, Debug)]
pub struct TimeRange {
    pub start: Option<Timestamp>,
    pub end: Option<Timestamp>,
}

impl Utilization {
    pub open spec fn wf(self) -> bool {
        self.time.wf()
    }
}

/// The filter is applied only when both bounds are present.
pub open spec fn range_active(tr: TimeRange) -> bool {
    tr.start is Some && tr.end is Some
}

/// Whether a row sampled at `t` belongs to the window: inside the inclusive
/// `[start, end]` bounds when both are present, unconditionally otherwise.
pub open spec fn in_window(t: Timestamp, tr: TimeRange) -> bool {
    if range_active(tr) {
        ts_key(tr.start.unwrap()) <= ts_key(t) && ts_key(t) <= ts_key(tr.end.unwrap())
    } else {
        true
    }
}

pub fn in_window_exec(t: &Timestamp, tr: &TimeRange) -> (r: bool)
    ensures
        r == in_window(*t, *tr),
{
    match (&tr.start, &tr.end) {
        (Some(s), Some(e)) => ts_le(s, t) && ts_le(t, e),
        _ => true,
    }
}

/// Encodes a whole record as one integer, time first, so that key order is
/// lexicographic on (time, allocated, total). Because every field fits its
/// radix, the encoding is injective, which makes the derived order total and
/// the sorted permutation of any sequence of records unique.
pub open spec fn rec_key(u: Utilization) -> int {
    combine(combine(ts_key(u.time), u.allocated as int + 0x8000_0000), u.total as int + 0x8000_0000)
}

/// The total order in which raw rows are returned: by time, with ties broken
/// by the field values so that the order is antisymmetric.
pub open spec fn record_le(a: Utilization, b: Utilization) -> bool {
    rec_key(a) <= rec_key(b)
}

/// The record order as a first-class function, for use with `sort_by`.
pub open spec fn record_leq() -> spec_fn(Utilization, Utilization) -> bool {
    |a: Utilization, b: Utilization| record_le(a, b)
}

pub proof fn lemma_rec_key_injective(a: Utilization, b: Utilization)
    requires
        rec_key(a) == rec_key(b),
    ensures
        a == b,
{
    crate::timestamp::lemma_combine_order(
        combine(ts_key(a.time), a.allocated as int + 0x8000_0000),
        a.total as int + 0x8000_0000,
        combine(ts_key(b.time), b.allocated as int + 0x8000_0000),
        b.total as int + 0x8000_0000,
    );
    crate::timestamp::lemma_combine_order(
        ts_key(a.time),
        a.allocated as int + 0x8000_0000,
        ts_key(b.time),
        b.allocated as int + 0x8000_0000,
    );
    lemma_ts_key_injective(a.time, b.time);
}

/// The record order is a total order, as `sort_by` requires.
pub proof fn lemma_record_leq_total_ordering()
    ensures
        vstd::relations::total_ordering(record_leq()),
{
    let leq = record_leq();
    assert forall|x: Utilization, y: Utilization| #[trigger] leq(x, y) && #[trigger] leq(y, x)
        implies x == y by {
        lemma_rec_key_injective(x, y);
    }
    assert(vstd::relations::reflexive(leq));
    assert(vstd::relations::transitive(leq));
    assert(vstd::relations::strongly_connected(leq));
}

pub fn record_le_exec(a: &Utilization, b: &Utilization) -> (r: bool)
    ensures
        r == record_le(*a, *b),
{
    if a.time != b.time {
        let r = ts_le(&a.time, &b.time);
        proof {
            if ts_key(a.time) == ts_key(b.time) {
                lemma_ts_key_injective(a.time, b.time);
            }
        }
        r
    } else if a.allocated != b.allocated {
        a.allocated < b.allocated
    } else {
        a.total <= b.total
    }
}

/// Sum of the `allocated` column over a sequence of rows.
pub open spec fn sum_alloc(s: Seq<Utilization>) -> int
    decreases s.len(),
{
    if s.len() == 0 {
        0
    } else {
        sum_alloc(s.drop_last()) + s.last().allocated as int
    }
}

/// Sum of the `total` column over a sequence of rows.
pub open spec fn sum_total(s: Seq<Utilization>) -> int
    decreases s.len(),
{
    if s.len() == 0 {
        0
    } else {
        sum_total(s.drop_last()) + s.last().total as int
    }
}

} // verus!
