use vstd::prelude::*;

use vstd::relations::sorted_by;
use vstd::seq_lib::lemma_sorted_unique;

use crate::records::{
    in_window, in_window_exec, lemma_record_leq_total_ordering, record_le, record_le_exec,
    record_leq, range_active, sum_alloc, sum_total, TimeRange, Utilization,
};
use crate::rounding::{rha, round_avg};
use crate::timestamp::{
    day_floor, hour_floor, lemma_ts_key_injective, ts_key, ts_le, trunc_to_day, trunc_to_hour,
    Timestamp,
};

verus! {

/// Aggregation level of a query: the stored rows themselves, or the
/// hour-bucketed or day-bucketed averages.
#[derive(Clone, Copy, Debug, PartialEq, Eq, Structural)]
pub enum Granularity {
    Raw,
    Hourly,
    Daily,
}

/// The start of the bucket that a row's timestamp falls into.
pub open spec fn trunc(g: Granularity, t: Timestamp) -> Timestamp {
    match g {
        Granularity::Raw => t,
        Granularity::Hourly => hour_floor(t),
        Granularity::Daily => day_floor(t),
    }
}

pub fn trunc_exec(g: Granularity, t: &Timestamp) -> (r: Timestamp)
    ensures
        r == trunc(g, *t),
{
    match g {
        Granularity::Raw => *t,
        Granularity::Hourly => trunc_to_hour(t),
        Granularity::Daily => trunc_to_day(t),
    }
}

/// Membership test for the optional time window, as a first-class predicate.
pub open spec fn window_pred(tr: TimeRange) -> spec_fn(Utilization) -> bool {
    |r: Utilization| in_window(r.time, tr)
}

/// The rows that the window keeps, in stored order.
pub open spec fn windowed(s: Seq<Utilization>, tr: TimeRange) -> Seq<Utilization> {
    s.filter(window_pred(tr))
}

/// One filtering step: extending the prefix by one row extends the filtered
/// prefix by that row exactly when the predicate holds of it.
proof fn lemma_filter_step(s: Seq<Utilization>, j: int, p: spec_fn(Utilization) -> bool)
    requires
        0 <= j < s.len(),
    ensures
        s.take(j + 1).filter(p) == if p(s[j]) {
            s.take(j).filter(p).push(s[j])
        } else {
            s.take(j).filter(p)
        },
{
    reveal(Seq::filter);
    assert(s.take(j + 1) =~= s.take(j).push(s[j]));
    assert(s.take(j).push(s[j]).drop_last() =~= s.take(j));
}

/// Keeps exactly the rows inside the window, in their stored order.
pub fn filter_rows(rows: &Vec<Utilization>, tr: &TimeRange) -> (out: Vec<Utilization>)
    ensures
        out@ == windowed(rows@, *tr),
{
    let mut out: Vec<Utilization> = Vec::new();
    let mut i: usize = 0;
    proof {
        reveal(Seq::filter);
        assert(rows@.take(0int).filter(window_pred(*tr)) =~= Seq::<Utilization>::empty());
    }
    while i < rows.len()
        invariant
            i <= rows.len(),
            out@ == rows@.take(i as int).filter(window_pred(*tr)),
        decreases rows.len() - i,
    {
        proof {
            lemma_filter_step(rows@, i as int, window_pred(*tr));
        }
        if in_window_exec(&rows[i].time, tr) {
            out.push(rows[i]);
        }
        i = i + 1;
    }
    proof {
        assert(rows@.take(rows@.len() as int) =~= rows@);
    }
    out
}

/// Inserts a row into a sorted vector, keeping it sorted.
fn insert_sorted(out: &mut Vec<Utilization>, x: Utilization)
    requires
        sorted_by(old(out)@, record_leq()),
    ensures
        sorted_by(final(out)@, record_leq()),
        final(out)@.to_multiset() == old(out)@.to_multiset().insert(x),
{
    proof {
        lemma_record_leq_total_ordering();
    }
    let mut p: usize = 0;
    while p < out.len() && record_le_exec(&out[p], &x)
        invariant
            p <= out.len(),
            forall|q: int| 0 <= q < p ==> record_le(#[trigger] out@[q], x),
        decreases out.len() - p,
    {
        p = p + 1;
    }
    proof {
        let leq = record_leq();
        if (p as int) < out@.len() {
            assert(!record_le(out@[p as int], x));
            assert(leq(out@[p as int], x) || leq(x, out@[p as int]));
        }
        old(out)@.insert_ensures(p as int, x);
        broadcast use vstd::seq_lib::to_multiset_insert;

    }
    out.insert(p, x);
    proof {
        let s = final(out)@;
        let leq = record_leq();
        assert forall|i: int, j: int| 0 <= i < j < s.len() implies #[trigger] leq(s[i], s[j]) by {
            if j < p as int {
            } else if i < p as int && j == p as int {
                assert(record_le(old(out)@[i], x));
            } else if i < p as int && j > p as int {
                assert(leq(old(out)@[i], old(out)@[j - 1]));
            } else if i == p as int {
                if j > p as int {
                    if (p as int) < old(out)@.len() {
                        assert(leq(x, old(out)@[p as int]));
                        assert(leq(old(out)@[p as int], old(out)@[j - 1]) || p as int == j - 1);
                    }
                }
            } else {
                assert(leq(old(out)@[i - 1], old(out)@[j - 1]));
            }
        }
    }
}

/// Sorts rows into the record order: by time ascending, ties broken by the
/// field values. The result is the unique sorted permutation of the input.
pub fn sort_rows(rows: Vec<Utilization>) -> (out: Vec<Utilization>)
    ensures
        out@ == rows@.sort_by(record_leq()),
        sorted_by(out@, record_leq()),
        out@.to_multiset() == rows@.to_multiset(),
{
    proof {
        lemma_record_leq_total_ordering();
    }
    let mut out: Vec<Utilization> = Vec::new();
    let mut i: usize = 0;
    proof {
        broadcast use vstd::seq_lib::group_to_multiset_ensures;

        assert(rows@.take(0int) =~= Seq::<Utilization>::empty());
        assert(out@.to_multiset() =~= rows@.take(0int).to_multiset());
    }
    while i < rows.len()
        invariant
            i <= rows.len(),
            sorted_by(out@, record_leq()),
            out@.to_multiset() == rows@.take(i as int).to_multiset(),
        decreases rows.len() - i,
    {
        proof {
            broadcast use vstd::seq_lib::group_to_multiset_ensures;

            assert(rows@.take(i as int + 1) =~= rows@.take(i as int).push(rows@[i as int]));
        }
        insert_sorted(&mut out, rows[i]);
        i = i + 1;
    }
    proof {
        assert(rows@.take(rows@.len() as int) =~= rows@);
        rows@.lemma_sort_by_ensures(record_leq());
        lemma_sorted_unique(out@, rows@.sort_by(record_leq()), record_leq());
    }
    out
}

/// Rows that fall into the bucket whose start has key `k`.
pub open spec fn bucket_pred(g: Granularity, k: int) -> spec_fn(Utilization) -> bool {
    |r: Utilization| ts_key(trunc(g, r.time)) == k
}

/// Rows that fall into any other bucket.
pub open spec fn other_pred(g: Granularity, k: int) -> spec_fn(Utilization) -> bool {
    |r: Utilization| ts_key(trunc(g, r.time)) != k
}

/// The least bucket key among the rows (meaningful only for a non-empty
/// sequence).
pub open spec fn min_bucket_key(s: Seq<Utilization>, g: Granularity) -> int
    decreases s.len(),
{
    if s.len() <= 1 {
        ts_key(trunc(g, s[0].time))
    } else {
        let rest = min_bucket_key(s.drop_first(), g);
        let first = ts_key(trunc(g, s[0].time));
        if first <= rest {
            first
        } else {
            rest
        }
    }
}

/// The least bucket key is attained by some row and is a lower bound for all.
pub proof fn lemma_min_bucket_key(s: Seq<Utilization>, g: Granularity)
    requires
        s.len() > 0,
    ensures
        exists|i: int|
            0 <= i < s.len() && ts_key(trunc(g, #[trigger] s[i].time)) == min_bucket_key(s, g),
        forall|i: int|
            0 <= i < s.len() ==> min_bucket_key(s, g) <= ts_key(trunc(g, #[trigger] s[i].time)),
    decreases s.len(),
{
    if s.len() > 1 {
        lemma_min_bucket_key(s.drop_first(), g);
        let m = min_bucket_key(s.drop_first(), g);
        let w = choose|i: int|
            0 <= i < s.drop_first().len() && ts_key(
                trunc(g, #[trigger] s.drop_first()[i].time),
            ) == m;
        assert(s.drop_first()[w] == s[w + 1]);
        assert forall|i: int| 0 <= i < s.len() implies min_bucket_key(s, g) <= ts_key(
            trunc(g, #[trigger] s[i].time),
        ) by {
            if i >= 1 {
                assert(s.drop_first()[i - 1] == s[i]);
            }
        }
        if min_bucket_key(s, g) == m {
            assert(ts_key(trunc(g, s[w + 1].time)) == min_bucket_key(s, g));
        } else {
            assert(ts_key(trunc(g, s[0].time)) == min_bucket_key(s, g));
        }
    } else {
        assert(ts_key(trunc(g, s[0].time)) == min_bucket_key(s, g));
    }
}

/// Removing the rows of a bucket that is attained strictly shrinks the
/// sequence.
pub proof fn lemma_other_smaller(s: Seq<Utilization>, g: Granularity, k: int)
    requires
        exists|i: int| 0 <= i < s.len() && ts_key(trunc(g, #[trigger] s[i].time)) == k,
    ensures
        s.filter(other_pred(g, k)).len() < s.len(),
    decreases s.len(),
{
    reveal(Seq::filter);
    let i = choose|i: int| 0 <= i < s.len() && ts_key(trunc(g, #[trigger] s[i].time)) == k;
    if i == s.len() - 1 {
        assert(s.last() == s[i]);
        assert(s.filter(other_pred(g, k)) == s.drop_last().filter(other_pred(g, k)));
        s.drop_last().lemma_filter_len(other_pred(g, k));
    } else {
        assert(s.drop_last()[i] == s[i]);
        lemma_other_smaller(s.drop_last(), g, k);
    }
}

/// The aggregate result: buckets in ascending key order; each bucket carries
/// the rounded mean of `allocated` and of `total` over exactly the rows whose
/// truncated timestamp is the bucket start. Buckets with no rows do not
/// appear.
pub open spec fn buckets(s: Seq<Utilization>, g: Granularity) -> Seq<Utilization>
    decreases s.len(),
    via buckets_decreases
{
    if s.len() == 0 {
        Seq::empty()
    } else {
        let k = min_bucket_key(s, g);
        let grp = s.filter(bucket_pred(g, k));
        let rest = s.filter(other_pred(g, k));
        seq![
            Utilization {
                time: trunc(g, grp[0].time),
                allocated: rha(sum_alloc(grp), grp.len() as int) as i32,
                total: rha(sum_total(grp), grp.len() as int) as i32,
            },
        ] + buckets(rest, g)
    }
}

#[via_fn]
proof fn buckets_decreases(s: Seq<Utilization>, g: Granularity) {
    if s.len() > 0 {
        lemma_min_bucket_key(s, g);
        lemma_other_smaller(s, g, min_bucket_key(s, g));
    }
}

/// Splits off the bucket with the least truncated timestamp: returns the
/// averaged bucket record and the rows of every other bucket.
#[verifier::rlimit(60)]
#[verifier::spinoff_prover]
fn take_min_bucket(rem: Vec<Utilization>, g: Granularity) -> (out: (Utilization, Vec<Utilization>))
    requires
        rem@.len() > 0,
    ensures
        buckets(rem@, g) == seq![out.0] + buckets(out.1@, g),
        out.1@.len() < rem@.len(),
{
    // find the least bucket start among the rows
    let mut mk: Timestamp = trunc_exec(g, &rem[0].time);
    let mut i: usize = 1;
    while i < rem.len()
        invariant
            1 <= i <= rem.len(),
            rem.len() > 0,
            exists|j: int| 0 <= j < i && mk == trunc(g, #[trigger] rem@[j].time),
            forall|j: int| 0 <= j < i ==> ts_key(mk) <= ts_key(trunc(g, #[trigger] rem@[j].time)),
        decreases rem.len() - i,
    {
        let c = trunc_exec(g, &rem[i].time);
        if !ts_le(&mk, &c) {
            mk = c;
        }
        i = i + 1;
    }
    let ghost k: int = ts_key(mk);
    proof {
        lemma_min_bucket_key(rem@, g);
        let w = choose|j: int|
            0 <= j < rem@.len() && ts_key(trunc(g, #[trigger] rem@[j].time)) == min_bucket_key(
                rem@,
                g,
            );
        assert(ts_key(mk) <= ts_key(trunc(g, rem@[w].time)));
        let a = choose|j: int| 0 <= j < rem@.len() && mk == trunc(g, #[trigger] rem@[j].time);
        assert(min_bucket_key(rem@, g) <= ts_key(trunc(g, rem@[a].time)));
        assert(k == min_bucket_key(rem@, g));
    }
    // partition the rows and sum the bucket's columns
    let mut next: Vec<Utilization> = Vec::new();
    let mut cnt: usize = 0;
    let mut pos_a: u128 = 0;
    let mut neg_a: u128 = 0;
    let mut pos_t: u128 = 0;
    let mut neg_t: u128 = 0;
    let mut j: usize = 0;
    proof {
        reveal(Seq::filter);
        assert(rem@.take(0int).filter(bucket_pred(g, k)) =~= Seq::<Utilization>::empty());
        assert(rem@.take(0int).filter(other_pred(g, k)) =~= Seq::<Utilization>::empty());
    }
    while j < rem.len()
        invariant
            j <= rem.len(),
            k == ts_key(mk),
            next@ == rem@.take(j as int).filter(other_pred(g, k)),
            cnt == rem@.take(j as int).filter(bucket_pred(g, k)).len(),
            pos_a as int - neg_a as int == sum_alloc(
                rem@.take(j as int).filter(bucket_pred(g, k)),
            ),
            pos_t as int - neg_t as int == sum_total(
                rem@.take(j as int).filter(bucket_pred(g, k)),
            ),
            pos_a as int <= cnt as int * 0x7fff_ffff,
            neg_a as int <= cnt as int * 0x8000_0000,
            pos_t as int <= cnt as int * 0x7fff_ffff,
            neg_t as int <= cnt as int * 0x8000_0000,
        decreases rem.len() - j,
    {
        let r = rem[j];
        let c = trunc_exec(g, &r.time);
        proof {
            lemma_filter_step(rem@, j as int, bucket_pred(g, k));
            lemma_filter_step(rem@, j as int, other_pred(g, k));
            if ts_key(c) == k {
                lemma_ts_key_injective(c, mk);
            }
            let grpj = rem@.take(j as int).filter(bucket_pred(g, k));
            assert(grpj.push(r).drop_last() =~= grpj);
        }
        if c == mk {
            cnt = cnt + 1;
            if r.allocated >= 0 {
                pos_a = pos_a + (r.allocated as u128);
            } else {
                neg_a = neg_a + ((-(r.allocated as i64)) as u128);
            }
            if r.total >= 0 {
                pos_t = pos_t + (r.total as u128);
            } else {
                neg_t = neg_t + ((-(r.total as i64)) as u128);
            }
        } else {
            next.push(r);
        }
        j = j + 1;
    }
    proof {
        assert(rem@.take(rem@.len() as int) =~= rem@);
    }
    let ghost grp = rem@.filter(bucket_pred(g, k));
    proof {
        // the bucket is attained, so the group is non-empty
        let a = choose|j: int| 0 <= j < rem@.len() && mk == trunc(g, #[trigger] rem@[j].time);
        rem@.lemma_filter_contains(bucket_pred(g, k), a);
        assert(grp.contains(rem@[a]));
        // the first group member lies in the bucket, so its truncation is `mk`
        rem@.lemma_filter_pred(bucket_pred(g, k), 0);
        lemma_ts_key_injective(trunc(g, grp[0].time), mk);
        lemma_other_smaller(rem@, g, k);
    }
    let va = round_avg(pos_a, neg_a, cnt);
    let vt = round_avg(pos_t, neg_t, cnt);
    proof {
        // one unfolding of `buckets` at `rem`
        assert(buckets(rem@, g) == seq![
            Utilization {
                time: trunc(g, grp[0].time),
                allocated: rha(sum_alloc(grp), grp.len() as int) as i32,
                total: rha(sum_total(grp), grp.len() as int) as i32,
            },
        ] + buckets(next@, g));
    }
    (Utilization { time: mk, allocated: va, total: vt }, next)
}

/// Groups rows by their truncated timestamp and averages each group, with
/// halves rounded away from zero; buckets come out in ascending time order.
pub fn aggregate_rows(rows: Vec<Utilization>, g: Granularity) -> (out: Vec<Utilization>)
    ensures
        out@ == buckets(rows@, g),
{
    let ghost orig: Seq<Utilization> = rows@;
    let mut rem: Vec<Utilization> = rows;
    let mut out: Vec<Utilization> = Vec::new();
    proof {
        assert(out@ + buckets(rem@, g) =~= buckets(orig, g));
    }
    while rem.len() > 0
        invariant
            out@ + buckets(rem@, g) == buckets(orig, g),
        decreases rem.len(),
    {
        let (head, rest) = take_min_bucket(rem, g);
        out.push(head);
        rem = rest;
        proof {
            assert(out@ + buckets(rem@, g) =~= buckets(orig, g));
        }
    }
    proof {
        assert(buckets(rem@, g) =~= Seq::<Utilization>::empty());
        assert(out@ + buckets(rem@, g) =~= out@);
    }
    out
}

/// Everything a data endpoint returns, as a function of its inputs: the rows
/// inside the window, then either the sorted raw series — capped at `cap`
/// rows when the window is inactive and a cap is configured — or the hourly
/// or daily buckets of those rows.
pub open spec fn query_spec(
    g: Granularity,
    tr: TimeRange,
    rows: Seq<Utilization>,
    cap: Option<usize>,
) -> Seq<Utilization> {
    let kept = windowed(rows, tr);
    match g {
        Granularity::Raw => {
            let sorted = kept.sort_by(record_leq());
            if !range_active(tr) && cap is Some && sorted.len() > cap.unwrap() {
                sorted.take(cap.unwrap() as int)
            } else {
                sorted
            }
        },
        Granularity::Hourly => buckets(kept, g),
        Granularity::Daily => buckets(kept, g),
    }
}

/// Runs one query: keeps the rows inside the window, then sorts them (raw) or
/// groups and averages them (hourly, daily). The `cap` bounds the row count
/// of an unwindowed raw query; aggregates are never capped.
pub fn run_query(
    rows: &Vec<Utilization>,
    g: Granularity,
    tr: &TimeRange,
    cap: Option<usize>,
) -> (out: Vec<Utilization>)
    ensures
        out@ == query_spec(g, *tr, rows@, cap),
{
    let kept = filter_rows(rows, tr);
    match g {
        Granularity::Raw => {
            let mut sorted = sort_rows(kept);
            let active = match (&tr.start, &tr.end) {
                (Some(_), Some(_)) => true,
                _ => false,
            };
            if !active {
                match cap {
                    Some(c) => {
                        if sorted.len() > c {
                            let ghost before = sorted@;
                            sorted.truncate(c);
                            proof {
                                assert(sorted@ =~= before.take(c as int));
                            }
                        }
                    },
                    None => {},
                }
            }
            sorted
        },
        Granularity::Hourly => aggregate_rows(kept, g),
        Granularity::Daily => aggregate_rows(kept, g),
    }
}

} // verus!
