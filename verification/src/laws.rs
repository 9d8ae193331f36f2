use vstd::prelude::*;

use crate::json::json_chars;
use crate::query::{
    bucket_pred, buckets, lemma_min_bucket_key, lemma_other_smaller, min_bucket_key, other_pred,
    query_spec, trunc, window_pred, windowed, Granularity,
};
use crate::records::{
    lemma_record_leq_total_ordering, record_le, record_leq, sum_alloc, sum_total,
    TimeRange, Utilization,
};
use crate::rounding::{lemma_rha_range, rha};
use crate::routes::{params_ok, range_of, response_body, response_status};
use crate::timestamp::{combine, lemma_combine_order, lemma_ts_key_injective, ts_key, Timestamp};

verus! {

/// The record order refines the time order: a record that sorts no later
/// also carries a time key that is no larger.
proof fn lemma_record_le_time(a: Utilization, b: Utilization)
    requires
        record_le(a, b),
    ensures
        ts_key(a.time) <= ts_key(b.time),
{
    lemma_combine_order(
        combine(ts_key(a.time), a.allocated as int + 0x8000_0000),
        a.total as int + 0x8000_0000,
        combine(ts_key(b.time), b.allocated as int + 0x8000_0000),
        b.total as int + 0x8000_0000,
    );
    lemma_combine_order(
        ts_key(a.time),
        a.allocated as int + 0x8000_0000,
        ts_key(b.time),
        b.allocated as int + 0x8000_0000,
    );
}

/// Every raw-series result is sorted by `time` ascending: for any two
/// positions `i < j` in the result, the time at `i` is at most the time at
/// `j`.
pub proof fn lemma_raw_series_sorted(tr: TimeRange, rows: Seq<Utilization>, cap: Option<usize>)
    ensures
        forall|i: int, j: int|
            #![trigger query_spec(Granularity::Raw, tr, rows, cap)[i], query_spec(Granularity::Raw, tr, rows, cap)[j]]
            0 <= i < j < query_spec(Granularity::Raw, tr, rows, cap).len() ==> ts_key(
                query_spec(Granularity::Raw, tr, rows, cap)[i].time,
            ) <= ts_key(query_spec(Granularity::Raw, tr, rows, cap)[j].time),
{
    let res = query_spec(Granularity::Raw, tr, rows, cap);
    let kept = windowed(rows, tr);
    let leq = record_leq();
    lemma_record_leq_total_ordering();
    kept.lemma_sort_by_ensures(leq);
    let sorted = kept.sort_by(leq);
    assert forall|i: int, j: int|
        #![trigger res[i], res[j]]
        0 <= i < j < res.len() implies ts_key(res[i].time) <= ts_key(res[j].time) by {
        assert(res[i] == sorted[i]);
        assert(res[j] == sorted[j]);
        assert(leq(sorted[i], sorted[j]));
        lemma_record_le_time(sorted[i], sorted[j]);
    }
}

/// Column sums over rows are bounded by the count times the column's range.
proof fn lemma_sum_bounds(s: Seq<Utilization>)
    ensures
        s.len() as int * (-0x8000_0000) <= sum_alloc(s) <= s.len() as int * 0x7fff_ffff,
        s.len() as int * (-0x8000_0000) <= sum_total(s) <= s.len() as int * 0x7fff_ffff,
    decreases s.len(),
{
    if s.len() > 0 {
        lemma_sum_bounds(s.drop_last());
    }
}

/// An element of a filtered sequence is an element of the original.
proof fn lemma_filter_elem_of(s: Seq<Utilization>, p: spec_fn(Utilization) -> bool, i: int)
    requires
        0 <= i < s.filter(p).len(),
    ensures
        s.contains(s.filter(p)[i]),
    decreases s.len(),
{
    reveal(Seq::filter);
    if s.len() > 0 {
        if i < s.drop_last().filter(p).len() {
            lemma_filter_elem_of(s.drop_last(), p, i);
            let e = s.drop_last().filter(p)[i];
            let j = choose|j: int| 0 <= j < s.drop_last().len() && s.drop_last()[j] == e;
            assert(s[j] == e);
        } else {
            assert(s.filter(p)[i] == s.last());
        }
    }
}

/// Filtering by a predicate that implies an earlier filter's predicate gives
/// the same rows whether or not the earlier filter ran first.
proof fn lemma_filter_subsumed(
    s: Seq<Utilization>,
    p: spec_fn(Utilization) -> bool,
    q: spec_fn(Utilization) -> bool,
)
    requires
        forall|x: Utilization| #[trigger] q(x) ==> p(x),
    ensures
        s.filter(p).filter(q) == s.filter(q),
    decreases s.len(),
{
    reveal(Seq::filter);
    if s.len() > 0 {
        lemma_filter_subsumed(s.drop_last(), p, q);
        let f = s.drop_last().filter(p);
        if p(s.last()) {
            assert(s.filter(p) == f.push(s.last()));
            assert(f.push(s.last()).drop_last() =~= f);
            assert(f.push(s.last()).last() == s.last());
        }
    }
}

/// Two predicates that agree everywhere filter alike.
proof fn lemma_filter_agree(
    s: Seq<Utilization>,
    p: spec_fn(Utilization) -> bool,
    q: spec_fn(Utilization) -> bool,
)
    requires
        forall|x: Utilization| #[trigger] p(x) == #[trigger] q(x),
    ensures
        s.filter(p) == s.filter(q),
    decreases s.len(),
{
    reveal(Seq::filter);
    if s.len() > 0 {
        lemma_filter_agree(s.drop_last(), p, q);
    }
}

/// Each returned bucket holds the rounded mean of `allocated` and of `total`
/// over exactly the rows whose truncated timestamp equals the bucket's time;
/// at least one such row exists, and both means lie within the column range.
pub proof fn lemma_bucket_values(s: Seq<Utilization>, g: Granularity)
    ensures
        forall|bi: int|
            0 <= bi < buckets(s, g).len() ==> {
                let b = #[trigger] buckets(s, g)[bi];
                let grp = s.filter(bucket_pred(g, ts_key(b.time)));
                &&& grp.len() > 0
                &&& -0x8000_0000 <= rha(sum_alloc(grp), grp.len() as int) <= 0x7fff_ffff
                &&& b.allocated as int == rha(sum_alloc(grp), grp.len() as int)
                &&& -0x8000_0000 <= rha(sum_total(grp), grp.len() as int) <= 0x7fff_ffff
                &&& b.total as int == rha(sum_total(grp), grp.len() as int)
            },
    decreases s.len(),
{
    if s.len() > 0 {
        let k = min_bucket_key(s, g);
        let grp0 = s.filter(bucket_pred(g, k));
        let rest = s.filter(other_pred(g, k));
        lemma_min_bucket_key(s, g);
        lemma_other_smaller(s, g, k);
        lemma_bucket_values(rest, g);
        let w = choose|i: int| 0 <= i < s.len() && ts_key(trunc(g, #[trigger] s[i].time)) == k;
        s.lemma_filter_contains(bucket_pred(g, k), w);
        assert(grp0.contains(s[w]));
        assert(grp0.len() > 0);
        s.lemma_filter_pred(bucket_pred(g, k), 0);
        let b0 = buckets(s, g)[0];
        assert(b0.time == trunc(g, grp0[0].time));
        assert(ts_key(b0.time) == k);
        lemma_sum_bounds(grp0);
        lemma_rha_range(sum_alloc(grp0), grp0.len() as int, -0x8000_0000, 0x7fff_ffff);
        lemma_rha_range(sum_total(grp0), grp0.len() as int, -0x8000_0000, 0x7fff_ffff);
        assert forall|bi: int| 0 < bi < buckets(s, g).len() implies {
            let b = #[trigger] buckets(s, g)[bi];
            let grp = s.filter(bucket_pred(g, ts_key(b.time)));
            &&& grp.len() > 0
            &&& -0x8000_0000 <= rha(sum_alloc(grp), grp.len() as int) <= 0x7fff_ffff
            &&& b.allocated as int == rha(sum_alloc(grp), grp.len() as int)
            &&& -0x8000_0000 <= rha(sum_total(grp), grp.len() as int) <= 0x7fff_ffff
            &&& b.total as int == rha(sum_total(grp), grp.len() as int)
        } by {
            let b = buckets(s, g)[bi];
            assert(b == buckets(rest, g)[bi - 1]);
            let kb = ts_key(b.time);
            let grpr = rest.filter(bucket_pred(g, kb));
            assert(grpr.len() > 0);
            lemma_filter_elem_of(rest, bucket_pred(g, kb), 0);
            let e = grpr[0];
            rest.lemma_filter_pred(bucket_pred(g, kb), 0);
            let j = choose|j: int| 0 <= j < rest.len() && rest[j] == e;
            s.lemma_filter_pred(other_pred(g, k), j);
            assert(kb != k);
            assert forall|x: Utilization| #[trigger] bucket_pred(g, kb)(x) implies other_pred(
                g,
                k,
            )(x) by {}
            lemma_filter_subsumed(s, other_pred(g, k), bucket_pred(g, kb));
            assert(s.filter(bucket_pred(g, kb)) == grpr);
        }
    }
}

/// The bucket key of a row, as a first-class function.
pub open spec fn bucket_key_of(g: Granularity) -> spec_fn(Utilization) -> int {
    |r: Utilization| ts_key(trunc(g, r.time))
}

/// The distinct truncated timestamps among the rows, as a set of keys.
pub open spec fn distinct_bucket_keys(s: Seq<Utilization>, g: Granularity) -> Set<int> {
    s.map_values(bucket_key_of(g)).to_set()
}

/// An aggregate never returns more buckets than there are distinct truncated
/// timestamps among its source rows.
pub proof fn lemma_bucket_count(s: Seq<Utilization>, g: Granularity)
    ensures
        buckets(s, g).len() <= distinct_bucket_keys(s, g).len(),
    decreases s.len(),
{
    broadcast use vstd::set::group_set_axioms;
    broadcast use vstd::seq_lib::seq_to_set_is_finite;

    if s.len() == 0 {
        assert(s.map_values(bucket_key_of(g)) =~= Seq::<int>::empty());
        assert(distinct_bucket_keys(s, g) =~= Set::<int>::empty());
    } else {
        let k = min_bucket_key(s, g);
        let rest = s.filter(other_pred(g, k));
        lemma_min_bucket_key(s, g);
        lemma_other_smaller(s, g, k);
        lemma_bucket_count(rest, g);
        let ks = distinct_bucket_keys(s, g);
        let kr = distinct_bucket_keys(rest, g);
        let ms = s.map_values(bucket_key_of(g));
        let mr = rest.map_values(bucket_key_of(g));
        assert forall|x: int| kr.contains(x) implies ks.remove(k).contains(x) by {
            assert(mr.contains(x));
            let i = choose|i: int| 0 <= i < mr.len() && mr[i] == x;
            assert(bucket_key_of(g)(rest[i]) == x);
            s.lemma_filter_pred(other_pred(g, k), i);
            assert(x != k);
            lemma_filter_elem_of(s, other_pred(g, k), i);
            let j = choose|j: int| 0 <= j < s.len() && s[j] == rest[i];
            assert(ms[j] == x);
            assert(ms.contains(x));
        }
        assert forall|x: int| ks.remove(k).contains(x) implies kr.contains(x) by {
            assert(ms.contains(x));
            let i = choose|i: int| 0 <= i < ms.len() && ms[i] == x;
            assert(ts_key(trunc(g, s[i].time)) == x);
            s.lemma_filter_contains(other_pred(g, k), i);
            let j = choose|j: int| 0 <= j < rest.len() && rest[j] == s[i];
            assert(mr[j] == x);
            assert(mr.contains(x));
        }
        assert(kr =~= ks.remove(k));
        let w = choose|i: int| 0 <= i < s.len() && ts_key(trunc(g, #[trigger] s[i].time)) == k;
        assert(ms[w] == k);
        assert(ms.contains(k));
        assert(ks.contains(k));
        assert(ks.len() == kr.len() + 1);
    }
}

/// Rows sampled exactly at `t0`, as a first-class predicate.
pub open spec fn at_instant(t0: Timestamp) -> spec_fn(Utilization) -> bool {
    |r: Utilization| r.time == t0
}

/// A raw query over the single-instant window `[t0, t0]` returns exactly the
/// rows whose time equals `t0` — the same multiset, every returned row at
/// `t0` — so both window bounds are inclusive and nothing else leaks in.
pub proof fn lemma_single_instant(t0: Timestamp, rows: Seq<Utilization>, cap: Option<usize>)
    ensures
        query_spec(
            Granularity::Raw,
            TimeRange { start: Some(t0), end: Some(t0) },
            rows,
            cap,
        ).to_multiset() == rows.filter(at_instant(t0)).to_multiset(),
        forall|i: int|
            0 <= i < query_spec(
                Granularity::Raw,
                TimeRange { start: Some(t0), end: Some(t0) },
                rows,
                cap,
            ).len() ==> (#[trigger] query_spec(
                Granularity::Raw,
                TimeRange { start: Some(t0), end: Some(t0) },
                rows,
                cap,
            )[i]).time == t0,
{
    let tr = TimeRange { start: Some(t0), end: Some(t0) };
    assert forall|r: Utilization| #[trigger] window_pred(tr)(r) == #[trigger] at_instant(t0)(
        r,
    ) by {
        if ts_key(r.time) == ts_key(t0) {
            lemma_ts_key_injective(r.time, t0);
        }
    }
    lemma_filter_agree(rows, window_pred(tr), at_instant(t0));
    let kept = windowed(rows, tr);
    lemma_record_leq_total_ordering();
    kept.lemma_sort_by_ensures(record_leq());
    let res = query_spec(Granularity::Raw, tr, rows, cap);
    assert(res == kept.sort_by(record_leq()));
    assert forall|i: int| 0 <= i < res.len() implies (#[trigger] res[i]).time == t0 by {
        broadcast use vstd::seq_lib::group_to_multiset_ensures;

        assert(res.contains(res[i]));
        assert(res.to_multiset().count(res[i]) > 0);
        assert(kept.contains(res[i]));
        let j = choose|j: int| 0 <= j < kept.len() && kept[j] == res[i];
        rows.lemma_filter_pred(at_instant(t0), j);
    }
}

/// Repeating a request with the same granularity, parameters, stored rows
/// and cap yields a byte-identical response: status and body are functions
/// of those inputs alone.
pub proof fn lemma_repeat_identical(
    g: Granularity,
    start: Option<Seq<char>>,
    end: Option<Seq<char>>,
    rows: Seq<Utilization>,
    cap: Option<usize>,
    status1: int,
    body1: Seq<char>,
    status2: int,
    body2: Seq<char>,
)
    requires
        status1 == response_status(start, end),
        body1 == response_body(g, start, end, rows, cap),
        status2 == response_status(start, end),
        body2 == response_body(g, start, end, rows, cap),
    ensures
        status1 == status2,
        body1 == body2,
{
}

/// With an empty source table, every endpoint whose parameters parse answers
/// `200` with the empty JSON array.
#[verifier::rlimit(60)]
pub proof fn lemma_empty_table(
    g: Granularity,
    start: Option<Seq<char>>,
    end: Option<Seq<char>>,
    cap: Option<usize>,
)
    requires
        params_ok(start, end),
    ensures
        response_status(start, end) == 200,
        response_body(g, start, end, Seq::empty(), cap) == "[]"@,
{
    let tr = range_of(start, end);
    let kept = windowed(Seq::<Utilization>::empty(), tr);
    assert(kept =~= Seq::<Utilization>::empty()) by {
        reveal(Seq::filter);
    }
    lemma_record_leq_total_ordering();
    kept.lemma_sort_by_ensures(record_leq());
    assert(kept.sort_by(record_leq()) =~= Seq::<Utilization>::empty()) by {
        broadcast use vstd::seq_lib::group_to_multiset_ensures;

        assert(kept.sort_by(record_leq()).to_multiset().len() == kept.to_multiset().len());
        assert(kept.sort_by(record_leq()).len() == kept.len());
    }
    assert(buckets(kept, Granularity::Hourly) =~= Seq::<Utilization>::empty());
    assert(buckets(kept, Granularity::Daily) =~= Seq::<Utilization>::empty());
    assert(query_spec(g, tr, Seq::empty(), cap) =~= Seq::<Utilization>::empty());
    reveal_strlit("[]");
    assert(json_chars(Seq::<Utilization>::empty()) =~= "[]"@);
}

} // verus!
