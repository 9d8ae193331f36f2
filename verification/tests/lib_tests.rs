use elmo_api::query::{run_query, Granularity};
use elmo_api::records::{TimeRange, Utilization};
use elmo_api::routes::{parse_time_range, respond, QueryResponse};
use elmo_api::time_text::{parse_timestamp, push_timestamp};
use elmo_api::timestamp::Timestamp;

fn ts(year: u32, month: u32, day: u32, hour: u32, minute: u32, second: u32) -> Timestamp {
    Timestamp { year, month, day, hour, minute, second, nanos: 0 }
}

fn row(t: Timestamp, allocated: i32, total: i32) -> Utilization {
    Utilization { time: t, allocated, total }
}

fn body_rows(resp: &QueryResponse) -> Vec<(String, i64, i64)> {
    let v: serde_json::Value = serde_json::from_str(&resp.body).unwrap();
    v.as_array()
        .unwrap()
        .iter()
        .map(|o| {
            (
                o["time"].as_str().unwrap().to_string(),
                o["allocated"].as_i64().unwrap(),
                o["total"].as_i64().unwrap(),
            )
        })
        .collect()
}

fn shuffled_rows() -> Vec<Utilization> {
    vec![
        row(ts(2024, 3, 28, 0, 0, 0), 4, 10),
        row(ts(2024, 3, 27, 5, 0, 0), 2, 10),
        row(ts(2024, 3, 27, 23, 59, 59), 3, 10),
        row(ts(2023, 12, 31, 23, 59, 59), 1, 10),
        row(ts(2024, 3, 28, 0, 0, 0), 5, 10),
    ]
}

#[test]
fn raw_series_is_sorted_by_time() {
    let none = TimeRange { start: None, end: None };
    let out = run_query(&shuffled_rows(), Granularity::Raw, &none, None);
    assert_eq!(out.len(), 5);
    assert_eq!(out[0].allocated, 1);
    assert_eq!(out[1].allocated, 2);
    assert_eq!(out[2].allocated, 3);
    assert_eq!(out[3].allocated, 4);
    assert_eq!(out[4].allocated, 5);
}

#[test]
fn bucket_count_stays_within_distinct_truncations() {
    let rows = shuffled_rows();
    let none = TimeRange { start: None, end: None };
    // distinct days: 2023-12-31, 2024-03-27, 2024-03-28
    let daily = run_query(&rows, Granularity::Daily, &none, None);
    assert_eq!(daily.len(), 3);
    // distinct hours: 23:00 of 2023-12-31, 05:00 and 23:00 of 2024-03-27, 00:00 of 2024-03-28
    let hourly = run_query(&rows, Granularity::Hourly, &none, None);
    assert_eq!(hourly.len(), 4);
}

#[test]
fn bucket_value_is_rounded_mean_of_exactly_its_rows() {
    let rows = vec![
        row(ts(2024, 1, 1, 10, 0, 0), 1, 7),
        row(ts(2024, 1, 1, 10, 30, 0), 2, 8),
        row(ts(2024, 1, 1, 11, 0, 0), 100, 9),
    ];
    let none = TimeRange { start: None, end: None };
    let hourly = run_query(&rows, Granularity::Hourly, &none, None);
    assert_eq!(hourly.len(), 2);
    // (1 + 2) / 2 = 1.5 rounds away from zero to 2; (7 + 8) / 2 = 7.5 to 8
    assert_eq!(hourly[0].allocated, 2);
    assert_eq!(hourly[0].total, 8);
    assert_eq!(hourly[1].allocated, 100);
    assert_eq!(hourly[1].total, 9);
}

#[test]
fn rounding_is_half_away_from_zero_for_negatives_too() {
    let rows = vec![
        row(ts(2024, 1, 1, 10, 0, 0), -1, 0),
        row(ts(2024, 1, 1, 10, 30, 0), -2, 0),
    ];
    let none = TimeRange { start: None, end: None };
    let hourly = run_query(&rows, Granularity::Hourly, &none, None);
    assert_eq!(hourly.len(), 1);
    // (-1 + -2) / 2 = -1.5 rounds away from zero to -2
    assert_eq!(hourly[0].allocated, -2);
    assert_eq!(hourly[0].total, 0);
}

#[test]
fn single_instant_window_returns_exactly_the_matching_rows() {
    let t0 = ts(2024, 3, 27, 0, 15, 0);
    let rows = vec![
        row(ts(2024, 3, 27, 0, 14, 59), 1, 10),
        row(t0, 2, 10),
        row(t0, 3, 10),
        row(ts(2024, 3, 27, 0, 15, 1), 4, 10),
    ];
    let window = TimeRange { start: Some(t0), end: Some(t0) };
    let out = run_query(&rows, Granularity::Raw, &window, None);
    assert_eq!(out.len(), 2);
    assert_eq!(out[0].time, t0);
    assert_eq!(out[1].time, t0);
    assert_eq!(out[0].allocated, 2);
    assert_eq!(out[1].allocated, 3);
}

#[test]
fn window_bounds_are_inclusive_both_ways() {
    let lo = ts(2024, 3, 27, 0, 0, 0);
    let hi = ts(2024, 3, 27, 1, 0, 0);
    let rows = vec![
        row(ts(2024, 3, 26, 23, 59, 59), 1, 10),
        row(lo, 2, 10),
        row(ts(2024, 3, 27, 0, 30, 0), 3, 10),
        row(hi, 4, 10),
        row(ts(2024, 3, 27, 1, 0, 1), 5, 10),
    ];
    let window = TimeRange { start: Some(lo), end: Some(hi) };
    let out = run_query(&rows, Granularity::Raw, &window, None);
    assert_eq!(out.len(), 3);
    assert_eq!(out[0].allocated, 2);
    assert_eq!(out[2].allocated, 4);
}

#[test]
fn repeated_request_is_byte_identical() {
    let rows = shuffled_rows();
    let first = respond(Granularity::Hourly, Some("2024-03-27T00:00:00"), None, &rows, None);
    let second = respond(Granularity::Hourly, Some("2024-03-27T00:00:00"), None, &rows, None);
    assert_eq!(first.status, second.status);
    assert_eq!(first.body, second.body);
}

#[test]
fn empty_table_yields_empty_array_on_every_endpoint() {
    let rows: Vec<Utilization> = vec![];
    for granularity in [Granularity::Raw, Granularity::Hourly, Granularity::Daily] {
        let resp = respond(granularity, None, None, &rows, None);
        assert_eq!(resp.status, 200);
        assert_eq!(resp.body, "[]");
        let windowed =
            respond(granularity, Some("2024-03-27T00:00:00"), Some("2024-03-28T00:00:00"), &rows, None);
        assert_eq!(windowed.status, 200);
        assert_eq!(windowed.body, "[]");
    }
}

#[test]
fn json_body_is_rendered_exactly() {
    let rows = vec![row(ts(2024, 3, 27, 0, 0, 0), 75, 100), row(ts(2024, 3, 27, 0, 15, 0), -8, 100)];
    let resp = respond(Granularity::Raw, None, None, &rows, None);
    assert_eq!(resp.status, 200);
    assert_eq!(
        resp.body,
        "[{\"time\":\"2024-03-27T00:00:00\",\"allocated\":75,\"total\":100},\
         {\"time\":\"2024-03-27T00:15:00\",\"allocated\":-8,\"total\":100}]"
    );
}

#[test]
fn unwindowed_raw_query_honours_the_row_cap() {
    let rows = shuffled_rows();
    let none = TimeRange { start: None, end: None };
    let capped = run_query(&rows, Granularity::Raw, &none, Some(2));
    assert_eq!(capped.len(), 2);
    assert_eq!(capped[0].allocated, 1);
    assert_eq!(capped[1].allocated, 2);
    // a windowed query is never capped
    let window = TimeRange { start: Some(ts(2023, 1, 1, 0, 0, 0)), end: Some(ts(2025, 1, 1, 0, 0, 0)) };
    let windowed = run_query(&rows, Granularity::Raw, &window, Some(2));
    assert_eq!(windowed.len(), 5);
}

#[test]
fn malformed_parameter_is_rejected() {
    assert!(parse_time_range(Some("2024-13-01T00:00:00"), None).is_err());
    assert!(parse_time_range(None, Some("not-a-date")).is_err());
    assert!(parse_time_range(Some("2024-03-27T00:00:00"), Some("2024-03-27T00:00:0")).is_err());
    let ok = parse_time_range(Some("2024-03-27T00:00:00"), None).unwrap();
    assert_eq!(ok.start, Some(ts(2024, 3, 27, 0, 0, 0)));
    assert_eq!(ok.end, None);
}

#[test]
fn timestamp_parsing_accepts_the_documented_shape_only() {
    assert_eq!(parse_timestamp("2024-03-27T00:15:00"), Some(ts(2024, 3, 27, 0, 15, 0)));
    assert_eq!(
        parse_timestamp("2024-03-27T00:15:00.5"),
        Some(Timestamp { nanos: 500_000_000, ..ts(2024, 3, 27, 0, 15, 0) })
    );
    assert_eq!(
        parse_timestamp("2024-02-29T23:59:59"),
        Some(ts(2024, 2, 29, 23, 59, 59))
    );
    assert_eq!(parse_timestamp("2023-02-29T00:00:00"), None); // not a leap year
    assert_eq!(parse_timestamp("2024-13-01T00:00:00"), None); // month out of range
    assert_eq!(parse_timestamp("2024-03-27T24:00:00"), None); // hour out of range
    assert_eq!(parse_timestamp("2024-03-27T00:00:60"), None); // second out of range
    assert_eq!(parse_timestamp("2024-03-27 00:00:00"), None); // missing separator
    assert_eq!(parse_timestamp("2024-03-27T00:00:00."), None); // empty fraction
    assert_eq!(parse_timestamp("2024-03-27T00:00:00.0123456789"), None); // fraction too long
    assert_eq!(parse_timestamp("invalid-date"), None);
    assert_eq!(parse_timestamp(""), None);
}

#[test]
fn timestamp_formatting_echoes_the_fraction_at_its_precision() {
    let cases: Vec<(u32, &str)> = vec![
        (0, "2024-03-27T01:02:03"),
        (500_000_000, "2024-03-27T01:02:03.500"),
        (123_000_000, "2024-03-27T01:02:03.123"),
        (1_000, "2024-03-27T01:02:03.000001"),
        (1, "2024-03-27T01:02:03.000000001"),
    ];
    for (nanos, expected) in cases {
        let t = Timestamp { nanos, ..ts(2024, 3, 27, 1, 2, 3) };
        let mut out: Vec<char> = Vec::new();
        push_timestamp(&mut out, &t);
        let text: String = out.into_iter().collect();
        assert_eq!(text, expected);
    }
}

#[test]
fn rows_with_equal_times_are_all_kept() {
    let t = ts(2024, 3, 27, 0, 0, 0);
    let rows = vec![row(t, 9, 10), row(t, 7, 10), row(t, 8, 10)];
    let none = TimeRange { start: None, end: None };
    let out = run_query(&rows, Granularity::Raw, &none, None);
    assert_eq!(out.len(), 3);
    // ties on time come out in the deterministic field order
    assert_eq!(out[0].allocated, 7);
    assert_eq!(out[1].allocated, 8);
    assert_eq!(out[2].allocated, 9);
}

#[test]
fn aggregate_of_unsorted_rows_comes_out_in_bucket_order() {
    let rows = vec![
        row(ts(2024, 3, 28, 10, 0, 0), 30, 1),
        row(ts(2024, 3, 26, 10, 0, 0), 10, 1),
        row(ts(2024, 3, 27, 10, 0, 0), 20, 1),
    ];
    let none = TimeRange { start: None, end: None };
    let daily = run_query(&rows, Granularity::Daily, &none, None);
    assert_eq!(daily.len(), 3);
    assert_eq!(daily[0].allocated, 10);
    assert_eq!(daily[1].allocated, 20);
    assert_eq!(daily[2].allocated, 30);
    let resp = respond(Granularity::Daily, None, None, &rows, None);
    let data = body_rows(&resp);
    assert_eq!(data[0].0, "2024-03-26T00:00:00");
    assert_eq!(data[1].0, "2024-03-27T00:00:00");
    assert_eq!(data[2].0, "2024-03-28T00:00:00");
}

#[test]
fn fractional_timestamps_order_and_filter_correctly() {
    let base = ts(2024, 3, 27, 0, 0, 0);
    let half = Timestamp { nanos: 500_000_000, ..base };
    let rows = vec![row(half, 2, 10), row(base, 1, 10)];
    let window = TimeRange { start: Some(base), end: Some(base) };
    let out = run_query(&rows, Granularity::Raw, &window, None);
    assert_eq!(out.len(), 1);
    assert_eq!(out[0].allocated, 1);
    let none = TimeRange { start: None, end: None };
    let all = run_query(&rows, Granularity::Raw, &none, None);
    assert_eq!(all[0].allocated, 1);
    assert_eq!(all[1].allocated, 2);
}
