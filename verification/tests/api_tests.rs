use elmo_api::query::Granularity;
use elmo_api::records::Utilization;
use elmo_api::routes::{dispatch, respond, Dispatch, QueryResponse, Series};
use elmo_api::timestamp::Timestamp;

fn ts(year: u32, month: u32, day: u32, hour: u32, minute: u32, second: u32) -> Timestamp {
    Timestamp { year, month, day, hour, minute, second, nanos: 0 }
}

fn row(t: Timestamp, allocated: i32, total: i32) -> Utilization {
    Utilization { time: t, allocated, total }
}

fn cpu_rows() -> Vec<Utilization> {
    vec![
        row(ts(2024, 3, 27, 0, 0, 0), 75, 100),
        row(ts(2024, 3, 27, 0, 15, 0), 80, 100),
        row(ts(2024, 3, 27, 0, 30, 0), 85, 100),
        row(ts(2024, 3, 27, 0, 45, 0), 90, 100),
    ]
}

fn gpu_rows() -> Vec<Utilization> {
    vec![
        row(ts(2024, 3, 27, 0, 0, 0), 60, 100),
        row(ts(2024, 3, 27, 0, 15, 0), 65, 100),
        row(ts(2024, 3, 27, 0, 30, 0), 70, 100),
        row(ts(2024, 3, 27, 0, 45, 0), 75, 100),
    ]
}

/// Serves a request as the app does: routes the path, picks the series'
/// rows, and answers.
fn get(path: &str, start: Option<&str>, end: Option<&str>) -> QueryResponse {
    let granularity = match dispatch("GET", path) {
        Dispatch::Data(series, granularity) => {
            assert!(matches!(series, Series::Cpu) == path.starts_with("/cpu"));
            granularity
        }
        other => panic!("expected a data route, got {:?}", other),
    };
    let rows = if path.starts_with("/cpu") { cpu_rows() } else { gpu_rows() };
    respond(granularity, start, end, &rows, None)
}

fn body_rows(resp: &QueryResponse) -> Vec<(String, i64, i64)> {
    let v: serde_json::Value = serde_json::from_str(&resp.body).unwrap();
    v.as_array()
        .unwrap()
        .iter()
        .map(|o| {
            (
                o["time"].as_str().unwrap().to_string(),
                o["allocated"].as_i64().unwrap(),
                o["total"].as_i64().unwrap(),
            )
        })
        .collect()
}

#[test]
fn test_get_cpu_utilization() {
    let resp = get("/cpu", None, None);

    assert_eq!(resp.status, 200);

    let cpu_data = body_rows(&resp);
    assert_eq!(cpu_data.len(), 4);
    assert_eq!(cpu_data[0].1, 75);
    assert_eq!(cpu_data[0].2, 100);
}

#[test]
fn api_tests_test_get_hourly_cpu_utilization() {
    let resp = get("/cpu/hourly", None, None);

    assert_eq!(resp.status, 200);

    let hourly_data = body_rows(&resp);
    assert_eq!(hourly_data.len(), 1); // All data is in one hour
    assert_eq!(hourly_data[0].1, 83); // round((75 + 80 + 85 + 90) / 4)
    assert_eq!(hourly_data[0].2, 100);
}

#[test]
fn api_tests_test_get_daily_cpu_utilization() {
    let resp = get("/cpu/daily", None, None);

    assert_eq!(resp.status, 200);

    let daily_data = body_rows(&resp);
    assert_eq!(daily_data.len(), 1); // All data is in one day
    assert_eq!(daily_data[0].1, 83); // round((75 + 80 + 85 + 90) / 4)
    assert_eq!(daily_data[0].2, 100);
}

#[test]
fn test_get_gpu_utilization() {
    let resp = get("/gpu", None, None);

    assert_eq!(resp.status, 200);

    let gpu_data = body_rows(&resp);
    assert_eq!(gpu_data.len(), 4);
    assert_eq!(gpu_data[0].1, 60);
    assert_eq!(gpu_data[0].2, 100);
}

#[test]
fn api_tests_test_get_hourly_gpu_utilization() {
    let resp = get("/gpu/hourly", None, None);

    assert_eq!(resp.status, 200);

    let hourly_data = body_rows(&resp);
    assert_eq!(hourly_data.len(), 1); // All data is in one hour
    assert_eq!(hourly_data[0].1, 68); // round((60 + 65 + 70 + 75) / 4)
    assert_eq!(hourly_data[0].2, 100);
}

#[test]
fn api_tests_test_get_daily_gpu_utilization() {
    let resp = get("/gpu/daily", None, None);

    assert_eq!(resp.status, 200);

    let daily_data = body_rows(&resp);
    assert_eq!(daily_data.len(), 1); // All data is in one day
    assert_eq!(daily_data[0].1, 68); // round((60 + 65 + 70 + 75) / 4)
    assert_eq!(daily_data[0].2, 100);
}

#[test]
fn test_time_range_filtering() {
    let resp = get("/cpu", Some("2024-03-27T00:00:00"), Some("2024-03-27T00:30:00"));

    assert_eq!(resp.status, 200);

    let cpu_data = body_rows(&resp);
    println!("cpu_data: {:?}", cpu_data);
    assert_eq!(cpu_data.len(), 3); // Only first 3 entries within time range
}
