use vstd::prelude::*;

use vstd::string::StrSliceExecFns;
use vstd::string::StringExecFns;

use crate::json::{json_chars, render_json};
use crate::query::{query_spec, run_query, Granularity};
use crate::records::{TimeRange, Utilization};
use crate::time_text::{parse_timestamp, parse_ts};

verus! {

/// Which utilization series a request reads.
#[derive(Clone, Copy, Debug, PartialEq, Eq, Structural)]
pub enum Series {
    Cpu,
    Gpu,
}

/// Where the router sends a request: the liveness text, one data query,
/// or one of the two refusals.
#[derive(Clone, Copy, Debug, PartialEq, Eq, Structural)]
pub enum Dispatch {
    Root,
    Data(Series, Granularity),
    NotFound,
    MethodNotAllowed,
}

/// The closed routing table of the six data paths. Series and granularity
/// are chosen here and nowhere else; no user-supplied text ever names a
/// table.
pub open spec fn data_route(path: Seq<char>) -> Option<(Series, Granularity)> {
    if path == "/cpu"@ {
        Some((Series::Cpu, Granularity::Raw))
    } else if path == "/gpu"@ {
        Some((Series::Gpu, Granularity::Raw))
    } else if path == "/cpu/hourly"@ {
        Some((Series::Cpu, Granularity::Hourly))
    } else if path == "/gpu/hourly"@ {
        Some((Series::Gpu, Granularity::Hourly))
    } else if path == "/cpu/daily"@ {
        Some((Series::Cpu, Granularity::Daily))
    } else if path == "/gpu/daily"@ {
        Some((Series::Gpu, Granularity::Daily))
    } else {
        None
    }
}

/// Routing decision: unknown paths are refused before any handler runs, and
/// known paths accept only `GET`.
pub open spec fn dispatch_spec(method: Seq<char>, path: Seq<char>) -> Dispatch {
    if path == "/"@ {
        if method == "GET"@ {
            Dispatch::Root
        } else {
            Dispatch::MethodNotAllowed
        }
    } else if data_route(path) is Some {
        if method == "GET"@ {
            Dispatch::Data(data_route(path).unwrap().0, data_route(path).unwrap().1)
        } else {
            Dispatch::MethodNotAllowed
        }
    } else {
        Dispatch::NotFound
    }
}

/// Character-wise string equality.
fn str_eq(a: &str, b: &str) -> (r: bool)
    ensures
        r == (a@ == b@),
{
    let na = a.unicode_len();
    let nb = b.unicode_len();
    if na != nb {
        return false;
    }
    let mut i: usize = 0;
    while i < na
        invariant
            i <= na,
            na == a@.len(),
            nb == b@.len(),
            na == nb,
            forall|k: int| 0 <= k < i ==> a@[k] == b@[k],
        decreases na - i,
    {
        if a.get_char(i) != b.get_char(i) {
            return false;
        }
        i = i + 1;
    }
    proof {
        assert(a@ =~= b@);
    }
    true
}

/// Routes one request line to its target.
pub fn dispatch(method: &str, path: &str) -> (d: Dispatch)
    ensures
        d == dispatch_spec(method@, path@),
{
    let get = str_eq(method, "GET");
    if str_eq(path, "/") {
        if get {
            Dispatch::Root
        } else {
            Dispatch::MethodNotAllowed
        }
    } else if str_eq(path, "/cpu") {
        if get {
            Dispatch::Data(Series::Cpu, Granularity::Raw)
        } else {
            Dispatch::MethodNotAllowed
        }
    } else if str_eq(path, "/gpu") {
        if get {
            Dispatch::Data(Series::Gpu, Granularity::Raw)
        } else {
            Dispatch::MethodNotAllowed
        }
    } else if str_eq(path, "/cpu/hourly") {
        if get {
            Dispatch::Data(Series::Cpu, Granularity::Hourly)
        } else {
            Dispatch::MethodNotAllowed
        }
    } else if str_eq(path, "/gpu/hourly") {
        if get {
            Dispatch::Data(Series::Gpu, Granularity::Hourly)
        } else {
            Dispatch::MethodNotAllowed
        }
    } else if str_eq(path, "/cpu/daily") {
        if get {
            Dispatch::Data(Series::Cpu, Granularity::Daily)
        } else {
            Dispatch::MethodNotAllowed
        }
    } else if str_eq(path, "/gpu/daily") {
        if get {
            Dispatch::Data(Series::Gpu, Granularity::Daily)
        } else {
            Dispatch::MethodNotAllowed
        }
    } else {
        Dispatch::NotFound
    }
}

/// Rejection of a `start` or `end` value that is not a timestamp.
#[derive(Clone, Copy, Debug, PartialEq, Eq, Structural)]
pub struct MalformedParam;

pub open spec fn opt_view(o: Option<&str>) -> Option<Seq<char>> {
    match o {
        Some(s) => Some(s@),
        None => None,
    }
}

/// Every present parameter must parse; an absent one is no error.
pub open spec fn params_ok(start: Option<Seq<char>>, end: Option<Seq<char>>) -> bool {
    &&& (start is Some ==> parse_ts(start.unwrap()) is Some)
    &&& (end is Some ==> parse_ts(end.unwrap()) is Some)
}

/// The window the parameters ask for. A bound is set exactly when its
/// parameter is present and parses; the window then restricts a query only
/// when both bounds are set.
pub open spec fn range_of(start: Option<Seq<char>>, end: Option<Seq<char>>) -> TimeRange {
    TimeRange {
        start: if start is Some {
            parse_ts(start.unwrap())
        } else {
            None
        },
        end: if end is Some {
            parse_ts(end.unwrap())
        } else {
            None
        },
    }
}

/// Decodes the optional `start` and `end` query parameters. A present value
/// that is no timestamp fails the request; a missing value leaves its bound
/// unset.
pub fn parse_time_range(start: Option<&str>, end: Option<&str>) -> (r: Result<
    TimeRange,
    MalformedParam,
>)
    ensures
        r is Ok <==> params_ok(opt_view(start), opt_view(end)),
        r is Ok ==> r.unwrap() == range_of(opt_view(start), opt_view(end)),
{
    let s = match start {
        Some(text) => match parse_timestamp(text) {
            Some(t) => Some(t),
            None => {
                return Err(MalformedParam);
            },
        },
        None => None,
    };
    let e = match end {
        Some(text) => match parse_timestamp(text) {
            Some(t) => Some(t),
            None => {
                return Err(MalformedParam);
            },
        },
        None => None,
    };
    Ok(TimeRange { start: s, end: e })
}

/// Status and body of one data response.
#[derive(Debug)]
pub struct QueryResponse {
    pub status: u16,
    pub body: String,
}

/// Body of the refusal of a malformed `start` or `end` value.
pub open spec fn bad_request_chars() -> Seq<char> {
    "invalid start or end timestamp"@
}

/// `200` when every present parameter parses, `400` otherwise.
pub open spec fn response_status(start: Option<Seq<char>>, end: Option<Seq<char>>) -> int {
    if params_ok(start, end) {
        200
    } else {
        400
    }
}

/// The response text: the JSON array of the query result on success, the
/// refusal text otherwise.
pub open spec fn response_body(
    g: Granularity,
    start: Option<Seq<char>>,
    end: Option<Seq<char>>,
    rows: Seq<Utilization>,
    cap: Option<usize>,
) -> Seq<char> {
    if params_ok(start, end) {
        json_chars(query_spec(g, range_of(start, end), rows, cap))
    } else {
        bad_request_chars()
    }
}

/// Relies on `String`'s `FromIterator<char>` impl: collecting characters
/// concatenates exactly them, in order.
#[verifier::external_body]
fn chars_to_string(v: &Vec<char>) -> (s: String)
    ensures
        s@ == v@,
{
    v.iter().collect()
}

/// Answers one data request: decodes the window parameters, runs the query
/// over the given rows, and renders the result. The status and body are a
/// function of the arguments alone.
pub fn respond(
    g: Granularity,
    start: Option<&str>,
    end: Option<&str>,
    rows: &Vec<Utilization>,
    cap: Option<usize>,
) -> (resp: QueryResponse)
    ensures
        resp.status as int == response_status(opt_view(start), opt_view(end)),
        resp.body@ == response_body(g, opt_view(start), opt_view(end), rows@, cap),
{
    match parse_time_range(start, end) {
        Ok(tr) => {
            let result = run_query(rows, g, &tr, cap);
            let chars = render_json(&result);
            QueryResponse { status: 200, body: chars_to_string(&chars) }
        },
        Err(_) => QueryResponse {
            status: 400,
            body: String::from_str("invalid start or end timestamp"),
        },
    }
}

} // verus!
