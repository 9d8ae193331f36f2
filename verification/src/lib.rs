//! Read-only query service over two time series of resource-utilization
//! counters (CPU and GPU "allocated vs total"). The library parses optional
//! time-window parameters, filters and orders raw rows, truncates timestamps
//! to hourly or daily buckets, averages each bucket with round-half-away-from-
//! zero, and renders the result as a JSON array.

use vstd::prelude::*;

pub mod json;
pub mod laws;
pub mod query;
pub mod records;
pub mod routes;
pub mod rounding;
pub mod time_text;
pub mod timestamp;

verus! {

/// Body of the liveness endpoint.
pub fn root() -> (r: &'static str)
    ensures
        r@ == "Hello, World!"@,
{
    "Hello, World!"
}

} // verus!
