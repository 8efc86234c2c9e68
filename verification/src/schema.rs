//! Schema identity of serialized benchmark results, shared across toolkits.

use vstd::prelude::*;

verus! {

/// Schema version of the benchmark result format.
pub const SCHEMA_VERSION: &'static str = "1.0";

/// Schema URL for validating serialized results.
pub const SCHEMA_URL: &'static str = "https://gokit.dev/bench/v1/schema.json";

/// The schema version, as an owned string.
pub fn version() -> (v: String)
    ensures
        v@ == SCHEMA_VERSION@,
{
    String::from_str(SCHEMA_VERSION)
}

/// The schema URL, as an owned string.
pub fn schema_url() -> (u: String)
    ensures
        u@ == SCHEMA_URL@,
{
    String::from_str(SCHEMA_URL)
}

} // verus!
