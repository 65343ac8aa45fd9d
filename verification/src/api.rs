use vstd::prelude::*;

use crate::database::DbHealthState;

verus! {

pub const READINESS_RESULT_OK: &'static str = "ok";
pub const READINESS_RESULT_ERROR: &'static str = "error";
pub const READINESS_RESULT_DISABLED: &'static str = "disabled";
pub const STORE_UNAVAILABLE_MESSAGE: &'static str = "example store unavailable";
pub const NOT_FOUND_MESSAGE: &'static str = "cannot find example";

/// The answer to a liveness probe.
#[derive(Debug)]
pub struct HealthResponse {
    pub status: &'static str,
}

/// The body of a request to create an example.
#[derive(Debug)]
pub struct CreateExampleRequest {
    pub name: String,
}

/// An example as the API returns it.
#[derive(Debug)]
pub struct ExampleResponse {
    pub id: i64,
    pub name: String,
}

/// The body of a refused API request.
#[derive(Debug)]
pub struct ErrorResponse {
    pub error: String,
}

impl HealthResponse {
    /// The answer of a live process.
    pub fn live() -> (r: HealthResponse)
        ensures
            r.status@ == "ok"@,
    {
        HealthResponse { status: "ok" }
    }
}

impl ErrorResponse {
    /// The body that carries `message`.
    pub fn of(message: &str) -> (r: ErrorResponse)
        ensures
            r.error@ == message@,
    {
        ErrorResponse { error: message.to_string() }
    }
}

/// How a readiness probe answers, given the health of the database when one
/// is configured: the result it logs, and whether the service is ready.
pub fn readiness_verdict(database: Option<DbHealthState>) -> (r: (&'static str, bool))
    ensures
        r.0@ == match database {
            None => READINESS_RESULT_DISABLED@,
            Some(DbHealthState::Connected) => READINESS_RESULT_OK@,
            Some(_) => READINESS_RESULT_ERROR@,
        },
        r.1 == !(database matches Some(s) && s != DbHealthState::Connected),
{
    match database {
        None => (READINESS_RESULT_DISABLED, true),
        Some(DbHealthState::Connected) => (READINESS_RESULT_OK, true),
        Some(_) => (READINESS_RESULT_ERROR, false),
    }
}

} // verus!
