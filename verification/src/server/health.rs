//! Health, readiness and metrics answers.

use vstd::prelude::*;

use crate::server::config::AuthSettings;
use crate::server::handlers::ErrorResponse;

verus! {

broadcast use vstd::string::group_string_axioms;

/// Health check response.
#[derive(Debug, Clone)]
pub struct HealthResponse {
    pub status: String,
    pub version: String,
}

/// The health check answer: healthy, with the server's version.
pub fn health(version: &str) -> (r: HealthResponse)
    ensures
        r.status@ == "healthy"@,
        r.version@ == version@,
{
    HealthResponse { status: "healthy".to_owned(), version: version.to_owned() }
}

/// What the metrics endpoint answers.
#[derive(Debug, Clone)]
pub enum MetricsAnswer {
    /// `401 Unauthorized` with this body.
    Unauthorized(ErrorResponse),
    /// `200 OK` with the rendered metrics.
    Render,
    /// `503 Service Unavailable` with this body.
    Unavailable(ErrorResponse),
}

/// Decides the metrics endpoint's answer: when metrics authentication and
/// authentication are both enabled, an unauthenticated request is refused;
/// otherwise the metrics are rendered when they are collected.
pub fn metrics(settings: &AuthSettings, authenticated: bool, collected: bool) -> (r: MetricsAnswer)
    ensures
        settings.metrics_auth_enabled && settings.enabled && !authenticated ==> (r matches MetricsAnswer::Unauthorized(b)
            && b@ == ("unauthorized"@, "Authentication required for metrics endpoint"@, None::<Seq<char>>)),
        !(settings.metrics_auth_enabled && settings.enabled && !authenticated) && collected ==> r is Render,
        !(settings.metrics_auth_enabled && settings.enabled && !authenticated) && !collected ==> (r matches MetricsAnswer::Unavailable(b)
            && b@ == ("metrics_disabled"@, "Metrics collection is not enabled"@, None::<Seq<char>>)),
{
    if settings.metrics_auth_enabled && settings.enabled && !authenticated {
        return MetricsAnswer::Unauthorized(
            ErrorResponse {
                error: "unauthorized".to_owned(),
                message: "Authentication required for metrics endpoint".to_owned(),
                details: None,
            },
        );
    }
    if collected {
        MetricsAnswer::Render
    } else {
        MetricsAnswer::Unavailable(
            ErrorResponse {
                error: "metrics_disabled".to_owned(),
                message: "Metrics collection is not enabled".to_owned(),
                details: None,
            },
        )
    }
}

} // verus!
