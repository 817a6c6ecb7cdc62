//! API key authentication: what the middleware does with a request.

use vstd::prelude::*;

use crate::server::config::{matching_key, AuthSettings};
use crate::server::handlers::ErrorResponse;
use crate::server::telemetry::{auth_updates, record_auth_event, updates_view, MetricUpdate};
use crate::strings::concat3;

verus! {

broadcast use vstd::string::group_string_axioms;

/// Authenticated request context.
#[derive(Debug, Clone)]
pub struct AuthContext {
    /// Name of the authenticated API key.
    pub key_name: String,
    /// Rate limit for this key (if any).
    pub rate_limit: Option<u32>,
}

/// API key authentication middleware settings.
#[derive(Debug, Clone)]
pub struct ApiKeyAuth {
    pub settings: AuthSettings,
    /// Whether this middleware requires auth (false for health endpoints).
    pub required: bool,
}

/// What the middleware does with a request.
#[derive(Debug, Clone)]
pub enum AuthDecision {
    /// Pass the request on as it is.
    Forward,
    /// Pass the request on with this context attached.
    Authenticated(AuthContext),
    /// Answer `401 Unauthorized` with this body.
    Reject(ErrorResponse),
}

/// The decision on a request and the metric updates to record.
#[derive(Debug, Clone)]
pub struct AuthOutcome {
    pub decision: AuthDecision,
    pub metrics: Vec<MetricUpdate>,
}

impl ApiKeyAuth {
    /// Creates a middleware that requires authentication.
    pub fn new(settings: AuthSettings) -> (r: ApiKeyAuth)
        ensures
            r.settings == settings,
            r.required,
    {
        ApiKeyAuth { settings, required: true }
    }

    /// Creates a middleware that makes authentication optional (for health endpoints).
    pub fn optional(settings: AuthSettings) -> (r: ApiKeyAuth)
        ensures
            r.settings == settings,
            !r.required,
    {
        ApiKeyAuth { settings, required: false }
    }

    /// Decides what to do with a request, given the value of its API-key
    /// header (absent when missing or not visible ASCII).
    ///
    /// Without authentication enabled, or on a route that does not require
    /// it, the request passes on. A key that matches a configured one passes
    /// on with its name and rate limit attached, and a successful attempt is
    /// recorded. A wrong or missing key is answered `401` and a failed
    /// attempt is recorded.
    pub fn call(&self, api_key: Option<&str>) -> (r: AuthOutcome)
        ensures
            !self.settings.enabled || !self.required ==> (r.decision is Forward && r.metrics@.len()
                == 0),
            self.settings.enabled && self.required ==> match api_key {
                Some(key) => {
                    let i = matching_key(self.settings.api_keys@, key@);
                    if i >= 0 {
                        let k = self.settings.api_keys@[i];
                        &&& r.decision matches AuthDecision::Authenticated(c)
                        &&& c.key_name@ == k.name@
                        &&& c.rate_limit == k.rate_limit
                        &&& updates_view(r.metrics@) == auth_updates(true, Some(k.name@))
                    } else {
                        &&& r.decision matches AuthDecision::Reject(b)
                        &&& b@ == ("unauthorized"@, "Invalid API key"@, None::<Seq<char>>)
                        &&& updates_view(r.metrics@) == auth_updates(false, None)
                    }
                },
                None => {
                    &&& r.decision matches AuthDecision::Reject(b)
                    &&& b@ == (
                        "unauthorized"@,
                        "Missing "@ + self.settings.api_key_header@ + " header"@,
                        None::<Seq<char>>,
                    )
                    &&& updates_view(r.metrics@) == auth_updates(false, None)
                },
            },
    {
        if !self.settings.enabled || !self.required {
            return AuthOutcome { decision: AuthDecision::Forward, metrics: Vec::new() };
        }
        match api_key {
            Some(key) => {
                match self.settings.validate_key(key) {
                    Some(k) => {
                        let metrics = record_auth_event(true, Some(k.name.as_str()));
                        let context = AuthContext {
                            key_name: k.name.clone(),
                            rate_limit: k.rate_limit,
                        };
                        AuthOutcome { decision: AuthDecision::Authenticated(context), metrics }
                    },
                    None => {
                        let metrics = record_auth_event(false, None);
                        let body = ErrorResponse {
                            error: "unauthorized".to_owned(),
                            message: "Invalid API key".to_owned(),
                            details: None,
                        };
                        AuthOutcome { decision: AuthDecision::Reject(body), metrics }
                    },
                }
            },
            None => {
                let metrics = record_auth_event(false, None);
                let body = ErrorResponse {
                    error: "unauthorized".to_owned(),
                    message: concat3("Missing ", self.settings.api_key_header.as_str(), " header"),
                    details: None,
                };
                AuthOutcome { decision: AuthDecision::Reject(body), metrics }
            },
        }
    }
}

} // verus!
