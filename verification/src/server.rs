//! The HTTP service: its settings, API-key authentication, the processing
//! endpoint's decisions, health and metrics answers, and observability.

pub mod config;
pub mod telemetry;
pub mod handlers;
pub mod auth;
pub mod process;
pub mod health;
