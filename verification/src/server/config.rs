//! Settings of the HTTP service.
//!
//! The settings are read from defaults, a configuration file and `PLACY_*`
//! environment variables by the program; here they are plain values with
//! their defaults and the decisions made from them.

use vstd::prelude::*;
use vstd::utf8::encode_utf8;

use crate::config::CompressionRatio;
use crate::paths::{join, path_join};
use crate::strings::{concat3, decimal, decimal_string};

verus! {

broadcast use vstd::string::group_string_axioms;

/// Main application settings.
#[derive(Debug, Clone)]
pub struct Settings {
    /// Server configuration.
    pub server: ServerSettings,
    /// Processing configuration.
    pub processing: ProcessingSettings,
    /// Authentication configuration.
    pub auth: AuthSettings,
    /// Observability configuration.
    pub observability: ObservabilitySettings,
}

/// HTTP server settings.
#[derive(Debug, Clone)]
pub struct ServerSettings {
    /// Host address to bind to.
    pub host: String,
    /// Port to listen on.
    pub port: u16,
    /// Number of worker threads (0 = one per CPU).
    pub workers: usize,
    /// Request timeout in seconds.
    pub request_timeout_secs: u64,
    /// Keep-alive timeout in seconds.
    pub keepalive_secs: u64,
}

/// The default host address.
pub fn default_host() -> (r: String)
    ensures
        r@ == "0.0.0.0"@,
{
    "0.0.0.0".to_owned()
}

/// The default port.
pub fn default_port() -> (r: u16)
    ensures
        r == 8080,
{
    8080
}

/// The default request timeout: 5 minutes for large file processing.
pub fn default_request_timeout() -> (r: u64)
    ensures
        r == 300,
{
    300
}

/// The default keep-alive timeout in seconds.
pub fn default_keepalive() -> (r: u64)
    ensures
        r == 75,
{
    75
}

/// File processing settings.
#[derive(Debug, Clone)]
pub struct ProcessingSettings {
    /// Maximum upload size in bytes.
    pub max_upload_size: usize,
    /// Maximum individual file size in bytes.
    pub max_file_size: u64,
    /// Maximum files in an archive.
    pub max_file_count: usize,
    /// Maximum ZIP archive size in bytes.
    pub max_zip_size: u64,
    /// Maximum compression ratio for zip bomb detection.
    pub max_compression_ratio: CompressionRatio,
    /// Temporary directory for processing.
    pub temp_dir: String,
    /// Delete process.txt from the output.
    pub delete_process_file: bool,
    /// Delete ignore.txt from the output.
    pub delete_ignore_file: bool,
}

/// The default maximum upload size (100 MB).
pub fn default_max_upload_size() -> (r: usize)
    ensures
        r == 104857600,
{
    104857600
}

/// The default maximum individual file size (10 MB).
pub fn default_max_file_size() -> (r: u64)
    ensures
        r == 10485760,
{
    10485760
}

/// The default maximum number of files in an archive.
pub fn default_max_file_count() -> (r: usize)
    ensures
        r == 1000,
{
    1000
}

/// The default maximum ZIP size (100 MB).
pub fn default_max_zip_size() -> (r: u64)
    ensures
        r == 104857600,
{
    104857600
}

/// The default maximum compression ratio: 100.
pub fn default_max_compression_ratio() -> (r: CompressionRatio)
    ensures
        r.numerator == 100 && r.denominator == 1,
{
    CompressionRatio::default_limit()
}

/// The default temporary directory: `placy` inside the system's
/// temporary directory.
pub fn default_temp_dir(system_temp_dir: &str) -> (r: String)
    ensures
        r@ == path_join(system_temp_dir@, "placy"@),
{
    join(system_temp_dir, "placy")
}

/// The default for flags that are on unless turned off.
pub fn default_true() -> (r: bool)
    ensures
        r,
{
    true
}

/// API key configuration.
#[derive(Debug, Clone)]
pub struct ApiKey {
    /// Name/identifier for the key.
    pub name: String,
    /// The secret key value.
    pub key: String,
    /// Optional rate limit (requests per minute).
    pub rate_limit: Option<u32>,
}

/// Authentication settings.
#[derive(Debug, Clone)]
pub struct AuthSettings {
    /// Whether authentication is enabled.
    pub enabled: bool,
    /// API keys for authentication.
    pub api_keys: Vec<ApiKey>,
    /// Header name for the API key.
    pub api_key_header: String,
    /// Whether the metrics endpoint requires authentication.
    pub metrics_auth_enabled: bool,
}

/// The default header carrying the API key.
pub fn default_api_key_header() -> (r: String)
    ensures
        r@ == "X-API-Key"@,
{
    "X-API-Key".to_owned()
}

/// Observability settings (logging, metrics, tracing).
#[derive(Debug, Clone)]
pub struct ObservabilitySettings {
    /// Logging configuration.
    pub logging: LoggingSettings,
    /// Metrics configuration.
    pub metrics: MetricsSettings,
    /// OpenTelemetry configuration.
    pub otel: OtelSettings,
}

/// Logging configuration.
#[derive(Debug, Clone)]
pub struct LoggingSettings {
    /// Log level (trace, debug, info, warn, error).
    pub level: String,
    /// Log format (json, pretty, compact).
    pub format: LogFormat,
    /// Enable console logging.
    pub console_enabled: bool,
    /// Enable file logging.
    pub file_enabled: bool,
    /// Log file directory.
    pub file_dir: String,
    /// Log file name prefix.
    pub file_prefix: String,
    /// Log rotation (daily, hourly, minutely, never).
    pub file_rotation: LogRotation,
}

/// The default log level.
pub fn default_log_level() -> (r: String)
    ensures
        r@ == "info"@,
{
    "info".to_owned()
}

/// The default log format.
pub fn default_log_format() -> (r: LogFormat)
    ensures
        r == LogFormat::Pretty,
{
    LogFormat::Pretty
}

/// The default log directory.
pub fn default_log_dir() -> (r: String)
    ensures
        r@ == "./logs"@,
{
    "./logs".to_owned()
}

/// The default log file prefix.
pub fn default_log_prefix() -> (r: String)
    ensures
        r@ == "placy-server"@,
{
    "placy-server".to_owned()
}

/// The default log rotation.
pub fn default_rotation() -> (r: LogRotation)
    ensures
        r == LogRotation::Daily,
{
    LogRotation::Daily
}

/// Log output format.
#[derive(Debug, Clone, Copy, PartialEq, Eq, Structural)]
pub enum LogFormat {
    /// JSON format for structured logging.
    Json,
    /// Human-readable pretty format.
    Pretty,
    /// Compact single-line format.
    Compact,
}

impl Default for LogFormat {
    fn default() -> (r: LogFormat)
        ensures
            r == LogFormat::Pretty,
    {
        LogFormat::Pretty
    }
}

/// Log file rotation strategy.
#[derive(Debug, Clone, Copy, PartialEq, Eq, Structural)]
pub enum LogRotation {
    /// Rotate daily.
    Daily,
    /// Rotate hourly.
    Hourly,
    /// Rotate every minute (for testing).
    Minutely,
    /// Never rotate.
    Never,
}

impl Default for LogRotation {
    fn default() -> (r: LogRotation)
        ensures
            r == LogRotation::Daily,
    {
        LogRotation::Daily
    }
}

/// Prometheus metrics configuration.
#[derive(Debug, Clone)]
pub struct MetricsSettings {
    /// Enable Prometheus metrics.
    pub enabled: bool,
    /// Metrics endpoint path.
    pub path: String,
    /// Include default process metrics.
    pub include_process_metrics: bool,
}

/// The default metrics endpoint path.
pub fn default_metrics_path() -> (r: String)
    ensures
        r@ == "/metrics"@,
{
    "/metrics".to_owned()
}

/// OpenTelemetry configuration.
#[derive(Debug, Clone)]
pub struct OtelSettings {
    /// Enable OpenTelemetry export.
    pub enabled: bool,
    /// Export traces when OpenTelemetry is enabled.
    pub traces_enabled: bool,
    /// OTLP endpoint URL.
    pub endpoint: String,
    /// Service name for traces.
    pub service_name: String,
}

/// The default OTLP endpoint.
pub fn default_otel_endpoint() -> (r: String)
    ensures
        r@ == "http://localhost:4317"@,
{
    "http://localhost:4317".to_owned()
}

/// The default service name.
pub fn default_service_name() -> (r: String)
    ensures
        r@ == "placy-server"@,
{
    "placy-server".to_owned()
}

/// The number of CPUs available (`num_cpus::get`); the crate documents
/// that it is always at least 1.
#[verifier::external_body]
fn available_cpus() -> (r: usize)
    ensures
        r >= 1,
{
    num_cpus::get()
}

impl ServerSettings {
    /// The number of worker threads to run: the configured number, or one
    /// per available CPU when it is 0.
    pub fn worker_count(&self) -> (r: usize)
        ensures
            self.workers > 0 ==> r == self.workers,
            r >= 1,
    {
        if self.workers > 0 {
            self.workers
        } else {
            available_cpus()
        }
    }
}

impl Settings {
    /// The server bind address: host, `:` and port.
    pub fn bind_address(&self) -> (r: String)
        ensures
            r@ == self.server.host@ + ":"@ + decimal(self.server.port as nat),
    {
        let p = decimal_string(self.server.port as u64);
        concat3(self.server.host.as_str(), ":", p.as_str())
    }
}

/// Compares two byte strings in constant time (`constant_time_eq::constant_time_eq`);
/// they match when they have the same length and the same bytes.
#[verifier::external_body]
fn bytes_match(a: &[u8], b: &[u8]) -> (r: bool)
    ensures
        r == (a@ == b@),
{
    constant_time_eq::constant_time_eq(a, b)
}

/// The position of the first configured key whose bytes are those of
/// `key`, or `-1` when there is none.
pub open spec fn matching_key(keys: Seq<ApiKey>, key: Seq<char>) -> int
    decreases keys.len(),
{
    if keys.len() == 0 {
        -1
    } else if matching_key(keys.drop_last(), key) >= 0 {
        matching_key(keys.drop_last(), key)
    } else if encode_utf8(keys.last().key@) == encode_utf8(key) {
        keys.len() - 1
    } else {
        -1
    }
}

impl AuthSettings {
    /// Validates an API key against the configured keys: the first key
    /// with the same bytes, compared in constant time; none when
    /// authentication is disabled.
    pub fn validate_key(&self, key: &str) -> (r: Option<&ApiKey>)
        ensures
            match r {
                Some(k) => self.enabled && matching_key(self.api_keys@, key@) >= 0 && *k
                    == self.api_keys@[matching_key(self.api_keys@, key@)],
                None => !self.enabled || matching_key(self.api_keys@, key@) == -1,
            },
    {
        if !self.enabled {
            return None;
        }
        let mut i: usize = 0;
        while i < self.api_keys.len()
            invariant
                self.enabled,
                0 <= i <= self.api_keys@.len(),
                matching_key(self.api_keys@.take(i as int), key@) == -1,
            decreases self.api_keys@.len() - i,
        {
            assert(self.api_keys@.take(i + 1).drop_last() =~= self.api_keys@.take(i as int));
            if bytes_match(key.as_bytes(), self.api_keys[i].key.as_str().as_bytes()) {
                proof {
                    lemma_matching_key_prefix(self.api_keys@, i as int, key@);
                }
                return Some(&self.api_keys[i]);
            }
            i = i + 1;
        }
        assert(self.api_keys@.take(i as int) =~= self.api_keys@);
        None
    }
}

/// When no key before `i` matches and key `i` does, `matching_key` is `i`.
proof fn lemma_matching_key_prefix(keys: Seq<ApiKey>, i: int, key: Seq<char>)
    requires
        0 <= i < keys.len(),
        matching_key(keys.take(i), key) == -1,
        encode_utf8(keys[i].key@) == encode_utf8(key),
    ensures
        matching_key(keys, key) == i,
    decreases keys.len(),
{
    if i == keys.len() - 1 {
        assert(keys.drop_last() =~= keys.take(i));
    } else {
        assert(keys.drop_last().take(i) =~= keys.take(i));
        lemma_matching_key_prefix(keys.drop_last(), i, key);
    }
}

} // verus!
