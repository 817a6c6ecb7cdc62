//! Observability: which metrics each event records, and which logging,
//! tracing and metrics outputs the settings ask for.
//!
//! The metrics themselves are emitted, and the outputs set up, by the
//! program with the `metrics` and `tracing` crates.

use vstd::prelude::*;

use crate::server::config::{LogFormat, LogRotation, ObservabilitySettings};
use crate::strings::{decimal, decimal_string};

verus! {

broadcast use vstd::string::group_string_axioms;

/// How a metric is updated.
#[derive(Debug, Clone, Copy, PartialEq, Eq, Structural)]
pub enum MetricKind {
    /// A counter is increased by this amount.
    Counter(u64),
    /// A histogram records this value.
    Histogram(u64),
}

/// One update of a named, labelled metric.
#[derive(Debug, Clone)]
pub struct MetricUpdate {
    pub name: String,
    pub labels: Vec<(String, String)>,
    pub kind: MetricKind,
}

/// A metric update as plain values.
pub type MetricView = (Seq<char>, Seq<(Seq<char>, Seq<char>)>, MetricKind);

impl View for MetricUpdate {
    type V = MetricView;

    open spec fn view(&self) -> MetricView {
        (self.name@, self.labels@.map_values(|l: (String, String)| (l.0@, l.1@)), self.kind)
    }
}

/// The views of a list of metric updates.
pub open spec fn updates_view(v: Seq<MetricUpdate>) -> Seq<MetricView> {
    v.map_values(|u: MetricUpdate| u@)
}

/// The text of a flag (`bool::to_string`).
pub open spec fn flag_text(b: bool) -> Seq<char> {
    if b {
        "true"@
    } else {
        "false"@
    }
}

/// Writes a flag as text.
fn flag_string(b: bool) -> (r: String)
    ensures
        r@ == flag_text(b),
{
    if b {
        "true".to_owned()
    } else {
        "false".to_owned()
    }
}

/// The labels of a processing event.
pub open spec fn processing_labels(file_type: Seq<char>, success: bool) -> Seq<(Seq<char>, Seq<char>)> {
    seq![("file_type"@, file_type), ("success"@, flag_text(success))]
}

/// The updates a processing event records: the total count, the duration,
/// the input and output sizes, then the success or error count.
pub open spec fn processing_updates(
    file_type: Seq<char>,
    input_size: usize,
    output_size: usize,
    duration_ms: u64,
    success: bool,
) -> Seq<MetricView> {
    let l = processing_labels(file_type, success);
    seq![
        ("placy_processing_total"@, l, MetricKind::Counter(1)),
        ("placy_processing_duration_ms"@, l, MetricKind::Histogram(duration_ms)),
        ("placy_processing_input_bytes"@, l, MetricKind::Histogram(input_size as u64)),
        ("placy_processing_output_bytes"@, l, MetricKind::Histogram(output_size as u64)),
        (if success {
            "placy_processing_success_total"@
        } else {
            "placy_processing_error_total"@
        }, l, MetricKind::Counter(1)),
    ]
}

/// Two labels.
fn labels2(k1: &str, v1: String, k2: &str, v2: String) -> (r: Vec<(String, String)>)
    ensures
        r@.map_values(|l: (String, String)| (l.0@, l.1@)) == seq![(k1@, v1@), (k2@, v2@)],
{
    let r = vec![(k1.to_owned(), v1), (k2.to_owned(), v2)];
    assert(r@.map_values(|l: (String, String)| (l.0@, l.1@)) =~= seq![(k1@, v1@), (k2@, v2@)]);
    r
}

/// Records a processing metric: the updates to emit for one processed
/// upload.
pub fn record_processing_metrics(
    file_type: &str,
    input_size: usize,
    output_size: usize,
    duration_ms: u64,
    success: bool,
) -> (r: Vec<MetricUpdate>)
    ensures
        updates_view(r@) == processing_updates(
            file_type@,
            input_size,
            output_size,
            duration_ms,
            success,
        ),
{
    let mut out: Vec<MetricUpdate> = Vec::new();
    out.push(
        MetricUpdate {
            name: "placy_processing_total".to_owned(),
            labels: labels2("file_type", file_type.to_owned(), "success", flag_string(success)),
            kind: MetricKind::Counter(1),
        },
    );
    out.push(
        MetricUpdate {
            name: "placy_processing_duration_ms".to_owned(),
            labels: labels2("file_type", file_type.to_owned(), "success", flag_string(success)),
            kind: MetricKind::Histogram(duration_ms),
        },
    );
    out.push(
        MetricUpdate {
            name: "placy_processing_input_bytes".to_owned(),
            labels: labels2("file_type", file_type.to_owned(), "success", flag_string(success)),
            kind: MetricKind::Histogram(input_size as u64),
        },
    );
    out.push(
        MetricUpdate {
            name: "placy_processing_output_bytes".to_owned(),
            labels: labels2("file_type", file_type.to_owned(), "success", flag_string(success)),
            kind: MetricKind::Histogram(output_size as u64),
        },
    );
    let labels = labels2("file_type", file_type.to_owned(), "success", flag_string(success));
    let last = if success {
        "placy_processing_success_total".to_owned()
    } else {
        "placy_processing_error_total".to_owned()
    };
    out.push(MetricUpdate { name: last, labels, kind: MetricKind::Counter(1) });
    assert(updates_view(out@) =~= processing_updates(
        file_type@,
        input_size,
        output_size,
        duration_ms,
        success,
    ));
    out
}

/// The update an authentication attempt records.
pub open spec fn auth_updates(success: bool, key_name: Option<Seq<char>>) -> Seq<MetricView> {
    seq![
        (
            "placy_auth_attempts_total"@,
            seq![
                ("success"@, flag_text(success)),
                ("key_name"@, match key_name {
                    Some(n) => n,
                    None => "unknown"@,
                }),
            ],
            MetricKind::Counter(1),
        ),
    ]
}

/// Records an authentication event: the update to emit for one attempt.
pub fn record_auth_event(success: bool, key_name: Option<&str>) -> (r: Vec<MetricUpdate>)
    ensures
        updates_view(r@) == auth_updates(
            success,
            match key_name {
                Some(n) => Some(n@),
                None => None,
            },
        ),
{
    let name = match key_name {
        Some(n) => n.to_owned(),
        None => "unknown".to_owned(),
    };
    assert(name@ == match key_name {
        Some(n) => n@,
        None => "unknown"@,
    });
    let labels = labels2("success", flag_string(success), "key_name", name);
    let mut out: Vec<MetricUpdate> = Vec::new();
    out.push(
        MetricUpdate {
            name: "placy_auth_attempts_total".to_owned(),
            labels,
            kind: MetricKind::Counter(1),
        },
    );
    let ghost kn = match key_name {
        Some(n) => Some(n@),
        None => None,
    };
    assert(out@[0]@.1 =~= auth_updates(success, kn)[0].1);
    assert(out@[0]@ == auth_updates(success, kn)[0]);
    assert(updates_view(out@) =~= auth_updates(
        success,
        match key_name {
            Some(n) => Some(n@),
            None => None,
        },
    ));
    out
}

/// The updates one HTTP request records: its count and its duration.
pub open spec fn request_updates(method: Seq<char>, path: Seq<char>, status: u16, duration_ms: u64) -> Seq<
    MetricView,
> {
    let l = seq![("method"@, method), ("path"@, path), ("status"@, decimal(status as nat))];
    seq![
        ("placy_http_requests_total"@, l, MetricKind::Counter(1)),
        ("placy_http_request_duration_ms"@, l, MetricKind::Histogram(duration_ms)),
    ]
}

/// The labels of a request.
fn request_labels(method: &str, path: &str, status: u16) -> (r: Vec<(String, String)>)
    ensures
        r@.map_values(|l: (String, String)| (l.0@, l.1@)) == seq![
            ("method"@, method@),
            ("path"@, path@),
            ("status"@, decimal(status as nat)),
        ],
{
    let r = vec![
        ("method".to_owned(), method.to_owned()),
        ("path".to_owned(), path.to_owned()),
        ("status".to_owned(), decimal_string(status as u64)),
    ];
    assert(r@.map_values(|l: (String, String)| (l.0@, l.1@)) =~= seq![
        ("method"@, method@),
        ("path"@, path@),
        ("status"@, decimal(status as nat)),
    ]);
    r
}

/// Records request metrics: the updates to emit for one HTTP request.
pub fn record_request(method: &str, path: &str, status: u16, duration_ms: u64) -> (r: Vec<
    MetricUpdate,
>)
    ensures
        updates_view(r@) == request_updates(method@, path@, status, duration_ms),
{
    let mut out: Vec<MetricUpdate> = Vec::new();
    out.push(
        MetricUpdate {
            name: "placy_http_requests_total".to_owned(),
            labels: request_labels(method, path, status),
            kind: MetricKind::Counter(1),
        },
    );
    out.push(
        MetricUpdate {
            name: "placy_http_request_duration_ms".to_owned(),
            labels: request_labels(method, path, status),
            kind: MetricKind::Histogram(duration_ms),
        },
    );
    assert(updates_view(out@) =~= request_updates(method@, path@, status, duration_ms));
    out
}

/// A log file output: where it goes, how it rotates and whether it is JSON.
#[derive(Debug, Clone)]
pub struct FileLogPlan {
    pub dir: String,
    pub prefix: String,
    pub rotation: LogRotation,
    pub json: bool,
}

/// An OpenTelemetry trace export.
#[derive(Debug, Clone)]
pub struct OtelPlan {
    pub endpoint: String,
    pub service_name: String,
}

/// The observability outputs to set up.
#[derive(Debug, Clone)]
pub struct TelemetryPlan {
    /// The log level used when the environment sets no filter.
    pub default_level: String,
    /// Console logging, in this format.
    pub console: Option<LogFormat>,
    /// File logging.
    pub file: Option<FileLogPlan>,
    /// Trace export.
    pub otel: Option<OtelPlan>,
    /// Whether to install the Prometheus recorder.
    pub prometheus: bool,
}

/// Decides the observability outputs: console logging in the configured
/// format when enabled; file logging when enabled, JSON only for the JSON
/// format; trace export when OpenTelemetry and its traces are enabled; and
/// the Prometheus recorder when metrics are enabled.
pub fn init_telemetry(settings: &ObservabilitySettings) -> (r: TelemetryPlan)
    ensures
        r.default_level@ == settings.logging.level@,
        r.console == if settings.logging.console_enabled {
            Some(settings.logging.format)
        } else {
            None
        },
        settings.logging.file_enabled <==> r.file is Some,
        r.file matches Some(f) ==> f.dir@ == settings.logging.file_dir@ && f.prefix@
            == settings.logging.file_prefix@ && f.rotation == settings.logging.file_rotation
            && f.json == (settings.logging.format == LogFormat::Json),
        (settings.otel.enabled && settings.otel.traces_enabled) <==> r.otel is Some,
        r.otel matches Some(o) ==> o.endpoint@ == settings.otel.endpoint@ && o.service_name@
            == settings.otel.service_name@,
        r.prometheus == settings.metrics.enabled,
{
    let console = if settings.logging.console_enabled {
        Some(settings.logging.format)
    } else {
        None
    };
    let file = if settings.logging.file_enabled {
        let json = match settings.logging.format {
            LogFormat::Json => true,
            _ => false,
        };
        Some(
            FileLogPlan {
                dir: settings.logging.file_dir.clone(),
                prefix: settings.logging.file_prefix.clone(),
                rotation: settings.logging.file_rotation,
                json,
            },
        )
    } else {
        None
    };
    let otel = if settings.otel.enabled && settings.otel.traces_enabled {
        Some(
            OtelPlan {
                endpoint: settings.otel.endpoint.clone(),
                service_name: settings.otel.service_name.clone(),
            },
        )
    } else {
        None
    };
    TelemetryPlan {
        default_level: settings.logging.level.clone(),
        console,
        file,
        otel,
        prometheus: settings.metrics.enabled,
    }
}

} // verus!
