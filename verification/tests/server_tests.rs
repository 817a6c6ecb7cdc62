use std::io::{Cursor, Write};

use placy::config::CompressionRatio;
use placy::placeholders::PlaceholderMap;
use placy::server::auth::{ApiKeyAuth, AuthDecision};
use placy::server::config::{
    default_api_key_header, default_host, default_keepalive, default_log_dir, default_log_format,
    default_log_level, default_log_prefix, default_max_compression_ratio, default_max_file_count,
    default_max_file_size, default_max_upload_size, default_max_zip_size, default_metrics_path,
    default_otel_endpoint, default_port, default_request_timeout, default_rotation,
    default_service_name, default_temp_dir, default_true, ApiKey, AuthSettings, LogFormat,
    LogRotation, LoggingSettings, MetricsSettings, ObservabilitySettings, OtelSettings,
    ProcessingSettings, ServerSettings, Settings,
};
use placy::server::handlers::{
    build_placy_config, is_upload_field, parse_placeholders_from_request, parse_placeholders_json,
    ErrorResponse, ProcessQuery, ProcessResponse, UploadBuffer,
};
use placy::server::health::{health, metrics, MetricsAnswer};
use placy::server::process::{
    processing_outcome,
    detect_archive_type, process_upload, request_placeholders, upload_failed, ArchiveType,
    HttpReply,
};
use placy::server::telemetry::{
    init_telemetry, record_auth_event, record_processing_metrics, record_request, MetricKind,
};

fn create_test_archive(files: &[(&str, &[u8])]) -> Vec<u8> {
    let mut buffer = Vec::new();
    {
        let mut zip = zip::ZipWriter::new(Cursor::new(&mut buffer));
        let options: zip::write::FileOptions<'_, ()> =
            zip::write::FileOptions::default().compression_method(zip::CompressionMethod::Stored);
        for (name, content) in files {
            zip.start_file(*name, options).unwrap();
            zip.write_all(content).unwrap();
        }
        zip.finish().unwrap();
    }
    buffer
}

fn auth_settings(enabled: bool) -> AuthSettings {
    AuthSettings {
        enabled,
        api_keys: vec![
            ApiKey { name: "ci".to_string(), key: "s3cret".to_string(), rate_limit: Some(60) },
            ApiKey { name: "other".to_string(), key: "s3cret".to_string(), rate_limit: None },
        ],
        api_key_header: default_api_key_header(),
        metrics_auth_enabled: true,
    }
}

fn settings() -> Settings {
    Settings {
        server: ServerSettings {
            host: default_host(),
            port: default_port(),
            workers: 3,
            request_timeout_secs: default_request_timeout(),
            keepalive_secs: default_keepalive(),
        },
        processing: ProcessingSettings {
            max_upload_size: default_max_upload_size(),
            max_file_size: default_max_file_size(),
            max_file_count: default_max_file_count(),
            max_zip_size: default_max_zip_size(),
            max_compression_ratio: default_max_compression_ratio(),
            temp_dir: default_temp_dir("/tmp"),
            delete_process_file: default_true(),
            delete_ignore_file: default_true(),
        },
        auth: auth_settings(true),
        observability: ObservabilitySettings {
            logging: LoggingSettings {
                level: default_log_level(),
                format: default_log_format(),
                console_enabled: true,
                file_enabled: false,
                file_dir: default_log_dir(),
                file_prefix: default_log_prefix(),
                file_rotation: default_rotation(),
            },
            metrics: MetricsSettings { enabled: true, path: default_metrics_path(), include_process_metrics: true },
            otel: OtelSettings {
                enabled: false,
                traces_enabled: true,
                endpoint: default_otel_endpoint(),
                service_name: default_service_name(),
            },
        },
    }
}

#[test]
fn server_defaults() {
    let s = settings();
    assert_eq!(s.server.host, "0.0.0.0");
    assert_eq!(s.server.port, 8080);
    assert_eq!(s.bind_address(), "0.0.0.0:8080");
    assert_eq!(s.server.worker_count(), 3);
    assert_eq!(s.server.request_timeout_secs, 300);
    assert_eq!(s.server.keepalive_secs, 75);
    assert_eq!(s.processing.max_upload_size, 104857600);
    assert_eq!(s.processing.max_file_count, 1000);
    assert_eq!(s.processing.temp_dir, "/tmp/placy");
    assert_eq!(s.observability.logging.level, "info");
    assert_eq!(s.observability.logging.format, LogFormat::Pretty);
    assert_eq!(s.observability.logging.file_rotation, LogRotation::Daily);
    assert_eq!(s.observability.logging.file_dir, "./logs");
    assert_eq!(s.observability.metrics.path, "/metrics");
    assert_eq!(s.observability.otel.endpoint, "http://localhost:4317");
    assert_eq!(s.observability.otel.service_name, "placy-server");
    assert_eq!(LogFormat::default(), LogFormat::Pretty);
    assert_eq!(LogRotation::default(), LogRotation::Daily);
    let mut auto = s.server.clone();
    auto.workers = 0;
    assert!(auto.worker_count() >= 1);
}

#[test]
fn server_validate_key() {
    let a = auth_settings(true);
    assert_eq!(a.validate_key("s3cret").map(|k| k.name.as_str()), Some("ci"));
    assert!(a.validate_key("wrong").is_none());
    assert!(a.validate_key("").is_none());
    assert!(auth_settings(false).validate_key("s3cret").is_none());
}

#[test]
fn server_auth_middleware_decisions() {
    let auth = ApiKeyAuth::new(auth_settings(true));
    let ok = auth.call(Some("s3cret"));
    match ok.decision {
        AuthDecision::Authenticated(c) => {
            assert_eq!(c.key_name, "ci");
            assert_eq!(c.rate_limit, Some(60));
        },
        other => panic!("unexpected {:?}", other),
    }
    assert_eq!(ok.metrics.len(), 1);
    assert_eq!(ok.metrics[0].labels[1].1, "ci");
    match auth.call(Some("bad")).decision {
        AuthDecision::Reject(b) => {
            assert_eq!(b.error, "unauthorized");
            assert_eq!(b.message, "Invalid API key");
            assert!(b.details.is_none());
        },
        other => panic!("unexpected {:?}", other),
    }
    let missing = auth.call(None);
    match missing.decision {
        AuthDecision::Reject(b) => assert_eq!(b.message, "Missing X-API-Key header"),
        other => panic!("unexpected {:?}", other),
    }
    assert_eq!(missing.metrics[0].labels[0].1, "false");
    assert_eq!(missing.metrics[0].labels[1].1, "unknown");
    assert!(matches!(ApiKeyAuth::optional(auth_settings(true)).call(None).decision, AuthDecision::Forward));
    assert!(matches!(ApiKeyAuth::new(auth_settings(false)).call(None).decision, AuthDecision::Forward));
}

#[test]
fn server_metric_updates() {
    let u = record_processing_metrics("jar", 10, 20, 5, true);
    let names: Vec<&str> = u.iter().map(|m| m.name.as_str()).collect();
    assert_eq!(names, vec![
        "placy_processing_total",
        "placy_processing_duration_ms",
        "placy_processing_input_bytes",
        "placy_processing_output_bytes",
        "placy_processing_success_total",
    ]);
    assert_eq!(u[1].kind, MetricKind::Histogram(5));
    assert_eq!(u[2].kind, MetricKind::Histogram(10));
    assert_eq!(u[3].kind, MetricKind::Histogram(20));
    assert_eq!(u[0].labels, vec![("file_type".to_string(), "jar".to_string()), ("success".to_string(), "true".to_string())]);
    let f = record_processing_metrics("unknown", 0, 0, 1, false);
    assert_eq!(f[4].name, "placy_processing_error_total");
    let a = record_auth_event(true, Some("ci"));
    assert_eq!(a[0].name, "placy_auth_attempts_total");
    assert_eq!(a[0].kind, MetricKind::Counter(1));
    let r = record_request("POST", "/api/v1/process", 200, 42);
    assert_eq!(r.len(), 2);
    assert_eq!(r[0].labels[2], ("status".to_string(), "200".to_string()));
    assert_eq!(r[1].kind, MetricKind::Histogram(42));
}

#[test]
fn server_telemetry_plan() {
    let mut o = settings().observability;
    o.logging.file_enabled = true;
    o.logging.format = LogFormat::Json;
    o.otel.enabled = true;
    let plan = init_telemetry(&o);
    assert_eq!(plan.console, Some(LogFormat::Json));
    assert!(plan.file.as_ref().unwrap().json);
    assert_eq!(plan.otel.as_ref().unwrap().endpoint, "http://localhost:4317");
    assert!(plan.prometheus);
    o.logging.console_enabled = false;
    o.otel.traces_enabled = false;
    o.metrics.enabled = false;
    let plan = init_telemetry(&o);
    assert!(plan.console.is_none());
    assert!(plan.otel.is_none());
    assert!(!plan.prometheus);
}

#[test]
fn server_placeholders_from_query() {
    let m = parse_placeholders_from_request("USER=alice&%20my%20key%20=v+1&placeholders=ignored", &None).unwrap();
    assert_eq!(m.get("USER"), Some(&"alice".to_string()));
    assert_eq!(m.get("my_key"), Some(&"v 1".to_string()));
    assert!(m.get("placeholders").is_none());
    assert_eq!(
        parse_placeholders_from_request("k%C3%A9y=1", &None).unwrap_err(),
        "Invalid placeholder value for key 'k\u{e9}y': must contain only ASCII characters."
    );
    let legacy = Some("{\"A\":\"1\",\"B\":\"2\"}".to_string());
    let m = parse_placeholders_from_request("A=9", &legacy).unwrap();
    assert_eq!(m.get("A"), Some(&"9".to_string()));
    assert_eq!(m.get("B"), Some(&"2".to_string()));
    assert!(parse_placeholders_from_request("", &Some("{bad".to_string())).unwrap_err().starts_with("Invalid JSON: "));
    assert!(parse_placeholders_json(&Some(String::new())).unwrap().is_empty());
    assert!(parse_placeholders_json(&None).unwrap().is_empty());
    assert!(parse_placeholders_json(&Some("{\"A\":1}".to_string())).is_err());
}

#[test]
fn server_upload_buffer() {
    assert!(is_upload_field("file"));
    assert!(!is_upload_field("files"));
    let mut b = UploadBuffer::new(4);
    assert!(b.append(b"ab").is_ok());
    assert_eq!(b.append(b"abc").unwrap_err(), "File size exceeds maximum allowed size of 4 bytes");
    assert!(b.append(b"cd").is_ok());
    assert_eq!(b.finish().unwrap(), b"abcd".to_vec());
    assert_eq!(UploadBuffer::new(4).finish().unwrap_err(), "No file uploaded. Use 'file' as the form field name.");
}

#[test]
fn server_detect_archive_type() {
    assert_eq!(detect_archive_type(b"PK").unwrap_err(), "File too small to be a valid archive");
    assert_eq!(detect_archive_type(b"GIF89a").unwrap_err(), "Invalid archive: file does not have ZIP signature");
    assert!(detect_archive_type(b"PK\x03\x04garbage").unwrap_err().starts_with("Failed to read archive: "));
    let jar = create_test_archive(&[("meta-inf/manifest.mf", b"Manifest-Version: 1.0\n")]);
    assert_eq!(detect_archive_type(&jar).unwrap(), ArchiveType::Jar);
    let zip = create_test_archive(&[("a.txt", b"a")]);
    assert_eq!(detect_archive_type(&zip).unwrap(), ArchiveType::Zip);
    assert_eq!(ArchiveType::Jar.content_type(), "application/java-archive");
    assert_eq!(ArchiveType::Zip.content_type(), "application/zip");
    assert_eq!(ArchiveType::Jar.metrics_label(), "jar");
    assert_eq!(ArchiveType::Zip.display_name(), "ZIP");
}

#[test]
fn server_process_upload_replies() {
    let s = settings();
    let mut p = PlaceholderMap::new();
    p.insert("%U%".to_string(), "bob".to_string());
    let zip = create_test_archive(&[("a.txt", b"hi %U%")]);
    let out = process_upload(&zip, p.clone(), &s);
    match &out.reply {
        HttpReply::Archive { archive_type, input_size, output_size, body } => {
            assert_eq!(*archive_type, ArchiveType::Zip);
            assert_eq!(*input_size, zip.len());
            assert_eq!(*output_size, body.len());
        },
        other => panic!("unexpected {:?}", other),
    }
    assert_eq!(out.report.file_type, "zip");
    assert!(out.report.success);
    let bad = process_upload(b"nothing", p.clone(), &s);
    match bad.reply {
        HttpReply::Error { status, body } => {
            assert_eq!(status, 400);
            assert_eq!(body.error, "invalid_archive");
            assert_eq!(body.message, "Failed to detect archive type");
        },
        other => panic!("unexpected {:?}", other),
    }
    assert_eq!(bad.report.file_type, "unknown");
    assert_eq!(bad.report.input_size, 7);
    let trav = create_test_archive(&[("../x.txt", b"x")]);
    let failed = process_upload(&trav, p, &s);
    match failed.reply {
        HttpReply::Error { status, body } => {
            assert_eq!(status, 422);
            assert_eq!(body.error, "processing_error");
            assert_eq!(body.message, "Failed to process ZIP file");
            assert!(body.details.unwrap().starts_with("Path traversal detected in entry: "));
        },
        other => panic!("unexpected {:?}", other),
    }
    let up = upload_failed("Read error: boom".to_string());
    match up.reply {
        HttpReply::Error { status, body } => {
            assert_eq!(status, 400);
            assert_eq!(body.error, "upload_error");
            assert_eq!(body.message, "Read error: boom");
        },
        other => panic!("unexpected {:?}", other),
    }
    match request_placeholders("k%C3%A9=1", &None) {
        Err(HttpReply::Error { status, body }) => {
            assert_eq!(status, 400);
            assert_eq!(body.error, "invalid_placeholders");
        },
        other => panic!("unexpected {:?}", other.map(|_| ())),
    }
}

#[test]
fn server_config_for_processing() {
    let mut s = settings();
    s.processing.max_compression_ratio = CompressionRatio { numerator: 5, denominator: 2 };
    s.processing.delete_ignore_file = false;
    let c = build_placy_config(&s, PlaceholderMap::new());
    assert_eq!(c.max_compression_ratio.numerator, 5);
    assert!(!c.delete_ignore_file);
    assert_eq!(c.max_file_count, 1000);
}

#[test]
fn server_health_and_metrics_answers() {
    let h = health("1.2.3");
    assert_eq!(h.status, "healthy");
    assert_eq!(h.version, "1.2.3");
    let a = auth_settings(true);
    assert!(matches!(metrics(&a, false, true), MetricsAnswer::Unauthorized(_)));
    assert!(matches!(metrics(&a, true, true), MetricsAnswer::Render));
    match metrics(&a, true, false) {
        MetricsAnswer::Unavailable(b) => assert_eq!(b.error, "metrics_disabled"),
        other => panic!("unexpected {:?}", other),
    }
    assert!(matches!(metrics(&auth_settings(false), false, true), MetricsAnswer::Render));
    let r = ProcessResponse { success: true, input_size: 1, output_size: 2, processing_time_ms: 3, message: None };
    assert!(r.success);
    let e = ErrorResponse { error: "e".to_string(), message: "m".to_string(), details: None };
    assert_eq!(e.error, "e");
    let q = ProcessQuery { placeholders: None };
    assert!(q.placeholders.is_none());
}

#[test]
fn processing_outcome_answers_result() {
    let ok = processing_outcome(ArchiveType::Jar, 10, Ok(vec![1, 2, 3]));
    match ok.reply {
        HttpReply::Archive { archive_type, input_size, output_size, body } => {
            assert_eq!(archive_type, ArchiveType::Jar);
            assert_eq!((input_size, output_size), (10, 3));
            assert_eq!(body, vec![1, 2, 3]);
        },
        other => panic!("unexpected {:?}", other),
    }
    assert!(ok.report.success);
    assert_eq!(ok.report.file_type, "jar");
    let err = processing_outcome(ArchiveType::Zip, 7, Err(placy::error::Error::Zip("bad".to_string())));
    match err.reply {
        HttpReply::Error { status, body } => {
            assert_eq!(status, 422);
            assert_eq!(body.error, "processing_error");
            assert_eq!(body.message, "Failed to process ZIP file");
            assert_eq!(body.details, Some("ZIP error: bad".to_string()));
        },
        other => panic!("unexpected {:?}", other),
    }
    assert!(!err.report.success);
    assert_eq!((err.report.input_size, err.report.output_size), (7, 0));
}
