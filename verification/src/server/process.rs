//! The archive processing endpoint: which kind of archive was uploaded,
//! and what the endpoint answers for it.
//!
//! The program reads the multipart upload, measures the time taken, emits
//! the metrics and logs, and sends the answer decided here.

use vstd::prelude::*;
use vstd::utf8::encode_utf8;

use crate::archive::{
    archive_accepted, archive_entry_blocks, archive_entry_fails_at, archive_output, archive_processes_without_jars,
    archive_size_message,
    process_archive,
};
use crate::config::{default_text_extensions, Config};
use crate::error::{error_text, Error};
use crate::jar::{jar_entry_blocks, jar_entry_fails_at, jar_processes, jar_rewritten, jar_size_message, process_jar};
use crate::zipio::zip_entry_count;
use crate::placeholders::PlaceholderMap;
use crate::server::config::Settings;
use crate::server::handlers::{
    apply_query, build_placy_config, form_pairs, legacy_placeholders, parse_placeholders_from_request, ErrorResponse,
};
use crate::strings::{concat, concat3, eq_ignore_ascii_case, str_eq_ignore_ascii_case};
use crate::tool::jar::outside_text;
use crate::zipio::{zip_entry_names, zip_opens, ZipReader};

verus! {

broadcast use vstd::string::group_string_axioms;

/// The bytes every ZIP archive starts with: `PK\x03\x04`.
pub open spec fn zip_magic() -> Seq<u8> {
    seq![0x50u8, 0x4Bu8, 0x03u8, 0x04u8]
}

/// Detected archive type.
#[derive(Debug, Clone, Copy, PartialEq, Eq, Structural)]
pub enum ArchiveType {
    /// Java Archive (JAR): a ZIP with `META-INF/MANIFEST.MF`.
    Jar,
    /// Generic ZIP archive.
    Zip,
}

impl ArchiveType {
    /// The content type for HTTP responses.
    pub open spec fn spec_content_type(self) -> Seq<char> {
        match self {
            ArchiveType::Jar => "application/java-archive"@,
            ArchiveType::Zip => "application/zip"@,
        }
    }

    /// The metrics label.
    pub open spec fn spec_metrics_label(self) -> Seq<char> {
        match self {
            ArchiveType::Jar => "jar"@,
            ArchiveType::Zip => "zip"@,
        }
    }

    /// The human-readable name.
    pub open spec fn spec_display_name(self) -> Seq<char> {
        match self {
            ArchiveType::Jar => "JAR"@,
            ArchiveType::Zip => "ZIP"@,
        }
    }

    /// Returns the content type for HTTP responses.
    pub fn content_type(&self) -> (r: &'static str)
        ensures
            r@ == self.spec_content_type(),
    {
        match self {
            ArchiveType::Jar => "application/java-archive",
            ArchiveType::Zip => "application/zip",
        }
    }

    /// Returns the metrics label for this archive type.
    pub fn metrics_label(&self) -> (r: &'static str)
        ensures
            r@ == self.spec_metrics_label(),
    {
        match self {
            ArchiveType::Jar => "jar",
            ArchiveType::Zip => "zip",
        }
    }

    /// Returns a human-readable name for logging.
    pub fn display_name(&self) -> (r: &'static str)
        ensures
            r@ == self.spec_display_name(),
    {
        match self {
            ArchiveType::Jar => "JAR",
            ArchiveType::Zip => "ZIP",
        }
    }
}

/// Whether an archive's entry names include the JAR manifest (ignoring ASCII case).
pub open spec fn has_manifest(names: Seq<Seq<char>>) -> bool {
    exists|i: int| 0 <= i < names.len() && eq_ignore_ascii_case(#[trigger] names[i], "META-INF/MANIFEST.MF"@)
}

/// Detects the archive type from file data.
///
/// The data must start with the ZIP signature and open as a ZIP archive;
/// it is a JAR when it holds `META-INF/MANIFEST.MF`, a ZIP otherwise.
pub fn detect_archive_type(data: &[u8]) -> (r: Result<ArchiveType, String>)
    ensures
        match detect_archive_type_result(data@) {
            Some(t) => r == Ok::<ArchiveType, String>(t),
            None => r is Err,
        },
        data@.len() < 4 ==> (r matches Err(m) && m@ == "File too small to be a valid archive"@),
        data@.len() >= 4 && data@.take(4) != zip_magic() ==> (r matches Err(m) && m@
            == "Invalid archive: file does not have ZIP signature"@),
        data@.len() >= 4 && data@.take(4) == zip_magic() && !zip_opens(data@) ==> (r matches Err(m)
            && exists|d: Seq<char>| m@ == "Failed to read archive: "@ + d),
        data@.len() >= 4 && data@.take(4) == zip_magic() && zip_opens(data@) ==> r == Ok::<
            ArchiveType,
            String,
        >(
            if has_manifest(zip_entry_names(data@)) {
                ArchiveType::Jar
            } else {
                ArchiveType::Zip
            },
        ),
{
    if data.len() < 4 {
        return Err("File too small to be a valid archive".to_owned());
    }
    if !(data[0] == 0x50 && data[1] == 0x4B && data[2] == 0x03 && data[3] == 0x04) {
        proof {
            if data@.take(4) == zip_magic() {
                assert(data@[0] == data@.take(4)[0]);
                assert(data@[1] == data@.take(4)[1]);
                assert(data@[2] == data@.take(4)[2]);
                assert(data@[3] == data@.take(4)[3]);
            }
        }
        return Err("Invalid archive: file does not have ZIP signature".to_owned());
    }
    assert(data@.take(4) =~= zip_magic());
    let archive = match ZipReader::open(data) {
        Ok(a) => a,
        Err(e) => {
            let t = outside_text(e);
            let m = concat("Failed to read archive: ", t.as_str());
            assert(m@ == "Failed to read archive: "@ + t@);
            return Err(m);
        },
    };
    let names = archive.names();
    let ghost ns = names@.map_values(|s: String| s@);
    let mut i: usize = 0;
    while i < names.len()
        invariant
            ns == names@.map_values(|s: String| s@),
            ns == zip_entry_names(data@),
            data@.len() >= 4,
            data@.take(4) == zip_magic(),
            zip_opens(data@),
            0 <= i <= ns.len(),
            forall|k: int|
                0 <= k < i ==> !eq_ignore_ascii_case(#[trigger] ns[k], "META-INF/MANIFEST.MF"@),
        decreases ns.len() - i,
    {
        assert(ns[i as int] == names@[i as int]@);
        if str_eq_ignore_ascii_case(names[i].as_str(), "META-INF/MANIFEST.MF") {
            return Ok(ArchiveType::Jar);
        }
        i = i + 1;
    }
    Ok(ArchiveType::Zip)
}

/// What the endpoint answers.
#[derive(Debug)]
pub enum HttpReply {
    /// `200 OK` with the processed archive.
    Archive { archive_type: ArchiveType, input_size: usize, output_size: usize, body: Vec<u8> },
    /// An error status with a JSON body.
    Error { status: u16, body: ErrorResponse },
}

/// What one upload contributes to the processing metrics (the program adds
/// the time taken).
#[derive(Debug, Clone)]
pub struct ProcessingReport {
    pub file_type: String,
    pub input_size: usize,
    pub output_size: usize,
    pub success: bool,
}

/// The answer to an upload and what it contributes to the metrics.
#[derive(Debug)]
pub struct HandlerOutcome {
    pub reply: HttpReply,
    pub report: ProcessingReport,
}

/// Whether `r` is the error answer with this status and body.
pub open spec fn is_error_reply(r: HttpReply, status: u16, body: (Seq<char>, Seq<char>, Option<Seq<char>>)) -> bool {
    r matches HttpReply::Error { status: s, body: b } && s == status && b@ == body
}

/// Whether a report says this.
pub open spec fn reports_as(p: ProcessingReport, file_type: Seq<char>, input_size: usize, output_size: usize, success: bool) -> bool {
    p.file_type@ == file_type && p.input_size == input_size && p.output_size == output_size
        && p.success == success
}

/// Reads the placeholders of a request: those of the legacy JSON object,
/// then the query parameters. When they are invalid, the answer is `400`
/// with `invalid_placeholders` and the reason as details.
pub fn request_placeholders(query_string: &str, legacy_placeholders_json: &Option<String>) -> (r:
    Result<PlaceholderMap, HttpReply>)
    ensures
        match legacy_placeholders(
            match legacy_placeholders_json {
                Some(s) => Some(s@),
                None => None,
            },
        ) {
            Some(base) => match apply_query(base, form_pairs(encode_utf8(query_string@))) {
                Ok(ps) => r matches Ok(m) && m@ == ps,
                Err(e) => r matches Err(reply) && is_error_reply(
                    reply,
                    400,
                    ("invalid_placeholders"@, "Failed to parse placeholders"@, Some(e)),
                ),
            },
            None => r matches Err(reply) && exists|d: Seq<char>|
                is_error_reply(
                    reply,
                    400,
                    ("invalid_placeholders"@, "Failed to parse placeholders"@, Some("Invalid JSON: "@ + d)),
                ),
        },
{
    match parse_placeholders_from_request(query_string, legacy_placeholders_json) {
        Ok(p) => Ok(p),
        Err(e) => Err(
            HttpReply::Error {
                status: 400,
                body: ErrorResponse {
                    error: "invalid_placeholders".to_owned(),
                    message: "Failed to parse placeholders".to_owned(),
                    details: Some(e),
                },
            },
        ),
    }
}

/// The answer when the upload could not be read: `400` with `upload_error`
/// and the reason, counted as a failed upload of unknown type.
pub fn upload_failed(reason: String) -> (r: HandlerOutcome)
    ensures
        is_error_reply(r.reply, 400, ("upload_error"@, reason@, None)),
        reports_as(r.report, "unknown"@, 0, 0, false),
{
    HandlerOutcome {
        reply: HttpReply::Error {
            status: 400,
            body: ErrorResponse { error: "upload_error".to_owned(), message: reason, details: None },
        },
        report: ProcessingReport {
            file_type: "unknown".to_owned(),
            input_size: 0,
            output_size: 0,
            success: false,
        },
    }
}

/// Whether `config` is the processing configuration the server builds from
/// its settings and these placeholders.
pub open spec fn built_config(config: Config, settings: Settings, ph: Seq<(Seq<char>, Seq<char>)>) -> bool {
    &&& config.placeholders@ == ph
    &&& config.spec_text_extensions() == default_text_extensions()
    &&& config.max_file_size == settings.processing.max_file_size
    &&& config.max_file_count == settings.processing.max_file_count
    &&& config.max_zip_size == settings.processing.max_zip_size
    &&& config.max_compression_ratio == settings.processing.max_compression_ratio
    &&& config.delete_process_file == settings.processing.delete_process_file
    &&& config.delete_ignore_file == settings.processing.delete_ignore_file
}

/// Whether `r` is a result `process_jar` may give for these bytes.
pub open spec fn jar_result_allowed(bytes: Seq<u8>, config: Config, r: Result<Vec<u8>, Error>) -> bool {
    &&& bytes.len() > config.max_zip_size ==> (r matches Err(e) && e matches Error::SizeLimitExceeded {
        message,
    } && message@ == jar_size_message(bytes.len(), config.max_zip_size))
    &&& bytes.len() <= config.max_zip_size && zip_opens(bytes) && zip_entry_count(bytes)
        > config.max_file_count ==> (r matches Err(e) && e matches Error::FileCountExceeded {
        found,
        limit,
    } && found == zip_entry_count(bytes) && limit == config.max_file_count)
    &&& bytes.len() <= config.max_zip_size && zip_opens(bytes) && zip_entry_count(bytes)
        <= config.max_file_count ==> forall|k: nat|
        k < zip_entry_count(bytes) && #[trigger] jar_entry_blocks(bytes, config, k) ==> (r matches Err(
            e,
        ) && jar_entry_fails_at(bytes, config, k, e))
    &&& r matches Ok(b) ==> bytes.len() <= config.max_zip_size && zip_opens(bytes) && zip_entry_count(
        bytes,
    ) <= config.max_file_count && jar_rewritten(b@, bytes, config.placeholders@, config)
    &&& jar_processes(bytes, config.placeholders@, config) ==> r is Ok
}

/// Whether `r` is a result `process_archive` may give for these bytes.
pub open spec fn archive_result_allowed(bytes: Seq<u8>, config: Config, r: Result<Vec<u8>, Error>) -> bool {
    &&& bytes.len() > config.max_zip_size ==> (r matches Err(e) && e matches Error::SizeLimitExceeded {
        message,
    } && message@ == archive_size_message(bytes.len(), config.max_zip_size))
    &&& bytes.len() <= config.max_zip_size && zip_opens(bytes) && zip_entry_count(bytes)
        > config.max_file_count ==> (r matches Err(e) && e matches Error::FileCountExceeded {
        found,
        limit,
    } && found == zip_entry_count(bytes) && limit == config.max_file_count)
    &&& bytes.len() <= config.max_zip_size && zip_opens(bytes) && zip_entry_count(bytes)
        <= config.max_file_count ==> forall|k: nat|
        k < zip_entry_count(bytes) && #[trigger] archive_entry_blocks(bytes, config, k) ==> (r matches Err(
            e,
        ) && archive_entry_fails_at(bytes, config, k, e))
    &&& r matches Ok(b) ==> archive_accepted(bytes, config) && archive_output(b@, bytes, config)
    &&& archive_processes_without_jars(bytes, config) ==> r is Ok
}

/// Whether `r` answers a processing result: the processed archive `200`
/// with its sizes, counted as a success; an error `422` with
/// `processing_error` and the error's text, counted as a failure.
pub open spec fn answers_result(r: HandlerOutcome, t: ArchiveType, input_size: usize, result: Result<Vec<u8>, Error>) -> bool {
    match result {
        Ok(out) => r.reply matches HttpReply::Archive { archive_type, input_size: i, output_size, body }
            && archive_type == t && i == input_size && output_size == out@.len() && body@ == out@
            && reports_as(r.report, t.spec_metrics_label(), input_size, output_size, true),
        Err(e) => is_error_reply(
            r.reply,
            422,
            (
                "processing_error"@,
                "Failed to process "@ + t.spec_display_name() + " file"@,
                Some(error_text(e)),
            ),
        ) && reports_as(r.report, t.spec_metrics_label(), input_size, 0, false),
    }
}

/// The answer to the result of processing an upload of type `archive_type`
/// and `input_size` bytes.
pub fn processing_outcome(archive_type: ArchiveType, input_size: usize, result: Result<Vec<u8>, Error>) -> (r:
    HandlerOutcome)
    ensures
        answers_result(r, archive_type, input_size, result),
{
    match result {
        Ok(output) => {
            let output_size = output.len();
            HandlerOutcome {
                reply: HttpReply::Archive { archive_type, input_size, output_size, body: output },
                report: ProcessingReport {
                    file_type: archive_type.metrics_label().to_owned(),
                    input_size,
                    output_size,
                    success: true,
                },
            }
        },
        Err(e) => {
            let message = concat3("Failed to process ", archive_type.display_name(), " file");
            HandlerOutcome {
                reply: HttpReply::Error {
                    status: 422,
                    body: ErrorResponse {
                        error: "processing_error".to_owned(),
                        message,
                        details: Some(e.message()),
                    },
                },
                report: ProcessingReport {
                    file_type: archive_type.metrics_label().to_owned(),
                    input_size,
                    output_size: 0,
                    success: false,
                },
            }
        },
    }
}

/// Processes an uploaded archive with the given placeholders.
///
/// The archive type is detected first; data that is not a ZIP archive is
/// answered `400` with `invalid_archive`. A JAR is processed as a single
/// JAR and a ZIP as an archive of JARs and files, with the limits of the
/// settings. The processed archive is answered `200`; a processing error
/// `422` with `processing_error`.
pub fn process_upload(file_data: &[u8], placeholders: PlaceholderMap, settings: &Settings) -> (r:
    HandlerOutcome)
    ensures
        match detect_archive_type_result(file_data@) {
            None => r.reply matches HttpReply::Error { status, body } && status == 400
                && body.error@ == "invalid_archive"@ && body.message@
                == "Failed to detect archive type"@ && body.details is Some && reports_as(
                r.report,
                "unknown"@,
                file_data@.len() as usize,
                0,
                false,
            ),
            Some(t) => exists|c: Config, res: Result<Vec<u8>, Error>|
                #![trigger built_config(c, *settings, placeholders@), answers_result(r, t, file_data@.len() as usize, res)]
                built_config(c, *settings, placeholders@) && (if t == ArchiveType::Jar {
                    jar_result_allowed(file_data@, c, res)
                } else {
                    archive_result_allowed(file_data@, c, res)
                }) && answers_result(r, t, file_data@.len() as usize, res),
        },
{
    let input_size = file_data.len();
    let archive_type = match detect_archive_type(file_data) {
        Ok(t) => t,
        Err(e) => {
            return HandlerOutcome {
                reply: HttpReply::Error {
                    status: 400,
                    body: ErrorResponse {
                        error: "invalid_archive".to_owned(),
                        message: "Failed to detect archive type".to_owned(),
                        details: Some(e),
                    },
                },
                report: ProcessingReport {
                    file_type: "unknown".to_owned(),
                    input_size,
                    output_size: 0,
                    success: false,
                },
            };
        },
    };
    let ghost ph = placeholders@;
    let config = build_placy_config(settings, placeholders);
    let result = match archive_type {
        ArchiveType::Jar => process_jar(file_data, &config),
        ArchiveType::Zip => process_archive(file_data, &config),
    };
    proof {
        assert(built_config(config, *settings, ph));
        if archive_type == ArchiveType::Jar {
            assert(jar_result_allowed(file_data@, config, result));
        } else {
            assert(archive_result_allowed(file_data@, config, result));
        }
    }
    let outcome = processing_outcome(archive_type, input_size, result);
    assert(built_config(config, *settings, ph) && answers_result(outcome, archive_type, file_data@.len() as usize, result));
    outcome
}

/// An archive with the JAR manifest among its entries, at any position and
/// in any ASCII case, is detected as a JAR; one without it, as a ZIP.
pub proof fn law_manifest_anywhere_makes_jar(data: Seq<u8>, i: int)
    requires
        data.len() >= 4,
        data.take(4) == zip_magic(),
        zip_opens(data),
    ensures
        0 <= i < zip_entry_names(data).len() && eq_ignore_ascii_case(
            zip_entry_names(data)[i],
            "META-INF/MANIFEST.MF"@,
        ) ==> detect_archive_type_result(data) == Some(ArchiveType::Jar),
        (forall|j: int|
            0 <= j < zip_entry_names(data).len() ==> !eq_ignore_ascii_case(
                #[trigger] zip_entry_names(data)[j],
                "META-INF/MANIFEST.MF"@,
            )) ==> detect_archive_type_result(data) == Some(ArchiveType::Zip),
{
}

/// The archive type `detect_archive_type` finds, or `None` when it fails.
pub open spec fn detect_archive_type_result(data: Seq<u8>) -> Option<ArchiveType> {
    if data.len() >= 4 && data.take(4) == zip_magic() && zip_opens(data) {
        Some(
            if has_manifest(zip_entry_names(data)) {
                ArchiveType::Jar
            } else {
                ArchiveType::Zip
            },
        )
    } else {
        None
    }
}

} // verus!
