//! ZIP archive processing with regex-based file matching.
//!
//! This module handles ZIP archives containing multiple JAR files and resources.
//! It uses `process.txt` and `ignore.txt` for flexible file matching.

use vstd::prelude::*;

use rayon::prelude::{IntoParallelIterator, ParallelIterator};
use vstd::utf8::{decode_utf8, encode_utf8, valid_utf8};

use crate::config::{
    first_bad_pattern, is_text_ext, kept_patterns, parse_pattern_file, pattern_lines, Config,
    FilePatterns,
};
use crate::error::Error;
use crate::jar::{
    entries_view, jar_rewritten, rewrite_jar, file_size_message, reports, saturating_sum, CheckFailure, JarFile,
};
use crate::placeholders::PlaceholderMap;
use crate::processor::{all_classes_rewrite, classes_rewritten, process_classes_parallel};
use crate::security::{archive_path_verdict, validate_archive_path};
use crate::strings::{
    chars_end_with, chars_of, concat, concat3, decimal, decimal_string, ends_with, fixed1,
    fixed1_string, string_from_chars,
};
use crate::text::{process_text_file, text_file_result};
use crate::zipio::{
    archive_holds, builder_entries, directory_name, name_too_long, write_file, zip_entry_count, MAX_NAME_BYTES, data_fits, entries_fit, zip_entry_data, zip_entry_meta, zip_entry_opens, zip_entry_reads, zip_opens, Compression, EntryInfo,
    EntryMeta, ZipBuilder, ZipReader,
};

verus! {

broadcast use vstd::string::group_string_axioms;

/// Special file name listing the JARs to process.
pub const PROCESS_FILE: &'static str = "process.txt";

/// Special file name listing the files to leave out.
pub const IGNORE_FILE: &'static str = "ignore.txt";

/// Decodes UTF-8 bytes into a string (`String::from_utf8`); on failure, the
/// error's description.
#[verifier::external_body]
pub(crate) fn string_from_utf8(bytes: Vec<u8>) -> (r: Result<String, String>)
    ensures
        r is Ok <==> valid_utf8(bytes@),
        r matches Ok(s) ==> s@ == decode_utf8(bytes@),
{
    String::from_utf8(bytes).map_err(|e| e.to_string())
}

// ---------------------------------------------------------------------------
// Paths
// ---------------------------------------------------------------------------

/// The part after the last `/` (the whole text when there is none).
pub open spec fn last_segment(s: Seq<char>) -> Seq<char>
    decreases s.len(),
{
    if s.len() == 0 {
        s
    } else if s.last() == '/' {
        Seq::empty()
    } else {
        last_segment(s.drop_last()).push(s.last())
    }
}

/// The part after the last `.` (the whole text when there is none).
pub open spec fn last_extension(s: Seq<char>) -> Seq<char>
    decreases s.len(),
{
    if s.len() == 0 {
        s
    } else if s.last() == '.' {
        Seq::empty()
    } else {
        last_extension(s.drop_last()).push(s.last())
    }
}

/// The text after the last occurrence of `sep` (`str::rsplit(sep).next()`).
fn after_last(s: &[char], sep: char) -> (r: Vec<char>)
    ensures
        sep == '/' ==> r@ == last_segment(s@),
        sep == '.' ==> r@ == last_extension(s@),
{
    let mut out: Vec<char> = Vec::new();
    let mut i: usize = 0;
    while i < s.len()
        invariant
            0 <= i <= s@.len(),
            sep == '/' ==> out@ == last_segment(s@.take(i as int)),
            sep == '.' ==> out@ == last_extension(s@.take(i as int)),
        decreases s@.len() - i,
    {
        assert(s@.take(i + 1).drop_last() =~= s@.take(i as int));
        if s[i] == sep {
            out = Vec::new();
        } else {
            out.push(s[i]);
        }
        i = i + 1;
    }
    assert(s@.take(i as int) =~= s@);
    out
}

/// Normalizes a path for comparison with the control-file names: leading
/// `./` prefixes and any directories are dropped, leaving the file name.
pub fn normalize_path(path: &str) -> (r: String)
    ensures
        r@ == last_segment(path@),
{
    let cs = chars_of(path);
    let seg = after_last(cs.as_slice(), '/');
    string_from_chars(seg.as_slice())
}

/// The extension of a path: the text after its last `.` (`rsplit('.').next()`).
pub fn extension_of(path: &str) -> (r: String)
    ensures
        r@ == last_extension(path@),
{
    let cs = chars_of(path);
    let ext = after_last(cs.as_slice(), '.');
    string_from_chars(ext.as_slice())
}

// ---------------------------------------------------------------------------
// Entries
// ---------------------------------------------------------------------------

/// Represents a file entry in an archive.
#[derive(Debug, Clone)]
pub struct ArchiveEntry {
    pub path: String,
    pub content: Vec<u8>,
    pub is_directory: bool,
}

/// An archive entry as path, contents and directory flag.
pub type ArchiveEntryView = (Seq<char>, Seq<u8>, bool);

impl View for ArchiveEntry {
    type V = ArchiveEntryView;

    open spec fn view(&self) -> ArchiveEntryView {
        (self.path@, self.content@, self.is_directory)
    }
}

/// The message for an archive larger than the limit.
pub open spec fn archive_size_message(len: nat, limit: u64) -> Seq<char> {
    "Archive size "@ + decimal(len) + " bytes exceeds limit of "@ + decimal(limit as nat) + " bytes"@
}

/// The message for an archive entry that trips the compression-ratio limit.
pub open spec fn archive_bomb_message(total: u64, compressed: u64, config: Config) -> Seq<char> {
    let c: nat = if compressed == 0 {
        1
    } else {
        compressed as nat
    };
    "Possible zip bomb: compression ratio "@ + fixed1(total as nat, c) + " exceeds limit "@ + fixed1(
        config.max_compression_ratio.numerator as nat,
        config.max_compression_ratio.denominator as nat,
    )
}

/// The checks on one archive entry, given the uncompressed bytes counted
/// before it: the path is validated, the running total (directories
/// included) is held to the compression-ratio limit, then files are held to
/// the size limit. `Ok((is_file, total))` gives whether the entry is a file
/// to read and the new running total.
pub open spec fn archive_entry_check(m: EntryMeta, total: u64, config: Config) -> Result<
    (bool, u64),
    CheckFailure,
> {
    match archive_path_verdict(m.name) {
        Err(msg) => Err(CheckFailure::PathTraversal(msg)),
        Ok(_) => {
            let t = saturating_sum(total, m.size);
            if config.max_compression_ratio.spec_exceeded_by(t, m.compressed_size) {
                Err(CheckFailure::ZipBomb(archive_bomb_message(t, m.compressed_size, config)))
            } else if m.is_dir {
                Ok((false, t))
            } else if m.size > config.max_file_size {
                Err(
                    CheckFailure::SizeLimit(file_size_message(m.name, m.size, config.max_file_size)),
                )
            } else {
                Ok((true, t))
            }
        },
    }
}

/// Checks one archive entry against the configuration; see `archive_entry_check`.
pub fn check_archive_entry(info: &EntryInfo, total: u64, config: &Config) -> (r: Result<
    (bool, u64),
    Error,
>)
    ensures
        match archive_entry_check(info@, total, *config) {
            Ok(v) => r == Ok::<(bool, u64), Error>(v),
            Err(f) => r matches Err(e) && reports(e, f),
        },
{
    match validate_archive_path(info.name.as_str()) {
        Err(e) => return Err(e),
        Ok(_) => {},
    }
    let t = total.saturating_add(info.size);
    if config.max_compression_ratio.exceeded_by(t, info.compressed_size) {
        let c = if info.compressed_size == 0 {
            1
        } else {
            info.compressed_size
        };
        let a = fixed1_string(t, c);
        let b = fixed1_string(
            config.max_compression_ratio.numerator,
            config.max_compression_ratio.denominator,
        );
        let m1 = concat3("Possible zip bomb: compression ratio ", a.as_str(), " exceeds limit ");
        let m = concat(m1.as_str(), b.as_str());
        return Err(Error::SecurityViolation(m));
    }
    if info.is_dir {
        return Ok((false, t));
    }
    if info.size > config.max_file_size {
        let a = concat3("File '", info.name.as_str(), "' size ");
        let s = decimal_string(info.size);
        let b = concat3(a.as_str(), s.as_str(), " bytes exceeds limit of ");
        let l = decimal_string(config.max_file_size);
        let c = concat3(b.as_str(), l.as_str(), " bytes");
        return Err(Error::SizeLimitExceeded { message: c });
    }
    Ok((true, t))
}

/// What reading the archive gathers: the entries in order, the contents of
/// the last `process.txt` and `ignore.txt` seen (by file name, in any
/// directory), and the running total; `None` when an entry fails its checks
/// or a control file is not UTF-8.
pub open spec fn archive_scan(src: Seq<u8>, config: Config, n: nat) -> Option<
    (Seq<ArchiveEntryView>, Option<Seq<u8>>, Option<Seq<u8>>, u64),
>
    decreases n,
{
    if n == 0 {
        Some((Seq::empty(), None, None, 0))
    } else {
        match archive_scan(src, config, (n - 1) as nat) {
            None => None,
            Some((es, pc, ic, total)) => {
                let m = zip_entry_meta(src, n - 1);
                match archive_entry_check(m, total, config) {
                    Err(_) => None,
                    Ok((is_file, t)) => if !is_file {
                        Some((es.push((m.name, Seq::empty(), true)), pc, ic, t))
                    } else {
                        let d = zip_entry_data(src, n - 1);
                        let base = last_segment(m.name);
                        if base == PROCESS_FILE@ {
                            if valid_utf8(d) {
                                Some((es.push((m.name, d, false)), Some(d), ic, t))
                            } else {
                                None
                            }
                        } else if base == IGNORE_FILE@ {
                            if valid_utf8(d) {
                                Some((es.push((m.name, d, false)), pc, Some(d), t))
                            } else {
                                None
                            }
                        } else {
                            Some((es.push((m.name, d, false)), pc, ic, t))
                        }
                    },
                }
            },
        }
    }
}

/// Whether an archive passes every check of `process_archive` before its
/// entries are processed: the size and count limits, every entry's checks,
/// and the control files' patterns all compile.
pub open spec fn archive_accepted(bytes: Seq<u8>, config: Config) -> bool {
    &&& bytes.len() <= config.max_zip_size
    &&& zip_opens(bytes)
    &&& zip_entry_count(bytes) <= config.max_file_count
    &&& match archive_scan(bytes, config, zip_entry_count(bytes)) {
        Some((_, pc, ic, _)) => first_bad_pattern(control_patterns(pc)) == -1 && first_bad_pattern(
            control_patterns(ic),
        ) == -1,
        None => false,
    }
}

/// Whether the archive entries before `i` passed their checks and entry `i`
/// failed one, with `e` the error it reports.
pub open spec fn archive_entry_fails_at(bytes: Seq<u8>, config: Config, i: nat, e: Error) -> bool {
    match archive_scan(bytes, config, i) {
        Some((_, _, _, total)) => match archive_entry_check(
            zip_entry_meta(bytes, i as int),
            total,
            config,
        ) {
            Err(f) => reports(e, f),
            Ok(_) => false,
        },
        None => false,
    }
}

/// Whether the reader reads the first `n` archive entries as processing
/// needs them: each entry opens, and each file that passes its checks reads
/// to the end.
pub open spec fn archive_entries_read(src: Seq<u8>, config: Config, n: nat) -> bool
    decreases n,
{
    if n == 0 {
        true
    } else {
        let k = (n - 1) as nat;
        &&& archive_entries_read(src, config, k)
        &&& zip_entry_opens(src, k as int)
        &&& match archive_scan(src, config, k) {
            Some((_, _, _, total)) => match archive_entry_check(zip_entry_meta(src, k as int), total, config) {
                Ok((true, _)) => zip_entry_reads(src, k as int),
                _ => true,
            },
            None => true,
        }
    }
}

/// Whether archive entry `k` is where processing stops: the entries before
/// it were read and passed their checks, it opens, and it fails a check.
pub open spec fn archive_entry_blocks(src: Seq<u8>, config: Config, k: nat) -> bool {
    &&& archive_entries_read(src, config, k)
    &&& zip_entry_opens(src, k as int)
    &&& match archive_scan(src, config, k) {
        Some((_, _, _, total)) => archive_entry_check(zip_entry_meta(src, k as int), total, config) is Err,
        None => false,
    }
}

/// Once the archive scan fails, it stays failed.
pub proof fn lemma_archive_scan_fails_after(src: Seq<u8>, config: Config, n: nat, m: nat)
    requires
        n <= m,
        archive_scan(src, config, n) is None,
    ensures
        archive_scan(src, config, m) is None,
    decreases m,
{
    if n < m {
        lemma_archive_scan_fails_after(src, config, n, (m - 1) as nat);
    }
}

/// Reading the first `m` archive entries reads the first `n <= m`.
pub proof fn lemma_archive_read_prefix(src: Seq<u8>, config: Config, n: nat, m: nat)
    requires
        n <= m,
        archive_entries_read(src, config, m),
    ensures
        archive_entries_read(src, config, n),
    decreases m,
{
    if n < m {
        lemma_archive_read_prefix(src, config, n, (m - 1) as nat);
    }
}

/// When the scan got through entry `i` or failed at it with the entry
/// passing its check, no entry before it and none after it blocks; when the
/// scan fails at `i` only `i` itself may.
proof fn lemma_blockers_around(src: Seq<u8>, config: Config, i: nat, count: nat, read_i: bool)
    requires
        archive_scan(src, config, i) is Some,
        archive_entries_read(src, config, i),
        read_i ==> archive_entries_read(src, config, i + 1),
        !read_i ==> !archive_entries_read(src, config, i + 1),
    ensures
        forall|k: nat| k < i ==> !#[trigger] archive_entry_blocks(src, config, k),
        !read_i ==> forall|k: nat| k > i ==> !#[trigger] archive_entry_blocks(src, config, k),
{
    assert forall|k: nat| k < i implies !#[trigger] archive_entry_blocks(src, config, k) by {
        if archive_entry_blocks(src, config, k) {
            assert(archive_scan(src, config, (k + 1) as nat) is None);
            lemma_archive_scan_fails_after(src, config, (k + 1) as nat, i);
        }
    }
    if !read_i {
        assert forall|k: nat| k > i implies !#[trigger] archive_entry_blocks(src, config, k) by {
            if archive_entry_blocks(src, config, k) {
                lemma_archive_read_prefix(src, config, i + 1, k);
            }
        }
    }
}

/// When the scan fails at entry `i`, no later entry blocks.
proof fn lemma_no_blocker_after(src: Seq<u8>, config: Config, i: nat)
    requires
        archive_scan(src, config, i + 1) is None,
    ensures
        forall|k: nat| k > i ==> !#[trigger] archive_entry_blocks(src, config, k),
{
    assert forall|k: nat| k > i implies !#[trigger] archive_entry_blocks(src, config, k) by {
        if archive_entry_blocks(src, config, k) {
            lemma_archive_scan_fails_after(src, config, i + 1, k);
        }
    }
}

/// When reading stops at entry `i` (it does not read, or the scan fails
/// there), the archive is not accepted with every entry read.
proof fn lemma_stops_early(src: Seq<u8>, config: Config, i: nat, count: nat)
    requires
        i < count,
        count == zip_entry_count(src),
        !archive_entries_read(src, config, i + 1) || archive_scan(src, config, i + 1) is None,
    ensures
        !(archive_accepted(src, config) && archive_entries_read(src, config, count)),
{
    if archive_accepted(src, config) && archive_entries_read(src, config, count) {
        lemma_archive_read_prefix(src, config, i + 1, count);
        if archive_scan(src, config, i + 1) is None {
            lemma_archive_scan_fails_after(src, config, i + 1, count);
        }
    }
}

/// The patterns of an optional control file.
pub open spec fn control_patterns(content: Option<Seq<u8>>) -> Seq<Seq<char>> {
    match content {
        Some(d) => pattern_lines(decode_utf8(d)),
        None => Seq::empty(),
    }
}

// ---------------------------------------------------------------------------
// Processing
// ---------------------------------------------------------------------------

/// What becomes of a resource of a JAR: its text with placeholders replaced
/// when its extension is a text extension and the text changed, otherwise
/// its contents unchanged.
pub open spec fn processed_resource(path: Seq<char>, content: Seq<u8>, ph: Seq<(Seq<char>, Seq<char>)>, config: Config) -> Seq<u8> {
    if is_text_ext(config.spec_text_extensions(), last_extension(path)) && text_file_result(
        content,
        ph,
    ) is Some {
        text_file_result(content, ph).unwrap()
    } else {
        content
    }
}

/// Processes one resource of a JAR: its text with placeholders replaced
/// when its extension is a text extension and the text changed, otherwise
/// its contents unchanged; the path is kept.
pub fn process_resource(path: String, bytes: Vec<u8>, placeholders: &PlaceholderMap, config: &Config) -> (r: (
    String,
    Vec<u8>,
))
    ensures
        r.0@ == path@,
        r.1@ == processed_resource(path@, bytes@, placeholders@, *config),
{
    let extension = extension_of(path.as_str());
    if config.is_text_extension(extension.as_str()) {
        match process_text_file(bytes.as_slice(), placeholders) {
            Ok(Some(processed)) => {
                return (path, processed);
            },
            _ => {},
        }
    }
    (path, bytes)
}

/// Processes every resource with `process_resource` on rayon's thread pool
/// (`into_par_iter().map(..).collect()`), which keeps the order.
#[verifier::external_body]
fn process_resources_in_parallel(
    resources: Vec<(String, Vec<u8>)>,
    placeholders: &PlaceholderMap,
    config: &Config,
) -> (r: Vec<(String, Vec<u8>)>)
    ensures
        r@.len() == resources@.len(),
        forall|i: int|
            0 <= i < r@.len() ==> (#[trigger] r@[i]).0@ == resources@[i].0@ && r@[i].1@
                == processed_resource(resources@[i].0@, resources@[i].1@, placeholders@, *config),
{
    resources.into_par_iter().map(|(path, bytes)| process_resource(path, bytes, placeholders, config)).collect()
}

/// Internal JAR processing without re-serializing: class files go through
/// `process_classes_parallel` (their constant pools rewritten), text resources have their placeholders
/// replaced, and everything keeps its path and position.
pub fn process_jar_internal(jar: JarFile, placeholders: &PlaceholderMap, config: &Config) -> (r: Result<
    JarFile,
    Error,
>)
    ensures
        r matches Ok(j) ==> classes_rewritten(jar.classes@, placeholders@, false, j.classes@)
            && j.resources@.len() == jar.resources@.len() && (forall|i: int|
            0 <= i < j.resources@.len() ==> (#[trigger] j.resources@[i]).0@ == jar.resources@[i].0@
                && j.resources@[i].1@ == processed_resource(
                jar.resources@[i].0@,
                jar.resources@[i].1@,
                placeholders@,
                *config,
            )),
        all_classes_rewrite(entries_view(jar.classes@), placeholders@, false) ==> r is Ok,
        r matches Err(e) ==> e is ClassFile,
{
    let classes = process_classes_parallel(jar.classes, placeholders)?;
    let out = process_resources_in_parallel(jar.resources, placeholders, config);
    Ok(JarFile { classes, resources: out })
}

/// Whether `process_entry` leaves a file entry out: a control file that the
/// configuration deletes, or a path matching an ignore pattern.
pub open spec fn entry_is_removed(path: Seq<char>, ignore: Seq<Seq<char>>, config: Config) -> bool {
    let normalized = last_segment(path);
    (normalized == PROCESS_FILE@ && config.delete_process_file) || (normalized == IGNORE_FILE@
        && config.delete_ignore_file) || crate::config::any_pattern_matches(ignore, path)
}

/// Whether a JAR at `path` is processed under these process and ignore patterns.
pub open spec fn jar_selected(path: Seq<char>, process: Seq<Seq<char>>, ignore: Seq<Seq<char>>) -> bool {
    !crate::config::any_pattern_matches(ignore, path) && (process.len() == 0
        || crate::config::any_pattern_matches(process, path))
}

/// Which JARs of an archive are rewritten, by the patterns alone: a JAR is
/// selected exactly when no ignore pattern finds a match in its path and
/// either there are no process patterns or some process pattern, at any
/// position of the list, finds one.
pub proof fn law_jar_selected_by_any_pattern(path: Seq<char>, process: Seq<Seq<char>>, ignore: Seq<Seq<char>>)
    ensures
        jar_selected(path, process, ignore) <==> ((forall|j: int|
            0 <= j < ignore.len() ==> !crate::patterns::regex_finds(#[trigger] ignore[j], path))
            && (process.len() == 0 || exists|k: int|
            0 <= k < process.len() && crate::patterns::regex_finds(#[trigger] process[k], path))),
{
}

/// Whether `out` is what processing the entry `e` may give: a directory is
/// kept; a removed file is left out; a JAR to process is rewritten; another
/// JAR is kept; any other file is kept with its text processed.
pub open spec fn entry_outcome(
    e: ArchiveEntryView,
    out: Option<ArchiveEntryView>,
    process: Seq<Seq<char>>,
    ignore: Seq<Seq<char>>,
    ph: Seq<(Seq<char>, Seq<char>)>,
    config: Config,
) -> bool {
    if e.2 {
        out == Some(e)
    } else if entry_is_removed(e.0, ignore, config) {
        out is None
    } else if ends_with(e.0, ".jar"@) {
        if jar_selected(e.0, process, ignore) {
            out matches Some(o) && o.0 == e.0 && !o.2 && jar_rewritten(o.1, e.1, ph, config)
        } else {
            out == Some(e)
        }
    } else {
        out == Some((e.0, processed_resource(e.0, e.1, ph, config), false))
    }
}

/// Processing never renames an entry: what is kept keeps its path.
pub proof fn law_processing_keeps_paths(
    e: ArchiveEntryView,
    out: Option<ArchiveEntryView>,
    process: Seq<Seq<char>>,
    ignore: Seq<Seq<char>>,
    ph: Seq<(Seq<char>, Seq<char>)>,
    config: Config,
)
    requires
        entry_outcome(e, out, process, ignore, ph, config),
    ensures
        out matches Some(o) ==> o.0 == e.0 && o.2 == e.2,
{
}

/// A control file (`process.txt` or `ignore.txt`, in any directory) is left
/// out of the output when the configuration deletes it.
pub proof fn law_control_files_left_out(
    e: ArchiveEntryView,
    out: Option<ArchiveEntryView>,
    process: Seq<Seq<char>>,
    ignore: Seq<Seq<char>>,
    ph: Seq<(Seq<char>, Seq<char>)>,
    config: Config,
)
    requires
        entry_outcome(e, out, process, ignore, ph, config),
        !e.2,
        (last_segment(e.0) == PROCESS_FILE@ && config.delete_process_file) || (last_segment(e.0)
            == IGNORE_FILE@ && config.delete_ignore_file),
    ensures
        out is None,
{
}

/// An optional entry as plain values.
pub open spec fn option_view(o: Option<ArchiveEntry>) -> Option<ArchiveEntryView> {
    match o {
        Some(e) => Some(e@),
        None => None,
    }
}

/// Processes a single archive entry.
///
/// Returns:
/// - `Ok(Some(entry))` - Entry should be included (possibly modified)
/// - `Ok(None)` - Entry should be excluded (matched ignore pattern or is control file)
/// - `Err(e)` - Processing error
///
/// Directories are kept as they are. A control file is removed when the
/// configuration says so, and any file matching an ignore pattern is
/// removed. A `.jar` file that should be processed is loaded, processed and
/// written back; other `.jar` files are kept as they are. Other files are
/// processed as text when their extension is a text extension.
pub fn process_entry(
    entry: ArchiveEntry,
    patterns: &FilePatterns,
    placeholders: &PlaceholderMap,
    config: &Config,
) -> (r: Result<Option<ArchiveEntry>, Error>)
    ensures
        r matches Ok(o) ==> entry_outcome(
            entry@,
            option_view(o),
            patterns.spec_process(),
            patterns.spec_ignore(),
            placeholders@,
            *config,
        ),
        r is Err ==> !entry.is_directory && !entry_is_removed(
            entry.path@,
            patterns.spec_ignore(),
            *config,
        ) && ends_with(entry.path@, ".jar"@) && jar_selected(
            entry.path@,
            patterns.spec_process(),
            patterns.spec_ignore(),
        ),
{
    if entry.is_directory {
        return Ok(Some(entry));
    }
    let normalized = normalize_path(entry.path.as_str());
    let is_process = crate::placeholders::str_equal(normalized.as_str(), PROCESS_FILE);
    let is_ignore = crate::placeholders::str_equal(normalized.as_str(), IGNORE_FILE);
    if (is_process && config.delete_process_file) || (is_ignore && config.delete_ignore_file) {
        return Ok(None);
    }
    if patterns.should_ignore(entry.path.as_str()) {
        return Ok(None);
    }
    let pc = chars_of(entry.path.as_str());
    let jar_ext = chars_of(".jar");
    if chars_end_with(pc.as_slice(), jar_ext.as_slice()) {
        let mut e = entry;
        if patterns.should_process_jar(e.path.as_str()) {
            e.content = rewrite_jar(e.content.as_slice(), placeholders, config)?;
        }
        return Ok(Some(e));
    }
    let extension = extension_of(entry.path.as_str());
    let mut e = entry;
    if config.is_text_extension(extension.as_str()) {
        match process_text_file(e.content.as_slice(), placeholders) {
            Ok(Some(processed)) => {
                e.content = processed;
            },
            _ => {},
        }
    }
    Ok(Some(e))
}

/// Processes every entry with `process_entry` on rayon's thread pool
/// (`into_par_iter().map(..).collect()`): rayon keeps the order and gives
/// an error when some entry gives one, so each entry comes back as
/// `process_entry` gives it, and only a JAR to rewrite can fail.
#[verifier::external_body]
fn process_entries_in_parallel(
    entries: Vec<ArchiveEntry>,
    patterns: &FilePatterns,
    placeholders: &PlaceholderMap,
    config: &Config,
) -> (r: Result<Vec<Option<ArchiveEntry>>, Error>)
    ensures
        r matches Ok(v) ==> v@.len() == entries@.len() && forall|i: int|
            0 <= i < v@.len() ==> #[trigger] entry_outcome(
                entries@[i]@,
                option_view(v@[i]),
                patterns.spec_process(),
                patterns.spec_ignore(),
                placeholders@,
                *config,
            ),
        r is Err ==> exists|i: int|
            0 <= i < entries@.len() && #[trigger] is_jar_to_process(
                entries@[i]@,
                patterns.spec_process(),
                patterns.spec_ignore(),
                *config,
            ),
{
    entries.into_par_iter().map(|e| process_entry(e, patterns, placeholders, config)).collect()
}

/// What an archive entry is written as: a directory under its directory
/// name, or a file with its contents.
pub open spec fn entry_written(e: ArchiveEntryView) -> (Seq<char>, Seq<u8>, bool) {
    if e.2 {
        (directory_name(e.0), Seq::empty(), true)
    } else {
        (e.0, e.1, false)
    }
}

/// The written form of a list of entries.
pub open spec fn entries_written(es: Seq<ArchiveEntryView>) -> Seq<(Seq<char>, Seq<u8>, bool)> {
    es.map_values(|e: ArchiveEntryView| entry_written(e))
}

/// Whether entries can be written as an archive: every written name fits a
/// ZIP header (a directory's leaving room for the `/` the writer may add)
/// and is used once, and every file's data fits.
pub open spec fn archive_writable(es: Seq<ArchiveEntryView>) -> bool {
    &&& forall|i: int|
        0 <= i < es.len() ==> if (#[trigger] es[i]).2 {
            encode_utf8(es[i].0).len() < MAX_NAME_BYTES
        } else {
            encode_utf8(es[i].0).len() <= MAX_NAME_BYTES && data_fits(es[i].1)
        }
    &&& forall|i: int, j: int|
        0 <= i < j < es.len() ==> (#[trigger] entry_written(es[i])).0 != (#[trigger] entry_written(
            es[j],
        )).0
}

/// Writes processed entries to a new ZIP archive: directories stored with
/// permissions 0o755, files deflated with permissions 0o644, in order. Read
/// back, the bytes hold exactly these entries. Writing succeeds when every
/// name fits a ZIP header and is used once, and every file's data is under
/// 2 GiB.
pub fn write_archive(entries: &Vec<ArchiveEntry>, config: &Config) -> (r: Result<Vec<u8>, Error>)
    ensures
        r matches Ok(b) ==> archive_holds(
            b@,
            entries_written(entries@.map_values(|e: ArchiveEntry| e@)),
        ),
        archive_writable(entries@.map_values(|e: ArchiveEntry| e@)) ==> r is Ok,
        r matches Err(e) ==> e is Zip || e is Io,
{
    let mut zip = ZipBuilder::new();
    let ghost es = entries@.map_values(|e: ArchiveEntry| e@);
    let ghost written = entries_written(es);
    let mut i: usize = 0;
    while i < entries.len()
        invariant
            0 <= i <= entries@.len(),
            es == entries@.map_values(|e: ArchiveEntry| e@),
            written == entries_written(es),
            builder_entries(zip) == written.take(i as int),
            archive_writable(es) ==> entries_fit(written.take(i as int)),
        decreases entries@.len() - i,
    {
        let entry = &entries[i];
        proof {
            if archive_writable(es) {
                assert(es[i as int] == entry@);
                assert(written[i as int] == entry_written(es[i as int]));
                assert forall|j: int| 0 <= j < i implies (#[trigger] written.take(i as int)[j]).0 != written[i as int].0 by {
                    assert(written[j] == entry_written(es[j]));
                }
            }
        }
        if entry.is_directory {
            if entry.path.as_str().as_bytes().len() >= MAX_NAME_BYTES {
                return Err(name_too_long());
            }
            zip.add_directory(entry.path.as_str(), Compression::Stored, 0o755)?;
        } else {
            write_file(
                &mut zip,
                entry.path.as_str(),
                entry.content.as_slice(),
                Compression::Deflated,
                0o644,
            )?;
        }
        assert(written.take(i + 1) =~= written.take(i as int).push(written[i as int]));
        proof {
            if archive_writable(es) {
                let w = written.take(i + 1);
                assert forall|j: int| 0 <= j < w.len() implies data_fits(#[trigger] w[j].1) by {
                    if j == i {
                        assert(written[j] == entry_written(es[j]));
                        assert(data_fits(Seq::<u8>::empty()));
                    } else {
                        assert(w[j] == written.take(i as int)[j]);
                    }
                }
            }
        }
        i = i + 1;
    }
    assert(written.take(i as int) =~= written);
    zip.finish()
}

/// The entries that are kept, in order.
pub open spec fn kept_entries(outs: Seq<Option<ArchiveEntryView>>) -> Seq<ArchiveEntryView>
    decreases outs.len(),
{
    if outs.len() == 0 {
        Seq::empty()
    } else {
        match outs.last() {
            Some(e) => kept_entries(outs.drop_last()).push(e),
            None => kept_entries(outs.drop_last()),
        }
    }
}

/// Whether each entry's outcome is one that processing it may give.
pub open spec fn outcomes_hold(
    es: Seq<ArchiveEntryView>,
    outs: Seq<Option<ArchiveEntryView>>,
    process: Seq<Seq<char>>,
    ignore: Seq<Seq<char>>,
    ph: Seq<(Seq<char>, Seq<char>)>,
    config: Config,
) -> bool {
    &&& outs.len() == es.len()
    &&& forall|k: int|
        0 <= k < es.len() ==> #[trigger] entry_outcome(es[k], outs[k], process, ignore, ph, config)
}

/// What processing an entry gives when it is not a JAR to process: a
/// directory is kept, a removed file is left out, a JAR not selected is
/// kept as it is, and any other file is kept with its text processed.
pub open spec fn plain_entry_result(
    e: ArchiveEntryView,
    process: Seq<Seq<char>>,
    ignore: Seq<Seq<char>>,
    ph: Seq<(Seq<char>, Seq<char>)>,
    config: Config,
) -> Option<ArchiveEntryView> {
    if e.2 {
        Some(e)
    } else if entry_is_removed(e.0, ignore, config) {
        None
    } else if ends_with(e.0, ".jar"@) {
        Some(e)
    } else {
        Some((e.0, processed_resource(e.0, e.1, ph, config), false))
    }
}

/// Whether entry `e` is a JAR that processing rewrites.
pub open spec fn is_jar_to_process(e: ArchiveEntryView, process: Seq<Seq<char>>, ignore: Seq<Seq<char>>, config: Config) -> bool {
    !e.2 && !entry_is_removed(e.0, ignore, config) && ends_with(e.0, ".jar"@) && jar_selected(
        e.0,
        process,
        ignore,
    )
}

/// Whether processing the archive `input` succeeds without rewriting a JAR:
/// it is accepted, every entry reads, no entry is a JAR to process, and the
/// entries kept can be written.
pub open spec fn archive_processes_without_jars(input: Seq<u8>, config: Config) -> bool {
    &&& archive_accepted(input, config)
    &&& archive_entries_read(input, config, zip_entry_count(input))
    &&& match archive_scan(input, config, zip_entry_count(input)) {
        Some((es, pc, ic, _)) => {
            let process = kept_patterns(control_patterns(pc));
            let ignore = kept_patterns(control_patterns(ic));
            &&& forall|k: int| 0 <= k < es.len() ==> !#[trigger] is_jar_to_process(es[k], process, ignore, config)
            &&& archive_writable(
                kept_entries(
                    es.map_values(
                        |e: ArchiveEntryView| plain_entry_result(e, process, ignore, config.placeholders@, config),
                    ),
                ),
            )
        },
        None => false,
    }
}

/// Whether `out` is the archive `input` processed: read back, it holds the
/// kept entries of the input, in order, each as processing it gives it,
/// under the patterns of the input's control files.
pub open spec fn archive_output(out: Seq<u8>, input: Seq<u8>, config: Config) -> bool {
    match archive_scan(input, config, zip_entry_count(input)) {
        Some((es, pc, ic, _)) => exists|outs: Seq<Option<ArchiveEntryView>>|
            #[trigger] outcomes_hold(
                es,
                outs,
                kept_patterns(control_patterns(pc)),
                kept_patterns(control_patterns(ic)),
                config.placeholders@,
                config,
            ) && archive_holds(out, entries_written(kept_entries(outs))),
        None => false,
    }
}

/// Processes a ZIP archive containing JARs and other files.
///
/// 1. **process.txt**: regex patterns for JAR files to process; without it,
///    every JAR file is processed.
/// 2. **ignore.txt**: regex patterns for files to leave out of the output.
/// 3. **Non-JAR files**: text files (by extension) have placeholders replaced.
/// 4. **Security**: sizes, entry count, compression ratio and every path
///    are checked before anything is processed; the first entry that fails
///    a check gives the error.
///
/// Processing succeeds when the archive passes its checks, every entry
/// reads, and the kept entries can be written; with a JAR to rewrite, it
/// also depends on the JAR's processing.
pub fn process_archive(archive_bytes: &[u8], config: &Config) -> (r: Result<Vec<u8>, Error>)
    ensures
        archive_bytes@.len() > config.max_zip_size ==> (r matches Err(e)
            && e matches Error::SizeLimitExceeded { message } && message@ == archive_size_message(
            archive_bytes@.len(),
            config.max_zip_size,
        )),
        archive_bytes@.len() <= config.max_zip_size && zip_opens(archive_bytes@)
            && zip_entry_count(archive_bytes@) > config.max_file_count ==> (r matches Err(e)
            && e matches Error::FileCountExceeded { found, limit } && found == zip_entry_count(
            archive_bytes@,
        ) && limit == config.max_file_count),
        r matches Ok(b) ==> archive_accepted(archive_bytes@, *config) && archive_output(
            b@,
            archive_bytes@,
            *config,
        ),
        archive_bytes@.len() <= config.max_zip_size && zip_opens(archive_bytes@) && zip_entry_count(
            archive_bytes@,
        ) <= config.max_file_count ==> forall|k: nat|
            k < zip_entry_count(archive_bytes@) && #[trigger] archive_entry_blocks(
                archive_bytes@,
                *config,
                k,
            ) ==> (r matches Err(e) && archive_entry_fails_at(archive_bytes@, *config, k, e)),
        archive_processes_without_jars(archive_bytes@, *config) ==> r is Ok,
        r matches Err(e) ==> ((e is PathTraversal || e is SecurityViolation) && !archive_accepted(
            archive_bytes@,
            *config,
        ) ==> exists|i: nat|
            i < zip_entry_count(archive_bytes@) && #[trigger] archive_entry_fails_at(
                archive_bytes@,
                *config,
                i,
                e,
            )),
{
    let n = archive_bytes.len();
    if n as u64 > config.max_zip_size {
        let a = decimal_string(n as u64);
        let b = decimal_string(config.max_zip_size);
        let m1 = concat3("Archive size ", a.as_str(), " bytes exceeds limit of ");
        let m = concat3(m1.as_str(), b.as_str(), " bytes");
        return Err(Error::SizeLimitExceeded { message: m });
    }
    let mut archive = ZipReader::open(archive_bytes)?;
    let count = archive.len();
    if count > config.max_file_count {
        return Err(Error::FileCountExceeded { found: count, limit: config.max_file_count });
    }
    let ghost src = archive_bytes@;
    let mut entries: Vec<ArchiveEntry> = Vec::new();
    let mut process_content: Option<String> = None;
    let mut ignore_content: Option<String> = None;
    let ghost mut pc: Option<Seq<u8>> = None;
    let ghost mut ic: Option<Seq<u8>> = None;
    let mut total: u64 = 0;
    let mut i: usize = 0;
    while i < count
        invariant
            archive.source() == src,
            src == archive_bytes@,
            count == zip_entry_count(src),
            n == src.len(),
            n <= config.max_zip_size,
            zip_opens(src),
            count <= config.max_file_count,
            0 <= i <= count,
            archive_scan(src, *config, i as nat) == Some(
                (entries@.map_values(|e: ArchiveEntry| e@), pc, ic, total),
            ),
            match pc {
                Some(d) => valid_utf8(d) && (process_content matches Some(s) && s@ == decode_utf8(d)),
                None => process_content is None,
            },
            match ic {
                Some(d) => valid_utf8(d) && (ignore_content matches Some(s) && s@ == decode_utf8(d)),
                None => ignore_content is None,
            },
            archive_entries_read(src, *config, i as nat),
        decreases count - i,
    {
        let info = match archive.entry_info(i) {
            Ok(info) => info,
            Err(e) => {
                proof {
                    lemma_blockers_around(src, *config, i as nat, count as nat, false);
                    lemma_stops_early(src, *config, i as nat, count as nat);
                }
                return Err(e);
            },
        };
        let ghost before = entries@.map_values(|e: ArchiveEntry| e@);
        match check_archive_entry(&info, total, config) {
            Err(e) => {
                assert(archive_entry_fails_at(src, *config, i as nat, e));
                proof {
                    lemma_blockers_around(src, *config, i as nat, count as nat, true);
                    assert(archive_scan(src, *config, (i + 1) as nat) is None);
                    assert forall|k: nat| k > i implies !#[trigger] archive_entry_blocks(src, *config, k) by {
                        if archive_entry_blocks(src, *config, k) {
                            lemma_archive_scan_fails_after(src, *config, (i + 1) as nat, k);
                        }
                    }
                    lemma_stops_early(src, *config, i as nat, count as nat);
                }
                return Err(e);
            },
            Ok((is_file, t)) => {
                if !is_file {
                    let ghost name = info.name@;
                    entries.push(ArchiveEntry { path: info.name, content: Vec::new(), is_directory: true });
                    assert(entries@.map_values(|e: ArchiveEntry| e@) =~= before.push((name, Seq::empty(), true)));
                } else {
                    let content = match archive.entry_data(i) {
                        Ok(c) => c,
                        Err(e) => {
                            proof {
                                lemma_blockers_around(src, *config, i as nat, count as nat, false);
                                lemma_stops_early(src, *config, i as nat, count as nat);
                            }
                            return Err(e);
                        },
                    };
                    proof {
                        lemma_blockers_around(src, *config, i as nat, count as nat, true);
                    }
                    let normalized = normalize_path(info.name.as_str());
                    if crate::placeholders::str_equal(normalized.as_str(), PROCESS_FILE) {
                        match string_from_utf8(content.clone()) {
                            Ok(s) => {
                                process_content = Some(s);
                                proof {
                                    pc = Some(content@);
                                }
                            },
                            Err(details) => {
                                proof {
                                    lemma_no_blocker_after(src, *config, i as nat);
                                    lemma_stops_early(src, *config, i as nat, count as nat);
                                }
                                return Err(
                                    Error::InvalidUtf8 {
                                        context: PROCESS_FILE.to_owned(),
                                        details,
                                    },
                                );
                            },
                        }
                    } else if crate::placeholders::str_equal(normalized.as_str(), IGNORE_FILE) {
                        match string_from_utf8(content.clone()) {
                            Ok(s) => {
                                ignore_content = Some(s);
                                proof {
                                    ic = Some(content@);
                                }
                            },
                            Err(details) => {
                                proof {
                                    lemma_no_blocker_after(src, *config, i as nat);
                                    lemma_stops_early(src, *config, i as nat, count as nat);
                                }
                                return Err(
                                    Error::InvalidUtf8 {
                                        context: IGNORE_FILE.to_owned(),
                                        details,
                                    },
                                );
                            },
                        }
                    }
                    let ghost name = info.name@;
                    let ghost d = content@;
                    entries.push(ArchiveEntry { path: info.name, content, is_directory: false });
                    assert(entries@.map_values(|e: ArchiveEntry| e@) =~= before.push((name, d, false)));
                }
                total = t;
            },
        }
        i = i + 1;
    }
    proof {
        assert forall|k: nat| k < count implies !#[trigger] archive_entry_blocks(src, *config, k) by {
            if archive_entry_blocks(src, *config, k) {
                assert(archive_scan(src, *config, (k + 1) as nat) is None);
                lemma_archive_scan_fails_after(src, *config, (k + 1) as nat, count as nat);
            }
        }
    }
    let process_patterns = match &process_content {
        Some(c) => parse_pattern_file(c.as_str()),
        None => Vec::new(),
    };
    let ignore_patterns = match &ignore_content {
        Some(c) => parse_pattern_file(c.as_str()),
        None => Vec::new(),
    };
    assert(process_patterns@.map_values(|s: String| s@) =~= control_patterns(pc));
    assert(ignore_patterns@.map_values(|s: String| s@) =~= control_patterns(ic));
    let patterns = FilePatterns::new(process_patterns.as_slice(), ignore_patterns.as_slice())?;
    let placeholders = config.placeholder_refs();
    let ghost es = entries@.map_values(|e: ArchiveEntry| e@);
    let ghost proc = kept_patterns(control_patterns(pc));
    let ghost ign = kept_patterns(control_patterns(ic));
    assert(entries@.map_values(|e: ArchiveEntry| e@) == es);
    proof {
        if archive_processes_without_jars(archive_bytes@, *config) {
            assert forall|i: int| 0 <= i < entries@.len() implies !#[trigger] is_jar_to_process(
                entries@[i]@,
                patterns.spec_process(),
                patterns.spec_ignore(),
                *config,
            ) by {
                assert(entries@[i]@ == es[i]);
                assert(!is_jar_to_process(es[i], proc, ign, *config));
            }
        }
    }
    let results = process_entries_in_parallel(entries, &patterns, placeholders, config)?;
    assert forall|k: int| 0 <= k < results@.len() implies #[trigger] entry_outcome(
        es[k],
        option_view(results@[k]),
        proc,
        ign,
        config.placeholders@,
        *config,
    ) by {
        assert(entries@[k]@ == es[k]);
    }
    let mut processed_entries: Vec<ArchiveEntry> = Vec::new();
    let ghost mut outs: Seq<Option<ArchiveEntryView>> = Seq::empty();
    let mut results = results;
    let mut queue: Vec<Option<ArchiveEntry>> = Vec::new();
    let n = results.len();
    while results.len() > 0
        invariant
            results@.len() + queue@.len() == n,
            n == es.len(),
            forall|k: int|
                0 <= k < results@.len() ==> #[trigger] entry_outcome(
                    es[k],
                    option_view(results@[k]),
                    proc,
                    ign,
                    config.placeholders@,
                    *config,
                ),
            forall|k: int|
                0 <= k < queue@.len() ==> #[trigger] entry_outcome(
                    es[n - 1 - k],
                    option_view(queue@[k]),
                    proc,
                    ign,
                    config.placeholders@,
                    *config,
                ),
        decreases results@.len(),
    {
        let ghost rl = results@.len() as int;
        assert(entry_outcome(es[rl - 1], option_view(results@[rl - 1]), proc, ign, config.placeholders@, *config));
        let r = results.pop().unwrap();
        queue.push(r);
        assert forall|k: int| 0 <= k < queue@.len() implies #[trigger] entry_outcome(
            es[n - 1 - k],
            option_view(queue@[k]),
            proc,
            ign,
            config.placeholders@,
            *config,
        ) by {
            if k == queue@.len() - 1 {
                assert(n - 1 - k == rl - 1);
            }
        }
    }
    while queue.len() > 0
        invariant
            archive_accepted(archive_bytes@, *config),
            archive_scan(archive_bytes@, *config, zip_entry_count(archive_bytes@)) == Some(
                (es, pc, ic, total),
            ),
            proc == kept_patterns(control_patterns(pc)),
            ign == kept_patterns(control_patterns(ic)),
            n == es.len(),
            outs.len() + queue@.len() == n,
            forall|k: int|
                0 <= k < queue@.len() ==> #[trigger] entry_outcome(
                    es[n - 1 - k],
                    option_view(queue@[k]),
                    proc,
                    ign,
                    config.placeholders@,
                    *config,
                ),
            forall|k: int|
                0 <= k < outs.len() ==> #[trigger] entry_outcome(
                    es[k],
                    outs[k],
                    proc,
                    ign,
                    config.placeholders@,
                    *config,
                ),
            processed_entries@.map_values(|e: ArchiveEntry| e@) == kept_entries(outs),
            archive_processes_without_jars(archive_bytes@, *config) ==> forall|k: int|
                0 <= k < outs.len() ==> #[trigger] outs[k] == plain_entry_result(
                    es[k],
                    proc,
                    ign,
                    config.placeholders@,
                    *config,
                ),
        decreases queue@.len(),
    {
        let ghost ql = queue@.len() as int;
        assert(entry_outcome(es[n - 1 - (ql - 1)], option_view(queue@[ql - 1]), proc, ign, config.placeholders@, *config));
        let result = queue.pop().unwrap();
        let ghost k = outs.len() as int;
        assert(entry_outcome(es[k], option_view(result), proc, ign, config.placeholders@, *config));
        let ghost before = processed_entries@.map_values(|e: ArchiveEntry| e@);
        let ghost out = option_view(result);
        match result {
            Some(e) => {
                processed_entries.push(e);
            },
            None => {},
        }
        proof {
            let new_outs = outs.push(out);
            assert(new_outs.drop_last() =~= outs);
            assert(processed_entries@.map_values(|e: ArchiveEntry| e@) =~= kept_entries(new_outs));
            if archive_processes_without_jars(archive_bytes@, *config) {
                assert(!is_jar_to_process(es[k], proc, ign, *config));
                assert(out == plain_entry_result(es[k], proc, ign, config.placeholders@, *config));
                assert forall|j: int| 0 <= j < new_outs.len() implies #[trigger] new_outs[j] == plain_entry_result(
                    es[j],
                    proc,
                    ign,
                    config.placeholders@,
                    *config,
                ) by {
                    if j < k {
                        assert(new_outs[j] == outs[j]);
                    }
                }
            }
            outs = new_outs;
        }
    }
    assert(outcomes_hold(es, outs, proc, ign, config.placeholders@, *config));
    proof {
        if archive_processes_without_jars(archive_bytes@, *config) {
            assert(outs =~= es.map_values(
                |e: ArchiveEntryView| plain_entry_result(e, proc, ign, config.placeholders@, *config),
            ));
        }
    }
    let out = write_archive(&processed_entries, config)?;
    proof {
        lemma_archive_output(out@, archive_bytes@, *config, es, pc, ic, total, outs);
    }
    Ok(out)
}

/// The output of `process_archive` from the outcomes of its entries.
proof fn lemma_archive_output(
    out: Seq<u8>,
    input: Seq<u8>,
    config: Config,
    es: Seq<ArchiveEntryView>,
    pc: Option<Seq<u8>>,
    ic: Option<Seq<u8>>,
    total: u64,
    outs: Seq<Option<ArchiveEntryView>>,
)
    requires
        archive_scan(input, config, zip_entry_count(input)) == Some((es, pc, ic, total)),
        outcomes_hold(
            es,
            outs,
            kept_patterns(control_patterns(pc)),
            kept_patterns(control_patterns(ic)),
            config.placeholders@,
            config,
        ),
        archive_holds(out, entries_written(kept_entries(outs))),
    ensures
        archive_output(out, input, config),
{
    let t = archive_scan(input, config, zip_entry_count(input)).unwrap();
    assert(t.0 == es && t.1 == pc && t.2 == ic);
    assert(outcomes_hold(
        t.0,
        outs,
        kept_patterns(control_patterns(t.1)),
        kept_patterns(control_patterns(t.2)),
        config.placeholders@,
        config,
    ));
    assert(archive_holds(out, entries_written(kept_entries(outs))));
}

} // verus!
