//! ZIP bundle operations: what unpacking a bundle writes, the list of JARs
//! in `process.txt`, the checks on those JARs, and packing a bundle again.
//!
//! The file system itself is left to the caller: these functions decide
//! what is written where, and which error comes first.

use vstd::prelude::*;
use vstd::utf8::{decode_utf8, valid_utf8};

use crate::archive::string_from_utf8;
use crate::config::{parse_pattern_file, pattern_lines};
use crate::paths::{extension_of_path, join, path_extension, path_join, path_starts_with, starts_with_path};
use crate::placeholders::str_equal;
use crate::security::{has_parent_component, has_parent_dir, path_components};
use crate::strings::{chars_of, concat, concat3, decimal, decimal_string, string_from_chars};
use crate::tool::config::{Config, ConfigView};
use crate::tool::jar::outside_text;
use crate::zipio::{
    archive_holds, builder_entries, data_fits, files_writable, name_fits, zip_entry_count, zip_entry_data, zip_entry_meta, zip_entry_opens,
    zip_entry_reads, zip_opens,
    Compression, ZipBuilder, ZipReader,
};

verus! {

broadcast use vstd::string::group_string_axioms;

/// One step of unpacking a bundle into a directory.
#[derive(Debug, Clone)]
pub enum ExtractStep {
    /// Create this directory (and its parents).
    Directory(String),
    /// Write this file (creating its parent directories) with these contents.
    File(String, Vec<u8>),
    /// Stop with this error.
    Fail(String),
}

/// An extraction step as plain values.
pub enum ExtractStepView {
    Directory(Seq<char>),
    File(Seq<char>, Seq<u8>),
    Fail(Seq<char>),
}

impl View for ExtractStep {
    type V = ExtractStepView;

    open spec fn view(&self) -> ExtractStepView {
        match self {
            ExtractStep::Directory(p) => ExtractStepView::Directory(p@),
            ExtractStep::File(p, d) => ExtractStepView::File(p@, d@),
            ExtractStep::Fail(m) => ExtractStepView::Fail(m@),
        }
    }
}

/// The message for an entry whose path leaves the extraction directory.
pub open spec fn escape_message(name: Seq<char>) -> Seq<char> {
    "Security violation: file path escapes extraction directory: "@ + name
}

/// The message for a file larger than the limit.
pub open spec fn too_large_message(name: Seq<char>, size: u64, limit: u64) -> Seq<char> {
    "File '"@ + name + "' size ("@ + decimal(size as nat) + " bytes) exceeds maximum allowed size ("@
        + decimal(limit as nat) + " bytes)"@
}

/// Whether joining `name` to `dir` leaves the directory: the joined path
/// does not start with the directory (an absolute name), or the name has a
/// `..` component.
pub open spec fn leaves_dir(dir: Seq<char>, name: Seq<char>) -> bool {
    !path_starts_with(path_join(dir, name), dir) || has_parent_component(path_components(name))
}

/// Whether joining `name` to `dir` leaves the directory.
pub fn escapes_dir(dir: &str, name: &str) -> (r: bool)
    ensures
        r == leaves_dir(dir@, name@),
{
    let out = join(dir, name);
    !starts_with_path(out.as_str(), dir) || has_parent_dir(name)
}

/// What unpacking entry `i` of a bundle into `dir` does: the entry's path
/// joined to the directory must stay inside it; directories are created;
/// files must fit the size limit and are written.
pub open spec fn extract_step(src: Seq<u8>, dir: Seq<char>, c: ConfigView, i: int) -> ExtractStepView {
    let m = zip_entry_meta(src, i);
    let out = path_join(dir, m.name);
    if leaves_dir(dir, m.name) {
        ExtractStepView::Fail(escape_message(m.name))
    } else if m.is_dir {
        ExtractStepView::Directory(out)
    } else if m.size > c.maximum_file_size {
        ExtractStepView::Fail(too_large_message(m.name, m.size, c.maximum_file_size))
    } else {
        ExtractStepView::File(out, zip_entry_data(src, i))
    }
}

/// Whether the reader fails on entry `i` where unpacking needs it: the
/// entry does not open, or it is a file to write and does not read.
pub open spec fn extract_read_fails(src: Seq<u8>, dir: Seq<char>, c: ConfigView, i: int) -> bool {
    !zip_entry_opens(src, i) || (extract_step(src, dir, c, i) is File && !zip_entry_reads(src, i))
}

/// The message for a bundle larger than the limit.
pub open spec fn zip_size_message(len: nat, limit: u64) -> Seq<char> {
    "ZIP file size ("@ + decimal(len) + " bytes) exceeds maximum allowed size ("@ + decimal(
        limit as nat,
    ) + " bytes)"@
}

/// The message for a bundle with too many entries.
pub open spec fn zip_count_message(count: nat, limit: usize) -> Seq<char> {
    "ZIP contains "@ + decimal(count) + " files, exceeding maximum of "@ + decimal(limit as nat)
}

/// The message for a file larger than the limit.
fn too_large_text(name: &str, size: u64, limit: u64) -> (r: String)
    ensures
        r@ == too_large_message(name@, size, limit),
{
    let s = decimal_string(size);
    let l = decimal_string(limit);
    let a = concat3("File '", name, "' size (");
    let b = concat3(a.as_str(), s.as_str(), " bytes) exceeds maximum allowed size (");
    concat3(b.as_str(), l.as_str(), " bytes)")
}

/// Plans the unpacking of a bundle into `extract_dir`.
///
/// The bundle must fit the size limit, open as a ZIP archive and hold no
/// more entries than allowed; otherwise nothing is written and the error
/// comes back. Then each entry gives one step, in order, until the first
/// step that fails: an entry whose path leaves the directory, or a file
/// over the size limit. A failure of the ZIP reader on an entry it needs
/// also ends the plan with a failing step, and nothing else does.
pub fn extract_zip(zip_bytes: &[u8], extract_dir: &str, config: &Config) -> (r: Result<
    Vec<ExtractStep>,
    String,
>)
    ensures
        zip_bytes@.len() > config.maximum_zip_size ==> (r matches Err(m) && m@ == zip_size_message(
            zip_bytes@.len(),
            config.maximum_zip_size,
        )),
        zip_bytes@.len() <= config.maximum_zip_size && !zip_opens(zip_bytes@) ==> r is Err,
        zip_bytes@.len() <= config.maximum_zip_size && zip_opens(zip_bytes@) && zip_entry_count(
            zip_bytes@,
        ) > config.maximum_allowed_files ==> (r matches Err(m) && m@ == zip_count_message(
            zip_entry_count(zip_bytes@),
            config.maximum_allowed_files,
        )),
        r is Ok ==> zip_bytes@.len() <= config.maximum_zip_size && zip_opens(zip_bytes@)
            && zip_entry_count(zip_bytes@) <= config.maximum_allowed_files,
        r matches Ok(steps) ==> ({
            let n = steps@.len();
            &&& n <= zip_entry_count(zip_bytes@)
            &&& forall|k: int|
                0 <= k < n - 1 ==> (#[trigger] steps@[k])@ == extract_step(
                    zip_bytes@,
                    extract_dir@,
                    config@,
                    k,
                ) && !(steps@[k]@ is Fail)
            &&& n > 0 ==> (steps@[n - 1]@ == extract_step(zip_bytes@, extract_dir@, config@, n - 1)
                || (steps@[n - 1]@ is Fail && extract_read_fails(
                zip_bytes@,
                extract_dir@,
                config@,
                n - 1,
            )))
            &&& n < zip_entry_count(zip_bytes@) ==> n > 0 && steps@[n - 1]@ is Fail
        }),
{
    let len = zip_bytes.len();
    if len as u64 > config.maximum_zip_size {
        let a = decimal_string(len as u64);
        let b = decimal_string(config.maximum_zip_size);
        let m1 = concat3("ZIP file size (", a.as_str(), " bytes) exceeds maximum allowed size (");
        return Err(concat3(m1.as_str(), b.as_str(), " bytes)"));
    }
    let mut archive = match ZipReader::open(zip_bytes) {
        Ok(a) => a,
        Err(e) => {
            return Err(outside_text(e));
        },
    };
    let count = archive.len();
    if count > config.maximum_allowed_files {
        let a = decimal_string(count as u64);
        let b = decimal_string(config.maximum_allowed_files as u64);
        let m1 = concat3("ZIP contains ", a.as_str(), " files, exceeding maximum of ");
        return Err(concat(m1.as_str(), b.as_str()));
    }
    let ghost src = zip_bytes@;
    let mut steps: Vec<ExtractStep> = Vec::new();
    let mut i: usize = 0;
    while i < count
        invariant
            archive.source() == src,
            src == zip_bytes@,
            count == zip_entry_count(src),
            src.len() <= config.maximum_zip_size,
            zip_opens(src),
            count <= config.maximum_allowed_files,
            0 <= i <= count,
            steps@.len() == i,
            forall|k: int|
                0 <= k < i ==> (#[trigger] steps@[k])@ == extract_step(
                    src,
                    extract_dir@,
                    config@,
                    k,
                ) && !(steps@[k]@ is Fail),
        decreases count - i,
    {
        let info = match archive.entry_info(i) {
            Ok(info) => info,
            Err(e) => {
                steps.push(ExtractStep::Fail(outside_text(e)));
                return Ok(steps);
            },
        };
        let out = join(extract_dir, info.name.as_str());
        if escapes_dir(extract_dir, info.name.as_str()) {
            steps.push(
                ExtractStep::Fail(
                    concat(
                        "Security violation: file path escapes extraction directory: ",
                        info.name.as_str(),
                    ),
                ),
            );
            return Ok(steps);
        }
        if info.is_dir {
            steps.push(ExtractStep::Directory(out));
        } else if info.size > config.maximum_file_size {
            steps.push(
                ExtractStep::Fail(
                    too_large_text(info.name.as_str(), info.size, config.maximum_file_size),
                ),
            );
            return Ok(steps);
        } else {
            let data = match archive.entry_data(i) {
                Ok(d) => d,
                Err(_) => {
                    steps.push(ExtractStep::Fail(concat("Failed to extract file: ", out.as_str())));
                    return Ok(steps);
                },
            };
            steps.push(ExtractStep::File(out, data));
        }
        i = i + 1;
    }
    Ok(steps)
}

/// The JAR paths listed in a `process.txt`: its lines, trimmed, without
/// blank lines and `#` comments; `None` when it lists none.
pub open spec fn process_file_paths(content: Seq<u8>) -> Result<Seq<Seq<char>>, Seq<char>> {
    if !valid_utf8(content) {
        Err("Failed to read lines from process.txt"@)
    } else if pattern_lines(decode_utf8(content)).len() == 0 {
        Err("process.txt contains no valid JAR file paths"@)
    } else {
        Ok(pattern_lines(decode_utf8(content)))
    }
}

/// Reads the contents of `process.txt` into the list of JAR file paths it
/// names, one per line; blank lines and `#` comments are skipped.
pub fn read_process_file(content: &[u8]) -> (r: Result<Vec<String>, String>)
    ensures
        match process_file_paths(content@) {
            Ok(ps) => r matches Ok(v) && v@.map_values(|s: String| s@) == ps,
            Err(m) => r matches Err(x) && x@ == m,
        },
{
    let text = match string_from_utf8(vstd::slice::slice_to_vec(content)) {
        Ok(t) => t,
        Err(_) => {
            return Err("Failed to read lines from process.txt".to_owned());
        },
    };
    let paths = parse_pattern_file(text.as_str());
    if paths.len() == 0 {
        return Err("process.txt contains no valid JAR file paths".to_owned());
    }
    Ok(paths)
}

/// What the file system says about a path.
#[derive(Debug, Clone, Copy, PartialEq, Eq)]
pub enum PathStatus {
    /// Nothing is there.
    Missing,
    /// Something other than a file is there.
    NotFile,
    /// A file is there.
    File,
}

/// The paths of the listed JARs inside the extraction directory.
pub fn jar_full_paths(jar_paths: &[String], extract_dir: &str) -> (r: Vec<String>)
    ensures
        r@.len() == jar_paths@.len(),
        forall|k: int|
            0 <= k < r@.len() ==> (#[trigger] r@[k])@ == path_join(extract_dir@, jar_paths@[k]@),
{
    let mut out: Vec<String> = Vec::new();
    let mut k: usize = 0;
    while k < jar_paths.len()
        invariant
            0 <= k <= jar_paths@.len(),
            out@.len() == k,
            forall|j: int|
                0 <= j < k ==> (#[trigger] out@[j])@ == path_join(extract_dir@, jar_paths@[j]@),
        decreases jar_paths@.len() - k,
    {
        out.push(join(extract_dir, jar_paths[k].as_str()));
        k = k + 1;
    }
    out
}

/// The error for listed JAR `p`, whose full path is `full` and whose status
/// is `s`, if any.
pub open spec fn jar_path_problem(dir: Seq<char>, p: Seq<char>, full: Seq<char>, s: PathStatus) -> Option<Seq<char>> {
    if leaves_dir(dir, p) {
        Some(escape_message(p))
    } else {
        match s {
            PathStatus::Missing => Some(
                "JAR file not found: "@ + p + " (full path: "@ + full + ")"@,
            ),
            PathStatus::NotFile => Some("Path is not a file: "@ + full),
            PathStatus::File => if extension_of_path(full) != Some("jar"@) {
                Some("File is not a JAR file: "@ + full)
            } else {
                None
            },
        }
    }
}

/// Validates that every listed JAR lies within the extraction directory (no
/// absolute path, no `..` component) and exists there as a `.jar` file,
/// given the status of each one's full path (as
/// `jar_full_paths` gives them); returns the full paths.
pub fn validate_jar_paths(jar_paths: &[String], extract_dir: &str, statuses: &[PathStatus]) -> (r:
    Result<Vec<String>, String>)
    requires
        statuses@.len() == jar_paths@.len(),
    ensures
        match r {
            Ok(v) => v@.len() == jar_paths@.len() && forall|k: int|
                0 <= k < v@.len() ==> (#[trigger] v@[k])@ == path_join(extract_dir@, jar_paths@[k]@)
                    && jar_path_problem(extract_dir@, jar_paths@[k]@, v@[k]@, statuses@[k]) is None,
            Err(m) => exists|k: int|
                0 <= k < jar_paths@.len() && jar_path_problem(
                    extract_dir@,
                    jar_paths@[k]@,
                    path_join(extract_dir@, jar_paths@[k]@),
                    statuses@[k],
                ) == Some(m@) && (forall|j: int|
                    0 <= j < k ==> #[trigger] jar_path_problem(
                        extract_dir@,
                        jar_paths@[j]@,
                        path_join(extract_dir@, jar_paths@[j]@),
                        statuses@[j],
                    ) is None),
        },
{
    let mut full_paths: Vec<String> = Vec::new();
    let mut k: usize = 0;
    while k < jar_paths.len()
        invariant
            statuses@.len() == jar_paths@.len(),
            0 <= k <= jar_paths@.len(),
            full_paths@.len() == k,
            forall|j: int|
                0 <= j < k ==> (#[trigger] full_paths@[j])@ == path_join(
                    extract_dir@,
                    jar_paths@[j]@,
                ) && jar_path_problem(extract_dir@, jar_paths@[j]@, full_paths@[j]@, statuses@[j]) is None,
        decreases jar_paths@.len() - k,
    {
        let p = jar_paths[k].as_str();
        let full = join(extract_dir, p);
        let problem: Option<String> = if escapes_dir(extract_dir, p) {
            Some(concat("Security violation: file path escapes extraction directory: ", p))
        } else {
            match statuses[k] {
                PathStatus::Missing => {
                    let a = concat3("JAR file not found: ", p, " (full path: ");
                    Some(concat3(a.as_str(), full.as_str(), ")"))
                },
                PathStatus::NotFile => Some(concat("Path is not a file: ", full.as_str())),
                PathStatus::File => {
                    let is_jar = match path_extension(full.as_str()) {
                        Some(e) => str_equal(e.as_str(), "jar"),
                        None => false,
                    };
                    if !is_jar {
                        Some(concat("File is not a JAR file: ", full.as_str()))
                    } else {
                        None
                    }
                },
            }
        };
        match problem {
            Some(m) => {
                assert forall|j: int| 0 <= j < k implies #[trigger] jar_path_problem(
                    extract_dir@,
                    jar_paths@[j]@,
                    path_join(extract_dir@, jar_paths@[j]@),
                    statuses@[j],
                ) is None by {
                    assert(full_paths@[j]@ == path_join(extract_dir@, jar_paths@[j]@));
                }
                assert(jar_path_problem(extract_dir@, jar_paths@[k as int]@, path_join(extract_dir@, jar_paths@[k as int]@), statuses@[k as int]) == Some(m@));
                return Err(m);
            },
            None => {},
        }
        full_paths.push(full);
        k = k + 1;
    }
    Ok(full_paths)
}

/// A path with every `\` turned into `/`.
pub open spec fn forward_slashes(s: Seq<char>) -> Seq<char> {
    s.map_values(|c: char| if c == '\\' { '/' } else { c })
}

/// Executable `forward_slashes`.
fn to_forward_slashes(s: &str) -> (r: String)
    ensures
        r@ == forward_slashes(s@),
{
    let cs = chars_of(s);
    let mut out: Vec<char> = Vec::new();
    let mut i: usize = 0;
    while i < cs.len()
        invariant
            cs@ == s@,
            0 <= i <= cs@.len(),
            out@ == forward_slashes(cs@.take(i as int)),
        decreases cs@.len() - i,
    {
        let c = if cs[i] == '\\' {
            '/'
        } else {
            cs[i]
        };
        out.push(c);
        i = i + 1;
        assert(out@ =~= forward_slashes(cs@.take(i as int)));
    }
    assert(cs@.take(i as int) =~= cs@);
    string_from_chars(out.as_slice())
}

/// The first of the files (relative path, contents) that is over the size
/// limit, if any.
pub open spec fn first_oversized(files: Seq<(Seq<char>, Seq<u8>)>, limit: u64) -> int
    decreases files.len(),
{
    if files.len() == 0 {
        -1
    } else if first_oversized(files.drop_last(), limit) >= 0 {
        first_oversized(files.drop_last(), limit)
    } else if files.last().1.len() > limit {
        files.len() - 1
    } else {
        -1
    }
}

/// Whether a message is one the ZIP writer's failures are reported with.
pub open spec fn packing_failure(m: Seq<char>) -> bool {
    ||| (exists|name: Seq<char>| m == "Failed to start ZIP file entry: "@ + name)
    ||| (exists|name: Seq<char>| m == "Failed to write file to ZIP: "@ + name)
    ||| m == "Failed to finalize ZIP file"@
}

/// What the files of a directory are written as: each under its path with
/// `/` separators, with its contents.
pub open spec fn packed_files(files: Seq<(Seq<char>, Seq<u8>)>) -> Seq<(Seq<char>, Seq<u8>, bool)> {
    files.map_values(|f: (Seq<char>, Seq<u8>)| (forward_slashes(f.0), f.1, false))
}

/// Whether the files can be packed: every entry name (with `/`
/// separators) fits a ZIP header and is used once, and all data fits.
pub open spec fn packable(files: Seq<(Seq<char>, Seq<u8>)>) -> bool {
    files_writable(Seq::empty(), files.map_values(|f: (Seq<char>, Seq<u8>)| (forward_slashes(f.0), f.1)))
}

/// Packs the files of a directory into a ZIP archive: each file, given by
/// its path relative to the directory and its contents, becomes a deflated
/// entry with permissions 0o755 named by that path with `/` separators.
/// A file over the size limit stops the packing with an error; otherwise
/// packing succeeds when every entry name fits a ZIP header and is used
/// once, and every file's data is under 2 GiB.
pub fn create_zip(files: &[(String, Vec<u8>)], config: &Config) -> (r: Result<Vec<u8>, String>)
    ensures
        ({
            let fs = files@.map_values(|f: (String, Vec<u8>)| (f.0@, f.1@));
            let k = first_oversized(fs, config.maximum_file_size);
            &&& k >= 0 ==> r is Err
            &&& r matches Err(m) ==> packing_failure(m@) || (k >= 0 && m@ == too_large_message(
                forward_slashes(fs[k].0),
                fs[k].1.len() as u64,
                config.maximum_file_size,
            ))
            &&& r matches Ok(b) ==> archive_holds(b@, packed_files(fs))
            &&& k < 0 && packable(fs) ==> r is Ok
        }),
{
    let ghost fs = files@.map_values(|f: (String, Vec<u8>)| (f.0@, f.1@));
    let mut zip = ZipBuilder::new();
    let mut i: usize = 0;
    while i < files.len()
        invariant
            fs == files@.map_values(|f: (String, Vec<u8>)| (f.0@, f.1@)),
            0 <= i <= files@.len(),
            first_oversized(fs.take(i as int), config.maximum_file_size) == -1,
            builder_entries(zip) == packed_files(fs.take(i as int)),
        decreases files@.len() - i,
    {
        let name = to_forward_slashes(files[i].0.as_str());
        let data = &files[i].1;
        proof {
            if packable(fs) {
                let ps = fs.map_values(|f: (Seq<char>, Seq<u8>)| (forward_slashes(f.0), f.1));
                let es = builder_entries(zip);
                assert(ps[i as int] == (name@, data@));
                assert forall|j: int| 0 <= j < es.len() implies (#[trigger] es[j]).0 != name@ by {
                    assert(es[j].0 == ps[j].0);
                }
                assert forall|j: int| 0 <= j < es.len() implies data_fits(#[trigger] es[j].1) by {
                    assert(es[j].1 == ps[j].1);
                }
            }
        }
        assert(fs.take(i + 1).drop_last() =~= fs.take(i as int));
        assert(fs[i as int] == (files@[i as int].0@, files@[i as int].1@));
        if data.len() as u64 > config.maximum_file_size {
            proof {
                lemma_first_oversized_prefix(fs, i as int, config.maximum_file_size);
            }
            return Err(
                too_large_text(name.as_str(), data.len() as u64, config.maximum_file_size),
            );
        }
        if !name_fits(name.as_str()) || zip.start_file(name.as_str(), Compression::Deflated, 0o755).is_err() {
            let m = concat("Failed to start ZIP file entry: ", name.as_str());
            assert(m@ == "Failed to start ZIP file entry: "@ + name@);
            return Err(m);
        }
        let ghost started = builder_entries(zip);
        proof {
            if packable(fs) {
                let ps = fs.map_values(|f: (Seq<char>, Seq<u8>)| (forward_slashes(f.0), f.1));
                assert(ps[i as int] == (name@, data@));
                assert(started.last().1 + data@ =~= data@);
                assert forall|j: int| 0 <= j < started.len() implies data_fits(#[trigger] started[j].1) by {
                    if j < i {
                        assert(started[j].1 == ps[j].1);
                    }
                }
            }
        }
        if let Err(_) = zip.write_all(data.as_slice()) {
            let m = concat("Failed to write file to ZIP: ", name.as_str());
            assert(m@ == "Failed to write file to ZIP: "@ + name@);
            return Err(m);
        }
        proof {
            if data@.len() == 0 {
                assert(data@ =~= Seq::<u8>::empty());
            } else {
                assert(Seq::<u8>::empty() + data@ =~= data@);
            }
            assert(packed_files(fs.take(i + 1)) =~= packed_files(fs.take(i as int)).push(
                (name@, data@, false),
            ));
        }
        i = i + 1;
    }
    assert(fs.take(i as int) =~= fs);
    proof {
        if packable(fs) {
            let ps = fs.map_values(|f: (Seq<char>, Seq<u8>)| (forward_slashes(f.0), f.1));
            let es = builder_entries(zip);
            assert forall|j: int| 0 <= j < es.len() implies data_fits(#[trigger] es[j].1) by {
                assert(es[j].1 == ps[j].1);
            }
        }
    }
    match zip.finish() {
        Ok(b) => Ok(b),
        Err(_) => Err("Failed to finalize ZIP file".to_owned()),
    }
}

/// When the first `i` files fit and file `i` does not, `first_oversized` is `i`.
proof fn lemma_first_oversized_prefix(fs: Seq<(Seq<char>, Seq<u8>)>, i: int, limit: u64)
    requires
        0 <= i < fs.len(),
        first_oversized(fs.take(i), limit) == -1,
        fs[i].1.len() > limit,
    ensures
        first_oversized(fs, limit) == i,
    decreases fs.len(),
{
    if i == fs.len() - 1 {
        assert(fs.drop_last() =~= fs.take(i));
    } else {
        assert(fs.drop_last().take(i) =~= fs.take(i));
        lemma_first_oversized_prefix(fs.drop_last(), i, limit);
    }
}

} // verus!
