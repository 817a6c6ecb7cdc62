//! JAR file operations and processing.

use vstd::prelude::*;

use crate::archive::processed_resource;
use crate::classfile::{class_constant_texts, class_parses, class_verifies};
use crate::processor::{all_classes_rewrite, replaced_slots, rewritten_class, some_replaced};
use crate::config::Config;
use crate::placeholders::PlaceholderMap;
use crate::error::Error;
use crate::security::{archive_path_verdict, validate_archive_path};
use crate::strings::{
    chars_end_with, chars_of, concat, concat3, decimal, decimal_string, ends_with, fixed1,
    fixed1_string,
};
use crate::zipio::{
    archive_holds, files_writable, lemma_writable_split, ends_in_separator, files_written, write_files, zip_entry_count, zip_entry_data, zip_entry_meta, zip_entry_opens, zip_entry_reads, zip_opens, Compression, EntryInfo,
    EntryMeta, ZipBuilder, ZipReader,
};

verus! {

broadcast use vstd::string::group_string_axioms;

/// A named entry as character and byte sequences.
pub type EntryView = (Seq<char>, Seq<u8>);

/// The views of a list of named entries.
pub open spec fn entries_view(v: Seq<(String, Vec<u8>)>) -> Seq<EntryView> {
    v.map_values(|e: (String, Vec<u8>)| (e.0@, e.1@))
}

/// In-memory representation of a JAR file.
///
/// Separates class files from other resources for efficient processing.
#[derive(Debug, Clone)]
pub struct JarFile {
    /// Class files with their paths and bytecode.
    pub classes: Vec<(String, Vec<u8>)>,
    /// Non-class files (resources, manifests, etc.).
    pub resources: Vec<(String, Vec<u8>)>,
}

impl JarFile {
    /// Creates a new empty JarFile.
    pub fn new() -> (r: JarFile)
        ensures
            r.classes@.len() == 0,
            r.resources@.len() == 0,
    {
        JarFile { classes: Vec::new(), resources: Vec::new() }
    }

    /// Returns the total number of entries.
    pub fn len(&self) -> (r: usize)
        requires
            self.classes@.len() + self.resources@.len() <= usize::MAX,
        ensures
            r == self.classes@.len() + self.resources@.len(),
    {
        self.classes.len() + self.resources.len()
    }

    /// Returns true if the JAR has no entries.
    pub fn is_empty(&self) -> (r: bool)
        ensures
            r == (self.classes@.len() == 0 && self.resources@.len() == 0),
    {
        self.classes.len() == 0 && self.resources.len() == 0
    }
}

impl Default for JarFile {
    fn default() -> (r: JarFile)
        ensures
            r.classes@.len() == 0,
            r.resources@.len() == 0,
    {
        JarFile::new()
    }
}

/// A check that an archive entry failed, with the message of its error.
pub enum CheckFailure {
    /// `Error::PathTraversal`.
    PathTraversal(Seq<char>),
    /// `Error::SizeLimitExceeded`.
    SizeLimit(Seq<char>),
    /// `Error::SecurityViolation`.
    ZipBomb(Seq<char>),
}

/// Whether an error is the one a failed check reports.
pub open spec fn reports(e: Error, f: CheckFailure) -> bool {
    match f {
        CheckFailure::PathTraversal(m) => e matches Error::PathTraversal(x) && x@ == m,
        CheckFailure::SizeLimit(m) => e matches Error::SizeLimitExceeded { message } && message@
            == m,
        CheckFailure::ZipBomb(m) => e matches Error::SecurityViolation(x) && x@ == m,
    }
}

/// `a + b`, or `u64::MAX` when the sum does not fit.
pub open spec fn saturating_sum(a: u64, b: u64) -> u64 {
    if a + b > u64::MAX {
        u64::MAX
    } else {
        (a + b) as u64
    }
}

/// The message for a file larger than the limit.
pub open spec fn file_size_message(name: Seq<char>, size: u64, limit: u64) -> Seq<char> {
    "File '"@ + name + "' size "@ + decimal(size as nat) + " bytes exceeds limit of "@ + decimal(
        limit as nat,
    ) + " bytes"@
}

/// The message for a JAR entry that trips the compression-ratio limit.
pub open spec fn jar_bomb_message(total: u64, compressed: u64, config: Config) -> Seq<char> {
    let c: nat = if compressed == 0 {
        1
    } else {
        compressed as nat
    };
    "Possible zip bomb detected: compression ratio "@ + fixed1(total as nat, c) + " exceeds limit of "@
        + fixed1(
        config.max_compression_ratio.numerator as nat,
        config.max_compression_ratio.denominator as nat,
    )
}

/// The checks on one JAR entry, given the uncompressed bytes counted before
/// it: the path is validated, directories are skipped, then the size limit
/// and the compression-ratio limit apply. `Ok((is_file, total))` gives
/// whether the entry is a file to read and the new running total.
pub open spec fn jar_entry_check(m: EntryMeta, total: u64, config: Config) -> Result<
    (bool, u64),
    CheckFailure,
> {
    match archive_path_verdict(m.name) {
        Err(msg) => Err(CheckFailure::PathTraversal(msg)),
        Ok(_) => if m.is_dir {
            Ok((false, total))
        } else if m.size > config.max_file_size {
            Err(CheckFailure::SizeLimit(file_size_message(m.name, m.size, config.max_file_size)))
        } else {
            let t = saturating_sum(total, m.size);
            if config.max_compression_ratio.spec_exceeded_by(t, m.compressed_size) {
                Err(CheckFailure::ZipBomb(jar_bomb_message(t, m.compressed_size, config)))
            } else {
                Ok((true, t))
            }
        },
    }
}

/// The message of a size-limit error for a file.
fn file_size_error(name: &str, size: u64, limit: u64) -> (r: Error)
    ensures
        r matches Error::SizeLimitExceeded { message } && message@ == file_size_message(
            name@,
            size,
            limit,
        ),
{
    let a = concat3("File '", name, "' size ");
    let s = decimal_string(size);
    let b = concat3(a.as_str(), s.as_str(), " bytes exceeds limit of ");
    let l = decimal_string(limit);
    let c = concat3(b.as_str(), l.as_str(), " bytes");
    Error::SizeLimitExceeded { message: c }
}

/// Checks one JAR entry against the configuration; see `jar_entry_check`.
pub fn check_jar_entry(info: &EntryInfo, total: u64, config: &Config) -> (r: Result<(bool, u64), Error>)
    ensures
        match jar_entry_check(info@, total, *config) {
            Ok(v) => r == Ok::<(bool, u64), Error>(v),
            Err(f) => r matches Err(e) && reports(e, f),
        },
{
    match validate_archive_path(info.name.as_str()) {
        Err(e) => return Err(e),
        Ok(_) => {},
    }
    if info.is_dir {
        return Ok((false, total));
    }
    if info.size > config.max_file_size {
        return Err(file_size_error(info.name.as_str(), info.size, config.max_file_size));
    }
    let t = total.saturating_add(info.size);
    if config.max_compression_ratio.exceeded_by(t, info.compressed_size) {
        let c = if info.compressed_size == 0 {
            1
        } else {
            info.compressed_size
        };
        let a = fixed1_string(t, c);
        let b = fixed1_string(
            config.max_compression_ratio.numerator,
            config.max_compression_ratio.denominator,
        );
        let m1 = concat3("Possible zip bomb detected: compression ratio ", a.as_str(), " exceeds limit of ");
        let m = concat(m1.as_str(), b.as_str());
        return Err(Error::SecurityViolation(m));
    }
    Ok((true, t))
}

/// The classes, resources and running total after the first `n` entries of
/// an archive, or `None` when one of them fails its checks.
pub open spec fn jar_scan(src: Seq<u8>, config: Config, n: nat) -> Option<
    (Seq<EntryView>, Seq<EntryView>, u64),
>
    decreases n,
{
    if n == 0 {
        Some((Seq::empty(), Seq::empty(), 0))
    } else {
        match jar_scan(src, config, (n - 1) as nat) {
            None => None,
            Some((cl, rs, total)) => {
                let m = zip_entry_meta(src, n - 1);
                match jar_entry_check(m, total, config) {
                    Err(_) => None,
                    Ok((is_file, t)) => if !is_file {
                        Some((cl, rs, t))
                    } else {
                        let d = zip_entry_data(src, n - 1);
                        if ends_with(m.name, ".class"@) {
                            Some((cl.push((m.name, d)), rs, t))
                        } else {
                            Some((cl, rs.push((m.name, d)), t))
                        }
                    },
                }
            },
        }
    }
}

/// Whether a JAR was loaded from `bytes` as `jar`: the archive passed the
/// size and count limits, every entry passed its checks, and the classes
/// and resources are the files' names and contents in archive order.
pub open spec fn jar_loaded_as(bytes: Seq<u8>, config: Config, jar: JarFile) -> bool {
    &&& bytes.len() <= config.max_zip_size
    &&& zip_opens(bytes)
    &&& zip_entry_count(bytes) <= config.max_file_count
    &&& match jar_scan(bytes, config, zip_entry_count(bytes)) {
        Some((cl, rs, _)) => entries_view(jar.classes@) == cl && entries_view(jar.resources@) == rs,
        None => false,
    }
}

/// Whether the entries before `i` passed their checks and entry `i` failed
/// one, with `e` the error it reports.
pub open spec fn jar_entry_fails_at(bytes: Seq<u8>, config: Config, i: nat, e: Error) -> bool {
    match jar_scan(bytes, config, i) {
        Some((_, _, total)) => match jar_entry_check(zip_entry_meta(bytes, i as int), total, config) {
            Err(f) => reports(e, f),
            Ok(_) => false,
        },
        None => false,
    }
}

/// Whether the reader reads the first `n` entries as loading needs them:
/// each entry opens, and each file that passes its checks reads to the end.
pub open spec fn jar_entries_read(src: Seq<u8>, config: Config, n: nat) -> bool
    decreases n,
{
    if n == 0 {
        true
    } else {
        let k = (n - 1) as nat;
        &&& jar_entries_read(src, config, k)
        &&& zip_entry_opens(src, k as int)
        &&& match jar_scan(src, config, k) {
            Some((_, _, total)) => match jar_entry_check(zip_entry_meta(src, k as int), total, config) {
                Ok((true, _)) => zip_entry_reads(src, k as int),
                _ => true,
            },
            None => true,
        }
    }
}

/// Whether entry `k` is where loading stops: the entries before it were
/// read and passed their checks, it opens, and it fails a check.
pub open spec fn jar_entry_blocks(src: Seq<u8>, config: Config, k: nat) -> bool {
    &&& jar_entries_read(src, config, k)
    &&& zip_entry_opens(src, k as int)
    &&& match jar_scan(src, config, k) {
        Some((_, _, total)) => jar_entry_check(zip_entry_meta(src, k as int), total, config) is Err,
        None => false,
    }
}

/// Whether an archive is within the JAR limits and every entry passes its
/// checks and reads.
pub open spec fn jar_loads(src: Seq<u8>, config: Config) -> bool {
    &&& src.len() <= config.max_zip_size
    &&& zip_opens(src)
    &&& zip_entry_count(src) <= config.max_file_count
    &&& jar_scan(src, config, zip_entry_count(src)) is Some
    &&& jar_entries_read(src, config, zip_entry_count(src))
}

/// Once an entry fails its checks, the scan stays failed.
pub proof fn lemma_jar_scan_fails_after(src: Seq<u8>, config: Config, n: nat, m: nat)
    requires
        n <= m,
        jar_scan(src, config, n) is None,
    ensures
        jar_scan(src, config, m) is None,
    decreases m,
{
    if n < m {
        lemma_jar_scan_fails_after(src, config, n, (m - 1) as nat);
    }
}

/// Reading the first `m` entries reads the first `n <= m`.
pub proof fn lemma_jar_read_prefix(src: Seq<u8>, config: Config, n: nat, m: nat)
    requires
        n <= m,
        jar_entries_read(src, config, m),
    ensures
        jar_entries_read(src, config, n),
    decreases m,
{
    if n < m {
        lemma_jar_read_prefix(src, config, n, (m - 1) as nat);
    }
}

/// No entry other than `i` blocks loading when the scan and the reads got
/// through the first `i` entries; entry `i` blocks only if it opens and
/// fails its check.
proof fn lemma_only_blocker(src: Seq<u8>, config: Config, i: nat, count: nat)
    requires
        i < count,
        jar_scan(src, config, i) is Some,
        jar_entries_read(src, config, i),
    ensures
        forall|k: nat| k < i ==> !#[trigger] jar_entry_blocks(src, config, k),
{
    assert forall|k: nat| k < i implies !#[trigger] jar_entry_blocks(src, config, k) by {
        if jar_entry_blocks(src, config, k) {
            assert(jar_scan(src, config, (k + 1) as nat) is None);
            lemma_jar_scan_fails_after(src, config, (k + 1) as nat, i);
        }
    }
}

/// The message for a JAR larger than the limit.
pub open spec fn jar_size_message(len: nat, limit: u64) -> Seq<char> {
    "JAR size "@ + decimal(len) + " bytes exceeds limit of "@ + decimal(limit as nat) + " bytes"@
}

/// Loads a JAR file from bytes into memory.
///
/// The archive size, entry count, every entry's path, size and the running
/// compression ratio are checked before any content is read. Directories
/// are skipped; entries ending in `.class` become classes and the rest
/// resources, each list in archive order. Loading succeeds when the limits
/// hold and every entry passes its checks and reads; the first entry that
/// fails a check gives the error.
pub fn load_jar(bytes: &[u8], config: &Config) -> (r: Result<JarFile, Error>)
    ensures
        bytes@.len() > config.max_zip_size ==> (r matches Err(e) && e matches Error::SizeLimitExceeded {
            message,
        } && message@ == jar_size_message(bytes@.len(), config.max_zip_size)),
        bytes@.len() <= config.max_zip_size && zip_opens(bytes@) && zip_entry_count(bytes@)
            > config.max_file_count ==> (r matches Err(e) && e matches Error::FileCountExceeded {
            found,
            limit,
        } && found == zip_entry_count(bytes@) && limit == config.max_file_count),
        r matches Ok(jar) ==> jar_loaded_as(bytes@, *config, jar),
        jar_loads(bytes@, *config) ==> r is Ok,
        bytes@.len() <= config.max_zip_size && zip_opens(bytes@) && zip_entry_count(bytes@)
            <= config.max_file_count ==> forall|k: nat|
            k < zip_entry_count(bytes@) && #[trigger] jar_entry_blocks(bytes@, *config, k) ==> (r matches Err(
                e,
            ) && jar_entry_fails_at(bytes@, *config, k, e)),
        r matches Err(e) ==> (e is SizeLimitExceeded || e is FileCountExceeded || e is Zip
            || e is Io || e is PathTraversal || e is SecurityViolation),
        r matches Err(e) ==> ((e is PathTraversal || e is SecurityViolation || (e is SizeLimitExceeded
            && bytes@.len() <= config.max_zip_size)) ==> exists|i: nat|
            i < zip_entry_count(bytes@) && #[trigger] jar_entry_fails_at(bytes@, *config, i, e)),
{
    let n = bytes.len();
    if n as u64 > config.max_zip_size {
        let a = decimal_string(n as u64);
        let b = decimal_string(config.max_zip_size);
        let m1 = concat3("JAR size ", a.as_str(), " bytes exceeds limit of ");
        let m = concat3(m1.as_str(), b.as_str(), " bytes");
        return Err(Error::SizeLimitExceeded { message: m });
    }
    let mut archive = ZipReader::open(bytes)?;
    let count = archive.len();
    if count > config.max_file_count {
        return Err(Error::FileCountExceeded { found: count, limit: config.max_file_count });
    }
    let ghost src = bytes@;
    let dot_class = chars_of(".class");
    let mut classes: Vec<(String, Vec<u8>)> = Vec::new();
    let mut resources: Vec<(String, Vec<u8>)> = Vec::new();
    let mut total: u64 = 0;
    let mut i: usize = 0;
    while i < count
        invariant
            archive.source() == src,
            src == bytes@,
            count == zip_entry_count(src),
            n == src.len(),
            n <= config.max_zip_size,
            zip_opens(src),
            count <= config.max_file_count,
            dot_class@ == ".class"@,
            0 <= i <= count,
            jar_scan(src, *config, i as nat) == Some(
                (entries_view(classes@), entries_view(resources@), total),
            ),
            jar_entries_read(src, *config, i as nat),
        decreases count - i,
    {
        proof {
            lemma_only_blocker(src, *config, i as nat, count as nat);
        }
        let info = match archive.entry_info(i) {
            Ok(info) => info,
            Err(e) => {
                proof {
                    if jar_loads(src, *config) {
                        lemma_jar_read_prefix(src, *config, (i + 1) as nat, count as nat);
                    }
                    assert forall|k: nat|
                        k < count && #[trigger] jar_entry_blocks(src, *config, k) implies false by {
                        if k > i {
                            lemma_jar_read_prefix(src, *config, (i + 1) as nat, k);
                        }
                    }
                }
                return Err(e);
            },
        };
        match check_jar_entry(&info, total, config) {
            Err(e) => {
                assert(jar_entry_fails_at(src, *config, i as nat, e));
                proof {
                    assert(jar_scan(src, *config, (i + 1) as nat) is None);
                    if jar_loads(src, *config) {
                        lemma_jar_scan_fails_after(src, *config, (i + 1) as nat, count as nat);
                    }
                    assert forall|k: nat|
                        k < count && #[trigger] jar_entry_blocks(src, *config, k) implies k == i by {
                        if k > i {
                            lemma_jar_scan_fails_after(src, *config, (i + 1) as nat, k);
                        }
                    }
                }
                return Err(e);
            },
            Ok((is_file, t)) => {
                if is_file {
                    let data = match archive.entry_data(i) {
                        Ok(d) => d,
                        Err(e) => {
                            proof {
                                if jar_loads(src, *config) {
                                    lemma_jar_read_prefix(src, *config, (i + 1) as nat, count as nat);
                                }
                                assert forall|k: nat|
                                    k < count && #[trigger] jar_entry_blocks(src, *config, k) implies false by {
                                    if k > i {
                                        lemma_jar_read_prefix(src, *config, (i + 1) as nat, k);
                                    }
                                }
                            }
                            return Err(e);
                        },
                    };
                    let ghost name = info.name@;
                    let ghost d = data@;
                    let nc = chars_of(info.name.as_str());
                    let ghost old_cl = entries_view(classes@);
                    let ghost old_rs = entries_view(resources@);
                    if chars_end_with(nc.as_slice(), dot_class.as_slice()) {
                        classes.push((info.name, data));
                        assert(entries_view(classes@) =~= old_cl.push((name, d)));
                    } else {
                        resources.push((info.name, data));
                        assert(entries_view(resources@) =~= old_rs.push((name, d)));
                    }
                }
                total = t;
            },
        }
        i = i + 1;
    }
    proof {
        assert forall|k: nat| k < count && #[trigger] jar_entry_blocks(src, *config, k) implies false by {
            assert(jar_scan(src, *config, (k + 1) as nat) is None);
            lemma_jar_scan_fails_after(src, *config, (k + 1) as nat, count as nat);
        }
    }
    Ok(JarFile { classes, resources })
}

/// Writes a [`JarFile`] to bytes: classes first, then resources, each stored
/// uncompressed with permissions 0o644. Read back, the bytes hold exactly
/// these entries. Writing succeeds when every name fits a ZIP header and is
/// used once, and every file's data is under 2 GiB.
pub fn write_jar(jar: &JarFile) -> (r: Result<Vec<u8>, Error>)
    ensures
        r matches Ok(b) ==> archive_holds(
            b@,
            files_written(entries_view(jar.classes@) + entries_view(jar.resources@)),
        ),
        files_writable(Seq::empty(), entries_view(jar.classes@) + entries_view(jar.resources@)) ==> r is Ok,
        r matches Err(e) ==> e is Zip || e is Io,
{
    proof {
        if files_writable(Seq::empty(), entries_view(jar.classes@) + entries_view(jar.resources@)) {
            lemma_writable_split(entries_view(jar.classes@), entries_view(jar.resources@));
        }
    }
    let mut zip = ZipBuilder::new();
    write_files(&mut zip, &jar.classes, Compression::Stored, 0o644)?;
    write_files(&mut zip, &jar.resources, Compression::Stored, 0o644)?;
    assert(files_written(entries_view(jar.classes@) + entries_view(jar.resources@))
        =~= Seq::<(Seq<char>, Seq<u8>, bool)>::empty() + files_written(entries_view(jar.classes@))
        + files_written(entries_view(jar.resources@)));
    zip.finish()
}

/// What the first `n` entries of an archive holding the files `classes`
/// then `resources` give when each passes its checks.
proof fn lemma_scan_of_written_jar(
    bytes: Seq<u8>,
    classes: Seq<EntryView>,
    resources: Seq<EntryView>,
    config: Config,
    n: nat,
)
    requires
        archive_holds(bytes, files_written(classes + resources)),
        n <= classes.len() + resources.len(),
        forall|i: int|
            0 <= i < classes.len() ==> ends_with(#[trigger] classes[i].0, ".class"@)
                && !ends_in_separator(classes[i].0),
        forall|i: int|
            0 <= i < resources.len() ==> !ends_with(#[trigger] resources[i].0, ".class"@)
                && !ends_in_separator(resources[i].0),
        jar_scan(bytes, config, n) is Some,
    ensures
        n <= classes.len() ==> (jar_scan(bytes, config, n) matches Some((cl, rs, _)) && cl
            == classes.take(n as int) && rs == Seq::<EntryView>::empty()),
        n > classes.len() ==> (jar_scan(bytes, config, n) matches Some((cl, rs, _)) && cl
            == classes && rs == resources.take(n - classes.len())),
    decreases n,
{
    if n > 0 {
        lemma_scan_of_written_jar(bytes, classes, resources, config, (n - 1) as nat);
        let all = classes + resources;
        let k = n - 1;
        assert(files_written(all)[k] == (all[k].0, all[k].1, false));
        assert(zip_entry_meta(bytes, k).name == all[k].0);
        if n <= classes.len() {
            assert(all[k] == classes[k]);
            assert(classes.take(n as int) =~= classes.take(k).push(classes[k]));
        } else {
            assert(all[k] == resources[k - classes.len()]);
            if k == classes.len() {
                assert(classes.take(k) =~= classes);
                assert(resources.take(1) =~= Seq::<EntryView>::empty().push(resources[0]));
            } else {
                assert(resources.take(n - classes.len()) =~= resources.take(
                    k - classes.len(),
                ).push(resources[k - classes.len()]));
            }
        }
    }
}

/// A written JAR that passes the loading checks loads back as the classes
/// and resources that were written, in the same order (when exactly the
/// classes have names ending in `.class`, and no name ends with a
/// separator).
pub proof fn law_written_jar_loads_back(
    bytes: Seq<u8>,
    classes: Seq<EntryView>,
    resources: Seq<EntryView>,
    config: Config,
)
    requires
        archive_holds(bytes, files_written(classes + resources)),
        forall|i: int|
            0 <= i < classes.len() ==> ends_with(#[trigger] classes[i].0, ".class"@)
                && !ends_in_separator(classes[i].0),
        forall|i: int|
            0 <= i < resources.len() ==> !ends_with(#[trigger] resources[i].0, ".class"@)
                && !ends_in_separator(resources[i].0),
        jar_scan(bytes, config, zip_entry_count(bytes)) is Some,
    ensures
        jar_scan(bytes, config, zip_entry_count(bytes)) matches Some((cl, rs, _)) && cl == classes
            && rs == resources,
{
    let n = classes.len() + resources.len();
    lemma_scan_of_written_jar(bytes, classes, resources, config, n);
    if resources.len() == 0 {
        assert(classes.take(n as int) =~= classes);
        assert(resources =~= Seq::<EntryView>::empty());
    } else {
        assert(resources.take(n - classes.len()) =~= resources);
    }
}

/// A JAR written as classes then resources, within the archive limits,
/// whose entries pass their checks and read, loads back (`load_jar` owes
/// success on it) as the same classes and resources in the same order,
/// when exactly the classes have names ending in `.class` and no name ends
/// with a separator.
pub proof fn law_written_jar_round_trip(
    bytes: Seq<u8>,
    classes: Seq<EntryView>,
    resources: Seq<EntryView>,
    config: Config,
)
    requires
        archive_holds(bytes, files_written(classes + resources)),
        forall|i: int|
            0 <= i < classes.len() ==> ends_with(#[trigger] classes[i].0, ".class"@)
                && !ends_in_separator(classes[i].0),
        forall|i: int|
            0 <= i < resources.len() ==> !ends_with(#[trigger] resources[i].0, ".class"@)
                && !ends_in_separator(resources[i].0),
        bytes.len() <= config.max_zip_size,
        classes.len() + resources.len() <= config.max_file_count,
        jar_scan(bytes, config, zip_entry_count(bytes)) is Some,
        jar_entries_read(bytes, config, zip_entry_count(bytes)),
    ensures
        jar_loads(bytes, config),
        jar_scan(bytes, config, zip_entry_count(bytes)) matches Some((cl, rs, _)) && cl == classes
            && rs == resources,
{
    law_written_jar_loads_back(bytes, classes, resources, config);
}

/// The classes of a JAR as processing leaves them: each under its name,
/// with its constant pool rewritten.
pub open spec fn processed_classes(cl: Seq<EntryView>, ph: Seq<(Seq<char>, Seq<char>)>) -> Seq<EntryView> {
    cl.map_values(|c: EntryView| (c.0, rewritten_class(c.1, ph)))
}

/// Whether every class parses, and verifies once a constant of it is
/// replaced.
pub open spec fn classes_accepted(cl: Seq<EntryView>, ph: Seq<(Seq<char>, Seq<char>)>) -> bool {
    forall|i: int|
        0 <= i < cl.len() ==> class_parses(#[trigger] cl[i].1) && (some_replaced(
            class_constant_texts(cl[i].1),
            ph,
        ) ==> class_verifies(cl[i].1, replaced_slots(class_constant_texts(cl[i].1), ph)))
}

/// The resources of a JAR as processing leaves them: text resources with
/// their placeholders replaced, the others unchanged.
pub open spec fn processed_resources(
    rs: Seq<EntryView>,
    ph: Seq<(Seq<char>, Seq<char>)>,
    config: Config,
) -> Seq<EntryView> {
    rs.map_values(|r: EntryView| (r.0, processed_resource(r.0, r.1, ph, config)))
}

/// Whether `out` is the JAR `input` processed: every class was accepted,
/// and read back, `out` holds the input's classes under their names with
/// their constant pools rewritten, followed by its resources as processing
/// leaves them.
pub open spec fn jar_rewritten(
    out: Seq<u8>,
    input: Seq<u8>,
    ph: Seq<(Seq<char>, Seq<char>)>,
    config: Config,
) -> bool {
    match jar_scan(input, config, zip_entry_count(input)) {
        Some((cl, rs, _)) => classes_accepted(cl, ph) && archive_holds(
            out,
            files_written(processed_classes(cl, ph) + processed_resources(rs, ph, config)),
        ),
        None => false,
    }
}

/// Whether processing the JAR `input` succeeds: it loads, every class
/// rewrites, and the processed entries can be written.
pub open spec fn jar_processes(input: Seq<u8>, ph: Seq<(Seq<char>, Seq<char>)>, config: Config) -> bool {
    &&& jar_loads(input, config)
    &&& match jar_scan(input, config, zip_entry_count(input)) {
        Some((cl, rs, _)) => all_classes_rewrite(cl, ph, false) && files_writable(
            Seq::empty(),
            processed_classes(cl, ph) + processed_resources(rs, ph, config),
        ),
        None => false,
    }
}

/// Loads, processes and writes a JAR: the steps of `process_jar`, with the
/// placeholders given.
pub(crate) fn rewrite_jar(jar_bytes: &[u8], placeholders: &PlaceholderMap, config: &Config) -> (r: Result<Vec<u8>, Error>)
    ensures
        jar_bytes@.len() > config.max_zip_size ==> (r matches Err(e) && e matches Error::SizeLimitExceeded {
            message,
        } && message@ == jar_size_message(jar_bytes@.len(), config.max_zip_size)),
        jar_bytes@.len() <= config.max_zip_size && zip_opens(jar_bytes@) && zip_entry_count(jar_bytes@)
            > config.max_file_count ==> (r matches Err(e) && e matches Error::FileCountExceeded {
            found,
            limit,
        } && found == zip_entry_count(jar_bytes@) && limit == config.max_file_count),
        r matches Ok(b) ==> jar_bytes@.len() <= config.max_zip_size && zip_opens(jar_bytes@)
            && zip_entry_count(jar_bytes@) <= config.max_file_count && jar_rewritten(
            b@,
            jar_bytes@,
            placeholders@,
            *config,
        ),
        jar_bytes@.len() <= config.max_zip_size && zip_opens(jar_bytes@) && zip_entry_count(jar_bytes@)
            <= config.max_file_count ==> forall|k: nat|
            k < zip_entry_count(jar_bytes@) && #[trigger] jar_entry_blocks(jar_bytes@, *config, k) ==> (r matches Err(
                e,
            ) && jar_entry_fails_at(jar_bytes@, *config, k, e)),
        jar_processes(jar_bytes@, placeholders@, *config) ==> r is Ok,
        r matches Err(e) ==> (e is PathTraversal || e is SecurityViolation) ==> exists|i: nat|
            i < zip_entry_count(jar_bytes@) && #[trigger] jar_entry_fails_at(jar_bytes@, *config, i, e),
{
    let jar = load_jar(jar_bytes, config)?;
    let ghost cl = entries_view(jar.classes@);
    let ghost rs = entries_view(jar.resources@);
    let processed = crate::archive::process_jar_internal(jar, placeholders, config)?;
    assert(entries_view(processed.classes@) =~= processed_classes(cl, placeholders@));
    assert(entries_view(processed.resources@) =~= processed_resources(rs, placeholders@, *config));
    let out = write_jar(&processed)?;
    proof {
        assert forall|i: int| 0 <= i < cl.len() implies class_parses(#[trigger] cl[i].1) && (some_replaced(
            class_constant_texts(cl[i].1),
            placeholders@,
        ) ==> class_verifies(cl[i].1, replaced_slots(class_constant_texts(cl[i].1), placeholders@))) by {
            assert(cl[i].1 == jar.classes@[i].1@);
            assert(processed.classes@[i].0@ == jar.classes@[i].0@);
        }
    }
    Ok(out)
}

/// Processes a JAR file, replacing placeholders in class files and text resources.
///
/// This is the main entry point for single JAR processing: the JAR is loaded
/// with `load_jar`, its entries are processed with `process_jar_internal`,
/// and the result is written with `write_jar`; it succeeds when each step
/// does.
pub fn process_jar(jar_bytes: &[u8], config: &Config) -> (r: Result<Vec<u8>, Error>)
    ensures
        jar_bytes@.len() > config.max_zip_size ==> (r matches Err(e) && e matches Error::SizeLimitExceeded {
            message,
        } && message@ == jar_size_message(jar_bytes@.len(), config.max_zip_size)),
        jar_bytes@.len() <= config.max_zip_size && zip_opens(jar_bytes@) && zip_entry_count(jar_bytes@)
            > config.max_file_count ==> (r matches Err(e) && e matches Error::FileCountExceeded {
            found,
            limit,
        } && found == zip_entry_count(jar_bytes@) && limit == config.max_file_count),
        r matches Ok(b) ==> jar_bytes@.len() <= config.max_zip_size && zip_opens(jar_bytes@)
            && zip_entry_count(jar_bytes@) <= config.max_file_count && jar_rewritten(
            b@,
            jar_bytes@,
            config.placeholders@,
            *config,
        ),
        jar_bytes@.len() <= config.max_zip_size && zip_opens(jar_bytes@) && zip_entry_count(jar_bytes@)
            <= config.max_file_count ==> forall|k: nat|
            k < zip_entry_count(jar_bytes@) && #[trigger] jar_entry_blocks(jar_bytes@, *config, k) ==> (r matches Err(
                e,
            ) && jar_entry_fails_at(jar_bytes@, *config, k, e)),
        jar_processes(jar_bytes@, config.placeholders@, *config) ==> r is Ok,
        r matches Err(e) ==> (e is PathTraversal || e is SecurityViolation) ==> exists|i: nat|
            i < zip_entry_count(jar_bytes@) && #[trigger] jar_entry_fails_at(jar_bytes@, *config, i, e),
{
    let placeholders = config.placeholder_refs();
    rewrite_jar(jar_bytes, placeholders, config)
}

} // verus!
