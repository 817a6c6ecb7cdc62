//! Configuration for JAR/ZIP processing.

use vstd::prelude::*;

use crate::error::Error;
use crate::patterns::{regex_compiles, regex_finds, CompiledPattern};
use crate::placeholders::PlaceholderMap;
use crate::strings::{
    chars_end_with, chars_of, concat3, ends_with, eq_ignore_ascii_case,
    all_digits, digits_value, is_digit, is_whitespace, parse_u64, unsigned_digits, parse_u64_spec, str_eq_ignore_ascii_case, string_from_chars, trim,
    trim_chars, trim_end, trim_start, trim_str,
};

verus! {

broadcast use vstd::string::group_string_axioms;

/// Default maximum ZIP file size (100 MB).
pub const DEFAULT_MAX_ZIP_SIZE: u64 = 104857600;

/// Default maximum individual file size (10 MB).
pub const DEFAULT_MAX_FILE_SIZE: u64 = 10485760;

/// Default maximum number of files in an archive.
pub const DEFAULT_MAX_FILE_COUNT: usize = 1000;

/// The default file extensions processed as text files.
pub open spec fn default_text_extensions() -> Seq<Seq<char>> {
    seq![
        "txt"@, "xml"@, "json"@, "properties"@, "yml"@, "yaml"@, "conf"@, "cfg"@, "js"@, "ts"@,
        "tsx"@, "jsx"@, "html"@, "htm"@, "css"@, "scss"@, "less"@, "md"@, "markdown"@, "ini"@,
        "toml"@,
    ]
}

/// The default text extensions as owned strings.
pub fn default_text_extension_list() -> (r: Vec<String>)
    ensures
        r@.map_values(|s: String| s@) == default_text_extensions(),
{
    let r = vec![
        "txt".to_owned(),
        "xml".to_owned(),
        "json".to_owned(),
        "properties".to_owned(),
        "yml".to_owned(),
        "yaml".to_owned(),
        "conf".to_owned(),
        "cfg".to_owned(),
        "js".to_owned(),
        "ts".to_owned(),
        "tsx".to_owned(),
        "jsx".to_owned(),
        "html".to_owned(),
        "htm".to_owned(),
        "css".to_owned(),
        "scss".to_owned(),
        "less".to_owned(),
        "md".to_owned(),
        "markdown".to_owned(),
        "ini".to_owned(),
        "toml".to_owned(),
    ];
    assert(r@.map_values(|s: String| s@) =~= default_text_extensions());
    r
}

/// A compression-ratio limit, as the fraction `numerator / denominator`.
///
/// An archive trips the limit when its uncompressed size divided by its
/// compressed size exceeds the fraction.
#[derive(Debug, Clone, Copy)]
pub struct CompressionRatio {
    pub numerator: u64,
    pub denominator: u64,
}

impl CompressionRatio {
    /// The default limit of 100.
    pub fn default_limit() -> (r: CompressionRatio)
        ensures
            r.numerator == 100 && r.denominator == 1,
    {
        CompressionRatio { numerator: 100, denominator: 1 }
    }

    /// Whether `uncompressed / max(compressed, 1)` exceeds the limit.
    pub open spec fn spec_exceeded_by(self, uncompressed: u64, compressed: u64) -> bool {
        let c: int = if compressed == 0 {
            1
        } else {
            compressed as int
        };
        uncompressed * self.denominator > self.numerator * c
    }

    /// Executable `spec_exceeded_by`.
    pub fn exceeded_by(&self, uncompressed: u64, compressed: u64) -> (r: bool)
        ensures
            r == self.spec_exceeded_by(uncompressed, compressed),
    {
        let c: u64 = if compressed == 0 {
            1
        } else {
            compressed
        };
        let a: u128 = uncompressed as u128;
        let b: u128 = self.denominator as u128;
        let x: u128 = self.numerator as u128;
        let y: u128 = c as u128;
        assert(a * b <= 0xFFFF_FFFF_FFFF_FFFF * 0xFFFF_FFFF_FFFF_FFFFu128) by (nonlinear_arith)
            requires
                a <= 0xFFFF_FFFF_FFFF_FFFF,
                b <= 0xFFFF_FFFF_FFFF_FFFF,
        ;
        assert(x * y <= 0xFFFF_FFFF_FFFF_FFFF * 0xFFFF_FFFF_FFFF_FFFFu128) by (nonlinear_arith)
            requires
                x <= 0xFFFF_FFFF_FFFF_FFFF,
                y <= 0xFFFF_FFFF_FFFF_FFFF,
        ;
        let lhs: u128 = a * b;
        let rhs: u128 = x * y;
        lhs > rhs
    }
}

/// Configuration for placeholder replacement processing.
#[derive(Debug, Clone)]
pub struct Config {
    /// Placeholder key-value pairs for replacement.
    pub placeholders: PlaceholderMap,
    /// File extensions to treat as text files.
    pub text_extensions: Vec<String>,
    /// Maximum ZIP archive size in bytes.
    pub max_zip_size: u64,
    /// Maximum individual file size in bytes.
    pub max_file_size: u64,
    /// Maximum number of files allowed in an archive.
    pub max_file_count: usize,
    /// Maximum compression ratio (uncompressed/compressed) to detect zip bombs.
    pub max_compression_ratio: CompressionRatio,
    /// Whether to delete process.txt after processing.
    pub delete_process_file: bool,
    /// Whether to delete ignore.txt after processing.
    pub delete_ignore_file: bool,
}

/// Whether an extension is one of `exts`, ignoring ASCII case.
pub open spec fn is_text_ext(exts: Seq<Seq<char>>, ext: Seq<char>) -> bool {
    exists|i: int| 0 <= i < exts.len() && eq_ignore_ascii_case(#[trigger] exts[i], ext)
}

impl Config {
    /// The text extensions as character sequences.
    pub open spec fn spec_text_extensions(&self) -> Seq<Seq<char>> {
        self.text_extensions@.map_values(|s: String| s@)
    }

    /// Whether a configuration holds the defaults.
    pub open spec fn is_default(&self) -> bool {
        &&& self.placeholders@.len() == 0
        &&& self.spec_text_extensions() == default_text_extensions()
        &&& self.max_zip_size == DEFAULT_MAX_ZIP_SIZE
        &&& self.max_file_size == DEFAULT_MAX_FILE_SIZE
        &&& self.max_file_count == DEFAULT_MAX_FILE_COUNT
        &&& self.max_compression_ratio.numerator == 100
        &&& self.max_compression_ratio.denominator == 1
        &&& self.delete_process_file
        &&& self.delete_ignore_file
    }

    /// Creates a new ConfigBuilder.
    pub fn builder() -> (r: ConfigBuilder)
        ensures
            r.is_empty(),
    {
        ConfigBuilder::new()
    }

    /// Returns the placeholders map.
    pub fn placeholders(&self) -> (r: &PlaceholderMap)
        ensures
            r == &self.placeholders,
    {
        &self.placeholders
    }

    /// Returns the text file extensions.
    pub fn text_extensions(&self) -> (r: &[String])
        ensures
            r@ == self.text_extensions@,
    {
        self.text_extensions.as_slice()
    }

    /// Checks if a file extension should be treated as text (ASCII case-insensitively).
    pub fn is_text_extension(&self, ext: &str) -> (r: bool)
        ensures
            r == is_text_ext(self.spec_text_extensions(), ext@),
    {
        let ghost exts = self.spec_text_extensions();
        let mut i: usize = 0;
        while i < self.text_extensions.len()
            invariant
                exts == self.spec_text_extensions(),
                0 <= i <= exts.len(),
                forall|k: int| 0 <= k < i ==> !eq_ignore_ascii_case(#[trigger] exts[k], ext@),
            decreases exts.len() - i,
        {
            assert(exts[i as int] == self.text_extensions@[i as int]@);
            if str_eq_ignore_ascii_case(self.text_extensions[i].as_str(), ext) {
                return true;
            }
            i = i + 1;
        }
        false
    }

    /// The placeholder table used for processing.
    pub fn placeholder_refs(&self) -> (r: &PlaceholderMap)
        ensures
            r == &self.placeholders,
    {
        &self.placeholders
    }
}

impl Default for Config {
    fn default() -> (r: Config)
        ensures
            r.is_default(),
    {
        Config {
            placeholders: PlaceholderMap::new(),
            text_extensions: default_text_extension_list(),
            max_zip_size: DEFAULT_MAX_ZIP_SIZE,
            max_file_size: DEFAULT_MAX_FILE_SIZE,
            max_file_count: DEFAULT_MAX_FILE_COUNT,
            max_compression_ratio: CompressionRatio::default_limit(),
            delete_process_file: true,
            delete_ignore_file: true,
        }
    }
}

/// Builder for [`Config`].
#[derive(Debug)]
pub struct ConfigBuilder {
    pub placeholders: PlaceholderMap,
    pub text_extensions: Option<Vec<String>>,
    pub max_zip_size: Option<u64>,
    pub max_file_size: Option<u64>,
    pub max_file_count: Option<usize>,
    pub max_compression_ratio: Option<CompressionRatio>,
    pub delete_process_file: Option<bool>,
    pub delete_ignore_file: Option<bool>,
}

impl ConfigBuilder {
    /// Whether nothing has been set yet.
    pub open spec fn is_empty(&self) -> bool {
        &&& self.placeholders@.len() == 0
        &&& self.text_extensions is None
        &&& self.max_zip_size is None
        &&& self.max_file_size is None
        &&& self.max_file_count is None
        &&& self.max_compression_ratio is None
        &&& self.delete_process_file is None
        &&& self.delete_ignore_file is None
    }

    /// Whether two builders agree on everything but the placeholders.
    pub open spec fn same_settings(&self, other: &ConfigBuilder) -> bool {
        &&& self.text_extensions == other.text_extensions
        &&& self.max_zip_size == other.max_zip_size
        &&& self.max_file_size == other.max_file_size
        &&& self.max_file_count == other.max_file_count
        &&& self.max_compression_ratio == other.max_compression_ratio
        &&& self.delete_process_file == other.delete_process_file
        &&& self.delete_ignore_file == other.delete_ignore_file
    }

    /// Creates a new ConfigBuilder with defaults.
    pub fn new() -> (r: ConfigBuilder)
        ensures
            r.is_empty(),
    {
        ConfigBuilder {
            placeholders: PlaceholderMap::new(),
            text_extensions: None,
            max_zip_size: None,
            max_file_size: None,
            max_file_count: None,
            max_compression_ratio: None,
            delete_process_file: None,
            delete_ignore_file: None,
        }
    }

    /// Adds a placeholder replacement.
    pub fn add_placeholder(self, key: &str, value: &str) -> (r: ConfigBuilder)
        ensures
            r.placeholders@ == crate::placeholders::insert_entry(self.placeholders@, key@, value@),
            r.same_settings(&self),
    {
        let mut b = self;
        b.placeholders.insert(key.to_owned(), value.to_owned());
        b
    }

    /// Sets multiple placeholders at once (replacing any added before).
    pub fn with_placeholders(self, placeholders: PlaceholderMap) -> (r: ConfigBuilder)
        ensures
            r.placeholders@ == placeholders@,
            r.same_settings(&self),
    {
        let mut b = self;
        b.placeholders = placeholders;
        b
    }

    /// Sets the text file extensions.
    pub fn with_text_extensions(self, extensions: Vec<String>) -> (r: ConfigBuilder)
        ensures
            r.text_extensions == Some(extensions),
            r.placeholders@ == self.placeholders@,
            r.max_zip_size == self.max_zip_size,
            r.max_file_size == self.max_file_size,
            r.max_file_count == self.max_file_count,
            r.max_compression_ratio == self.max_compression_ratio,
            r.delete_process_file == self.delete_process_file,
            r.delete_ignore_file == self.delete_ignore_file,
    {
        let mut b = self;
        b.text_extensions = Some(extensions);
        b
    }

    /// Sets the maximum ZIP size in bytes.
    pub fn with_max_zip_size(self, size: u64) -> (r: ConfigBuilder)
        ensures
            r.max_zip_size == Some(size),
            r.placeholders@ == self.placeholders@,
            r.text_extensions == self.text_extensions,
            r.max_file_size == self.max_file_size,
            r.max_file_count == self.max_file_count,
            r.max_compression_ratio == self.max_compression_ratio,
            r.delete_process_file == self.delete_process_file,
            r.delete_ignore_file == self.delete_ignore_file,
    {
        let mut b = self;
        b.max_zip_size = Some(size);
        b
    }

    /// Sets the maximum individual file size in bytes.
    pub fn with_max_file_size(self, size: u64) -> (r: ConfigBuilder)
        ensures
            r.max_file_size == Some(size),
            r.placeholders@ == self.placeholders@,
            r.text_extensions == self.text_extensions,
            r.max_zip_size == self.max_zip_size,
            r.max_file_count == self.max_file_count,
            r.max_compression_ratio == self.max_compression_ratio,
            r.delete_process_file == self.delete_process_file,
            r.delete_ignore_file == self.delete_ignore_file,
    {
        let mut b = self;
        b.max_file_size = Some(size);
        b
    }

    /// Sets the maximum file count.
    pub fn with_max_file_count(self, count: usize) -> (r: ConfigBuilder)
        ensures
            r.max_file_count == Some(count),
            r.placeholders@ == self.placeholders@,
            r.text_extensions == self.text_extensions,
            r.max_zip_size == self.max_zip_size,
            r.max_file_size == self.max_file_size,
            r.max_compression_ratio == self.max_compression_ratio,
            r.delete_process_file == self.delete_process_file,
            r.delete_ignore_file == self.delete_ignore_file,
    {
        let mut b = self;
        b.max_file_count = Some(count);
        b
    }

    /// Sets the maximum compression ratio.
    pub fn with_max_compression_ratio(self, ratio: CompressionRatio) -> (r: ConfigBuilder)
        ensures
            r.max_compression_ratio == Some(ratio),
            r.placeholders@ == self.placeholders@,
            r.text_extensions == self.text_extensions,
            r.max_zip_size == self.max_zip_size,
            r.max_file_size == self.max_file_size,
            r.max_file_count == self.max_file_count,
            r.delete_process_file == self.delete_process_file,
            r.delete_ignore_file == self.delete_ignore_file,
    {
        let mut b = self;
        b.max_compression_ratio = Some(ratio);
        b
    }

    /// Sets whether to delete process.txt after processing.
    pub fn with_delete_process_file(self, delete: bool) -> (r: ConfigBuilder)
        ensures
            r.delete_process_file == Some(delete),
            r.placeholders@ == self.placeholders@,
            r.text_extensions == self.text_extensions,
            r.max_zip_size == self.max_zip_size,
            r.max_file_size == self.max_file_size,
            r.max_file_count == self.max_file_count,
            r.max_compression_ratio == self.max_compression_ratio,
            r.delete_ignore_file == self.delete_ignore_file,
    {
        let mut b = self;
        b.delete_process_file = Some(delete);
        b
    }

    /// Sets whether to delete ignore.txt after processing.
    pub fn with_delete_ignore_file(self, delete: bool) -> (r: ConfigBuilder)
        ensures
            r.delete_ignore_file == Some(delete),
            r.placeholders@ == self.placeholders@,
            r.text_extensions == self.text_extensions,
            r.max_zip_size == self.max_zip_size,
            r.max_file_size == self.max_file_size,
            r.max_file_count == self.max_file_count,
            r.max_compression_ratio == self.max_compression_ratio,
            r.delete_process_file == self.delete_process_file,
    {
        let mut b = self;
        b.delete_ignore_file = Some(delete);
        b
    }

    /// Builds the Config: every setting left unset takes its default.
    pub fn build(self) -> (r: Config)
        ensures
            r.placeholders@ == self.placeholders@,
            r.spec_text_extensions() == match self.text_extensions {
                Some(v) => v@.map_values(|s: String| s@),
                None => default_text_extensions(),
            },
            r.max_zip_size == match self.max_zip_size {
                Some(v) => v,
                None => DEFAULT_MAX_ZIP_SIZE,
            },
            r.max_file_size == match self.max_file_size {
                Some(v) => v,
                None => DEFAULT_MAX_FILE_SIZE,
            },
            r.max_file_count == match self.max_file_count {
                Some(v) => v,
                None => DEFAULT_MAX_FILE_COUNT,
            },
            r.max_compression_ratio == match self.max_compression_ratio {
                Some(v) => v,
                None => CompressionRatio { numerator: 100, denominator: 1 },
            },
            r.delete_process_file == match self.delete_process_file {
                Some(v) => v,
                None => true,
            },
            r.delete_ignore_file == match self.delete_ignore_file {
                Some(v) => v,
                None => true,
            },
    {
        let default = Config::default();
        Config {
            placeholders: self.placeholders,
            text_extensions: match self.text_extensions {
                Some(v) => v,
                None => default.text_extensions,
            },
            max_zip_size: match self.max_zip_size {
                Some(v) => v,
                None => default.max_zip_size,
            },
            max_file_size: match self.max_file_size {
                Some(v) => v,
                None => default.max_file_size,
            },
            max_file_count: match self.max_file_count {
                Some(v) => v,
                None => default.max_file_count,
            },
            max_compression_ratio: match self.max_compression_ratio {
                Some(v) => v,
                None => default.max_compression_ratio,
            },
            delete_process_file: match self.delete_process_file {
                Some(v) => v,
                None => default.delete_process_file,
            },
            delete_ignore_file: match self.delete_ignore_file {
                Some(v) => v,
                None => default.delete_ignore_file,
            },
        }
    }
}

// ---------------------------------------------------------------------------
// File patterns
// ---------------------------------------------------------------------------

/// Whether a pattern line is kept: it is not blank and not a `#` comment
/// once trimmed.
pub open spec fn is_pattern_line(line: Seq<char>) -> bool {
    let t = trim(line);
    t.len() > 0 && t[0] != '#'
}

/// The patterns that `compile_patterns` compiles, trimmed, in order.
pub open spec fn kept_patterns(patterns: Seq<Seq<char>>) -> Seq<Seq<char>>
    decreases patterns.len(),
{
    if patterns.len() == 0 {
        Seq::empty()
    } else if is_pattern_line(patterns.last()) {
        kept_patterns(patterns.drop_last()).push(trim(patterns.last()))
    } else {
        kept_patterns(patterns.drop_last())
    }
}

/// The position of the first kept pattern that the regex crate rejects, or
/// `-1` when it accepts all of them.
pub open spec fn first_bad_pattern(patterns: Seq<Seq<char>>) -> int
    decreases patterns.len(),
{
    if patterns.len() == 0 {
        -1
    } else if first_bad_pattern(patterns.drop_last()) >= 0 {
        first_bad_pattern(patterns.drop_last())
    } else if is_pattern_line(patterns.last()) && !regex_compiles(trim(patterns.last())) {
        patterns.len() - 1
    } else {
        -1
    }
}

/// Whether an error reports the given pattern as an invalid regex.
pub open spec fn invalid_regex_for(e: Error, p: Seq<char>) -> bool {
    e matches Error::InvalidRegex { pattern, .. } && pattern@ == p
}

/// Compiles a list of pattern strings into regex objects, skipping blank
/// lines and `#` comments; the first pattern that does not compile is
/// reported with its original (untrimmed) text.
pub fn compile_patterns(patterns: &[String]) -> (r: Result<Vec<CompiledPattern>, Error>)
    ensures
        ({
            let ps = patterns@.map_values(|s: String| s@);
            match r {
                Ok(v) => first_bad_pattern(ps) == -1 && v@.map_values(|p: CompiledPattern| p@)
                    == kept_patterns(ps),
                Err(e) => first_bad_pattern(ps) >= 0 && invalid_regex_for(e, ps[first_bad_pattern(ps)]),
            }
        }),
{
    let ghost ps = patterns@.map_values(|s: String| s@);
    let mut out: Vec<CompiledPattern> = Vec::new();
    let mut i: usize = 0;
    while i < patterns.len()
        invariant
            ps == patterns@.map_values(|s: String| s@),
            0 <= i <= ps.len(),
            first_bad_pattern(ps.take(i as int)) == -1,
            out@.map_values(|p: CompiledPattern| p@) == kept_patterns(ps.take(i as int)),
        decreases ps.len() - i,
    {
        assert(ps.take(i + 1).drop_last() =~= ps.take(i as int));
        assert(ps.take(i + 1).last() == patterns@[i as int]@);
        let t = trim_str(patterns[i].as_str());
        let tc = chars_of(t.as_str());
        if tc.len() > 0 && tc[0] != '#' {
            match CompiledPattern::compile(t.as_str()) {
                Ok(p) => {
                    let ghost before = out@.map_values(|p: CompiledPattern| p@);
                    out.push(p);
                    assert(out@.map_values(|p: CompiledPattern| p@) =~= before.push(t@));
                },
                Err(message) => {
                    proof {
                        lemma_first_bad_extends(ps, i as int);
                    }
                    return Err(Error::InvalidRegex { pattern: patterns[i].clone(), message });
                },
            }
        }
        i = i + 1;
    }
    assert(ps.take(i as int) =~= ps);
    Ok(out)
}

proof fn lemma_first_bad_extends(ps: Seq<Seq<char>>, i: int)
    requires
        0 <= i < ps.len(),
        first_bad_pattern(ps.take(i)) == -1,
        is_pattern_line(ps[i]),
        !regex_compiles(trim(ps[i])),
    ensures
        first_bad_pattern(ps) == i,
    decreases ps.len() - i,
{
    assert(ps.take(i + 1).drop_last() =~= ps.take(i));
    assert(first_bad_pattern(ps.take(i + 1)) == i);
    lemma_first_bad_stays(ps, i + 1, i);
}

proof fn lemma_first_bad_stays(ps: Seq<Seq<char>>, j: int, i: int)
    requires
        0 <= i < j <= ps.len(),
        first_bad_pattern(ps.take(j)) == i,
    ensures
        first_bad_pattern(ps) == i,
    decreases ps.len() - j,
{
    if j == ps.len() {
        assert(ps.take(j) =~= ps);
    } else {
        assert(ps.take(j + 1).drop_last() =~= ps.take(j));
        lemma_first_bad_stays(ps, j + 1, i);
    }
}

/// Whether some pattern matches the path.
pub open spec fn any_pattern_matches(patterns: Seq<Seq<char>>, path: Seq<char>) -> bool {
    exists|i: int| 0 <= i < patterns.len() && regex_finds(#[trigger] patterns[i], path)
}

/// Compiled regex patterns for file matching.
#[derive(Debug)]
pub struct FilePatterns {
    /// Patterns for files to process (from process.txt).
    pub process_patterns: Vec<CompiledPattern>,
    /// Patterns for files to ignore (from ignore.txt).
    pub ignore_patterns: Vec<CompiledPattern>,
}

impl FilePatterns {
    /// The process patterns' texts.
    pub open spec fn spec_process(&self) -> Seq<Seq<char>> {
        self.process_patterns@.map_values(|p: CompiledPattern| p@)
    }

    /// The ignore patterns' texts.
    pub open spec fn spec_ignore(&self) -> Seq<Seq<char>> {
        self.ignore_patterns@.map_values(|p: CompiledPattern| p@)
    }

    /// Creates a new FilePatterns from raw pattern strings; process patterns
    /// are compiled first.
    pub fn new(process_patterns: &[String], ignore_patterns: &[String]) -> (r: Result<FilePatterns, Error>)
        ensures
            ({
                let ps = process_patterns@.map_values(|s: String| s@);
                let is = ignore_patterns@.map_values(|s: String| s@);
                match r {
                    Ok(f) => first_bad_pattern(ps) == -1 && first_bad_pattern(is) == -1
                        && f.spec_process() == kept_patterns(ps) && f.spec_ignore()
                        == kept_patterns(is),
                    Err(e) => (first_bad_pattern(ps) >= 0 && invalid_regex_for(
                        e,
                        ps[first_bad_pattern(ps)],
                    )) || (first_bad_pattern(ps) == -1 && first_bad_pattern(is) >= 0
                        && invalid_regex_for(e, is[first_bad_pattern(is)])),
                }
            }),
    {
        let process_patterns = compile_patterns(process_patterns)?;
        let ignore_patterns = compile_patterns(ignore_patterns)?;
        Ok(FilePatterns { process_patterns, ignore_patterns })
    }

    /// Whether some pattern of the list matches.
    fn any_match(patterns: &Vec<CompiledPattern>, path: &str) -> (r: bool)
        ensures
            r == any_pattern_matches(patterns@.map_values(|p: CompiledPattern| p@), path@),
    {
        let ghost ps = patterns@.map_values(|p: CompiledPattern| p@);
        let mut i: usize = 0;
        while i < patterns.len()
            invariant
                ps == patterns@.map_values(|p: CompiledPattern| p@),
                0 <= i <= ps.len(),
                forall|k: int| 0 <= k < i ==> !regex_finds(#[trigger] ps[k], path@),
            decreases ps.len() - i,
        {
            assert(ps[i as int] == patterns@[i as int]@);
            if patterns[i].is_match(path) {
                return true;
            }
            i = i + 1;
        }
        false
    }

    /// Whether a JAR path should be processed: it matches no ignore pattern,
    /// and it matches some process pattern or there are none.
    pub open spec fn spec_should_process_jar(&self, path: Seq<char>) -> bool {
        !any_pattern_matches(self.spec_ignore(), path) && (self.spec_process().len() == 0
            || any_pattern_matches(self.spec_process(), path))
    }

    /// Checks if a JAR file path should be processed.
    ///
    /// A file is processed if:
    /// 1. It matches at least one process pattern (or there are no process patterns)
    /// 2. It does NOT match any ignore pattern
    pub fn should_process_jar(&self, path: &str) -> (r: bool)
        ensures
            r == self.spec_should_process_jar(path@),
    {
        if Self::any_match(&self.ignore_patterns, path) {
            return false;
        }
        if self.process_patterns.len() == 0 {
            return true;
        }
        Self::any_match(&self.process_patterns, path)
    }

    /// Checks if a file should be ignored entirely.
    pub fn should_ignore(&self, path: &str) -> (r: bool)
        ensures
            r == any_pattern_matches(self.spec_ignore(), path@),
    {
        Self::any_match(&self.ignore_patterns, path)
    }
}

/// Which JARs are processed, by the patterns alone: a JAR is processed
/// exactly when no ignore pattern finds a match in its path and either
/// there are no process patterns or some process pattern, at any position
/// of the list, finds one.
pub proof fn law_jar_selection(f: &FilePatterns, path: Seq<char>)
    ensures
        f.spec_should_process_jar(path) <==> ((forall|j: int|
            0 <= j < f.spec_ignore().len() ==> !regex_finds(#[trigger] f.spec_ignore()[j], path))
            && (f.spec_process().len() == 0 || exists|k: int|
            0 <= k < f.spec_process().len() && regex_finds(#[trigger] f.spec_process()[k], path))),
{
}

/// A JAR that no ignore pattern matches and that some process pattern
/// matches, wherever that pattern stands in the list, is processed.
pub proof fn law_any_process_pattern_selects(f: &FilePatterns, path: Seq<char>, k: int)
    requires
        0 <= k < f.spec_process().len(),
        regex_finds(f.spec_process()[k], path),
        forall|j: int| 0 <= j < f.spec_ignore().len() ==> !regex_finds(#[trigger] f.spec_ignore()[j], path),
    ensures
        f.spec_should_process_jar(path),
{
}

/// A ignored path is never processed.
pub proof fn law_ignored_never_processed(f: &FilePatterns, path: Seq<char>)
    requires
        any_pattern_matches(f.spec_ignore(), path),
    ensures
        !f.spec_should_process_jar(path),
{
}

// ---------------------------------------------------------------------------
// Pattern files
// ---------------------------------------------------------------------------

/// Adds a finished line to the pattern list when it is kept.
pub open spec fn flush_line(done: Seq<Seq<char>>, line: Seq<char>) -> Seq<Seq<char>> {
    if is_pattern_line(line) {
        done.push(trim(line))
    } else {
        done
    }
}

/// The kept lines so far and the line in progress after reading `s`.
pub open spec fn scan_lines(s: Seq<char>) -> (Seq<Seq<char>>, Seq<char>)
    decreases s.len(),
{
    if s.len() == 0 {
        (Seq::empty(), Seq::empty())
    } else {
        let (done, cur) = scan_lines(s.drop_last());
        if s.last() == '\n' {
            (flush_line(done, cur), Seq::empty())
        } else {
            (done, cur.push(s.last()))
        }
    }
}

/// The patterns of a pattern file: its lines, trimmed, without blank lines
/// and `#` comments.
pub open spec fn pattern_lines(s: Seq<char>) -> Seq<Seq<char>> {
    flush_line(scan_lines(s).0, scan_lines(s).1)
}

/// Executable `flush_line`.
fn flush_pattern_line(done: &mut Vec<String>, line: &Vec<char>)
    ensures
        final(done)@.map_values(|s: String| s@) == flush_line(
            old(done)@.map_values(|s: String| s@),
            line@,
        ),
{
    let t = trim_chars(line.as_slice());
    if t.len() > 0 && t[0] != '#' {
        let ghost before = done@.map_values(|s: String| s@);
        done.push(string_from_chars(t.as_slice()));
        assert(done@.map_values(|s: String| s@) =~= before.push(t@));
    }
}

/// Parses a file content into a list of patterns (one per line).
pub fn parse_pattern_file(content: &str) -> (r: Vec<String>)
    ensures
        r@.map_values(|s: String| s@) == pattern_lines(content@),
{
    let cs = chars_of(content);
    let mut done: Vec<String> = Vec::new();
    let mut cur: Vec<char> = Vec::new();
    let mut i: usize = 0;
    while i < cs.len()
        invariant
            cs@ == content@,
            0 <= i <= cs@.len(),
            done@.map_values(|s: String| s@) == scan_lines(cs@.take(i as int)).0,
            cur@ == scan_lines(cs@.take(i as int)).1,
        decreases cs@.len() - i,
    {
        assert(cs@.take(i + 1).drop_last() =~= cs@.take(i as int));
        if cs[i] == '\n' {
            flush_pattern_line(&mut done, &cur);
            cur = Vec::new();
        } else {
            cur.push(cs[i]);
        }
        i = i + 1;
    }
    assert(cs@.take(i as int) =~= cs@);
    flush_pattern_line(&mut done, &cur);
    done
}

// ---------------------------------------------------------------------------
// Sizes
// ---------------------------------------------------------------------------

/// The Unicode upper-case mapping of a string (`str::to_uppercase`).
pub uninterp spec fn unicode_uppercase(s: Seq<char>) -> Seq<char>;

/// The upper-case form of a text as `str::to_uppercase` gives it: the ASCII
/// mapping on ASCII text, the Unicode mapping otherwise.
pub open spec fn upper_text(t: Seq<char>) -> Seq<char> {
    if all_ascii_chars(t) {
        t.map_values(|c: char| ascii_upper(c))
    } else {
        unicode_uppercase(t)
    }
}

/// Whether every character is ASCII.
pub open spec fn all_ascii_chars(s: Seq<char>) -> bool {
    forall|i: int| 0 <= i < s.len() ==> (#[trigger] s[i] as u32) < 128
}

/// The ASCII upper-case form of a character: `a`..`z` become `A`..`Z`.
pub open spec fn ascii_upper(c: char) -> char {
    if 'a' <= c && c <= 'z' {
        ((c as u32) - 32) as char
    } else {
        c
    }
}

/// The ASCII lower-case form of a character: `A`..`Z` become `a`..`z`.
pub open spec fn ascii_lower(c: char) -> char {
    if 'A' <= c && c <= 'Z' {
        ((c as u32) + 32) as char
    } else {
        c
    }
}

/// Upper-cases a string (`str::to_uppercase`); on ASCII text it maps
/// `a`..`z` to `A`..`Z` and keeps every other character.
#[verifier::external_body]
pub(crate) fn to_uppercase(s: &str) -> (r: String)
    ensures
        r@ == unicode_uppercase(s@),
        all_ascii_chars(s@) ==> r@ == s@.map_values(|c: char| ascii_upper(c)),
{
    s.to_uppercase()
}

/// The unit suffix of an upper-cased size and its multiplier, if any.
pub open spec fn size_unit(s: Seq<char>) -> Option<(nat, nat)> {
    if ends_with(s, "GB"@) {
        Some((2, 1073741824))
    } else if ends_with(s, "MB"@) {
        Some((2, 1048576))
    } else if ends_with(s, "KB"@) {
        Some((2, 1024))
    } else if ends_with(s, "B"@) {
        Some((1, 1))
    } else {
        None
    }
}

/// The outcome of parsing an upper-cased, trimmed size string: the size in
/// bytes, or the message of the `Config` error.
pub open spec fn size_verdict(upper: Seq<char>) -> Result<nat, Seq<char>> {
    match size_unit(upper) {
        None => Err("Invalid size format '"@ + upper + "'. Use B, KB, MB, or GB suffix."@),
        Some((k, mult)) => match parse_u64_spec(trim(upper.take(upper.len() - k))) {
            None => Err("Invalid number in size: "@ + upper),
            Some(n) => Ok((n * mult) as nat),
        },
    }
}

/// Parses an upper-cased, trimmed size string like "100MB" into bytes.
pub fn parse_size_upper(upper: &str) -> (r: Result<u64, Error>)
    requires
        size_verdict(upper@) matches Ok(n) ==> n <= u64::MAX,
    ensures
        match r {
            Ok(n) => size_verdict(upper@) == Ok::<nat, Seq<char>>(n as nat),
            Err(e) => e matches Error::Config(m) && size_verdict(upper@) == Err::<nat, Seq<char>>(
                m@,
            ),
        },
{
    proof {
        reveal_strlit("GB");
        reveal_strlit("MB");
        reveal_strlit("KB");
        reveal_strlit("B");
    }
    let cs = chars_of(upper);
    let gb = chars_of("GB");
    let mb = chars_of("MB");
    let kb = chars_of("KB");
    let b = chars_of("B");
    let (cut, mult): (usize, u64) = if chars_end_with(cs.as_slice(), gb.as_slice()) {
        (2, 1073741824)
    } else if chars_end_with(cs.as_slice(), mb.as_slice()) {
        (2, 1048576)
    } else if chars_end_with(cs.as_slice(), kb.as_slice()) {
        (2, 1024)
    } else if chars_end_with(cs.as_slice(), b.as_slice()) {
        (1, 1)
    } else {
        return Err(
            Error::Config(concat3("Invalid size format '", upper, "'. Use B, KB, MB, or GB suffix.")),
        );
    };
    let mut num: Vec<char> = Vec::new();
    let mut i: usize = 0;
    while i < cs.len() - cut
        invariant
            cut <= cs@.len(),
            0 <= i <= cs@.len() - cut,
            num@ == cs@.take(i as int),
        decreases cs@.len() - cut - i,
    {
        num.push(cs[i]);
        i = i + 1;
        assert(num@ =~= cs@.take(i as int));
    }
    let digits = trim_chars(num.as_slice());
    match parse_u64(digits.as_slice()) {
        None => Err(Error::Config(crate::strings::concat("Invalid number in size: ", upper))),
        Some(n) => {
            assert(n * mult <= u64::MAX);
            Ok(n * mult)
        },
    }
}

/// Whether a size verdict would overflow a `u64`.
pub open spec fn size_overflows(upper: Seq<char>) -> bool {
    size_verdict(upper) matches Ok(n) && n > u64::MAX
}

/// What `parse_size` gives for a size string: the size in bytes, or the
/// message of the `Config` error.
pub open spec fn parse_size_result(s: Seq<char>) -> Result<u64, Seq<char>> {
    let upper = upper_text(trim(s));
    match size_verdict(upper) {
        Ok(n) => if n <= u64::MAX {
            Ok(n as u64)
        } else {
            Err("Size too large: "@ + upper)
        },
        Err(m) => Err(m),
    }
}

/// Parses a size string like "100MB" into bytes: the text is trimmed and
/// upper-cased, then read as a number followed by B, KB, MB or GB.
///
/// A size too large for a `u64` is reported as a `Config` error.
pub fn parse_size(size_str: &str) -> (r: Result<u64, Error>)
    ensures
        match parse_size_result(size_str@) {
            Ok(n) => r == Ok::<u64, Error>(n),
            Err(m) => r matches Err(e) && e matches Error::Config(x) && x@ == m,
        },
{
    let t = trim_str(size_str);
    let upper = to_uppercase(t.as_str());
    if size_too_large(upper.as_str()) {
        return Err(Error::Config(crate::strings::concat("Size too large: ", upper.as_str())));
    }
    parse_size_upper(upper.as_str())
}

/// Whether the size written in an upper-cased string exceeds `u64::MAX`.
pub fn size_too_large(upper: &str) -> (r: bool)
    ensures
        r == size_overflows(upper@),
{
    proof {
        reveal_strlit("GB");
        reveal_strlit("MB");
        reveal_strlit("KB");
        reveal_strlit("B");
    }
    let cs = chars_of(upper);
    let gb = chars_of("GB");
    let mb = chars_of("MB");
    let kb = chars_of("KB");
    let b = chars_of("B");
    let (cut, mult): (usize, u64) = if chars_end_with(cs.as_slice(), gb.as_slice()) {
        (2, 1073741824)
    } else if chars_end_with(cs.as_slice(), mb.as_slice()) {
        (2, 1048576)
    } else if chars_end_with(cs.as_slice(), kb.as_slice()) {
        (2, 1024)
    } else if chars_end_with(cs.as_slice(), b.as_slice()) {
        (1, 1)
    } else {
        return false;
    };
    let mut num: Vec<char> = Vec::new();
    let mut i: usize = 0;
    while i < cs.len() - cut
        invariant
            cut <= cs@.len(),
            0 <= i <= cs@.len() - cut,
            num@ == cs@.take(i as int),
        decreases cs@.len() - cut - i,
    {
        num.push(cs[i]);
        i = i + 1;
        assert(num@ =~= cs@.take(i as int));
    }
    let digits = trim_chars(num.as_slice());
    match parse_u64(digits.as_slice()) {
        None => false,
        Some(n) => {
            assert(n > u64::MAX / mult <==> n * mult > u64::MAX) by (nonlinear_arith)
                requires
                    mult > 0,
            ;
            n > u64::MAX / mult
        },
    }
}


/// Whether every character is whitespace.
pub open spec fn all_whitespace(w: Seq<char>) -> bool {
    forall|i: int| 0 <= i < w.len() ==> is_whitespace(#[trigger] w[i])
}

/// Leading whitespace before a text does not change where trimming starts.
proof fn lemma_trim_start_skips(w: Seq<char>, x: Seq<char>)
    requires
        all_whitespace(w),
    ensures
        trim_start(w + x) == trim_start(x),
    decreases w.len(),
{
    if w.len() > 0 {
        assert(is_whitespace(w[0]));
        assert((w + x)[0] == w[0]);
        assert((w + x).drop_first() =~= w.drop_first() + x);
        assert forall|i: int| 0 <= i < w.drop_first().len() implies is_whitespace(#[trigger] w.drop_first()[i]) by {
            assert(w.drop_first()[i] == w[i + 1]);
        }
        lemma_trim_start_skips(w.drop_first(), x);
    } else {
        assert(w + x =~= x);
    }
}

/// Trailing whitespace after a text does not change where trimming ends.
proof fn lemma_trim_end_skips(x: Seq<char>, w: Seq<char>)
    requires
        all_whitespace(w),
    ensures
        trim_end(x + w) == trim_end(x),
    decreases w.len(),
{
    if w.len() > 0 {
        assert(is_whitespace(w[w.len() - 1]));
        assert((x + w).last() == w.last());
        assert((x + w).drop_last() =~= x + w.drop_last());
        assert forall|i: int| 0 <= i < w.drop_last().len() implies is_whitespace(#[trigger] w.drop_last()[i]) by {
            assert(w.drop_last()[i] == w[i]);
        }
        lemma_trim_end_skips(x, w.drop_last());
    } else {
        assert(x + w =~= x);
    }
}

/// Trimming all-whitespace text leaves nothing.
proof fn lemma_trim_end_all_whitespace(w: Seq<char>)
    requires
        all_whitespace(w),
    ensures
        trim_end(w) == Seq::<char>::empty(),
    decreases w.len(),
{
    if w.len() > 0 {
        assert(is_whitespace(w[w.len() - 1]));
        assert forall|i: int| 0 <= i < w.drop_last().len() implies is_whitespace(#[trigger] w.drop_last()[i]) by {
            assert(w.drop_last()[i] == w[i]);
        }
        lemma_trim_end_all_whitespace(w.drop_last());
    } else {
        assert(w =~= Seq::<char>::empty());
    }
}

/// What trimming the start leaves of all-whitespace text is whitespace.
proof fn lemma_trim_start_of_whitespace(w: Seq<char>)
    requires
        all_whitespace(w),
    ensures
        all_whitespace(trim_start(w)),
    decreases w.len(),
{
    if w.len() > 0 {
        assert forall|i: int| 0 <= i < w.drop_first().len() implies is_whitespace(#[trigger] w.drop_first()[i]) by {
            assert(w.drop_first()[i] == w[i + 1]);
        }
        lemma_trim_start_of_whitespace(w.drop_first());
    }
}

/// Whitespace after a text does not change its trimmed form.
proof fn lemma_trim_appended_whitespace(x: Seq<char>, w: Seq<char>)
    requires
        all_whitespace(w),
    ensures
        trim(x + w) == trim(x),
    decreases x.len(),
{
    if x.len() == 0 {
        assert(x + w =~= w);
        lemma_trim_start_of_whitespace(w);
        lemma_trim_end_all_whitespace(trim_start(w));
        assert(trim(x) =~= Seq::<char>::empty());
    } else if is_whitespace(x[0]) {
        assert((x + w)[0] == x[0]);
        assert((x + w).drop_first() =~= x.drop_first() + w);
        lemma_trim_appended_whitespace(x.drop_first(), w);
    } else {
        assert((x + w)[0] == x[0]);
        lemma_trim_end_skips(x, w);
    }
}

/// Surrounding whitespace does not change a size: `parse_size` trims it.
pub proof fn law_size_ignores_surrounding_whitespace(w1: Seq<char>, s: Seq<char>, w2: Seq<char>)
    requires
        all_whitespace(w1),
        all_whitespace(w2),
    ensures
        parse_size_result(w1 + s + w2) == parse_size_result(s),
{
    assert(w1 + s + w2 =~= w1 + (s + w2));
    lemma_trim_start_skips(w1, s + w2);
    lemma_trim_appended_whitespace(s, w2);
    assert(trim(w1 + s + w2) == trim(s));
}

/// Mapping characters that keeps whitespace as whitespace (and other
/// characters as non-whitespace) commutes with trimming the start.
proof fn lemma_trim_start_lower(s: Seq<char>)
    ensures
        trim_start(s.map_values(|c: char| ascii_lower(c))) == trim_start(s).map_values(
            |c: char| ascii_lower(c),
        ),
    decreases s.len(),
{
    let m = s.map_values(|c: char| ascii_lower(c));
    if s.len() > 0 {
        assert(m[0] == ascii_lower(s[0]));
        assert(is_whitespace(m[0]) == is_whitespace(s[0]));
        assert(m.drop_first() =~= s.drop_first().map_values(|c: char| ascii_lower(c)));
        lemma_trim_start_lower(s.drop_first());
    }
}

/// Lower-casing ASCII letters commutes with trimming the end.
proof fn lemma_trim_end_lower(s: Seq<char>)
    ensures
        trim_end(s.map_values(|c: char| ascii_lower(c))) == trim_end(s).map_values(
            |c: char| ascii_lower(c),
        ),
    decreases s.len(),
{
    let m = s.map_values(|c: char| ascii_lower(c));
    if s.len() > 0 {
        assert(m.last() == ascii_lower(s.last()));
        assert(is_whitespace(m.last()) == is_whitespace(s.last()));
        assert(m.drop_last() =~= s.drop_last().map_values(|c: char| ascii_lower(c)));
        lemma_trim_end_lower(s.drop_last());
    }
}

/// Trimming keeps every character ASCII.
proof fn lemma_trim_ascii(s: Seq<char>)
    requires
        all_ascii_chars(s),
    ensures
        all_ascii_chars(trim(s)),
        exists|a: int, b: int| 0 <= a <= b <= s.len() && trim(s) == s.subrange(a, b),
    decreases s.len(),
{
    lemma_trim_start_sub(s);
    let t = trim_start(s);
    let a = choose|a: int| 0 <= a <= s.len() && t == s.subrange(a, s.len() as int);
    lemma_trim_end_sub(t);
    let b = choose|b: int| 0 <= b <= t.len() && trim_end(t) == t.subrange(0, b);
    assert(trim(s) =~= s.subrange(a, a + b));
    assert forall|i: int| 0 <= i < trim(s).len() implies (#[trigger] trim(s)[i] as u32) < 128 by {
        assert(trim(s)[i] == s[a + i]);
    }
}

/// Trimming the start leaves a suffix.
proof fn lemma_trim_start_sub(s: Seq<char>)
    ensures
        exists|a: int| 0 <= a <= s.len() && trim_start(s) == s.subrange(a, s.len() as int),
    decreases s.len(),
{
    if s.len() > 0 && is_whitespace(s[0]) {
        lemma_trim_start_sub(s.drop_first());
        let a = choose|a: int| 0 <= a <= s.drop_first().len() && trim_start(s.drop_first()) == s.drop_first().subrange(a, s.drop_first().len() as int);
        assert(s.drop_first().subrange(a, s.drop_first().len() as int) =~= s.subrange(a + 1, s.len() as int));
    } else {
        assert(s.subrange(0, s.len() as int) =~= s);
    }
}

/// Trimming the end leaves a prefix.
proof fn lemma_trim_end_sub(s: Seq<char>)
    ensures
        exists|b: int| 0 <= b <= s.len() && trim_end(s) == s.subrange(0, b),
    decreases s.len(),
{
    if s.len() > 0 && is_whitespace(s.last()) {
        lemma_trim_end_sub(s.drop_last());
        let b = choose|b: int| 0 <= b <= s.drop_last().len() && trim_end(s.drop_last()) == s.drop_last().subrange(0, b);
        assert(s.drop_last().subrange(0, b) =~= s.subrange(0, b));
    } else {
        assert(s.subrange(0, s.len() as int) =~= s);
    }
}

/// Letter case does not change a size written in ASCII: `parse_size`
/// upper-cases the text, and upper-casing an ASCII text and its lower-case
/// form gives the same.
pub proof fn law_size_ignores_case(s: Seq<char>)
    requires
        all_ascii_chars(s),
    ensures
        parse_size_result(s.map_values(|c: char| ascii_lower(c))) == parse_size_result(s),
{
    let l = s.map_values(|c: char| ascii_lower(c));
    lemma_trim_start_lower(s);
    lemma_trim_end_lower(trim_start(s));
    let t = trim(s);
    assert(trim(l) == t.map_values(|c: char| ascii_lower(c)));
    lemma_trim_ascii(s);
    let tl = t.map_values(|c: char| ascii_lower(c));
    assert(all_ascii_chars(tl)) by {
        assert forall|i: int| 0 <= i < tl.len() implies (#[trigger] tl[i] as u32) < 128 by {
            assert(tl[i] == ascii_lower(t[i]));
            assert((t[i] as u32) < 128);
        }
    }
    assert(tl.map_values(|c: char| ascii_upper(c)) =~= t.map_values(|c: char| ascii_upper(c)));
}


/// A text that neither starts nor ends with whitespace is its own trim.
proof fn lemma_trim_unchanged(x: Seq<char>)
    requires
        x.len() > 0,
        !is_whitespace(x[0]),
        !is_whitespace(x.last()),
    ensures
        trim(x) == x,
{
}

/// A size is a number of bytes, or of KiB, MiB or GiB: written as decimal
/// digits `d` followed by `B` it is the number `d` stands for, and followed
/// by `KB` it is 1024 times that number.
pub proof fn law_size_units(d: Seq<char>)
    requires
        d.len() > 0,
        all_digits(d),
        digits_value(d) * 1024 <= u64::MAX,
    ensures
        parse_size_result(d + "B"@) == Ok::<u64, Seq<char>>(digits_value(d) as u64),
        parse_size_result(d + "KB"@) == Ok::<u64, Seq<char>>((digits_value(d) * 1024) as u64),
{
    reveal_strlit("B");
    reveal_strlit("KB");
    reveal_strlit("MB");
    reveal_strlit("GB");
    assert(is_digit(d[0]) && is_digit(d.last())) by {
        assert(d.last() == d[d.len() - 1]);
    }
    assert(!is_whitespace(d[0]));
    assert(trim(d) == d) by {
        assert(!is_whitespace(d.last()));
        lemma_trim_unchanged(d);
    }
    assert(unsigned_digits(d) == d);
    assert(digits_value(d) <= u64::MAX);
    assert(parse_u64_spec(d) == Some(digits_value(d) as u64));
    let xb = d + "B"@;
    let xk = d + "KB"@;
    assert(xb.last() == 'B' && xk.last() == 'B');
    assert(xb[0] == d[0] && xk[0] == d[0]);
    lemma_trim_unchanged(xb);
    lemma_trim_unchanged(xk);
    assert(all_ascii_chars(xb)) by {
        assert forall|i: int| 0 <= i < xb.len() implies (#[trigger] xb[i] as u32) < 128 by {
            if i < d.len() {
                assert(is_digit(d[i]));
            }
        }
    }
    assert(all_ascii_chars(xk)) by {
        assert forall|i: int| 0 <= i < xk.len() implies (#[trigger] xk[i] as u32) < 128 by {
            if i < d.len() {
                assert(is_digit(d[i]));
            }
        }
    }
    assert(xb.map_values(|c: char| ascii_upper(c)) =~= xb) by {
        assert forall|i: int| 0 <= i < xb.len() implies ascii_upper(#[trigger] xb[i]) == xb[i] by {
            if i < d.len() {
                assert(is_digit(d[i]));
            }
        }
    }
    assert(xk.map_values(|c: char| ascii_upper(c)) =~= xk) by {
        assert forall|i: int| 0 <= i < xk.len() implies ascii_upper(#[trigger] xk[i]) == xk[i] by {
            if i < d.len() {
                assert(is_digit(d[i]));
            }
        }
    }
    assert(xb.skip(xb.len() - 1) =~= "B"@);
    assert(!ends_with(xb, "GB"@) && !ends_with(xb, "MB"@) && !ends_with(xb, "KB"@)) by {
        if d.len() >= 1 {
            assert(xb[xb.len() - 2] == d.last());
            if ends_with(xb, "GB"@) {
                assert(xb.skip(xb.len() - 2)[0] == 'G');
            }
            if ends_with(xb, "MB"@) {
                assert(xb.skip(xb.len() - 2)[0] == 'M');
            }
            if ends_with(xb, "KB"@) {
                assert(xb.skip(xb.len() - 2)[0] == 'K');
            }
        }
    }
    assert(xb.take(xb.len() - 1) =~= d);
    assert(ends_with(xb, "B"@));
    assert(size_unit(xb) == Some((1nat, 1nat)));
    assert(upper_text(trim(xb)) == xb);
    assert(size_verdict(xb) == Ok::<nat, Seq<char>>((digits_value(d) * 1) as nat));
    assert(xk.skip(xk.len() - 2) =~= "KB"@);
    assert(!ends_with(xk, "GB"@) && !ends_with(xk, "MB"@)) by {
        if ends_with(xk, "GB"@) {
            assert(xk.skip(xk.len() - 2)[0] == 'G');
        }
        if ends_with(xk, "MB"@) {
            assert(xk.skip(xk.len() - 2)[0] == 'M');
        }
    }
    assert(xk.take(xk.len() - 2) =~= d);
}


/// Whether a line is one that `pattern_lines` can give: kept (not blank,
/// not a `#` comment), equal to its own trim, and without a line break.
pub open spec fn plain_pattern(l: Seq<char>) -> bool {
    is_pattern_line(l) && trim(l) == l && !l.contains('\n')
}

/// Lines joined with line breaks.
pub open spec fn join_lines(ls: Seq<Seq<char>>) -> Seq<char>
    decreases ls.len(),
{
    if ls.len() == 0 {
        Seq::empty()
    } else if ls.len() == 1 {
        ls[0]
    } else {
        join_lines(ls.drop_last()) + seq!['\n'] + ls.last()
    }
}

/// Trimming twice trims once.
proof fn lemma_trim_twice(x: Seq<char>)
    ensures
        trim(trim(x)) == trim(x),
        exists|a: int, b: int| 0 <= a <= b <= x.len() && trim(x) == x.subrange(a, b),
    decreases x.len(),
{
    lemma_trim_start_sub(x);
    let t = trim_start(x);
    let a = choose|a: int| 0 <= a <= x.len() && t == x.subrange(a, x.len() as int);
    lemma_trim_end_sub(t);
    let b = choose|b: int| 0 <= b <= t.len() && trim_end(t) == t.subrange(0, b);
    let z = trim(x);
    assert(z =~= x.subrange(a, a + b));
    if z.len() > 0 {
        assert(z[0] == t[0]);
        lemma_trim_start_first(x);
        lemma_trim_end_last(t);
        lemma_trim_unchanged(z);
    }
}

/// What trimming the start leaves, when not empty, starts with a
/// non-whitespace character.
proof fn lemma_trim_start_first(s: Seq<char>)
    ensures
        trim_start(s).len() > 0 ==> !is_whitespace(trim_start(s)[0]),
    decreases s.len(),
{
    if s.len() > 0 && is_whitespace(s[0]) {
        lemma_trim_start_first(s.drop_first());
    }
}

/// What trimming the end leaves, when not empty, ends with a
/// non-whitespace character.
proof fn lemma_trim_end_last(s: Seq<char>)
    ensures
        trim_end(s).len() > 0 ==> !is_whitespace(trim_end(s).last()),
    decreases s.len(),
{
    if s.len() > 0 && is_whitespace(s.last()) {
        lemma_trim_end_last(s.drop_last());
    }
}

/// Reading characters other than line breaks only extends the line in progress.
proof fn lemma_scan_lines_no_break(a: Seq<char>, y: Seq<char>)
    requires
        !y.contains('\n'),
    ensures
        scan_lines(a + y) == (scan_lines(a).0, scan_lines(a).1 + y),
    decreases y.len(),
{
    if y.len() == 0 {
        assert(a + y =~= a);
        assert(scan_lines(a).1 + y =~= scan_lines(a).1);
    } else {
        let y0 = y.drop_last();
        assert(!y0.contains('\n')) by {
            if y0.contains('\n') {
                let k = choose|k: int| 0 <= k < y0.len() && y0[k] == '\n';
                assert(y[k] == '\n');
            }
        }
        lemma_scan_lines_no_break(a, y0);
        assert((a + y).drop_last() =~= a + y0);
        assert(y.last() != '\n') by {
            assert(y[y.len() - 1] == y.last());
        }
        assert((scan_lines(a).1 + y0).push(y.last()) =~= scan_lines(a).1 + y);
    }
}

/// Scanning plain lines joined with line breaks: all but the last kept,
/// the last in progress.
proof fn lemma_scan_lines_join(ls: Seq<Seq<char>>)
    requires
        ls.len() > 0,
        forall|i: int| 0 <= i < ls.len() ==> #[trigger] plain_pattern(ls[i]),
    ensures
        scan_lines(join_lines(ls)) == (ls.drop_last(), ls.last()),
    decreases ls.len(),
{
    if ls.len() == 1 {
        assert(plain_pattern(ls[0]));
        lemma_scan_lines_no_break(Seq::empty(), ls[0]);
        assert(Seq::<char>::empty() + ls[0] =~= ls[0]);
        assert(ls.drop_last() =~= Seq::<Seq<char>>::empty());
    } else {
        let d = ls.drop_last();
        assert forall|i: int| 0 <= i < d.len() implies #[trigger] plain_pattern(d[i]) by {
            assert(d[i] == ls[i]);
        }
        lemma_scan_lines_join(d);
        let jd = join_lines(d);
        assert(plain_pattern(ls[ls.len() - 1]));
        assert(plain_pattern(d[d.len() - 1]));
        assert((jd + seq!['\n']).drop_last() =~= jd);
        assert(flush_line(d.drop_last(), d.last()) =~= d);
        lemma_scan_lines_no_break(jd + seq!['\n'], ls.last());
        assert(Seq::<char>::empty() + ls.last() =~= ls.last());
    }
}

/// The kept lines of a text are plain, and the line in progress has no
/// line break.
proof fn lemma_scan_lines_plain(s: Seq<char>)
    ensures
        forall|i: int| 0 <= i < scan_lines(s).0.len() ==> #[trigger] plain_pattern(scan_lines(s).0[i]),
        !scan_lines(s).1.contains('\n'),
    decreases s.len(),
{
    if s.len() > 0 {
        lemma_scan_lines_plain(s.drop_last());
        let (done, cur) = scan_lines(s.drop_last());
        if s.last() == '\n' {
            if is_pattern_line(cur) {
                lemma_trim_twice(cur);
                let t = trim(cur);
                let (a, b) = choose|a: int, b: int| 0 <= a <= b <= cur.len() && t == cur.subrange(a, b);
                assert(!t.contains('\n')) by {
                    if t.contains('\n') {
                        let k = choose|k: int| 0 <= k < t.len() && t[k] == '\n';
                        assert(cur[a + k] == '\n');
                    }
                }
                let nd = done.push(t);
                assert forall|i: int| 0 <= i < nd.len() implies #[trigger] plain_pattern(nd[i]) by {
                    if i < done.len() {
                        assert(nd[i] == done[i]);
                    }
                }
            }
            assert(!Seq::<char>::empty().contains('\n'));
        } else {
            assert(!cur.push(s.last()).contains('\n')) by {
                if cur.push(s.last()).contains('\n') {
                    let k = choose|k: int| 0 <= k < cur.push(s.last()).len() && cur.push(s.last())[k] == '\n';
                    if k < cur.len() {
                        assert(cur.push(s.last())[k] == cur[k]);
                    }
                }
            }
        }
    }
}

/// Reading a pattern file gives patterns that are kept, trimmed and free of
/// line breaks, and reading them back, one per line, gives them again.
pub proof fn law_pattern_lines_idempotent(s: Seq<char>)
    ensures
        forall|i: int| 0 <= i < pattern_lines(s).len() ==> #[trigger] plain_pattern(pattern_lines(s)[i]),
        pattern_lines(join_lines(pattern_lines(s))) == pattern_lines(s),
{
    lemma_scan_lines_plain(s);
    let (done, cur) = scan_lines(s);
    let r = pattern_lines(s);
    if is_pattern_line(cur) {
        lemma_trim_twice(cur);
        let t = trim(cur);
        let (a, b) = choose|a: int, b: int| 0 <= a <= b <= cur.len() && t == cur.subrange(a, b);
        assert(!t.contains('\n')) by {
            if t.contains('\n') {
                let k = choose|k: int| 0 <= k < t.len() && t[k] == '\n';
                assert(cur[a + k] == '\n');
            }
        }
        assert forall|i: int| 0 <= i < r.len() implies #[trigger] plain_pattern(r[i]) by {
            if i < done.len() {
                assert(r[i] == done[i]);
            }
        }
    }
    if r.len() == 0 {
        assert(join_lines(r) =~= Seq::<char>::empty());
        assert(scan_lines(Seq::<char>::empty()) == (Seq::<Seq<char>>::empty(), Seq::<char>::empty()));
        assert(!is_pattern_line(Seq::<char>::empty()));
        assert(pattern_lines(Seq::<char>::empty()) =~= r);
    } else {
        lemma_scan_lines_join(r);
        assert(plain_pattern(r[r.len() - 1]));
        assert(r.drop_last().push(r.last()) =~= r);
    }
}

} // verus!
