//! Configuration for the JAR/ZIP processing tool.

use vstd::prelude::*;

use crate::config::{to_uppercase, unicode_uppercase};
use crate::paths::{extension_of_path, parent_of, path_extension, path_parent};
use crate::placeholders::{insert_entry, lemma_key_index_absent, str_equal, PlaceholderMap};
use crate::strings::{
    chars_end_with, chars_of, concat, concat3, decimal, decimal_string, ends_with,
    parse_u64, parse_u64_spec, parse_usize, parse_usize_spec, trim,
    trim_chars, trim_str,
};

verus! {

broadcast use vstd::string::group_string_axioms;

/// Default maximum number of files in a ZIP.
pub const DEFAULT_MAXIMUM_ALLOWED_FILES: usize = 20;

/// Default maximum ZIP size (100 MB).
pub const DEFAULT_MAXIMUM_ZIP_SIZE: u64 = 104857600;

/// Default maximum individual file size (10 MB).
pub const DEFAULT_MAXIMUM_FILE_SIZE: u64 = 10485760;

/// Default file extensions to process as text files.
pub open spec fn default_text_file_extensions() -> Seq<Seq<char>> {
    seq![
        "txt"@, "xml"@, "json"@, "properties"@, "yml"@, "yaml"@, "conf"@, "cfg"@, "js"@, "ts"@,
        "tsx"@, "jsx"@,
    ]
}

/// The default text file extensions as owned strings.
pub fn default_text_file_extension_list() -> (r: Vec<String>)
    ensures
        r@.map_values(|s: String| s@) == default_text_file_extensions(),
{
    let r = vec![
        "txt".to_owned(),
        "xml".to_owned(),
        "json".to_owned(),
        "properties".to_owned(),
        "yml".to_owned(),
        "yaml".to_owned(),
        "conf".to_owned(),
        "cfg".to_owned(),
        "js".to_owned(),
        "ts".to_owned(),
        "tsx".to_owned(),
        "jsx".to_owned(),
    ];
    assert(r@.map_values(|s: String| s@) =~= default_text_file_extensions());
    r
}

/// Configuration for the JAR/ZIP processing tool.
#[derive(Debug, Clone)]
pub struct Config {
    /// Path to the input file (JAR or ZIP).
    pub input_path: String,
    /// Path to the output file.
    pub output_path: String,
    /// Placeholder replacements (key -> value).
    pub placeholders: PlaceholderMap,
    /// Whether to delete process.txt after processing (ZIP workflow).
    pub delete_process_file: bool,
    /// Maximum number of files allowed in the ZIP.
    pub maximum_allowed_files: usize,
    /// Maximum ZIP file size in bytes.
    pub maximum_zip_size: u64,
    /// Maximum individual file size in bytes.
    pub maximum_file_size: u64,
    /// Temporary extraction directory for the ZIP workflow.
    pub temp_extract_dir: String,
}

/// A configuration as plain values.
pub struct ConfigView {
    pub input_path: Seq<char>,
    pub output_path: Seq<char>,
    pub placeholders: Seq<(Seq<char>, Seq<char>)>,
    pub delete_process_file: bool,
    pub maximum_allowed_files: usize,
    pub maximum_zip_size: u64,
    pub maximum_file_size: u64,
    pub temp_extract_dir: Seq<char>,
}

impl View for Config {
    type V = ConfigView;

    open spec fn view(&self) -> ConfigView {
        ConfigView {
            input_path: self.input_path@,
            output_path: self.output_path@,
            placeholders: self.placeholders@,
            delete_process_file: self.delete_process_file,
            maximum_allowed_files: self.maximum_allowed_files,
            maximum_zip_size: self.maximum_zip_size,
            maximum_file_size: self.maximum_file_size,
            temp_extract_dir: self.temp_extract_dir@,
        }
    }
}

impl ConfigView {
    /// The configuration with another output path.
    pub open spec fn set_output(self, p: Seq<char>) -> ConfigView {
        ConfigView { output_path: p, ..self }
    }

    /// The configuration with one placeholder set.
    pub open spec fn set_placeholder(self, k: Seq<char>, v: Seq<char>) -> ConfigView {
        ConfigView { placeholders: insert_entry(self.placeholders, k, v), ..self }
    }

    /// The configuration with another process-file setting.
    pub open spec fn set_delete_process_file(self, d: bool) -> ConfigView {
        ConfigView { delete_process_file: d, ..self }
    }

    /// The configuration with another file-count limit.
    pub open spec fn set_maximum_allowed_files(self, n: usize) -> ConfigView {
        ConfigView { maximum_allowed_files: n, ..self }
    }

    /// The configuration with another ZIP size limit.
    pub open spec fn set_maximum_zip_size(self, n: u64) -> ConfigView {
        ConfigView { maximum_zip_size: n, ..self }
    }

    /// The configuration with another file size limit.
    pub open spec fn set_maximum_file_size(self, n: u64) -> ConfigView {
        ConfigView { maximum_file_size: n, ..self }
    }
}

/// The default output path for an input: `output.zip` for a `.zip` input,
/// `output.jar` otherwise.
pub open spec fn default_output_for(input: Seq<char>) -> Seq<char> {
    if extension_of_path(input) == Some("zip"@) {
        "output.zip"@
    } else {
        "output.jar"@
    }
}

/// The configuration `Config::new` builds for an input path.
pub open spec fn new_config_view(input: Seq<char>) -> ConfigView {
    ConfigView {
        input_path: input,
        output_path: default_output_for(input),
        placeholders: Seq::empty(),
        delete_process_file: true,
        maximum_allowed_files: DEFAULT_MAXIMUM_ALLOWED_FILES,
        maximum_zip_size: DEFAULT_MAXIMUM_ZIP_SIZE,
        maximum_file_size: DEFAULT_MAXIMUM_FILE_SIZE,
        temp_extract_dir: "extracted_temp"@,
    }
}

/// What the file system says about the paths of a configuration, as
/// `Config::validate` needs it.
#[derive(Debug, Clone, Copy)]
pub struct PathFacts {
    /// Whether the input file exists.
    pub input_exists: bool,
    /// The input file's size, or `None` when its metadata cannot be read.
    pub input_size: Option<u64>,
    /// Whether the directory the output goes into exists.
    pub output_parent_exists: bool,
}

/// The outcome of validating a configuration against the facts about its paths.
pub open spec fn validation_verdict(c: ConfigView, f: PathFacts) -> Result<(), Seq<char>> {
    if !f.input_exists {
        Err("Input file does not exist: "@ + c.input_path)
    } else {
        match extension_of_path(c.input_path) {
            None => Err("Input file has no extension"@),
            Some(ext) => if ext != "jar"@ && ext != "zip"@ {
                Err("Input file must be a .jar or .zip file, got: ."@ + ext)
            } else {
                match f.input_size {
                    None => Err("Failed to read input file metadata"@),
                    Some(len) => if ext == "zip"@ && len > c.maximum_zip_size {
                        Err(
                            "ZIP file size ("@ + decimal(len as nat)
                                + " bytes) exceeds maximum allowed size ("@ + decimal(
                                c.maximum_zip_size as nat,
                            ) + " bytes)"@,
                        )
                    } else if c.maximum_allowed_files == 0 {
                        Err("maximum_allowed_files must be greater than 0"@)
                    } else if c.maximum_zip_size == 0 {
                        Err("maximum_zip_size must be greater than 0"@)
                    } else if c.maximum_file_size == 0 {
                        Err("maximum_file_size must be greater than 0"@)
                    } else {
                        match path_parent(c.output_path) {
                            Some(p) => if p.len() > 0 && !f.output_parent_exists {
                                Err("Output directory does not exist: "@ + p)
                            } else {
                                Ok(())
                            },
                            None => Ok(()),
                        }
                    },
                }
            },
        }
    }
}

impl Config {
    /// Creates a new Config with the given input path.
    pub fn new(input_path: String) -> (r: Config)
        ensures
            r@ == new_config_view(input_path@),
    {
        let output_path = Self::default_output_path(input_path.as_str());
        Config {
            output_path,
            input_path,
            placeholders: PlaceholderMap::new(),
            delete_process_file: true,
            maximum_allowed_files: DEFAULT_MAXIMUM_ALLOWED_FILES,
            maximum_zip_size: DEFAULT_MAXIMUM_ZIP_SIZE,
            maximum_file_size: DEFAULT_MAXIMUM_FILE_SIZE,
            temp_extract_dir: "extracted_temp".to_owned(),
        }
    }

    /// Determines the default output path based on the input path.
    pub fn default_output_path(input_path: &str) -> (r: String)
        ensures
            r@ == default_output_for(input_path@),
    {
        let is_zip = match path_extension(input_path) {
            Some(e) => str_equal(e.as_str(), "zip"),
            None => false,
        };
        if is_zip {
            "output.zip".to_owned()
        } else {
            "output.jar".to_owned()
        }
    }

    /// Sets the output path.
    pub fn with_output_path(self, output_path: String) -> (r: Config)
        ensures
            r@ == self@.set_output(output_path@),
    {
        let mut c = self;
        c.output_path = output_path;
        c
    }

    /// Sets the placeholders.
    pub fn with_placeholders(self, placeholders: PlaceholderMap) -> (r: Config)
        ensures
            r@ == (ConfigView { placeholders: placeholders@, ..self@ }),
    {
        let mut c = self;
        c.placeholders = placeholders;
        c
    }

    /// Adds a single placeholder.
    pub fn add_placeholder(self, key: String, value: String) -> (r: Config)
        ensures
            r@ == self@.set_placeholder(key@, value@),
    {
        let mut c = self;
        c.placeholders.insert(key, value);
        c
    }

    /// Sets whether to delete process.txt.
    pub fn with_delete_process_file(self, delete: bool) -> (r: Config)
        ensures
            r@ == self@.set_delete_process_file(delete),
    {
        let mut c = self;
        c.delete_process_file = delete;
        c
    }

    /// Sets the maximum allowed files.
    pub fn with_maximum_allowed_files(self, max: usize) -> (r: Config)
        ensures
            r@ == self@.set_maximum_allowed_files(max),
    {
        let mut c = self;
        c.maximum_allowed_files = max;
        c
    }

    /// Sets the maximum ZIP size in bytes.
    pub fn with_maximum_zip_size(self, max: u64) -> (r: Config)
        ensures
            r@ == self@.set_maximum_zip_size(max),
    {
        let mut c = self;
        c.maximum_zip_size = max;
        c
    }

    /// Sets the maximum file size in bytes.
    pub fn with_maximum_file_size(self, max: u64) -> (r: Config)
        ensures
            r@ == self@.set_maximum_file_size(max),
    {
        let mut c = self;
        c.maximum_file_size = max;
        c
    }

    /// Sets the temporary extraction directory.
    pub fn with_temp_extract_dir(self, dir: String) -> (r: Config)
        ensures
            r@ == (ConfigView { temp_extract_dir: dir@, ..self@ }),
    {
        let mut c = self;
        c.temp_extract_dir = dir;
        c
    }

    /// The directory the output file goes into, if its path names one.
    pub fn output_parent(&self) -> (r: Option<String>)
        ensures
            match r {
                Some(p) => path_parent(self.output_path@) == Some(p@),
                None => path_parent(self.output_path@) is None,
            },
    {
        parent_of(self.output_path.as_str())
    }

    /// Validates the configuration against what the file system says about
    /// its paths: the input must exist with a `.jar` or `.zip` extension, a
    /// ZIP must fit the size limit, the limits must be positive, and the
    /// output's directory must exist.
    pub fn validate(&self, facts: &PathFacts) -> (r: Result<(), String>)
        ensures
            match validation_verdict(self@, *facts) {
                Ok(_) => r is Ok,
                Err(m) => r matches Err(x) && x@ == m,
            },
    {
        if !facts.input_exists {
            return Err(concat("Input file does not exist: ", self.input_path.as_str()));
        }
        let extension = match path_extension(self.input_path.as_str()) {
            Some(e) => e,
            None => {
                return Err("Input file has no extension".to_owned());
            },
        };
        let is_jar = str_equal(extension.as_str(), "jar");
        let is_zip = str_equal(extension.as_str(), "zip");
        if !is_jar && !is_zip {
            return Err(
                concat("Input file must be a .jar or .zip file, got: .", extension.as_str()),
            );
        }
        let len = match facts.input_size {
            Some(n) => n,
            None => {
                return Err("Failed to read input file metadata".to_owned());
            },
        };
        if is_zip && len > self.maximum_zip_size {
            let a = decimal_string(len);
            let b = decimal_string(self.maximum_zip_size);
            let m1 = concat3(
                "ZIP file size (",
                a.as_str(),
                " bytes) exceeds maximum allowed size (",
            );
            return Err(concat3(m1.as_str(), b.as_str(), " bytes)"));
        }
        if self.maximum_allowed_files == 0 {
            return Err("maximum_allowed_files must be greater than 0".to_owned());
        }
        if self.maximum_zip_size == 0 {
            return Err("maximum_zip_size must be greater than 0".to_owned());
        }
        if self.maximum_file_size == 0 {
            return Err("maximum_file_size must be greater than 0".to_owned());
        }
        match self.output_parent() {
            Some(p) => {
                if !p.as_str().is_empty() && !facts.output_parent_exists {
                    return Err(concat("Output directory does not exist: ", p.as_str()));
                }
            },
            None => {},
        }
        Ok(())
    }

    /// Returns true if the input is a ZIP file.
    pub fn is_zip_workflow(&self) -> (r: bool)
        ensures
            r == (extension_of_path(self.input_path@) == Some("zip"@)),
    {
        match path_extension(self.input_path.as_str()) {
            Some(e) => str_equal(e.as_str(), "zip"),
            None => false,
        }
    }

    /// Returns true if the input is a JAR file.
    pub fn is_jar_workflow(&self) -> (r: bool)
        ensures
            r == (extension_of_path(self.input_path@) == Some("jar"@)),
    {
        match path_extension(self.input_path.as_str()) {
            Some(e) => str_equal(e.as_str(), "jar"),
            None => false,
        }
    }
}

impl Default for Config {
    fn default() -> (r: Config)
        ensures
            r@ == (ConfigView { output_path: "output.jar"@, ..new_config_view("input.jar"@) }),
    {
        Config {
            input_path: "input.jar".to_owned(),
            output_path: "output.jar".to_owned(),
            placeholders: PlaceholderMap::new(),
            delete_process_file: true,
            maximum_allowed_files: DEFAULT_MAXIMUM_ALLOWED_FILES,
            maximum_zip_size: DEFAULT_MAXIMUM_ZIP_SIZE,
            maximum_file_size: DEFAULT_MAXIMUM_FILE_SIZE,
            temp_extract_dir: "extracted_temp".to_owned(),
        }
    }
}

// ---------------------------------------------------------------------------
// Sizes
// ---------------------------------------------------------------------------

/// The unit suffix of an upper-cased size and its multiplier, if any.
pub open spec fn tool_size_unit(s: Seq<char>) -> Option<(Seq<char>, nat)> {
    if ends_with(s, "KB"@) {
        Some(("KB"@, 1024))
    } else if ends_with(s, "MB"@) {
        Some(("MB"@, 1048576))
    } else if ends_with(s, "GB"@) {
        Some(("GB"@, 1073741824))
    } else {
        None
    }
}

/// The outcome of parsing a trimmed, upper-cased size, one number followed
/// by one unit: the size in bytes or the error message.
pub open spec fn tool_size_verdict(upper: Seq<char>) -> Result<nat, Seq<char>> {
    match tool_size_unit(upper) {
        None => Err("Invalid size format: "@ + upper + ". Use KB, MB, or GB"@),
        Some((suffix, mult)) => match parse_u64_spec(trim(upper.take(upper.len() - suffix.len()))) {
            None => Err("Failed to parse number from: "@ + upper),
            Some(n) => Ok((n * mult) as nat),
        },
    }
}

/// What `parse_size` gives for a size string.
pub open spec fn tool_parse_size(s: Seq<char>) -> Result<u64, Seq<char>> {
    let upper = unicode_uppercase(trim(s));
    match tool_size_verdict(upper) {
        Ok(n) => if n <= u64::MAX {
            Ok(n as u64)
        } else {
            Err("Size too large: "@ + upper)
        },
        Err(m) => Err(m),
    }
}

/// Parses a trimmed, upper-cased size like "100MB" into bytes.
pub fn parse_size_upper(upper: &str) -> (r: Result<u64, String>)
    ensures
        match tool_size_verdict(upper@) {
            Ok(n) => if n <= u64::MAX {
                r == Ok::<u64, String>(n as u64)
            } else {
                r matches Err(m) && m@ == "Size too large: "@ + upper@
            },
            Err(m) => r matches Err(x) && x@ == m,
        },
{
    proof {
        reveal_strlit("KB");
        reveal_strlit("MB");
        reveal_strlit("GB");
    }
    let cs = chars_of(upper);
    let kb = chars_of("KB");
    let mb = chars_of("MB");
    let gb = chars_of("GB");
    let (suffix, mult): (Vec<char>, u64) = if chars_end_with(cs.as_slice(), kb.as_slice()) {
        (kb, 1024)
    } else if chars_end_with(cs.as_slice(), mb.as_slice()) {
        (mb, 1048576)
    } else if chars_end_with(cs.as_slice(), gb.as_slice()) {
        (gb, 1073741824)
    } else {
        return Err(concat3("Invalid size format: ", upper, ". Use KB, MB, or GB"));
    };
    let number = vstd::slice::slice_to_vec(vstd::slice::slice_subrange(cs.as_slice(), 0, cs.len() - 2));
    assert(suffix@.len() == 2);
    assert(number@ =~= cs@.take(cs@.len() - suffix@.len()));
    let digits = trim_chars(number.as_slice());
    match parse_u64(digits.as_slice()) {
        None => Err(concat("Failed to parse number from: ", upper)),
        Some(n) => {
            if n > u64::MAX / mult {
                assert(n * mult > u64::MAX) by (nonlinear_arith)
                    requires
                        mult > 0,
                        n > u64::MAX / mult,
                ;
                return Err(concat("Size too large: ", upper));
            }
            assert(n * mult <= u64::MAX) by (nonlinear_arith)
                requires
                    mult > 0,
                    n <= u64::MAX / mult,
            ;
            Ok(n * mult)
        },
    }
}

/// Parses a size string like "100MB", "10MB" into bytes: the text is
/// trimmed and upper-cased, then read as a number followed by KB, MB or GB.
pub fn parse_size(size_str: &str) -> (r: Result<u64, String>)
    ensures
        match tool_parse_size(size_str@) {
            Ok(n) => r == Ok::<u64, String>(n),
            Err(m) => r matches Err(x) && x@ == m,
        },
{
    let t = trim_str(size_str);
    let upper = to_uppercase(t.as_str());
    parse_size_upper(upper.as_str())
}

// ---------------------------------------------------------------------------
// Arguments
// ---------------------------------------------------------------------------

/// The default placeholders of the tool.
pub open spec fn default_placeholders() -> Seq<(Seq<char>, Seq<char>)> {
    seq![
        ("%%__USERNAME__%%"@, "harfull"@),
        ("%%__TIMESTAMP__%%"@, "1696118400"@),
        ("%%__NONCE__%%"@, "a94f3bc19d7e4fa0b2c4e8fd91a7c3de"@),
    ]
}

/// Creates the default placeholder values.
pub fn create_default_placeholders() -> (r: PlaceholderMap)
    ensures
        r@ == default_placeholders(),
{
    let mut placeholders = PlaceholderMap::new();
    proof {
        reveal_strlit("%%__USERNAME__%%");
        reveal_strlit("%%__TIMESTAMP__%%");
        reveal_strlit("%%__NONCE__%%");
    }
    let ghost d = default_placeholders();
    assert(d[0].0.len() == 16 && d[1].0.len() == 17 && d[2].0.len() == 13);
    placeholders.insert("%%__USERNAME__%%".to_owned(), "harfull".to_owned());
    assert(placeholders@ =~= d.take(1));
    proof {
        lemma_key_index_absent(placeholders@, d[1].0);
    }
    placeholders.insert("%%__TIMESTAMP__%%".to_owned(), "1696118400".to_owned());
    assert(placeholders@ =~= d.take(2));
    proof {
        lemma_key_index_absent(placeholders@, d[2].0);
    }
    placeholders.insert(
        "%%__NONCE__%%".to_owned(),
        "a94f3bc19d7e4fa0b2c4e8fd91a7c3de".to_owned(),
    );
    assert(placeholders@ =~= d);
    placeholders
}

/// The configuration after reading the options from position `i` on, or
/// the message of the first bad option.
pub open spec fn options_from(args: Seq<Seq<char>>, i: nat, c: ConfigView) -> Result<
    ConfigView,
    Seq<char>,
>
    decreases args.len() - i,
{
    if i >= args.len() {
        Ok(c)
    } else {
        let a = args[i as int];
        if a == "-o"@ || a == "--output"@ {
            if i + 1 >= args.len() {
                Err("Missing value for --output flag"@)
            } else {
                options_from(args, i + 2, c.set_output(args[i + 1 as int]))
            }
        } else if a == "--max-files"@ {
            if i + 1 >= args.len() {
                Err("Missing value for --max-files flag"@)
            } else {
                match parse_usize_spec(args[i + 1 as int]) {
                    None => Err("Invalid value for --max-files"@),
                    Some(n) => options_from(args, i + 2, c.set_maximum_allowed_files(n)),
                }
            }
        } else if a == "--max-zip-size"@ {
            if i + 1 >= args.len() {
                Err("Missing value for --max-zip-size flag"@)
            } else {
                match tool_parse_size(args[i + 1 as int]) {
                    Err(_) => Err("Invalid max-zip-size"@),
                    Ok(n) => options_from(args, i + 2, c.set_maximum_zip_size(n)),
                }
            }
        } else if a == "--max-file-size"@ {
            if i + 1 >= args.len() {
                Err("Missing value for --max-file-size flag"@)
            } else {
                match tool_parse_size(args[i + 1 as int]) {
                    Err(_) => Err("Invalid max-file-size"@),
                    Ok(n) => options_from(args, i + 2, c.set_maximum_file_size(n)),
                }
            }
        } else if a == "--keep-process-file"@ {
            options_from(args, i + 1, c.set_delete_process_file(false))
        } else if a == "-p"@ || a == "--placeholder"@ {
            if i + 2 >= args.len() {
                Err("--placeholder requires two arguments: key and value"@)
            } else {
                options_from(args, i + 3, c.set_placeholder(args[i + 1 as int], args[i + 2 as int]))
            }
        } else {
            Err("Unknown argument: "@ + a)
        }
    }
}

/// The configuration the command line describes: the input path, the
/// default placeholders, then the options in order.
pub open spec fn arguments_config(args: Seq<Seq<char>>) -> Result<ConfigView, Seq<char>> {
    options_from(
        args,
        2,
        ConfigView { placeholders: default_placeholders(), ..new_config_view(args[1]) },
    )
}

/// The command-line arguments as character sequences.
pub open spec fn args_view(args: Seq<String>) -> Seq<Seq<char>> {
    args.map_values(|s: String| s@)
}

/// Parses the command line (program name first) into a configuration.
///
/// The second argument is the input path; the options that follow are
/// `-o/--output <path>`, `--max-files <n>`, `--max-zip-size <size>`,
/// `--max-file-size <size>`, `--keep-process-file` and
/// `-p/--placeholder <key> <value>`.
pub fn parse_arguments(args: &[String]) -> (r: Result<Config, String>)
    requires
        args@.len() >= 2,
    ensures
        match arguments_config(args_view(args@)) {
            Ok(c) => r matches Ok(x) && x@ == c,
            Err(m) => r matches Err(x) && x@ == m,
        },
{
    let ghost av = args_view(args@);
    let placeholders = create_default_placeholders();
    let mut config = Config::new(args[1].clone()).with_placeholders(placeholders);
    let mut i: usize = 2;
    assert(av[1] == args@[1]@);
    while i < args.len()
        invariant
            av == args_view(args@),
            av.len() == args@.len(),
            2 <= i,
            arguments_config(av) == options_from(av, i as nat, config@),
        decreases args@.len() - i,
    {
        let a = args[i].as_str();
        assert(av[i as int] == a@);
        if str_equal(a, "-o") || str_equal(a, "--output") {
            if i + 1 >= args.len() {
                return Err("Missing value for --output flag".to_owned());
            }
            assert(av[i + 1] == args@[i + 1]@);
            config = config.with_output_path(args[i + 1].clone());
            i = i + 2;
        } else if str_equal(a, "--max-files") {
            if i + 1 >= args.len() {
                return Err("Missing value for --max-files flag".to_owned());
            }
            assert(av[i + 1] == args@[i + 1]@);
            match parse_usize(args[i + 1].as_str()) {
                None => {
                    return Err("Invalid value for --max-files".to_owned());
                },
                Some(n) => {
                    config = config.with_maximum_allowed_files(n);
                },
            }
            i = i + 2;
        } else if str_equal(a, "--max-zip-size") {
            if i + 1 >= args.len() {
                return Err("Missing value for --max-zip-size flag".to_owned());
            }
            assert(av[i + 1] == args@[i + 1]@);
            match parse_size(args[i + 1].as_str()) {
                Err(_) => {
                    return Err("Invalid max-zip-size".to_owned());
                },
                Ok(n) => {
                    config = config.with_maximum_zip_size(n);
                },
            }
            i = i + 2;
        } else if str_equal(a, "--max-file-size") {
            if i + 1 >= args.len() {
                return Err("Missing value for --max-file-size flag".to_owned());
            }
            assert(av[i + 1] == args@[i + 1]@);
            match parse_size(args[i + 1].as_str()) {
                Err(_) => {
                    return Err("Invalid max-file-size".to_owned());
                },
                Ok(n) => {
                    config = config.with_maximum_file_size(n);
                },
            }
            i = i + 2;
        } else if str_equal(a, "--keep-process-file") {
            config = config.with_delete_process_file(false);
            i = i + 1;
        } else if str_equal(a, "-p") || str_equal(a, "--placeholder") {
            if args.len() - i <= 2 {
                return Err("--placeholder requires two arguments: key and value".to_owned());
            }
            assert(av[i + 1] == args@[i + 1]@);
            assert(av[i + 2] == args@[i + 2]@);
            config = config.add_placeholder(args[i + 1].clone(), args[i + 2].clone());
            i = i + 3;
        } else {
            return Err(concat("Unknown argument: ", a));
        }
    }
    Ok(config)
}

} // verus!
