//! The command line of the placeholder replacement tool: arguments, the
//! kind of input, and the default placeholder values.

use vstd::prelude::*;

use crate::config::{
    default_text_extensions, parse_size, parse_size_result, Config, CompressionRatio,
    DEFAULT_MAX_FILE_COUNT, DEFAULT_MAX_FILE_SIZE, DEFAULT_MAX_ZIP_SIZE,
};
use crate::paths::{extension_of_path, path_extension};
use crate::placeholders::{insert_entry, str_equal, PlaceholderMap};
use crate::strings::{concat, decimal, decimal_string, eq_ignore_ascii_case, parse_usize, parse_usize_spec, str_eq_ignore_ascii_case, string_from_chars};
use crate::tool::config::args_view;

verus! {

broadcast use vstd::string::group_string_axioms;

/// Whether a path's extension is `ext`, ignoring ASCII case.
pub open spec fn has_extension(path: Seq<char>, ext: Seq<char>) -> bool {
    extension_of_path(path) matches Some(e) && eq_ignore_ascii_case(e, ext)
}

/// Checks if a path is a JAR file (by its extension, ignoring ASCII case).
pub fn is_jar_file(path: &str) -> (r: bool)
    ensures
        r == has_extension(path@, "jar"@),
{
    match path_extension(path) {
        Some(e) => str_eq_ignore_ascii_case(e.as_str(), "jar"),
        None => false,
    }
}

/// Checks if a path is a ZIP file (by its extension, ignoring ASCII case).
pub fn is_zip_file(path: &str) -> (r: bool)
    ensures
        r == has_extension(path@, "zip"@),
{
    match path_extension(path) {
        Some(e) => str_eq_ignore_ascii_case(e.as_str(), "zip"),
        None => false,
    }
}

// ---------------------------------------------------------------------------
// Timestamp and nonce
// ---------------------------------------------------------------------------

/// The whole seconds since the Unix epoch, or `None` when the clock is
/// before it (`SystemTime::now().duration_since(UNIX_EPOCH)`).
#[verifier::external_body]
fn seconds_since_epoch() -> (r: Option<u64>) {
    std::time::SystemTime::now().duration_since(std::time::UNIX_EPOCH).ok().map(|d| d.as_secs())
}

/// The nanoseconds since the Unix epoch, or `None` when the clock is before
/// it (`SystemTime::now().duration_since(UNIX_EPOCH)`).
#[verifier::external_body]
fn nanos_since_epoch() -> (r: Option<u128>) {
    std::time::SystemTime::now().duration_since(std::time::UNIX_EPOCH).ok().map(|d| d.as_nanos())
}

/// The timestamp text for a number of seconds since the epoch: its
/// decimal digits, or `0` when there is none.
pub open spec fn timestamp_of(secs: Option<u64>) -> Seq<char> {
    match secs {
        Some(n) => decimal(n as nat),
        None => "0"@,
    }
}

/// Writes the timestamp text for a number of seconds since the epoch.
pub fn timestamp_text(secs: Option<u64>) -> (r: String)
    ensures
        r@ == timestamp_of(secs),
{
    match secs {
        Some(n) => decimal_string(n),
        None => "0".to_owned(),
    }
}

/// Generates a simple timestamp: the seconds since the Unix epoch.
pub fn chrono_timestamp() -> (r: String)
    ensures
        exists|secs: Option<u64>| r@ == timestamp_of(secs),
{
    let secs = seconds_since_epoch();
    let r = timestamp_text(secs);
    assert(r@ == timestamp_of(secs));
    r
}

/// The lowercase hexadecimal digit of a value below 16.
pub open spec fn hex_char(d: nat) -> char {
    if d < 10 {
        (d + 48) as char
    } else {
        (d + 87) as char
    }
}

/// The last `k` hexadecimal digits of `n`, most significant first.
pub open spec fn hex_digits(n: nat, k: nat) -> Seq<char>
    decreases k,
{
    if k == 0 {
        Seq::empty()
    } else {
        hex_digits(n / 16, (k - 1) as nat).push(hex_char(n % 16))
    }
}

/// The nonce text for a number of nanoseconds: 32 lowercase hexadecimal
/// digits (zero when there is none).
pub open spec fn nonce_of(nanos: Option<u128>) -> Seq<char> {
    match nanos {
        Some(n) => hex_digits(n as nat, 32),
        None => hex_digits(0, 32),
    }
}

/// Executable `hex_char`.
fn hex_digit(d: u128) -> (c: char)
    requires
        d < 16,
    ensures
        c == hex_char(d as nat),
{
    let v: u8 = d as u8;
    if v < 10 {
        char_of_code(v + 48)
    } else {
        char_of_code(v + 87)
    }
}

/// The ASCII character with a code.
fn char_of_code(b: u8) -> (c: char)
    requires
        b < 128,
    ensures
        c == (b as nat) as char,
{
    b as char
}

/// Writes the nonce text for a number of nanoseconds (`format!("{:032x}")`).
pub fn nonce_text(nanos: Option<u128>) -> (r: String)
    ensures
        r@ == nonce_of(nanos),
{
    let n: u128 = match nanos {
        Some(v) => v,
        None => 0,
    };
    let mut digits: Vec<char> = Vec::new();
    let mut rest: u128 = n;
    let mut k: usize = 0;
    while k < 32
        invariant
            0 <= k <= 32,
            digits@.len() == k,
            forall|j: int|
                0 <= j < k ==> digits@[j] == hex_digits(n as nat, 32)[31 - j],
            rest as nat == (n as nat) / pow16(k as nat),
        decreases 32 - k,
    {
        let d = rest % 16;
        proof {
            lemma_hex_digit_at(n as nat, 32, k as nat);
            lemma_pow16_step(n as nat, k as nat);
        }
        digits.push(hex_digit(d));
        rest = rest / 16;
        k = k + 1;
    }
    let mut out: Vec<char> = Vec::new();
    let mut j: usize = 0;
    while j < 32
        invariant
            0 <= j <= 32,
            digits@.len() == 32,
            out@.len() == j,
            forall|i: int| 0 <= i < j ==> out@[i] == digits@[31 - i],
        decreases 32 - j,
    {
        out.push(digits[31 - j]);
        j = j + 1;
    }
    proof {
        lemma_hex_digits_len(n as nat, 32);
        assert forall|i: int| 0 <= i < 32 implies out@[i] == hex_digits(n as nat, 32)[i] by {
            assert(out@[i] == digits@[31 - i]);
            assert(digits@[31 - i] == hex_digits(n as nat, 32)[31 - (31 - i)]);
        }
        assert(out@ =~= hex_digits(n as nat, 32));
        assert(nonce_of(nanos) == hex_digits(n as nat, 32));
    }
    string_from_chars(out.as_slice())
}

/// `16` to the power `k`.
pub open spec fn pow16(k: nat) -> nat
    decreases k,
{
    if k == 0 {
        1
    } else {
        16 * pow16((k - 1) as nat)
    }
}

/// `hex_digits(n, k)` has `k` digits.
proof fn lemma_hex_digits_len(n: nat, k: nat)
    ensures
        hex_digits(n, k).len() == k,
    decreases k,
{
    if k > 0 {
        lemma_hex_digits_len(n / 16, (k - 1) as nat);
    }
}

/// Digit `k` from the right of `hex_digits(n, len)` is that of `n / 16^k`.
proof fn lemma_hex_digit_at(n: nat, len: nat, k: nat)
    requires
        k < len,
    ensures
        hex_digits(n, len).len() == len,
        hex_digits(n, len)[len - 1 - k] == hex_char((n / pow16(k)) % 16),
    decreases len,
{
    lemma_hex_digits_len(n, len);
    if k == 0 {
        assert(pow16(0) == 1);
        assert(n / 1 == n);
    } else {
        lemma_hex_digit_at(n / 16, (len - 1) as nat, (k - 1) as nat);
        lemma_div_div16(n, (k - 1) as nat);
        lemma_hex_digits_len(n / 16, (len - 1) as nat);
    }
}

/// Dividing by 16 and then by `16^k` is dividing by `16^(k+1)`.
proof fn lemma_div_div16(n: nat, k: nat)
    ensures
        (n / 16) / pow16(k) == n / pow16(k + 1),
{
    lemma_pow16_positive(k);
    assert(pow16(k + 1) == 16 * pow16(k));
    vstd::arithmetic::div_mod::lemma_div_denominator(n as int, 16, pow16(k) as int);
}

/// `16^k` is positive.
proof fn lemma_pow16_positive(k: nat)
    ensures
        pow16(k) > 0,
    decreases k,
{
    if k > 0 {
        lemma_pow16_positive((k - 1) as nat);
    }
}

/// One more division by 16 advances the power.
proof fn lemma_pow16_step(n: nat, k: nat)
    ensures
        (n / pow16(k)) / 16 == n / pow16(k + 1),
{
    lemma_pow16_positive(k);
    assert(pow16(k + 1) == 16 * pow16(k));
    vstd::arithmetic::div_mod::lemma_div_denominator(n as int, pow16(k) as int, 16);
    assert(pow16(k) * 16 == 16 * pow16(k)) by (nonlinear_arith);
}

/// Generates a nonce: the nanoseconds since the Unix epoch as 32 lowercase
/// hexadecimal digits.
pub fn generate_nonce() -> (r: String)
    ensures
        exists|nanos: Option<u128>| r@ == nonce_of(nanos),
{
    let nanos = nanos_since_epoch();
    let r = nonce_text(nanos);
    assert(r@ == nonce_of(nanos));
    r
}

// ---------------------------------------------------------------------------
// Arguments
// ---------------------------------------------------------------------------

/// Parsed command-line arguments.
#[derive(Debug)]
pub struct Args {
    pub input_path: String,
    pub output_path: String,
    pub config: Config,
}

/// What the command line asks for.
#[derive(Debug)]
pub enum Command {
    /// Print the usage text and exit with this code.
    Usage { exit_code: i32 },
    /// Process the input.
    Run(Args),
}

/// The options read from the command line so far.
pub struct CliOptions {
    pub output: Option<Seq<char>>,
    pub placeholders: Seq<(Seq<char>, Seq<char>)>,
    pub max_files: Option<usize>,
    pub max_zip_size: Option<u64>,
    pub max_file_size: Option<u64>,
    pub delete_process_file: bool,
    pub delete_ignore_file: bool,
}

/// No option read yet.
pub open spec fn no_options() -> CliOptions {
    CliOptions {
        output: None,
        placeholders: Seq::empty(),
        max_files: None,
        max_zip_size: None,
        max_file_size: None,
        delete_process_file: true,
        delete_ignore_file: true,
    }
}

/// The options after reading the arguments from position `i` on, or the
/// message of the first bad one.
pub open spec fn options_from(args: Seq<Seq<char>>, i: nat, o: CliOptions) -> Result<
    CliOptions,
    Seq<char>,
>
    decreases args.len() - i,
{
    if i >= args.len() {
        Ok(o)
    } else {
        let a = args[i as int];
        if a == "-o"@ || a == "--output"@ {
            if i + 1 >= args.len() {
                Err("Missing value for --output"@)
            } else {
                options_from(args, i + 2, CliOptions { output: Some(args[i + 1 as int]), ..o })
            }
        } else if a == "-p"@ || a == "--placeholder"@ {
            if i + 2 >= args.len() {
                Err("--placeholder requires two arguments: key and value"@)
            } else {
                options_from(
                    args,
                    i + 3,
                    CliOptions {
                        placeholders: insert_entry(
                            o.placeholders,
                            args[i + 1 as int],
                            args[i + 2 as int],
                        ),
                        ..o
                    },
                )
            }
        } else if a == "--max-files"@ {
            if i + 1 >= args.len() {
                Err("Missing value for --max-files"@)
            } else {
                match parse_usize_spec(args[i + 1 as int]) {
                    None => Err("Invalid --max-files value"@),
                    Some(n) => options_from(args, i + 2, CliOptions { max_files: Some(n), ..o }),
                }
            }
        } else if a == "--max-zip-size"@ {
            if i + 1 >= args.len() {
                Err("Missing value for --max-zip-size"@)
            } else {
                match parse_size_result(args[i + 1 as int]) {
                    Err(m) => Err("Configuration error: "@ + m),
                    Ok(n) => options_from(args, i + 2, CliOptions { max_zip_size: Some(n), ..o }),
                }
            }
        } else if a == "--max-file-size"@ {
            if i + 1 >= args.len() {
                Err("Missing value for --max-file-size"@)
            } else {
                match parse_size_result(args[i + 1 as int]) {
                    Err(m) => Err("Configuration error: "@ + m),
                    Ok(n) => options_from(args, i + 2, CliOptions { max_file_size: Some(n), ..o }),
                }
            }
        } else if a == "--keep-process-file"@ {
            options_from(args, i + 1, CliOptions { delete_process_file: false, ..o })
        } else if a == "--keep-ignore-file"@ {
            options_from(args, i + 1, CliOptions { delete_ignore_file: false, ..o })
        } else {
            Err("Unknown argument: "@ + a)
        }
    }
}

/// Reading the options from position `j` on looks only at the arguments
/// from `j` on: changing an argument before `j` changes nothing.
proof fn lemma_options_ignore_before(args: Seq<Seq<char>>, i: int, x: Seq<char>, j: nat, o: CliOptions)
    requires
        0 <= i < j,
        i < args.len(),
    ensures
        options_from(args.update(i, x), j, o) == options_from(args, j, o),
    decreases args.len() - j,
{
    let u = args.update(i, x);
    if j < args.len() {
        assert(u[j as int] == args[j as int]);
        if j + 1 < args.len() {
            assert(u[j + 1 as int] == args[j + 1 as int]);
        }
        if j + 2 < args.len() {
            assert(u[j + 2 as int] == args[j + 2 as int]);
        }
        let a = args[j as int];
        if a == "-o"@ || a == "--output"@ {
            if j + 1 < args.len() {
                lemma_options_ignore_before(args, i, x, (j + 2) as nat, CliOptions { output: Some(args[j + 1 as int]), ..o });
            }
        } else if a == "-p"@ || a == "--placeholder"@ {
            if j + 2 < args.len() {
                lemma_options_ignore_before(
                    args,
                    i,
                    x,
                    (j + 3) as nat,
                    CliOptions { placeholders: insert_entry(o.placeholders, args[j + 1 as int], args[j + 2 as int]), ..o },
                );
            }
        } else if a == "--max-files"@ {
            if j + 1 < args.len() {
                match parse_usize_spec(args[j + 1 as int]) {
                    None => {},
                    Some(n) => {
                        lemma_options_ignore_before(args, i, x, (j + 2) as nat, CliOptions { max_files: Some(n), ..o });
                    },
                }
            }
        } else if a == "--max-zip-size"@ {
            if j + 1 < args.len() {
                match parse_size_result(args[j + 1 as int]) {
                    Err(_) => {},
                    Ok(n) => {
                        lemma_options_ignore_before(args, i, x, (j + 2) as nat, CliOptions { max_zip_size: Some(n), ..o });
                    },
                }
            }
        } else if a == "--max-file-size"@ {
            if j + 1 < args.len() {
                match parse_size_result(args[j + 1 as int]) {
                    Err(_) => {},
                    Ok(n) => {
                        lemma_options_ignore_before(args, i, x, (j + 2) as nat, CliOptions { max_file_size: Some(n), ..o });
                    },
                }
            }
        } else if a == "--keep-process-file"@ {
            lemma_options_ignore_before(args, i, x, (j + 1) as nat, CliOptions { delete_process_file: false, ..o });
        } else if a == "--keep-ignore-file"@ {
            lemma_options_ignore_before(args, i, x, (j + 1) as nat, CliOptions { delete_ignore_file: false, ..o });
        }
    }
}

/// `--placeholder` and `-p` are the same option: writing one in place of
/// the other anywhere on the command line reads the same options, and
/// `--placeholder key value` sets `key` to `value` in the table, as `-p`
/// does.
pub proof fn law_placeholder_long_and_short_agree(args: Seq<Seq<char>>, i: int, o: CliOptions)
    requires
        0 <= i < args.len(),
        args[i] == "--placeholder"@,
    ensures
        options_from(args, i as nat, o) == options_from(args.update(i, "-p"@), i as nat, o),
        i + 2 < args.len() ==> options_from(args, i as nat, o) == options_from(
            args,
            (i + 3) as nat,
            CliOptions { placeholders: insert_entry(o.placeholders, args[i + 1], args[i + 2]), ..o },
        ),
        i + 2 >= args.len() ==> options_from(args, i as nat, o) == Err::<CliOptions, Seq<char>>(
            "--placeholder requires two arguments: key and value"@,
        ),
{
    reveal_strlit("-p");
    reveal_strlit("-o");
    reveal_strlit("--output");
    reveal_strlit("--placeholder");
    let u = args.update(i, "-p"@);
    assert(u[i] == "-p"@);
    assert("--placeholder"@ != "-o"@ && "--placeholder"@ != "--output"@) by {
        assert("--placeholder"@.len() != "-o"@.len());
        assert("--placeholder"@.len() != "--output"@.len());
    }
    assert("-p"@ != "-o"@) by {
        assert("-p"@[1] != "-o"@[1]);
    }
    assert("-p"@ != "--output"@) by {
        assert("-p"@.len() != "--output"@.len());
    }
    if i + 2 < args.len() {
        assert(u[i + 1] == args[i + 1] && u[i + 2] == args[i + 2]);
        lemma_options_ignore_before(
            args,
            i,
            "-p"@,
            (i + 3) as nat,
            CliOptions { placeholders: insert_entry(o.placeholders, args[i + 1], args[i + 2]), ..o },
        );
    }
}

/// `--output` and `-o` are the same option: writing one in place of the
/// other reads the same options.
pub proof fn law_output_long_and_short_agree(args: Seq<Seq<char>>, i: int, o: CliOptions)
    requires
        0 <= i < args.len(),
        args[i] == "--output"@,
    ensures
        options_from(args, i as nat, o) == options_from(args.update(i, "-o"@), i as nat, o),
{
    reveal_strlit("-o");
    let u = args.update(i, "-o"@);
    assert(u[i] == "-o"@);
    if i + 1 < args.len() {
        assert(u[i + 1] == args[i + 1]);
        lemma_options_ignore_before(args, i, "-o"@, (i + 2) as nat, CliOptions { output: Some(args[i + 1]), ..o });
    }
}

/// The placeholders used when none are given.
pub open spec fn fallback_placeholders(timestamp: Seq<char>, nonce: Seq<char>) -> Seq<
    (Seq<char>, Seq<char>),
> {
    seq![
        ("%%__USERNAME__%%"@, "default_user"@),
        ("%%__TIMESTAMP__%%"@, timestamp),
        ("%%__NONCE__%%"@, nonce),
    ]
}

/// Whether `a` is what the options describe for the input path: the output
/// path given or the default for the input's kind; the placeholders given,
/// or, when none was given, the fallback placeholders; and the limits and
/// flags given, the defaults for the limits not given.
pub open spec fn run_matches(
    a: Args,
    o: CliOptions,
    input: Seq<char>,
    timestamp: Seq<char>,
    nonce: Seq<char>,
) -> bool {
    &&& a.input_path@ == input
    &&& a.output_path@ == match o.output {
        Some(p) => p,
        None => if has_extension(input, "zip"@) {
            "output.zip"@
        } else {
            "output.jar"@
        },
    }
    &&& a.config.spec_text_extensions() == default_text_extensions()
    &&& a.config.max_compression_ratio == CompressionRatio { numerator: 100, denominator: 1 }
    &&& a.config.delete_process_file == o.delete_process_file
    &&& a.config.delete_ignore_file == o.delete_ignore_file
    &&& a.config.placeholders@ == if o.placeholders.len() > 0 {
        o.placeholders
    } else {
        fallback_placeholders(timestamp, nonce)
    }
    &&& a.config.max_file_count == match o.max_files {
        Some(n) => n,
        None => DEFAULT_MAX_FILE_COUNT,
    }
    &&& a.config.max_zip_size == match o.max_zip_size {
        Some(n) => n,
        None => DEFAULT_MAX_ZIP_SIZE,
    }
    &&& a.config.max_file_size == match o.max_file_size {
        Some(n) => n,
        None => DEFAULT_MAX_FILE_SIZE,
    }
}

/// Whether the command line asks for the usage text.
pub open spec fn wants_usage(args: Seq<Seq<char>>) -> bool {
    args.len() < 2 || args[1] == "-h"@ || args[1] == "--help"@
}

/// Parses the command line (program name first).
///
/// With no input, or `-h`/`--help` in its place, the usage text is asked
/// for (exit code 1 without an input, 0 for help). The input must exist
/// (`input_exists` says whether it does). The options are `-o/--output
/// <path>`, `-p/--placeholder <key> <value>`, `--max-files <n>`,
/// `--max-zip-size <size>`, `--max-file-size <size>`, `--keep-process-file`
/// and `--keep-ignore-file`. When no placeholder is given, a default user
/// name, `timestamp` and `nonce` are used instead; the limits given apply
/// either way.
pub fn parse_arguments(args: &[String], input_exists: bool, timestamp: &str, nonce: &str) -> (r:
    Result<Command, String>)
    ensures
        ({
            let av = args_view(args@);
            if wants_usage(av) {
                r matches Ok(Command::Usage { exit_code }) && exit_code == if av.len() < 2 {
                    1i32
                } else {
                    0i32
                }
            } else if !input_exists {
                r matches Err(m) && m@ == "Input file does not exist: "@ + av[1]
            } else {
                match options_from(av, 2, no_options()) {
                    Err(m) => r matches Err(x) && x@ == m,
                    Ok(o) => r matches Ok(Command::Run(a)) && run_matches(
                        a,
                        o,
                        av[1],
                        timestamp@,
                        nonce@,
                    ),
                }
            }
        }),
{
    let ghost av = args_view(args@);
    if args.len() < 2 {
        return Ok(Command::Usage { exit_code: 1 });
    }
    assert(av[1] == args@[1]@);
    if str_equal(args[1].as_str(), "-h") || str_equal(args[1].as_str(), "--help") {
        return Ok(Command::Usage { exit_code: 0 });
    }
    let input_path = args[1].clone();
    if !input_exists {
        return Err(concat("Input file does not exist: ", input_path.as_str()));
    }
    let mut output_path: Option<String> = None;
    let mut placeholders = PlaceholderMap::new();
    let mut max_files: Option<usize> = None;
    let mut max_zip_size: Option<u64> = None;
    let mut max_file_size: Option<u64> = None;
    let mut delete_process_file = true;
    let mut delete_ignore_file = true;
    let mut i: usize = 2;
    while i < args.len()
        invariant
            av == args_view(args@),
            av.len() == args@.len(),
            !wants_usage(av),
            input_exists,
            input_path@ == av[1],
            2 <= i,
            options_from(av, 2, no_options()) == options_from(
                av,
                i as nat,
                CliOptions {
                    output: match output_path {
                        Some(p) => Some(p@),
                        None => None,
                    },
                    placeholders: placeholders@,
                    max_files,
                    max_zip_size,
                    max_file_size,
                    delete_process_file,
                    delete_ignore_file,
                },
            ),
        decreases args@.len() - i,
    {
        let a = args[i].as_str();
        assert(av[i as int] == a@);
        if str_equal(a, "-o") || str_equal(a, "--output") {
            if i + 1 >= args.len() {
                return Err("Missing value for --output".to_owned());
            }
            assert(av[i + 1] == args@[i + 1]@);
            output_path = Some(args[i + 1].clone());
            i = i + 2;
        } else if str_equal(a, "-p") || str_equal(a, "--placeholder") {
            if args.len() - i <= 2 {
                return Err("--placeholder requires two arguments: key and value".to_owned());
            }
            assert(av[i + 1] == args@[i + 1]@);
            assert(av[i + 2] == args@[i + 2]@);
            placeholders.insert(args[i + 1].clone(), args[i + 2].clone());
            i = i + 3;
        } else if str_equal(a, "--max-files") {
            if i + 1 >= args.len() {
                return Err("Missing value for --max-files".to_owned());
            }
            assert(av[i + 1] == args@[i + 1]@);
            match parse_usize(args[i + 1].as_str()) {
                None => {
                    return Err("Invalid --max-files value".to_owned());
                },
                Some(n) => {
                    max_files = Some(n);
                },
            }
            i = i + 2;
        } else if str_equal(a, "--max-zip-size") {
            if i + 1 >= args.len() {
                return Err("Missing value for --max-zip-size".to_owned());
            }
            assert(av[i + 1] == args@[i + 1]@);
            match parse_size(args[i + 1].as_str()) {
                Err(e) => {
                    return Err(e.message());
                },
                Ok(n) => {
                    max_zip_size = Some(n);
                },
            }
            i = i + 2;
        } else if str_equal(a, "--max-file-size") {
            if i + 1 >= args.len() {
                return Err("Missing value for --max-file-size".to_owned());
            }
            assert(av[i + 1] == args@[i + 1]@);
            match parse_size(args[i + 1].as_str()) {
                Err(e) => {
                    return Err(e.message());
                },
                Ok(n) => {
                    max_file_size = Some(n);
                },
            }
            i = i + 2;
        } else if str_equal(a, "--keep-process-file") {
            delete_process_file = false;
            i = i + 1;
        } else if str_equal(a, "--keep-ignore-file") {
            delete_ignore_file = false;
            i = i + 1;
        } else {
            return Err(concat("Unknown argument: ", a));
        }
    }
    let output_path = match output_path {
        Some(p) => p,
        None => if is_zip_file(input_path.as_str()) {
            "output.zip".to_owned()
        } else {
            "output.jar".to_owned()
        },
    };
    let mut builder = Config::builder().with_placeholders(placeholders).with_delete_process_file(
        delete_process_file,
    ).with_delete_ignore_file(delete_ignore_file);
    if let Some(max) = max_files {
        builder = builder.with_max_file_count(max);
    }
    if let Some(max) = max_zip_size {
        builder = builder.with_max_zip_size(max);
    }
    if let Some(max) = max_file_size {
        builder = builder.with_max_file_size(max);
    }
    let mut config = builder.build();
    if config.placeholders().is_empty() {
        let limits = (config.max_file_count, config.max_zip_size, config.max_file_size);
        proof {
            reveal_strlit("%%__USERNAME__%%");
            reveal_strlit("%%__TIMESTAMP__%%");
            reveal_strlit("%%__NONCE__%%");
        }
        assert("%%__USERNAME__%%"@.len() == 16);
        assert("%%__TIMESTAMP__%%"@.len() == 17);
        assert("%%__NONCE__%%"@.len() == 13);
        let b0 = Config::builder();
        let b1 = b0.add_placeholder("%%__USERNAME__%%", "default_user");
        proof {
            crate::placeholders::lemma_key_index_absent(b1.placeholders@, "%%__TIMESTAMP__%%"@);
        }
        let b2 = b1.add_placeholder("%%__TIMESTAMP__%%", timestamp);
        proof {
            crate::placeholders::lemma_key_index_absent(b2.placeholders@, "%%__NONCE__%%"@);
        }
        let b3 = b2.add_placeholder("%%__NONCE__%%", nonce);
        assert(b3.placeholders@ =~= fallback_placeholders(timestamp@, nonce@));
        config = b3.with_delete_process_file(delete_process_file).with_delete_ignore_file(
            delete_ignore_file,
        ).with_max_file_count(limits.0).with_max_zip_size(limits.1).with_max_file_size(limits.2).build();
    }
    Ok(Command::Run(Args { input_path, output_path, config }))
}

} // verus!
