use placy::cli::{
    chrono_timestamp, generate_nonce, is_jar_file, is_zip_file, nonce_text, parse_arguments,
    timestamp_text, Command,
};

fn args(items: &[&str]) -> Vec<String> {
    items.iter().map(|s| s.to_string()).collect()
}

#[test]
fn cli_file_kinds() {
    assert!(is_jar_file("a/b/app.JAR"));
    assert!(!is_jar_file("app.zip"));
    assert!(is_zip_file("bundle.Zip"));
    assert!(!is_zip_file(".zip"));
    assert!(!is_zip_file("noext"));
}

#[test]
fn cli_timestamp_and_nonce_texts() {
    assert_eq!(timestamp_text(Some(1696118400)), "1696118400");
    assert_eq!(timestamp_text(None), "0");
    assert_eq!(nonce_text(Some(255)), "000000000000000000000000000000ff");
    assert_eq!(nonce_text(None), "00000000000000000000000000000000");
    assert_eq!(nonce_text(Some(u128::MAX)), "ffffffffffffffffffffffffffffffff");
    assert_eq!(nonce_text(Some(0x0123456789abcdef)), "00000000000000000123456789abcdef");
    assert!(chrono_timestamp().chars().all(|c| c.is_ascii_digit()));
    let n = generate_nonce();
    assert_eq!(n.len(), 32);
    assert!(n.chars().all(|c| c.is_ascii_hexdigit() && !c.is_ascii_uppercase()));
}

#[test]
fn cli_usage_requests() {
    assert!(matches!(parse_arguments(&args(&["placy"]), false, "1", "n"), Ok(Command::Usage { exit_code: 1 })));
    assert!(matches!(parse_arguments(&args(&["placy", "-h"]), false, "1", "n"), Ok(Command::Usage { exit_code: 0 })));
    assert!(matches!(parse_arguments(&args(&["placy", "--help"]), true, "1", "n"), Ok(Command::Usage { exit_code: 0 })));
}

#[test]
fn cli_missing_input() {
    assert_eq!(
        parse_arguments(&args(&["placy", "in.jar"]), false, "1", "n").unwrap_err(),
        "Input file does not exist: in.jar"
    );
}

#[test]
fn cli_options_with_placeholders() {
    let r = parse_arguments(
        &args(&["placy", "in.zip", "-p", "A", "1", "--max-files", "9", "--max-zip-size", "1KB",
            "--max-file-size", "2B", "--keep-process-file", "--keep-ignore-file", "-p", "A", "2"]),
        true,
        "123",
        "abc",
    )
    .unwrap();
    match r {
        Command::Run(a) => {
            assert_eq!(a.input_path, "in.zip");
            assert_eq!(a.output_path, "output.zip");
            assert_eq!(a.config.placeholders.len(), 1);
            assert_eq!(a.config.placeholders.get("A"), Some(&"2".to_string()));
            assert_eq!(a.config.max_file_count, 9);
            assert_eq!(a.config.max_zip_size, 1024);
            assert_eq!(a.config.max_file_size, 2);
            assert!(!a.config.delete_process_file);
            assert!(!a.config.delete_ignore_file);
        },
        other => panic!("unexpected {:?}", other),
    }
}

#[test]
fn cli_fallback_placeholders_keep_limits() {
    let r = parse_arguments(&args(&["placy", "in.jar", "--max-files", "9", "-o", "x.jar"]), true, "123", "abc").unwrap();
    match r {
        Command::Run(a) => {
            assert_eq!(a.output_path, "x.jar");
            assert_eq!(a.config.placeholders.len(), 3);
            assert_eq!(a.config.placeholders.get("%%__USERNAME__%%"), Some(&"default_user".to_string()));
            assert_eq!(a.config.placeholders.get("%%__TIMESTAMP__%%"), Some(&"123".to_string()));
            assert_eq!(a.config.placeholders.get("%%__NONCE__%%"), Some(&"abc".to_string()));
            assert_eq!(a.config.max_file_count, 9);
        },
        other => panic!("unexpected {:?}", other),
    }
}

#[test]
fn cli_option_errors() {
    let e = |items: &[&str]| parse_arguments(&args(items), true, "1", "n").unwrap_err();
    assert_eq!(e(&["placy", "a.jar", "-o"]), "Missing value for --output");
    assert_eq!(e(&["placy", "a.jar", "-p", "k"]), "--placeholder requires two arguments: key and value");
    assert_eq!(e(&["placy", "a.jar", "--max-files"]), "Missing value for --max-files");
    assert_eq!(e(&["placy", "a.jar", "--max-files", "-1"]), "Invalid --max-files value");
    assert_eq!(e(&["placy", "a.jar", "--max-zip-size", "10"]),
        "Configuration error: Invalid size format '10'. Use B, KB, MB, or GB suffix.");
    assert_eq!(e(&["placy", "a.jar", "--max-file-size"]), "Missing value for --max-file-size");
    assert_eq!(e(&["placy", "a.jar", "--frobnicate"]), "Unknown argument: --frobnicate");
}
