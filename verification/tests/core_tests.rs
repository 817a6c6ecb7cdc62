use std::collections::HashMap;
use std::io::{Cursor, Read, Write};

use placy::archive::{normalize_path, process_archive};
use placy::config::{parse_pattern_file, parse_size, CompressionRatio, Config, FilePatterns};
use placy::error::Error;
use placy::jar::{load_jar, process_jar, write_jar, JarFile};
use placy::placeholders::PlaceholderMap;
use placy::security::{is_windows_reserved_name, safe_join, validate_archive_path};
use placy::text::process_text_file;

fn create_test_archive(files: &[(&str, &[u8])]) -> Vec<u8> {
    let mut buffer = Vec::new();
    {
        let cursor = Cursor::new(&mut buffer);
        let mut zip = zip::ZipWriter::new(cursor);
        let options: zip::write::FileOptions<'_, ()> =
            zip::write::FileOptions::default().compression_method(zip::CompressionMethod::Stored);
        for (name, content) in files {
            zip.start_file(*name, options).unwrap();
            zip.write_all(content).unwrap();
        }
        zip.finish().unwrap();
    }
    buffer
}

fn extract_archive(bytes: &[u8]) -> HashMap<String, Vec<u8>> {
    let cursor = Cursor::new(bytes);
    let mut archive = zip::ZipArchive::new(cursor).unwrap();
    let mut files = HashMap::new();
    for i in 0..archive.len() {
        let mut entry = archive.by_index(i).unwrap();
        if !entry.is_dir() {
            let mut content = Vec::new();
            entry.read_to_end(&mut content).unwrap();
            files.insert(entry.name().to_string(), content);
        }
    }
    files
}

fn table(pairs: &[(&str, &str)]) -> PlaceholderMap {
    let mut m = PlaceholderMap::new();
    for (k, v) in pairs {
        m.insert(k.to_string(), v.to_string());
    }
    m
}

// ---------------------------------------------------------------------------
// Archives
// ---------------------------------------------------------------------------

#[test]
fn test_process_archive_basic() {
    let archive = create_test_archive(&[
        ("config.properties", b"user=%%__USER__%%\n"),
        ("readme.txt", b"Hello %%__USER__%%!\n"),
    ]);
    let config = Config::builder().add_placeholder("%%__USER__%%", "alice").build();
    let output = process_archive(&archive, &config).unwrap();
    let files = extract_archive(&output);
    let config_content = String::from_utf8(files["config.properties"].clone()).unwrap();
    assert!(config_content.contains("user=alice"));
    assert!(!config_content.contains("%%__USER__%%"));
}

#[test]
fn test_process_archive_with_process_txt() {
    let jar1 = create_test_archive(&[("config.txt", b"user=%%__USER__%%\n")]);
    let jar2 = create_test_archive(&[("config.txt", b"user=%%__USER__%%\n")]);
    let archive = create_test_archive(&[
        ("process.txt", b".*plugin.*\\.jar\n"),
        ("libs/plugin-core.jar", &jar1),
        ("libs/utils.jar", &jar2),
    ]);
    let config = Config::builder().add_placeholder("%%__USER__%%", "alice").build();
    let output = process_archive(&archive, &config).unwrap();
    let files = extract_archive(&output);
    assert!(!files.contains_key("process.txt"));
    assert!(files.contains_key("libs/plugin-core.jar"));
    assert!(files.contains_key("libs/utils.jar"));
}

#[test]
fn test_process_archive_with_ignore_txt() {
    let archive = create_test_archive(&[
        ("ignore.txt", b".*\\.log\n.*temp.*\n"),
        ("config.txt", b"user=%%__USER__%%\n"),
        ("debug.log", b"some log content"),
        ("temp/cache.dat", b"cached data"),
    ]);
    let config = Config::builder().add_placeholder("%%__USER__%%", "alice").build();
    let output = process_archive(&archive, &config).unwrap();
    let files = extract_archive(&output);
    assert!(!files.contains_key("ignore.txt"));
    assert!(!files.contains_key("debug.log"));
    assert!(!files.contains_key("temp/cache.dat"));
    assert!(files.contains_key("config.txt"));
    let content = String::from_utf8(files["config.txt"].clone()).unwrap();
    assert!(content.contains("user=alice"));
}

#[test]
fn test_process_archive_path_traversal_blocked() {
    let archive = create_test_archive(&[("../escape.txt", b"malicious")]);
    let config = Config::default();
    let result = process_archive(&archive, &config);
    assert!(result.is_err());
    assert!(matches!(result.unwrap_err(), Error::PathTraversal(_)));
}

#[test]
fn test_process_archive_size_limits() {
    let large_content = vec![0u8; 1024 * 1024];
    let archive = create_test_archive(&[("large.bin", &large_content)]);
    let config = Config::builder().with_max_file_size(1024).build();
    let result = process_archive(&archive, &config);
    assert!(result.is_err());
    assert!(matches!(result.unwrap_err(), Error::SizeLimitExceeded { .. }));
}

#[test]
fn test_normalize_path() {
    assert_eq!(normalize_path("process.txt"), "process.txt");
    assert_eq!(normalize_path("./process.txt"), "process.txt");
    assert_eq!(normalize_path("foo/process.txt"), "process.txt");
    assert_eq!(normalize_path("foo/bar/process.txt"), "process.txt");
}

#[test]
fn archive_too_large_is_refused_with_its_size() {
    let archive = create_test_archive(&[("a.txt", b"hello")]);
    let config = Config::builder().with_max_zip_size(10).build();
    match process_archive(&archive, &config) {
        Err(Error::SizeLimitExceeded { message }) => assert_eq!(
            message,
            format!("Archive size {} bytes exceeds limit of 10 bytes", archive.len())
        ),
        other => panic!("unexpected {:?}", other),
    }
}

#[test]
fn archive_with_too_many_entries_is_refused() {
    let archive = create_test_archive(&[("a.txt", b"a"), ("b.txt", b"b"), ("c.txt", b"c")]);
    let config = Config::builder().with_max_file_count(2).build();
    match process_archive(&archive, &config) {
        Err(Error::FileCountExceeded { found, limit }) => {
            assert_eq!(found, 3);
            assert_eq!(limit, 2);
        },
        other => panic!("unexpected {:?}", other),
    }
}

#[test]
fn archive_that_is_not_a_zip_gives_a_zip_error() {
    let config = Config::default();
    assert!(matches!(process_archive(b"not a zip at all", &config), Err(Error::Zip(_))));
}

#[test]
fn archive_keeps_control_files_when_asked() {
    let archive = create_test_archive(&[
        ("process.txt", b"nothing\n"),
        ("ignore.txt", b"\n"),
        ("a.txt", b"x"),
    ]);
    let config = Config::builder().with_delete_process_file(false).with_delete_ignore_file(false).build();
    let files = extract_archive(&process_archive(&archive, &config).unwrap());
    assert!(files.contains_key("process.txt"));
    assert!(files.contains_key("ignore.txt"));
    assert_eq!(files["a.txt"], b"x".to_vec());
}

#[test]
fn archive_with_a_bad_pattern_gives_invalid_regex() {
    let archive = create_test_archive(&[("ignore.txt", b"(unclosed\n"), ("a.txt", b"x")]);
    let config = Config::default();
    match process_archive(&archive, &config) {
        Err(Error::InvalidRegex { pattern, .. }) => assert_eq!(pattern, "(unclosed"),
        other => panic!("unexpected {:?}", other),
    }
}

#[test]
fn archive_with_a_non_utf8_control_file_is_refused() {
    let archive = create_test_archive(&[("process.txt", &[0xFF, 0xFE, 0xFD])]);
    let config = Config::default();
    match process_archive(&archive, &config) {
        Err(Error::InvalidUtf8 { context, .. }) => assert_eq!(context, "process.txt"),
        other => panic!("unexpected {:?}", other),
    }
}

#[test]
fn archive_zip_bomb_is_refused() {
    let content = vec![b'a'; 200_000];
    let mut buffer = Vec::new();
    {
        let mut zip = zip::ZipWriter::new(Cursor::new(&mut buffer));
        let options: zip::write::FileOptions<'_, ()> =
            zip::write::FileOptions::default().compression_method(zip::CompressionMethod::Deflated);
        zip.start_file("bomb.txt", options).unwrap();
        zip.write_all(&content).unwrap();
        zip.finish().unwrap();
    }
    let config = Config::builder()
        .with_max_compression_ratio(CompressionRatio { numerator: 10, denominator: 1 })
        .build();
    match process_archive(&buffer, &config) {
        Err(Error::SecurityViolation(m)) => {
            assert!(m.starts_with("Possible zip bomb: compression ratio "));
            assert!(m.ends_with(" exceeds limit 10.0"));
        },
        other => panic!("unexpected {:?}", other),
    }
}

// ---------------------------------------------------------------------------
// Configuration
// ---------------------------------------------------------------------------

#[test]
fn test_config_builder() {
    let config = Config::builder()
        .add_placeholder("%%__USER__%%", "test")
        .add_placeholder("%%__TIME__%%", "123")
        .with_max_file_count(500)
        .build();
    assert_eq!(config.placeholders.len(), 2);
    assert_eq!(config.placeholders.get("%%__USER__%%"), Some(&"test".to_string()));
    assert_eq!(config.max_file_count, 500);
}

#[test]
fn test_is_text_extension() {
    let config = Config::default();
    assert!(config.is_text_extension("txt"));
    assert!(config.is_text_extension("TXT"));
    assert!(config.is_text_extension("json"));
    assert!(!config.is_text_extension("class"));
    assert!(!config.is_text_extension("jar"));
}

#[test]
fn test_file_patterns() {
    let patterns =
        FilePatterns::new(&[".*plugin.*\\.jar".to_string()], &[".*test.*".to_string()]).unwrap();
    assert!(patterns.should_process_jar("libs/plugin-core.jar"));
    assert!(!patterns.should_process_jar("libs/utils.jar"));
    assert!(!patterns.should_process_jar("libs/plugin-test.jar"));
}

#[test]
fn test_file_patterns_empty_process() {
    let patterns = FilePatterns::new(&[], &[".*test.*".to_string()]).unwrap();
    assert!(patterns.should_process_jar("libs/plugin.jar"));
    assert!(!patterns.should_process_jar("test-utils.jar"));
}

#[test]
fn test_parse_pattern_file() {
    let content = r#"
            # This is a comment
            .*plugin.*\.jar
            
            .*core.*\.jar
            # Another comment
        "#;
    let patterns = parse_pattern_file(content);
    assert_eq!(patterns.len(), 2);
    assert_eq!(patterns[0], ".*plugin.*\\.jar");
    assert_eq!(patterns[1], ".*core.*\\.jar");
}

#[test]
fn test_parse_size() {
    assert_eq!(parse_size("100MB").unwrap(), 100 * 1024 * 1024);
    assert_eq!(parse_size("10KB").unwrap(), 10 * 1024);
    assert_eq!(parse_size("1GB").unwrap(), 1024 * 1024 * 1024);
    assert_eq!(parse_size("500B").unwrap(), 500);
    assert!(parse_size("invalid").is_err());
}

#[test]
fn parse_size_trims_and_ignores_case() {
    assert_eq!(parse_size("  2mb ").unwrap(), 2 * 1024 * 1024);
    assert_eq!(parse_size("3 kb").unwrap(), 3 * 1024);
}

#[test]
fn parse_size_reports_each_error() {
    match parse_size("12XY") {
        Err(Error::Config(m)) => assert_eq!(m, "Invalid size format '12XY'. Use B, KB, MB, or GB suffix."),
        other => panic!("unexpected {:?}", other),
    }
    match parse_size("abcMB") {
        Err(Error::Config(m)) => assert_eq!(m, "Invalid number in size: ABCMB"),
        other => panic!("unexpected {:?}", other),
    }
    match parse_size("99999999999999999GB") {
        Err(Error::Config(m)) => assert_eq!(m, "Size too large: 99999999999999999GB"),
        other => panic!("unexpected {:?}", other),
    }
}

#[test]
fn builder_without_settings_gives_defaults() {
    let config = Config::builder().build();
    assert_eq!(config.max_zip_size, 104857600);
    assert_eq!(config.max_file_size, 10485760);
    assert_eq!(config.max_file_count, 1000);
    assert_eq!(config.max_compression_ratio.numerator, 100);
    assert_eq!(config.max_compression_ratio.denominator, 1);
    assert!(config.delete_process_file);
    assert!(config.delete_ignore_file);
    assert_eq!(config.text_extensions().len(), 21);
    assert!(config.placeholders().is_empty());
}

#[test]
fn later_placeholder_replaces_earlier_value() {
    let config = Config::builder().add_placeholder("K", "1").add_placeholder("K", "2").build();
    assert_eq!(config.placeholders.len(), 1);
    assert_eq!(config.placeholders.get("K"), Some(&"2".to_string()));
}

#[test]
fn ignored_file_is_never_processed() {
    let patterns = FilePatterns::new(&[".*".to_string()], &["secret".to_string()]).unwrap();
    assert!(patterns.should_ignore("lib/secret.jar"));
    assert!(!patterns.should_process_jar("lib/secret.jar"));
    assert!(patterns.should_process_jar("lib/open.jar"));
}

#[test]
fn invalid_pattern_reports_its_text() {
    match FilePatterns::new(&["  [bad  ".to_string()], &[]) {
        Err(Error::InvalidRegex { pattern, .. }) => assert_eq!(pattern, "  [bad  "),
        other => panic!("unexpected {:?}", other.map(|_| ())),
    }
}

// ---------------------------------------------------------------------------
// JARs
// ---------------------------------------------------------------------------

#[test]
fn test_load_jar_basic() {
    let jar_bytes = create_test_archive(&[
        ("META-INF/MANIFEST.MF", b"Manifest-Version: 1.0\n"),
        ("config.properties", b"user=%%__USER__%%\n"),
    ]);
    let config = Config::default();
    let jar = load_jar(&jar_bytes, &config).unwrap();
    assert_eq!(jar.classes.len(), 0);
    assert_eq!(jar.resources.len(), 2);
}

#[test]
fn test_load_jar_path_traversal_blocked() {
    let jar_bytes = create_test_archive(&[("../escape.txt", b"malicious")]);
    let config = Config::default();
    let result = load_jar(&jar_bytes, &config);
    assert!(result.is_err());
    assert!(matches!(result.unwrap_err(), Error::PathTraversal(_)));
}

#[test]
fn test_load_jar_size_limit() {
    let large_content = vec![0u8; 1024 * 1024];
    let jar_bytes = create_test_archive(&[("large.bin", &large_content)]);
    let config = Config::builder().with_max_file_size(1024).build();
    let result = load_jar(&jar_bytes, &config);
    assert!(result.is_err());
    assert!(matches!(result.unwrap_err(), Error::SizeLimitExceeded { .. }));
}

#[test]
fn test_load_jar_file_count_limit() {
    let names: Vec<String> = (0..10).map(|i| format!("file{i}.txt")).collect();
    let files: Vec<(&str, &[u8])> = names.iter().map(|n| (n.as_str(), b"content" as &[u8])).collect();
    let jar_bytes = create_test_archive(&files);
    let config = Config::builder().with_max_file_count(5).build();
    let result = load_jar(&jar_bytes, &config);
    assert!(result.is_err());
    assert!(matches!(result.unwrap_err(), Error::FileCountExceeded { .. }));
}

#[test]
fn test_write_jar_roundtrip() {
    let original = JarFile {
        classes: vec![],
        resources: vec![("test.txt".to_string(), b"hello".to_vec())],
    };
    let bytes = write_jar(&original).unwrap();
    let config = Config::default();
    let loaded = load_jar(&bytes, &config).unwrap();
    assert_eq!(loaded.resources.len(), 1);
    assert_eq!(loaded.resources[0].0, "test.txt");
    assert_eq!(loaded.resources[0].1, b"hello");
}

#[test]
fn test_process_jar_text_replacement() {
    let jar_bytes =
        create_test_archive(&[("config.properties", b"username=%%__USER__%%\nid=%%__ID__%%\n")]);
    let config = Config::builder()
        .add_placeholder("%%__USER__%%", "alice")
        .add_placeholder("%%__ID__%%", "12345")
        .build();
    let output = process_jar(&jar_bytes, &config).unwrap();
    let result = load_jar(&output, &Config::default()).unwrap();
    let content = String::from_utf8(result.resources[0].1.clone()).unwrap();
    assert!(content.contains("username=alice"));
    assert!(content.contains("id=12345"));
    assert!(!content.contains("%%__USER__%%"));
}

#[test]
fn load_jar_splits_classes_from_resources_in_order() {
    let jar_bytes = create_test_archive(&[
        ("b/B.class", b"\xCA\xFE"),
        ("a.txt", b"a"),
        ("a/A.class", b"\xCA\xFE\xBA"),
        ("z.properties", b"z"),
    ]);
    let jar = load_jar(&jar_bytes, &Config::default()).unwrap();
    let class_names: Vec<&str> = jar.classes.iter().map(|c| c.0.as_str()).collect();
    let other_names: Vec<&str> = jar.resources.iter().map(|c| c.0.as_str()).collect();
    assert_eq!(class_names, vec!["b/B.class", "a/A.class"]);
    assert_eq!(other_names, vec!["a.txt", "z.properties"]);
    assert_eq!(jar.len(), 4);
    assert!(!jar.is_empty());
    assert!(JarFile::new().is_empty());
}

#[test]
fn load_jar_refuses_an_oversized_jar() {
    let jar_bytes = create_test_archive(&[("a.txt", b"a")]);
    let config = Config::builder().with_max_zip_size(5).build();
    match load_jar(&jar_bytes, &config) {
        Err(Error::SizeLimitExceeded { message }) => assert_eq!(
            message,
            format!("JAR size {} bytes exceeds limit of 5 bytes", jar_bytes.len())
        ),
        other => panic!("unexpected {:?}", other),
    }
}

#[test]
fn process_jar_with_a_broken_class_fails() {
    let jar_bytes = create_test_archive(&[("Broken.class", b"not a class file")]);
    let result = process_jar(&jar_bytes, &Config::default());
    assert!(matches!(result, Err(Error::ClassFile(_))));
}

#[test]
fn test_empty_placeholders() {
    let placeholders = PlaceholderMap::new();
    assert!(placeholders.is_empty());
}

// ---------------------------------------------------------------------------
// Security
// ---------------------------------------------------------------------------

#[test]
fn test_valid_paths() {
    assert!(validate_archive_path("foo.class").is_ok());
    assert!(validate_archive_path("com/example/Main.class").is_ok());
    assert!(validate_archive_path("META-INF/MANIFEST.MF").is_ok());
    assert!(validate_archive_path("resources/data.json").is_ok());
}

#[test]
fn test_parent_traversal() {
    assert!(validate_archive_path("../escape.txt").is_err());
    assert!(validate_archive_path("foo/../bar").is_err());
    assert!(validate_archive_path("foo/bar/../../escape").is_err());
    assert!(validate_archive_path("..").is_err());
}

#[test]
fn test_absolute_paths() {
    assert!(validate_archive_path("/etc/passwd").is_err());
    assert!(validate_archive_path("/absolute/path").is_err());
    assert!(validate_archive_path("C:\\Windows\\System32").is_err());
    assert!(validate_archive_path("\\\\server\\share").is_err());
}

#[test]
fn test_null_bytes() {
    assert!(validate_archive_path("foo\0bar.txt").is_err());
    assert!(validate_archive_path("\0").is_err());
}

#[test]
fn test_empty_path() {
    assert!(validate_archive_path("").is_err());
}

#[test]
fn test_windows_reserved() {
    assert!(validate_archive_path("CON").is_err());
    assert!(validate_archive_path("PRN.txt").is_err());
    assert!(validate_archive_path("COM1").is_err());
    assert!(validate_archive_path("LPT1").is_err());
    assert!(validate_archive_path("NUL").is_err());
}

#[test]
fn test_current_dir_normalized() {
    let result = validate_archive_path("./foo/./bar").unwrap();
    assert_eq!(result, "foo/bar");
}

#[test]
fn test_deep_nesting() {
    let deep_path = (0..60).map(|i| format!("d{i}")).collect::<Vec<_>>().join("/");
    assert!(validate_archive_path(&deep_path).is_err());
}

#[test]
fn test_long_path() {
    let long_name = "a".repeat(5000);
    assert!(validate_archive_path(&long_name).is_err());
}

#[test]
fn validate_archive_path_messages() {
    match validate_archive_path("foo\0bar") {
        Err(Error::PathTraversal(m)) => assert_eq!(m, "Null byte in path: foo\\0bar"),
        other => panic!("unexpected {:?}", other),
    }
    match validate_archive_path("") {
        Err(Error::PathTraversal(m)) => assert_eq!(m, "Empty path"),
        other => panic!("unexpected {:?}", other),
    }
    match validate_archive_path("/etc/passwd") {
        Err(Error::PathTraversal(m)) => assert_eq!(m, "Absolute path not allowed: /etc/passwd"),
        other => panic!("unexpected {:?}", other),
    }
    match validate_archive_path("a/../b") {
        Err(Error::PathTraversal(m)) => assert_eq!(m, "Parent directory traversal not allowed: a/../b"),
        other => panic!("unexpected {:?}", other),
    }
    match validate_archive_path("./.") {
        Err(Error::PathTraversal(m)) => assert_eq!(m, "Path normalizes to empty: ./."),
        other => panic!("unexpected {:?}", other),
    }
    match validate_archive_path("dir/aux.txt") {
        Err(Error::PathTraversal(m)) => assert_eq!(m, "Reserved filename not allowed: aux.txt"),
        other => panic!("unexpected {:?}", other),
    }
}

#[test]
fn depth_of_fifty_is_allowed() {
    let ok_path = (0..50).map(|i| format!("d{i}")).collect::<Vec<_>>().join("/");
    assert_eq!(validate_archive_path(&ok_path).unwrap(), ok_path);
}

#[test]
fn windows_reserved_names() {
    assert!(is_windows_reserved_name("con"));
    assert!(is_windows_reserved_name("Lpt9.log"));
    assert!(!is_windows_reserved_name("console"));
    assert!(!is_windows_reserved_name("COM0"));
}

#[test]
fn safe_join_stays_in_base() {
    assert_eq!(safe_join("/base", "./a/b.txt").unwrap(), "/base/a/b.txt");
    assert!(matches!(safe_join("/base", "a/../../x"), Err(Error::PathTraversal(_))));
    assert!(matches!(safe_join("/base", "/etc/passwd"), Err(Error::PathTraversal(_))));
}

// ---------------------------------------------------------------------------
// Text
// ---------------------------------------------------------------------------

#[test]
fn test_utf8_replacement() {
    let content = b"Hello %%__USER__%%, your id is %%__ID__%%";
    let placeholders = table(&[("%%__USER__%%", "Alice"), ("%%__ID__%%", "12345")]);
    let result = process_text_file(content, &placeholders).unwrap();
    assert!(result.is_some());
    assert_eq!(String::from_utf8(result.unwrap()).unwrap(), "Hello Alice, your id is 12345");
}

#[test]
fn test_no_replacement_needed() {
    let content = b"Hello World";
    let placeholders = table(&[("%%__USER__%%", "Alice")]);
    let result = process_text_file(content, &placeholders).unwrap();
    assert!(result.is_none());
}

#[test]
fn test_utf16_le_with_bom() {
    let text = "Hello %%__USER__%%";
    let mut content = vec![0xFF, 0xFE];
    for u in text.encode_utf16() {
        content.extend_from_slice(&u.to_le_bytes());
    }
    let placeholders = table(&[("%%__USER__%%", "Bob")]);
    let result = process_text_file(&content, &placeholders).unwrap();
    assert!(result.is_some());
    let result_bytes = result.unwrap();
    assert_eq!(&result_bytes[0..2], &[0xFF, 0xFE]);
}

#[test]
fn test_binary_file_unchanged() {
    let content = vec![0x80, 0x81, 0x82, 0x83, 0x84];
    let placeholders = table(&[("%%__USER__%%", "Alice")]);
    let result = process_text_file(&content, &placeholders).unwrap();
    assert!(result.is_none());
}

#[test]
fn utf16_le_with_bom_gives_exact_bytes() {
    let mut content = vec![0xFF, 0xFE];
    for u in "x%P%y".encode_utf16() {
        content.extend_from_slice(&u.to_le_bytes());
    }
    let placeholders = table(&[("%P%", "Q")]);
    let out = process_text_file(&content, &placeholders).unwrap().unwrap();
    let mut expected = vec![0xFF, 0xFE];
    for u in "xQy".encode_utf16() {
        expected.extend_from_slice(&u.to_le_bytes());
    }
    assert_eq!(out, expected);
}

#[test]
fn utf16_be_without_bom_is_replaced() {
    let mut content = Vec::new();
    for u in "\u{e9} %P%".encode_utf16() {
        content.extend_from_slice(&u.to_be_bytes());
    }
    let placeholders = table(&[("%P%", "ok")]);
    let out = process_text_file(&content, &placeholders).unwrap().unwrap();
    let mut expected = Vec::new();
    for u in "\u{e9} ok".encode_utf16() {
        expected.extend_from_slice(&u.to_be_bytes());
    }
    assert_eq!(out, expected);
}

#[test]
fn placeholders_are_replaced_in_table_order() {
    let placeholders = table(&[("A", "B"), ("B", "C")]);
    let out = process_text_file(b"A", &placeholders).unwrap().unwrap();
    assert_eq!(out, b"C".to_vec());
}

#[test]
fn empty_key_is_inserted_between_characters() {
    let placeholders = table(&[("", "-")]);
    let out = process_text_file("ab".as_bytes(), &placeholders).unwrap().unwrap();
    assert_eq!(String::from_utf8(out).unwrap(), "-a-b-");
}

#[test]
fn error_display_texts() {
    assert_eq!(Error::Config("x".to_string()).message(), "Configuration error: x");
    assert_eq!(
        Error::FileCountExceeded { found: 12, limit: 3 }.message(),
        "File count limit exceeded: found 12, maximum is 3"
    );
    assert_eq!(
        Error::InvalidRegex { pattern: "(".to_string(), message: "m".to_string() }.message(),
        "Invalid regex pattern '(': m"
    );
    assert_eq!(Error::PathTraversal("p".to_string()).message(), "Path traversal detected in entry: p");
    assert_eq!(
        Error::InvalidUtf8 { context: "c".to_string(), details: "d".to_string() }.message(),
        "Invalid UTF-8 in c: d"
    );
}

#[test]
fn empty_table_changes_no_text() {
    let placeholders = PlaceholderMap::new();
    assert!(process_text_file(b"Hello %%__USER__%%", &placeholders).unwrap().is_none());
    let mut utf16 = vec![0xFF, 0xFE];
    for u in "x".encode_utf16() {
        utf16.extend_from_slice(&u.to_le_bytes());
    }
    assert!(process_text_file(&utf16, &placeholders).unwrap().is_none());
}

#[test]
fn processed_archive_keeps_order_and_directories() {
    let mut buffer = Vec::new();
    {
        let mut zip = zip::ZipWriter::new(Cursor::new(&mut buffer));
        let options: zip::write::FileOptions<'_, ()> =
            zip::write::FileOptions::default().compression_method(zip::CompressionMethod::Stored);
        zip.add_directory("conf/", options).unwrap();
        zip.start_file("conf/app.yml", options).unwrap();
        zip.write_all(b"name: %N%").unwrap();
        zip.start_file("data.bin", options).unwrap();
        zip.write_all(b"%N%").unwrap();
        zip.finish().unwrap();
    }
    let config = Config::builder().add_placeholder("%N%", "placy").build();
    let output = process_archive(&buffer, &config).unwrap();
    let mut archive = zip::ZipArchive::new(Cursor::new(output)).unwrap();
    let mut seen = Vec::new();
    for i in 0..archive.len() {
        let mut f = archive.by_index(i).unwrap();
        let mut d = Vec::new();
        f.read_to_end(&mut d).unwrap();
        seen.push((f.name().to_string(), f.is_dir(), d));
    }
    assert_eq!(seen, vec![
        ("conf/".to_string(), true, vec![]),
        ("conf/app.yml".to_string(), false, b"name: placy".to_vec()),
        ("data.bin".to_string(), false, b"%N%".to_vec()),
    ]);
}

fn test_class_bytes(texts: &[&str]) -> Vec<u8> {
    let mut pool = ristretto_classfile::ConstantPool::new();
    let this_class = pool.add_class("Hello").unwrap();
    let super_class = pool.add_class("java/lang/Object").unwrap();
    for t in texts {
        pool.add_utf8(*t).unwrap();
    }
    let class = ristretto_classfile::ClassFile {
        version: ristretto_classfile::Version::Java8 { minor: 0 },
        constant_pool: pool,
        access_flags: ristretto_classfile::ClassAccessFlags::PUBLIC | ristretto_classfile::ClassAccessFlags::SUPER,
        this_class,
        super_class,
        ..Default::default()
    };
    let mut out = Vec::new();
    class.to_bytes(&mut out).unwrap();
    out
}

fn utf8_texts(bytes: &[u8]) -> Vec<String> {
    let class = ristretto_classfile::ClassFile::from_bytes(&mut Cursor::new(bytes.to_vec())).unwrap();
    class
        .constant_pool
        .iter()
        .filter_map(|c| match c {
            ristretto_classfile::Constant::Utf8(s) => Some(s.clone()),
            _ => None,
        })
        .collect()
}

#[test]
fn class_constants_replaced_whole_text_only() {
    let bytes = test_class_bytes(&["%%__USER__%%", "keep %%__USER__%%"]);
    let mut p = PlaceholderMap::new();
    p.insert("%%__USER__%%".to_string(), "alice".to_string());
    let out = placy::processor::process_class_bytes(&bytes, &p).unwrap();
    let texts = utf8_texts(&out);
    assert!(texts.contains(&"alice".to_string()));
    assert!(texts.contains(&"keep %%__USER__%%".to_string()));
    assert!(!texts.contains(&"%%__USER__%%".to_string()));
    assert!(texts.contains(&"Hello".to_string()));
    assert!(texts.contains(&"java/lang/Object".to_string()));
}

#[test]
fn class_without_placeholders_keeps_constants() {
    let bytes = test_class_bytes(&["%%__USER__%%"]);
    let p = PlaceholderMap::new();
    let out = placy::processor::process_class_bytes(&bytes, &p).unwrap();
    assert_eq!(utf8_texts(&out), utf8_texts(&bytes));
    assert!(placy::processor::process_class_bytes(b"garbage", &p).is_err());
}

#[test]
fn load_jar_error_kind_for_bad_entry() {
    let bytes = create_test_archive(&[("ok.txt", b"1"), ("../escape.txt", b"x")]);
    match load_jar(&bytes, &Config::default()) {
        Err(Error::PathTraversal(_)) => {},
        other => panic!("unexpected {:?}", other.map(|_| ())),
    }
}

#[test]
fn normalized_path_validates_to_itself() {
    for p in ["./a/./b//c.txt", "dir/file.class", "a/b/"] {
        let n = validate_archive_path(p).unwrap();
        assert_eq!(validate_archive_path(&n).unwrap(), n);
    }
}

#[test]
fn size_whitespace_case_and_units() {
    assert_eq!(parse_size(" \t10kb \n").unwrap(), parse_size("10KB").unwrap());
    assert_eq!(parse_size("5mb").unwrap(), parse_size("5MB").unwrap());
    assert_eq!(parse_size("7KB").unwrap(), 1024 * parse_size("7B").unwrap());
    assert_eq!(parse_size("7B").unwrap(), 7);
}

#[test]
fn pattern_file_reads_back_its_patterns() {
    let r = parse_pattern_file("# c\n  a.*\\.jar \r\n\n b \n#x\n");
    assert_eq!(r, vec!["a.*\\.jar".to_string(), "b".to_string()]);
    assert_eq!(parse_pattern_file(&r.join("\n")), r);
}
