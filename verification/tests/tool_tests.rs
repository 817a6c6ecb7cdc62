use std::io::{Cursor, Read, Write};

use placy::placeholders::PlaceholderMap;
use placy::tool::config::{create_default_placeholders, parse_arguments, parse_size, Config, PathFacts};
use placy::tool::jar::{load_jar_in_memory, write_jar, JarMemory};
use placy::tool::processor::{process_classes, process_utf_files};
use placy::tool::zip_operations::{
    create_zip, extract_zip, jar_full_paths, read_process_file, validate_jar_paths, ExtractStep,
    PathStatus,
};

fn create_test_archive(files: &[(&str, &[u8])]) -> Vec<u8> {
    let mut buffer = Vec::new();
    {
        let mut zip = zip::ZipWriter::new(Cursor::new(&mut buffer));
        let options: zip::write::FileOptions<'_, ()> =
            zip::write::FileOptions::default().compression_method(zip::CompressionMethod::Stored);
        for (name, content) in files {
            if name.ends_with('/') {
                zip.add_directory(*name, options).unwrap();
            } else {
                zip.start_file(*name, options).unwrap();
                zip.write_all(content).unwrap();
            }
        }
        zip.finish().unwrap();
    }
    buffer
}

fn args(items: &[&str]) -> Vec<String> {
    items.iter().map(|s| s.to_string()).collect()
}

#[test]
fn config_test_parse_size() {
    assert_eq!(parse_size("100MB").unwrap(), 100 * 1024 * 1024);
    assert_eq!(parse_size("10MB").unwrap(), 10 * 1024 * 1024);
    assert_eq!(parse_size("1KB").unwrap(), 1024);
    assert_eq!(parse_size("1GB").unwrap(), 1024 * 1024 * 1024);
}

#[test]
fn config_test_config_builder() {
    let config = Config::new("test.jar".to_string())
        .with_maximum_allowed_files(50)
        .with_maximum_zip_size(200 * 1024 * 1024);
    assert_eq!(config.maximum_allowed_files, 50);
    assert_eq!(config.maximum_zip_size, 200 * 1024 * 1024);
}

#[test]
fn test_validate_jar_paths() {
    let paths = vec!["libs/a.jar".to_string(), "b.jar".to_string()];
    let full = jar_full_paths(&paths, "extracted");
    assert_eq!(full, vec!["extracted/libs/a.jar".to_string(), "extracted/b.jar".to_string()]);
    let ok = validate_jar_paths(&paths, "extracted", &[PathStatus::File, PathStatus::File]).unwrap();
    assert_eq!(ok, full);
    assert_eq!(
        validate_jar_paths(&paths, "extracted", &[PathStatus::File, PathStatus::Missing]).unwrap_err(),
        "JAR file not found: b.jar (full path: extracted/b.jar)"
    );
    assert_eq!(
        validate_jar_paths(&paths, "extracted", &[PathStatus::NotFile, PathStatus::Missing]).unwrap_err(),
        "Path is not a file: extracted/libs/a.jar"
    );
    let outside = vec!["/tmp/evil.jar".to_string()];
    assert_eq!(
        validate_jar_paths(&outside, "extracted_temp", &[PathStatus::File]).unwrap_err(),
        "Security violation: file path escapes extraction directory: /tmp/evil.jar"
    );
    let climbing = vec!["../evil.jar".to_string()];
    assert_eq!(
        validate_jar_paths(&climbing, "extracted_temp", &[PathStatus::File]).unwrap_err(),
        "Security violation: file path escapes extraction directory: ../evil.jar"
    );
    let not_jar = vec!["notes.txt".to_string()];
    assert_eq!(
        validate_jar_paths(&not_jar, "extracted", &[PathStatus::File]).unwrap_err(),
        "File is not a JAR file: extracted/notes.txt"
    );
}

#[test]
fn tool_parse_size_errors_and_one_unit() {
    assert_eq!(parse_size(" 2kb ").unwrap(), 2048);
    assert_eq!(parse_size("1MBMB").unwrap_err(), "Failed to parse number from: 1MBMB");
    assert_eq!(parse_size("MB").unwrap_err(), "Failed to parse number from: MB");
    assert_eq!(parse_size("10").unwrap_err(), "Invalid size format: 10. Use KB, MB, or GB");
    assert_eq!(parse_size("5B").unwrap_err(), "Invalid size format: 5B. Use KB, MB, or GB");
    assert_eq!(parse_size("xMB").unwrap_err(), "Failed to parse number from: XMB");
}

#[test]
fn tool_config_defaults_and_workflows() {
    let c = Config::new("bundle.zip".to_string());
    assert_eq!(c.output_path, "output.zip");
    assert!(c.is_zip_workflow());
    assert!(!c.is_jar_workflow());
    let j = Config::new("app.jar".to_string());
    assert_eq!(j.output_path, "output.jar");
    assert!(j.is_jar_workflow());
    assert_eq!(j.maximum_allowed_files, 20);
    assert_eq!(j.maximum_zip_size, 104857600);
    assert_eq!(j.maximum_file_size, 10485760);
    assert_eq!(j.temp_extract_dir, "extracted_temp");
    assert!(j.delete_process_file);
    let d = Config::default();
    assert_eq!(d.input_path, "input.jar");
}

#[test]
fn tool_config_validation_messages() {
    let good = PathFacts { input_exists: true, input_size: Some(10), output_parent_exists: true };
    let c = Config::new("in.jar".to_string());
    assert!(c.validate(&good).is_ok());
    let missing = PathFacts { input_exists: false, ..good };
    assert_eq!(c.validate(&missing).unwrap_err(), "Input file does not exist: in.jar");
    let noext = Config::new("input".to_string());
    assert_eq!(noext.validate(&good).unwrap_err(), "Input file has no extension");
    let txt = Config::new("in.txt".to_string());
    assert_eq!(txt.validate(&good).unwrap_err(), "Input file must be a .jar or .zip file, got: .txt");
    let big = PathFacts { input_size: Some(200), ..good };
    let z = Config::new("in.zip".to_string()).with_maximum_zip_size(100);
    assert_eq!(
        z.validate(&big).unwrap_err(),
        "ZIP file size (200 bytes) exceeds maximum allowed size (100 bytes)"
    );
    let nometa = PathFacts { input_size: None, ..good };
    assert_eq!(c.validate(&nometa).unwrap_err(), "Failed to read input file metadata");
    let zero = Config::new("in.jar".to_string()).with_maximum_allowed_files(0);
    assert_eq!(zero.validate(&good).unwrap_err(), "maximum_allowed_files must be greater than 0");
    let out = Config::new("in.jar".to_string()).with_output_path("out/dir/x.jar".to_string());
    let no_parent = PathFacts { output_parent_exists: false, ..good };
    assert_eq!(out.validate(&no_parent).unwrap_err(), "Output directory does not exist: out/dir");
    let plain = Config::new("in.jar".to_string()).with_output_path("x.jar".to_string());
    assert!(plain.validate(&no_parent).is_ok());
}

#[test]
fn tool_default_placeholders() {
    let p = create_default_placeholders();
    assert_eq!(p.len(), 3);
    assert_eq!(p.get("%%__USERNAME__%%"), Some(&"harfull".to_string()));
    assert_eq!(p.get("%%__TIMESTAMP__%%"), Some(&"1696118400".to_string()));
    assert_eq!(p.get("%%__NONCE__%%"), Some(&"a94f3bc19d7e4fa0b2c4e8fd91a7c3de".to_string()));
}

#[test]
fn tool_parse_arguments_options() {
    let c = parse_arguments(&args(&[
        "prog", "in.zip", "-o", "out.zip", "--max-files", "7", "--max-zip-size", "2MB",
        "--max-file-size", "3KB", "--keep-process-file", "-p", "K", "V",
    ]))
    .unwrap();
    assert_eq!(c.input_path, "in.zip");
    assert_eq!(c.output_path, "out.zip");
    assert_eq!(c.maximum_allowed_files, 7);
    assert_eq!(c.maximum_zip_size, 2 * 1024 * 1024);
    assert_eq!(c.maximum_file_size, 3 * 1024);
    assert!(!c.delete_process_file);
    assert_eq!(c.placeholders.len(), 4);
    assert_eq!(c.placeholders.get("K"), Some(&"V".to_string()));
}

#[test]
fn tool_parse_arguments_errors() {
    assert_eq!(parse_arguments(&args(&["p", "a.jar", "-o"])).unwrap_err(), "Missing value for --output flag");
    assert_eq!(parse_arguments(&args(&["p", "a.jar", "--max-files", "x"])).unwrap_err(), "Invalid value for --max-files");
    assert_eq!(parse_arguments(&args(&["p", "a.jar", "--max-zip-size", "1TB"])).unwrap_err(), "Invalid max-zip-size");
    assert_eq!(parse_arguments(&args(&["p", "a.jar", "-p", "k"])).unwrap_err(), "--placeholder requires two arguments: key and value");
    assert_eq!(parse_arguments(&args(&["p", "a.jar", "--bogus"])).unwrap_err(), "Unknown argument: --bogus");
}

#[test]
fn tool_load_and_write_jar_in_memory() {
    let bytes = create_test_archive(&[("META-INF/", b""), ("A.class", b"\xCA\xFE"), ("r.txt", b"x")]);
    let jar = load_jar_in_memory(bytes).unwrap();
    assert_eq!(jar.classes.len(), 1);
    assert_eq!(jar.classes[0].0, "A.class");
    let names: Vec<&str> = jar.other_files.iter().map(|f| f.0.as_str()).collect();
    assert_eq!(names, vec!["META-INF/", "r.txt"]);
    let again = load_jar_in_memory(write_jar(&jar).unwrap()).unwrap();
    assert_eq!(again.classes, jar.classes);
    assert!(load_jar_in_memory(b"nope".to_vec()).is_err());
}

#[test]
fn tool_process_utf_files_by_extension() {
    let mut jar = JarMemory {
        classes: vec![],
        other_files: vec![
            ("a.TXT".to_string(), b"u=%U%".to_vec()),
            ("b.bin".to_string(), b"u=%U%".to_vec()),
            ("noext".to_string(), b"u=%U%".to_vec()),
        ],
    };
    let mut p = PlaceholderMap::new();
    p.insert("%U%".to_string(), "bob".to_string());
    process_utf_files(&mut jar, &p, None).unwrap();
    assert_eq!(jar.other_files[0].1, b"u=bob".to_vec());
    assert_eq!(jar.other_files[1].1, b"u=%U%".to_vec());
    assert_eq!(jar.other_files[2].1, b"u=%U%".to_vec());
    let only_bin = vec!["bin".to_string()];
    process_utf_files(&mut jar, &p, Some(&only_bin)).unwrap();
    assert_eq!(jar.other_files[1].1, b"u=bob".to_vec());
}

#[test]
fn tool_process_classes_rejects_garbage() {
    let mut jar = JarMemory {
        classes: vec![("X.class".to_string(), b"garbage".to_vec())],
        other_files: vec![("r.txt".to_string(), b"r".to_vec())],
    };
    let p = PlaceholderMap::new();
    assert!(process_classes(&mut jar, &p).is_err());
    assert_eq!(jar.other_files.len(), 1);
    let mut empty = JarMemory { classes: vec![], other_files: vec![] };
    assert!(process_classes(&mut empty, &p).is_ok());
}

#[test]
fn tool_extract_plan() {
    let bytes = create_test_archive(&[("d/", b""), ("d/a.txt", b"hello"), ("b.txt", b"x")]);
    let config = Config::new("in.zip".to_string());
    let steps = extract_zip(&bytes, "out", &config).unwrap();
    assert_eq!(steps.len(), 3);
    assert!(matches!(&steps[0], ExtractStep::Directory(p) if p == "out/d/"));
    assert!(matches!(&steps[1], ExtractStep::File(p, d) if p == "out/d/a.txt" && d == b"hello"));
    let small = Config::new("in.zip".to_string()).with_maximum_file_size(2);
    let steps = extract_zip(&bytes, "out", &small).unwrap();
    assert_eq!(steps.len(), 2);
    assert!(matches!(&steps[1], ExtractStep::Fail(m)
        if m == "File 'd/a.txt' size (5 bytes) exceeds maximum allowed size (2 bytes)"));
    let few = Config::new("in.zip".to_string()).with_maximum_allowed_files(2);
    assert_eq!(extract_zip(&bytes, "out", &few).unwrap_err(), "ZIP contains 3 files, exceeding maximum of 2");
    let tiny = Config::new("in.zip".to_string()).with_maximum_zip_size(3);
    assert_eq!(
        extract_zip(&bytes, "out", &tiny).unwrap_err(),
        format!("ZIP file size ({} bytes) exceeds maximum allowed size (3 bytes)", bytes.len())
    );
    let escape = create_test_archive(&[("/abs.txt", b"x")]);
    let steps = extract_zip(&escape, "out", &config).unwrap();
    assert!(matches!(&steps[0], ExtractStep::Fail(m)
        if m == "Security violation: file path escapes extraction directory: /abs.txt"));
    let climbing = create_test_archive(&[("ok.txt", b"1"), ("../escape.txt", b"malicious")]);
    let steps = extract_zip(&climbing, "out", &config).unwrap();
    assert_eq!(steps.len(), 2);
    assert!(matches!(&steps[0], ExtractStep::File(p, d) if p == "out/ok.txt" && d == b"1"));
    assert!(matches!(&steps[1], ExtractStep::Fail(m)
        if m == "Security violation: file path escapes extraction directory: ../escape.txt"));
}

#[test]
fn tool_read_process_file() {
    assert_eq!(
        read_process_file(b"# jars\nlibs/a.jar\r\n\n  b.jar  \n").unwrap(),
        vec!["libs/a.jar".to_string(), "b.jar".to_string()]
    );
    assert_eq!(read_process_file(b"# none\n\n").unwrap_err(), "process.txt contains no valid JAR file paths");
    assert_eq!(read_process_file(&[0xFF, 0x0A]).unwrap_err(), "Failed to read lines from process.txt");
}

#[test]
fn tool_create_zip() {
    let config = Config::new("in.zip".to_string());
    let files = vec![("dir\\a.txt".to_string(), b"A".to_vec()), ("b.txt".to_string(), b"B".to_vec())];
    let bytes = create_zip(&files, &config).unwrap();
    let mut archive = zip::ZipArchive::new(Cursor::new(bytes)).unwrap();
    let mut names = Vec::new();
    for i in 0..archive.len() {
        let mut f = archive.by_index(i).unwrap();
        let mut d = Vec::new();
        f.read_to_end(&mut d).unwrap();
        names.push((f.name().to_string(), d));
    }
    assert_eq!(names, vec![("dir/a.txt".to_string(), b"A".to_vec()), ("b.txt".to_string(), b"B".to_vec())]);
    let small = Config::new("in.zip".to_string()).with_maximum_file_size(0);
    assert_eq!(
        create_zip(&files, &small).unwrap_err(),
        "File 'dir/a.txt' size (1 bytes) exceeds maximum allowed size (0 bytes)"
    );
}
