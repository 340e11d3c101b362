//! Filename sanitization and cache-file paths.

use threatflux_cache::backends::filesystem::FilesystemBackend;
use threatflux_cache::storage::SerializationFormat;

#[test]
fn test_filename_sanitization() {
    let cases = [
        ("../etc/passwd", "_._etc_passwd"),
        ("file\\name", "file_name"),
        ("file:name", "file_name"),
        ("file*name", "file_name"),
        ("file?name", "file_name"),
        ("file\"name", "file_name"),
        ("file<name>", "file_name_"),
        ("file|name", "file_name"),
        (".hidden", "_hidden"),
        ("...", "_"),
        ("", ""),
        ("   ", ""),
    ];
    for (input, expected) in cases {
        assert_eq!(FilesystemBackend::sanitize_filename(input).as_str(), expected);
    }

    let result = FilesystemBackend::sanitize_filename("../etc/passwd");
    assert!(!result.contains('/'));
    assert!(!result.contains('\\'));
    assert!(!result.starts_with('.'));
}

#[test]
fn control_characters_are_replaced() {
    assert_eq!(
        FilesystemBackend::sanitize_filename("a\u{1}b").as_str(),
        "a_b"
    );
}

#[test]
fn cache_file_paths_stay_inside_the_base_directory() {
    let backend = FilesystemBackend::at_path("/tmp/cache-dir".to_string());

    let malicious_keys = [
        "../etc/passwd",
        "..\\windows\\system32\\config\\sam",
        "/etc/shadow",
        "C:\\Windows\\System32\\config\\SAM",
        "../../sensitive_file",
        "./../../../etc/hosts",
        "../",
        "..",
        "test/../../../etc/passwd",
        "normal_file/../../../etc/passwd",
    ];

    for malicious_key in malicious_keys {
        let path = backend.get_cache_file_path(malicious_key);
        assert!(path.starts_with("/tmp/cache-dir/"));
        let filename = &path["/tmp/cache-dir/".len()..];
        assert!(!filename.contains('/') && !filename.contains('\\'));
    }
}

#[test]
fn file_paths_and_classification() {
    let backend =
        FilesystemBackend::at_path("/data".to_string()).with_format(SerializationFormat::Json);

    assert_eq!(backend.get_cache_file_path("good"), "/data/good.json");
    // An empty sanitized key falls back to a fixed stem.
    assert_eq!(backend.get_cache_file_path("..."), "/data/_.json");
    assert_eq!(backend.get_cache_file_path(""), "/data/cache_entry.json");
    assert_eq!(backend.get_metadata_path(), "/data/metadata.json");

    assert!(backend.is_cache_file_path("good.json"));
    assert!(backend.is_cache_file_path("a.b.json"));
    assert!(!backend.is_cache_file_path("metadata.json"));
    assert!(!backend.is_cache_file_path("good.bin"));
    assert!(!backend.is_cache_file_path(".json"));

    let backend = backend.with_format(SerializationFormat::Bincode);
    assert_eq!(backend.get_cache_file_path("good"), "/data/good.bin");
    assert!(backend.is_cache_file_path("good.bin"));
    assert!(!backend.is_cache_file_path("good.json"));
}
