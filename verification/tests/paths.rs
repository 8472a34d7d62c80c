use oss_drop::ordered::PrefixSet;
use oss_drop::paths::{collect_prefixes_from_key, normalize_prefix, validate_upload_path, UploadPathError};

fn prefixes_of(key: &str) -> Vec<String> {
    let mut set = PrefixSet::new();
    collect_prefixes_from_key(key, &mut set);
    set.into_sorted_vec()
}

#[test]
fn normalize_prefix_drops_blank_and_dot_segments() {
    assert_eq!(normalize_prefix(" /a// b /./../c/ "), "a/b/c/");
    assert_eq!(normalize_prefix("a/b"), "a/b/");
    assert_eq!(normalize_prefix("./.."), "");
    assert_eq!(normalize_prefix(""), "");
    assert_eq!(normalize_prefix("///"), "");
}

#[test]
fn normalize_prefix_keeps_inner_spaces_and_backslashes() {
    assert_eq!(normalize_prefix("my docs/x\\y"), "my docs/x\\y/");
    assert_eq!(normalize_prefix("\u{3000}中文\u{a0}/"), "中文/");
}

#[test]
fn normalize_prefix_is_idempotent_on_examples() {
    for s in [" /a// b /./../c/ ", "x", "../y/./z", "", " q / r "] {
        let once = normalize_prefix(s);
        assert_eq!(normalize_prefix(&once), once);
    }
}

#[test]
fn validate_upload_path_accepts_and_trims() {
    assert_eq!(validate_upload_path(""), Ok(String::new()));
    assert_eq!(validate_upload_path("   "), Ok(String::new()));
    assert_eq!(validate_upload_path(" docs/2024/ "), Ok("docs/2024/".to_string()));
}

#[test]
fn validate_upload_path_reports_each_rule() {
    assert_eq!(validate_upload_path("/a/"), Err(UploadPathError::LeadingSlash));
    assert_eq!(validate_upload_path("a"), Err(UploadPathError::MissingTrailingSlash));
    assert_eq!(validate_upload_path("a\\b/"), Err(UploadPathError::Backslash));
    assert_eq!(validate_upload_path("a//b/"), Err(UploadPathError::RepeatedSlash));
    assert_eq!(validate_upload_path("a/./"), Err(UploadPathError::DotSegment));
    assert_eq!(validate_upload_path("a/../"), Err(UploadPathError::DotSegment));
    assert_eq!(validate_upload_path("a/ b/"), Err(UploadPathError::UntrimmedSegment));
}

#[test]
fn validate_upload_path_checks_in_order() {
    assert_eq!(validate_upload_path("/a\\"), Err(UploadPathError::LeadingSlash));
    assert_eq!(validate_upload_path("a\\//"), Err(UploadPathError::Backslash));
    assert_eq!(validate_upload_path("x /../"), Err(UploadPathError::UntrimmedSegment));
    assert_eq!(validate_upload_path("../x /"), Err(UploadPathError::DotSegment));
}

#[test]
fn normal_prefix_passes_upload_check_unchanged() {
    for s in [" /a// b /./../c/ ", "x", "", "中/文"] {
        let n = normalize_prefix(s);
        assert_eq!(validate_upload_path(&n), Ok(n.clone()));
    }
}

#[test]
fn accepted_upload_path_is_normal() {
    for s in ["docs/", " a/b c/ ", ""] {
        let r = validate_upload_path(s).unwrap();
        assert_eq!(normalize_prefix(&r), r);
    }
}

#[test]
fn collect_prefixes_from_object_keys() {
    assert_eq!(prefixes_of("a/b/c.txt"), vec!["a/", "a/b/"]);
    assert_eq!(prefixes_of("a/b/"), vec!["a/", "a/b/"]);
    assert_eq!(prefixes_of("file.txt"), Vec::<String>::new());
    assert_eq!(prefixes_of("  a//b/c "), vec!["a/", "a/b/"]);
    assert_eq!(prefixes_of(""), Vec::<String>::new());
    assert_eq!(prefixes_of("/"), Vec::<String>::new());
}

#[test]
fn collect_prefixes_adds_to_existing_set() {
    let mut set = PrefixSet::new();
    collect_prefixes_from_key("x/y.txt", &mut set);
    collect_prefixes_from_key("a/b/c", &mut set);
    collect_prefixes_from_key("x/z", &mut set);
    assert_eq!(set.len(), 3);
    assert!(set.contains("a/b/"));
    assert_eq!(set.into_sorted_vec(), vec!["a/", "a/b/", "x/"]);
}
