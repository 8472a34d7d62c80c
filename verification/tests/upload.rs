use oss_drop::config::LocalConfig;
use oss_drop::paths::UploadPathError;
use oss_drop::upload::{
    local_upload_name, unnamed_file_item, unreadable_file_item, upload_content_type,
    upload_object_key, upload_result_item, upload_target_prefix,
};

fn config(prefix: &str) -> LocalConfig {
    LocalConfig {
        access_key_id: "id".to_string(),
        access_key_secret: "secret".to_string(),
        bucket: "bkt".to_string(),
        region: "oss-cn-hongkong".to_string(),
        prefix: prefix.to_string(),
    }
}

#[test]
fn target_prefix_defaults_to_saved_prefix() {
    assert_eq!(upload_target_prefix(&config("docs/"), None), Ok("docs/".to_string()));
    assert_eq!(upload_target_prefix(&config("docs/"), Some(" x/ ".to_string())), Ok("x/".to_string()));
    assert_eq!(
        upload_target_prefix(&config("docs/"), Some("bad".to_string())),
        Err(UploadPathError::MissingTrailingSlash)
    );
}

#[test]
fn keys_and_content_types() {
    assert_eq!(upload_object_key("docs/", "a.txt"), "docs/a.txt");
    assert_eq!(upload_object_key("", "a.txt"), "a.txt");
    assert_eq!(upload_content_type("  "), "application/octet-stream");
    assert_eq!(upload_content_type("image/png"), "image/png");
}

#[test]
fn result_items() {
    let ok = upload_result_item(&config(""), "a b".to_string(), "d/a b".to_string(), "d/".to_string(), 7, Ok(()));
    assert!(ok.ok);
    assert_eq!(ok.url.as_deref(), Some("https://bkt.oss-cn-hongkong.aliyuncs.com/d/a%20b"));
    assert_eq!(ok.error, None);
    assert_eq!(ok.size, 7);
    let failed = upload_result_item(&config(""), "n".to_string(), "k".to_string(), "".to_string(), 3, Err("nope".to_string()));
    assert!(!failed.ok);
    assert_eq!(failed.url, None);
    assert_eq!(failed.error.as_deref(), Some("nope"));
}

#[test]
fn local_file_names() {
    assert_eq!(local_upload_name(None, None), "unnamed");
    assert_eq!(local_upload_name(Some(" x ".to_string()), Some("y".to_string())), "x");
    assert_eq!(local_upload_name(None, Some("y.txt".to_string())), "y.txt");
    assert_eq!(local_upload_name(Some("  ".to_string()), None), "");
    let item = unnamed_file_item("p/".to_string());
    assert_eq!(item.name, "unnamed");
    assert_eq!(item.key, "");
    assert_eq!(item.error.as_deref(), Some("本地文件名无效"));
    let item = unreadable_file_item("n".to_string(), "p/n".to_string(), "p/".to_string(), "gone");
    assert_eq!(item.error.as_deref(), Some("读取本地文件失败: gone"));
    assert_eq!(item.size, 0);
}
