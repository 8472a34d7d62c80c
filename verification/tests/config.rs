use oss_drop::config::{
    bucket_listed, bucket_summary, default_region, fresh_local_config, has_bucket_target,
    has_oss_config, normalize_bucket_region, normalize_config, normalize_region, plan_config_save,
    preview_credentials, public_config_of, require_bucket_target, saved_list_credentials,
    BucketPreviewPayload, BucketSummary, ConfigError, LocalConfig, SaveConfigPayload,
};

fn config(id: &str, secret: &str, bucket: &str, region: &str, prefix: &str) -> LocalConfig {
    LocalConfig {
        access_key_id: id.to_string(),
        access_key_secret: secret.to_string(),
        bucket: bucket.to_string(),
        region: region.to_string(),
        prefix: prefix.to_string(),
    }
}

fn payload(
    id: Option<&str>,
    secret: Option<&str>,
    bucket: Option<&str>,
    region: Option<&str>,
    prefix: Option<&str>,
) -> SaveConfigPayload {
    SaveConfigPayload {
        access_key_id: id.map(str::to_string),
        access_key_secret: secret.map(str::to_string),
        bucket: bucket.map(str::to_string),
        region: region.map(str::to_string),
        prefix: prefix.map(str::to_string),
    }
}

#[test]
fn region_normal_form() {
    assert_eq!(normalize_region(""), "oss-cn-hongkong");
    assert_eq!(normalize_region("  "), "oss-cn-hongkong");
    assert_eq!(normalize_region(" cn-beijing "), "oss-cn-beijing");
    assert_eq!(normalize_region("oss-cn-shanghai"), "oss-cn-shanghai");
    assert_eq!(default_region(), "oss-cn-hongkong");
    for r in ["", "cn-beijing", "oss-x", " us-west-1 "] {
        let once = normalize_region(r);
        assert!(once.starts_with("oss-"));
        assert_eq!(normalize_region(&once), once);
        assert_eq!(normalize_bucket_region(r), once);
    }
}

#[test]
fn config_normal_form() {
    let c = normalize_config(config(" id ", "\tsecret\n", " bkt ", "cn-beijing", " a//b "));
    assert_eq!(c.access_key_id, "id");
    assert_eq!(c.access_key_secret, "secret");
    assert_eq!(c.bucket, "bkt");
    assert_eq!(c.region, "oss-cn-beijing");
    assert_eq!(c.prefix, "a/b/");
    let again = normalize_config(config(
        &c.access_key_id,
        &c.access_key_secret,
        &c.bucket,
        &c.region,
        &c.prefix,
    ));
    assert_eq!(again.access_key_id, c.access_key_id);
    assert_eq!(again.region, c.region);
    assert_eq!(again.prefix, c.prefix);
}

#[test]
fn fresh_config_is_empty_with_default_region() {
    let c = fresh_local_config();
    assert_eq!(c.access_key_id, "");
    assert_eq!(c.access_key_secret, "");
    assert_eq!(c.bucket, "");
    assert_eq!(c.region, "oss-cn-hongkong");
    assert_eq!(c.prefix, "");
}

#[test]
fn credentials_and_target_checks() {
    assert!(!has_oss_config(&config("", "s", "b", "r", "")));
    assert!(!has_oss_config(&config("i", "", "b", "r", "")));
    assert!(has_oss_config(&config("i", "s", "", "r", "")));
    assert!(!has_bucket_target(&config("i", "s", "", "r", "")));
    assert!(has_bucket_target(&config("i", "s", "b", "r", "")));
    assert_eq!(require_bucket_target(&config("i", "s", "", "r", "")), Err(ConfigError::BucketNotChosen));
    assert_eq!(require_bucket_target(&config("i", "s", "b", "r", "")), Ok(()));
}

#[test]
fn public_config_shows_settings_and_path() {
    let p = public_config_of(config("i", "s", "b", "oss-cn-beijing", "x/"), "/tmp/c.json".to_string());
    assert_eq!(p.bucket, "b");
    assert_eq!(p.region, "oss-cn-beijing");
    assert_eq!(p.prefix, "x/");
    assert!(p.has_oss_config);
    assert_eq!(p.config_path, "/tmp/c.json");
}

#[test]
fn save_merges_and_normalises() {
    let plan = plan_config_save(
        fresh_local_config(),
        payload(Some(" id "), Some("sec"), None, Some("cn-beijing"), Some("/a/")),
    )
    .ok()
    .unwrap();
    assert_eq!(plan.config.access_key_id, "id");
    assert_eq!(plan.config.region, "oss-cn-beijing");
    assert_eq!(plan.config.prefix, "a/");
    assert!(!plan.check_access);
}

#[test]
fn save_checks_access_when_connection_changes_with_bucket() {
    let current = config("id", "sec", "", "oss-cn-hongkong", "");
    let plan = plan_config_save(current, payload(None, None, Some("bkt"), None, None)).ok().unwrap();
    assert!(plan.check_access);
}

#[test]
fn prefix_only_save_skips_access_check() {
    let current = config("id", "sec", "bkt", "oss-cn-hongkong", "a/");
    let plan = plan_config_save(current, payload(None, None, None, None, Some("b/c"))).ok().unwrap();
    assert!(!plan.check_access);
    assert_eq!(plan.config.prefix, "b/c/");
}

#[test]
fn save_without_secret_is_refused() {
    let r = plan_config_save(fresh_local_config(), payload(Some("id"), Some("  "), None, None, None));
    assert!(matches!(r, Err(ConfigError::CredentialsIncomplete)));
}

#[test]
fn preview_credentials_trim_and_require_both_halves() {
    let c = preview_credentials(BucketPreviewPayload {
        access_key_id: " id ".to_string(),
        access_key_secret: " s ".to_string(),
        region: None,
    })
    .ok()
    .unwrap();
    assert_eq!(c.access_key_id, "id");
    assert_eq!(c.access_key_secret, "s");
    assert_eq!(c.region, "oss-cn-hongkong");
    let r = preview_credentials(BucketPreviewPayload {
        access_key_id: " ".to_string(),
        access_key_secret: "s".to_string(),
        region: Some("cn-beijing".to_string()),
    });
    assert!(matches!(r, Err(ConfigError::CredentialsNotSet)));
}

#[test]
fn saved_credentials_for_bucket_listing() {
    let c = saved_list_credentials(&config("i", "s", "", "oss-x", "")).ok().unwrap();
    assert_eq!(c.access_key_id, "i");
    assert_eq!(c.region, "oss-x");
    assert!(matches!(
        saved_list_credentials(&config("", "s", "", "oss-x", "")),
        Err(ConfigError::CredentialsNotSet)
    ));
}

#[test]
fn bucket_summaries() {
    let b = bucket_summary("bkt", "cn-beijing");
    assert_eq!(b.name, "bkt");
    assert_eq!(b.region, "oss-cn-beijing");
    let list = vec![b, BucketSummary { name: "other".to_string(), region: "oss-x".to_string() }];
    assert!(bucket_listed(&list, "other"));
    assert!(!bucket_listed(&list, "missing"));
    assert!(!bucket_listed(&Vec::new(), "bkt"));
}
