use oss_drop::config::LocalConfig;
use oss_drop::oss::{
    build_bucket_list_client, build_client, decode_oss_encoded_field, decoded_or_raw,
    bucket_or_name_error, endpoint_or_region_error, object_url, parse_endpoint, ClientErrorKind,
};
use aliyun_oss_client::{BucketName, EndPoint};

fn config(bucket: &str, region: &str) -> LocalConfig {
    LocalConfig {
        access_key_id: "id".to_string(),
        access_key_secret: "secret".to_string(),
        bucket: bucket.to_string(),
        region: region.to_string(),
        prefix: String::new(),
    }
}

#[test]
fn decode_fields() {
    assert_eq!(decode_oss_encoded_field(""), "");
    assert_eq!(decode_oss_encoded_field("a%2Fb"), "a/b");
    assert_eq!(decode_oss_encoded_field("%E4%B8%AD"), "中");
    assert_eq!(decode_oss_encoded_field("%FF"), "%FF");
    assert_eq!(decode_oss_encoded_field("plain+text"), "plain+text");
    assert_eq!(decode_oss_encoded_field("100%"), "100%");
}

#[test]
fn decoded_or_raw_picks() {
    assert_eq!(decoded_or_raw("x", Some("y".to_string())), "y");
    assert_eq!(decoded_or_raw("x", None), "x");
}

#[test]
fn object_urls_encode_each_piece() {
    let c = config("bkt", "oss-cn-hongkong");
    assert_eq!(object_url(&c, "dir/a b.txt"), "https://bkt.oss-cn-hongkong.aliyuncs.com/dir/a%20b.txt");
    assert_eq!(object_url(&c, "中/x"), "https://bkt.oss-cn-hongkong.aliyuncs.com/%E4%B8%AD/x");
    assert_eq!(object_url(&c, "a-b_c.d~e/f"), "https://bkt.oss-cn-hongkong.aliyuncs.com/a-b_c.d~e/f");
    assert_eq!(object_url(&c, "q?=&"), "https://bkt.oss-cn-hongkong.aliyuncs.com/q%3F%3D%26");
}

#[test]
fn endpoints_from_regions() {
    assert!(parse_endpoint("cn-hongkong").is_ok());
    assert!(parse_endpoint("").is_ok());
    assert!(parse_endpoint("oss-cn-beijing").is_ok());
    match parse_endpoint("oss-") {
        Ok(_) => panic!("empty endpoint accepted"),
        Err(e) => {
            assert_eq!(e.kind, ClientErrorKind::InvalidRegion);
            assert_eq!(e.region, "oss-");
        }
    }
    match parse_endpoint("bad_region") {
        Ok(_) => panic!("invalid endpoint accepted"),
        Err(e) => assert_eq!(e.region, "oss-bad_region"),
    }
}

#[test]
fn clients_check_region_then_bucket() {
    assert!(build_client(&config("my-bucket", "cn-hongkong")).is_ok());
    match build_client(&config("My_Bucket", "cn-hongkong")) {
        Ok(_) => panic!("invalid bucket accepted"),
        Err(e) => assert_eq!(e.kind, ClientErrorKind::InvalidBucketName),
    }
    match build_client(&config("My_Bucket", "bad_region")) {
        Ok(_) => panic!("invalid region accepted"),
        Err(e) => assert_eq!(e.kind, ClientErrorKind::InvalidRegion),
    }
    assert!(build_bucket_list_client("i".to_string(), "s".to_string(), "cn-beijing".to_string()).is_ok());
    assert!(build_bucket_list_client("i".to_string(), "s".to_string(), "bad_region".to_string()).is_err());
}

#[test]
fn parsed_parts_map_to_client_errors() {
    let endpoint = parse_endpoint("cn-beijing").ok().unwrap();
    assert!(endpoint_or_region_error(Ok(endpoint), "oss-cn-beijing".to_string()).is_ok());
    match endpoint_or_region_error(Err(EndPoint::new("-x").err().unwrap()), "oss--x".to_string()) {
        Ok(_) => panic!("invalid endpoint accepted"),
        Err(e) => {
            assert_eq!(e.kind, ClientErrorKind::InvalidRegion);
            assert_eq!(e.region, "oss--x");
        }
    }
    match bucket_or_name_error(Err(BucketName::new("-bad").err().unwrap()), "r".to_string()) {
        Ok(_) => panic!("invalid bucket accepted"),
        Err(e) => {
            assert_eq!(e.kind, ClientErrorKind::InvalidBucketName);
            assert_eq!(e.region, "r");
        }
    }
}

#[test]
fn clients_carry_their_settings() {
    let client = build_client(&config("my-bucket", " cn-hongkong ")).ok().unwrap();
    assert_eq!(client.settings(), ("id", "secret", "cn-hongkong", "my-bucket"));
    let lister = build_bucket_list_client("i".to_string(), "s".to_string(), "oss-cn-beijing".to_string())
        .ok()
        .unwrap();
    assert_eq!(lister.settings(), ("i", "s", "cn-beijing", "bucket-placeholder"));
}
