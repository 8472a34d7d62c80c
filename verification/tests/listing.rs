use oss_drop::listing::{
    access_probe_request_query, child_prefix_page_query, object_page_request_query,
    prefix_listing_parent, refine_common_prefixes, refine_object_keys, sorted_unique,
    ChildPrefixPager,
};
use oss_drop::paths::non_empty_parts;

fn pairs(q: Vec<(String, String)>) -> Vec<(String, String)> {
    q
}

fn expect(items: &[(&str, &str)]) -> Vec<(String, String)> {
    items.iter().map(|(k, v)| (k.to_string(), v.to_string())).collect()
}

fn strings(items: &[&str]) -> Vec<String> {
    items.iter().map(|s| s.to_string()).collect()
}

#[test]
fn child_prefix_queries() {
    assert_eq!(
        pairs(child_prefix_page_query("", &None)),
        expect(&[("delimiter", "/"), ("max-keys", "1000"), ("encoding-type", "url")])
    );
    assert_eq!(
        pairs(child_prefix_page_query("a/", &Some("tok".to_string()))),
        expect(&[
            ("delimiter", "/"),
            ("max-keys", "1000"),
            ("encoding-type", "url"),
            ("prefix", "a/"),
            ("continuation-token", "tok"),
        ])
    );
    assert_eq!(
        pairs(child_prefix_page_query("", &Some(String::new()))),
        expect(&[("delimiter", "/"), ("max-keys", "1000"), ("encoding-type", "url")])
    );
}

#[test]
fn object_page_and_probe_queries() {
    assert_eq!(
        pairs(object_page_request_query("p/", &Some("t".to_string()))),
        expect(&[("max-keys", "1000"), ("encoding-type", "url"), ("prefix", "p/"), ("continuation-token", "t")])
    );
    assert_eq!(
        pairs(access_probe_request_query()),
        expect(&[("delimiter", "/"), ("max-keys", "1"), ("encoding-type", "url")])
    );
}

#[test]
fn page_contents_are_refined() {
    assert_eq!(refine_common_prefixes(&strings(&["a%2F", "", " /b/ ", "./"])), strings(&["a/", "b/"]));
    assert_eq!(refine_object_keys(&strings(&["a%20b", "", "c"])), strings(&["a b", "c"]));
    assert_eq!(non_empty_parts(strings(&["x", "", "y"])), strings(&["x", "y"]));
}

#[test]
fn sorted_unique_sorts_and_dedups() {
    assert_eq!(sorted_unique(strings(&["b", "a", "b", "A"])), strings(&["A", "a", "b"]));
    assert_eq!(sorted_unique(Vec::new()), Vec::<String>::new());
}

#[test]
fn pager_collects_pages_until_blank_token() {
    let mut pager = ChildPrefixPager::new("p/".to_string());
    assert!(!pager.finished());
    assert_eq!(pager.next_query().len(), 4);
    pager.absorb_page(strings(&["p/b/", "p/a/"]), " next ");
    assert!(!pager.finished());
    assert_eq!(pager.next_query()[4], ("continuation-token".to_string(), "next".to_string()));
    pager.absorb_page(strings(&["p/a/", "p/c/"]), "  ");
    assert!(pager.finished());
    assert_eq!(pager.into_prefixes(), strings(&["p/a/", "p/b/", "p/c/"]));
}

#[test]
fn listing_parent_is_normalised() {
    assert_eq!(prefix_listing_parent(None), "");
    assert_eq!(prefix_listing_parent(Some(" a//b ".to_string())), "a/b/");
}
