use oss_drop::crawl::{all_prefixes_from_scan, channel_failure_message, PrefixCrawl};
use oss_drop::scan::{ObjectScan, ObjectScanResult, MAX_OBJECT_SCAN_PAGES};

fn strings(items: &[&str]) -> Vec<String> {
    items.iter().map(|s| s.to_string()).collect()
}

#[test]
fn object_scan_collects_prefixes_under_parent() {
    let mut scan = ObjectScan::new("a/".to_string());
    let q = scan.next_page().unwrap();
    assert!(q.contains(&("prefix".to_string(), "a/".to_string())));
    scan.absorb_page(&strings(&["a/x/y.txt", "b/z.txt", "a/k"]), "t1".to_string(), false);
    assert!(!scan.finished());
    let q = scan.next_page().unwrap();
    assert!(q.contains(&("continuation-token".to_string(), "t1".to_string())));
    scan.absorb_page(&strings(&["a/x/w/"]), String::new(), true);
    assert!(scan.finished());
    assert!(scan.next_page().is_none());
    let r = scan.finish();
    assert_eq!(r.prefixes, strings(&["a/", "a/x/", "a/x/w/"]));
    assert_eq!(r.visited_pages, 2);
    assert_eq!(r.fallback_hits, 1);
    assert!(!r.truncated);
}

#[test]
fn object_scan_of_root_takes_every_key() {
    let mut scan = ObjectScan::new(String::new());
    scan.next_page().unwrap();
    scan.absorb_page(&strings(&["x/1", "y/2/3"]), String::new(), false);
    let r = scan.finish();
    assert_eq!(r.prefixes, strings(&["x/", "y/", "y/2/"]));
}

#[test]
fn object_scan_stops_at_page_limit() {
    let mut scan = ObjectScan::new(String::new());
    let mut pages = 0;
    while let Some(_) = scan.next_page() {
        pages += 1;
        scan.absorb_page(&Vec::new(), "more".to_string(), false);
    }
    assert_eq!(pages, MAX_OBJECT_SCAN_PAGES);
    let r = scan.finish();
    assert!(r.truncated);
    assert_eq!(r.visited_pages, MAX_OBJECT_SCAN_PAGES);
}

#[test]
fn fast_scan_result_becomes_answer() {
    let r = all_prefixes_from_scan(ObjectScanResult {
        prefixes: strings(&["a/"]),
        visited_pages: 3,
        fallback_hits: 1,
        truncated: false,
    });
    assert_eq!(r.prefixes, strings(&["a/"]));
    assert_eq!(r.stats.visited, 3);
    assert_eq!(r.stats.fallback_hits, 1);
    assert!(r.stats.failed_parents.is_empty());
    assert!(!r.stats.truncated);
}

#[test]
fn crawl_walks_tree_breadth_first() {
    let mut crawl = PrefixCrawl::new("boom".to_string());
    assert_eq!(crawl.next_parent(), Some(String::new()));
    crawl.absorb_children(&strings(&["a/", " b ", "a/", ""]), false);
    assert_eq!(crawl.next_parent(), Some("a/".to_string()));
    crawl.record_failure("x", "y");
    assert_eq!(crawl.next_parent(), Some("b/".to_string()));
    crawl.absorb_scan(&ObjectScanResult {
        prefixes: strings(&["b/c/", " ", "a/"]),
        visited_pages: 2,
        fallback_hits: 2,
        truncated: false,
    });
    assert_eq!(crawl.next_parent(), None);
    assert!(crawl.finished());
    let r = crawl.finish();
    assert_eq!(r.prefixes, strings(&["a/", "b/", "b/c/"]));
    assert_eq!(r.stats.visited, 3);
    assert_eq!(r.stats.fallback_hits, 3);
    assert_eq!(
        r.stats.failed_parents,
        strings(&["<root> (快速扫描失败: boom)", "a/ (目录枚举失败: x; 对象扫描失败: y)"])
    );
    assert!(!r.stats.truncated);
}

#[test]
fn crawl_reports_root_failure_as_root() {
    let mut crawl = PrefixCrawl::new("e".to_string());
    assert_eq!(crawl.next_parent(), Some(String::new()));
    crawl.record_failure("l", "s");
    assert_eq!(crawl.next_parent(), None);
    let r = crawl.finish();
    assert!(r.prefixes.is_empty());
    assert_eq!(r.stats.failed_parents[1], "<root> (目录枚举失败: l; 对象扫描失败: s)");
    assert_eq!(r.stats.fallback_hits, 0);
}

#[test]
fn crawl_queues_each_child_once() {
    let mut crawl = PrefixCrawl::new("e".to_string());
    crawl.next_parent();
    crawl.absorb_children(&strings(&["a/"]), true);
    assert_eq!(crawl.next_parent(), Some("a/".to_string()));
    crawl.absorb_children(&strings(&["a/", "a/b/"]), false);
    assert_eq!(crawl.next_parent(), Some("a/b/".to_string()));
    crawl.absorb_children(&Vec::new(), false);
    assert_eq!(crawl.next_parent(), None);
    let r = crawl.finish();
    assert_eq!(r.prefixes, strings(&["a/", "a/b/"]));
    assert_eq!(r.stats.fallback_hits, 1);
    assert_eq!(r.stats.visited, 3);
}

#[test]
fn channel_failure_joins_both_errors() {
    assert_eq!(channel_failure_message("p", "f"), "主通道失败: p; 备用通道失败: f");
}
