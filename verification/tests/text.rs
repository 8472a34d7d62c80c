use oss_drop::ordered::{chars_less, PrefixSet};
use oss_drop::text::{join_strings, split_chars, trim};

#[test]
fn trim_matches_std_trim() {
    for s in ["  a b  ", "\u{3000}x\u{a0}", "\t\n", "", "\u{2028}中\u{205f}", "\u{200b}z"] {
        assert_eq!(trim(s), s.trim());
    }
}

#[test]
fn split_and_join_round_trip() {
    assert_eq!(split_chars("a//b", '/'), vec!["a", "", "b"]);
    assert_eq!(split_chars("", '/'), vec![""]);
    assert_eq!(split_chars("a/", '/'), vec!["a", ""]);
    for s in ["a//b", "", "/x/", "中/文"] {
        let parts = split_chars(s, '/');
        assert_eq!(parts, s.split('/').collect::<Vec<_>>());
        assert_eq!(join_strings(&parts, "/"), s);
    }
}

#[test]
fn order_is_code_point_order() {
    let cs = |s: &str| s.chars().collect::<Vec<char>>();
    assert!(chars_less(&cs("B"), &cs("a")));
    assert!(chars_less(&cs("a"), &cs("ab")));
    assert!(!chars_less(&cs("ab"), &cs("ab")));
    assert!(chars_less(&cs("z"), &cs("é")));
}

#[test]
fn prefix_set_insert_reports_new_members() {
    let mut set = PrefixSet::new();
    assert!(set.insert("b/".to_string()));
    assert!(set.insert("a/".to_string()));
    assert!(!set.insert("b/".to_string()));
    assert!(set.insert("é/".to_string()));
    assert_eq!(set.len(), 3);
    assert!(set.contains("a/"));
    assert!(!set.contains("c/"));
    let mut expected = vec!["b/", "a/", "é/"];
    expected.sort();
    assert_eq!(set.into_sorted_vec(), expected);
}
