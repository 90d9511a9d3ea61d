use portfolio::order::{project_order_key, sort_project_paths, first_segment_of};
use portfolio::text::{parse_u32, contains_str, strip_suffix, str_eq, chars_of, text_le_exec};

#[test]
fn order_key_cases() {
    assert_eq!(project_order_key(Some("95_klipr.md")), 95);
    assert_eq!(project_order_key(Some("88_panoptes.md")), 88);
    assert_eq!(project_order_key(Some("klipr.md")), 50);
    assert_eq!(project_order_key(Some("007_a.md")), 7);
    assert_eq!(project_order_key(Some("+7_a.md")), 7);
    assert_eq!(project_order_key(Some("-7_a.md")), 50);
    assert_eq!(project_order_key(Some("4294967295_a")), 4294967295);
    assert_eq!(project_order_key(Some("4294967296_a")), 50);
    assert_eq!(project_order_key(Some("12")), 12);
    assert_eq!(project_order_key(Some("12.md")), 50);
    assert_eq!(project_order_key(Some("_12_a")), 50);
    assert_eq!(project_order_key(None), 50);
}

#[test]
fn sort_project_paths_is_stable_by_key() {
    let names = ["96_clip-muncher.md", "categories.yml", "88_panoptes.md", "95_klipr.md", "b.md", "90_league-toolkit.md"];
    let entries: Vec<(usize, Option<String>)> = names.iter().enumerate().map(|(i, n)| (i, Some(n.to_string()))).collect();
    let mut with_none = entries.clone();
    with_none.push((6, None));
    let sorted = sort_project_paths(with_none);
    let order: Vec<usize> = sorted.iter().map(|e| e.0).collect();
    assert_eq!(order, vec![1, 4, 6, 2, 5, 3, 0]);
}

#[test]
fn first_segment_cases() {
    assert_eq!(first_segment_of("95_klipr.md"), "95");
    assert_eq!(first_segment_of("abc"), "abc");
    assert_eq!(first_segment_of("_x"), "");
}

#[test]
fn parse_u32_cases() {
    assert_eq!(parse_u32("0"), Some(0));
    assert_eq!(parse_u32("+15"), Some(15));
    assert_eq!(parse_u32("+"), None);
    assert_eq!(parse_u32(""), None);
    assert_eq!(parse_u32("1a"), None);
    assert_eq!(parse_u32(" 1"), None);
    assert_eq!(parse_u32("99999999999"), None);
    for s in ["0", "1", "42", "4294967295", "4294967296", "+0", "++1", "٣"] {
        assert_eq!(parse_u32(s), s.parse::<u32>().ok(), "{}", s);
    }
}

#[test]
fn text_helpers() {
    assert!(contains_str("my-categories.yml.bak", "categories.yml"));
    assert!(!contains_str("categories.yaml", "categories.yml"));
    assert!(contains_str("abc", ""));
    assert_eq!(strip_suffix("main.scss", ".scss"), Some("main".to_string()));
    assert_eq!(strip_suffix("main.css", ".scss"), None);
    assert_eq!(strip_suffix(".scss", ".scss"), Some(String::new()));
    assert!(str_eq("é", "é"));
    assert!(!str_eq("a", "ab"));
    assert_eq!(chars_of("héllo"), vec!['h', 'é', 'l', 'l', 'o']);
    assert!(text_le_exec(&chars_of("abc"), &chars_of("abd")));
    assert!(text_le_exec(&chars_of("ab"), &chars_of("abc")));
    assert!(!text_le_exec(&chars_of("b"), &chars_of("abc")));
    assert!(text_le_exec(&chars_of(""), &chars_of("")));
}
