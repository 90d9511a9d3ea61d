use portfolio::categories::{get_categories, Category, categories_from_documents};
use portfolio::yaml::{yaml_err, YamlError, YamlNode};

fn key(s: &str) -> YamlNode {
    YamlNode::Str(s.to_string())
}

const FILE: &str = "categories:\n  - main\n  - name: tools\n    blurb: Small utilities\n  - name: secret\n    hidden: true\n  - name: broken\n    hidden: maybe\n  - 42\n  - blurb: no name\n";

#[test]
fn get_categories_reads_list_in_order() {
    let cats = get_categories(FILE).unwrap();
    assert_eq!(cats.len(), 3);
    assert_eq!(cats[0].name, "main");
    assert_eq!(cats[0].blurb, None);
    assert!(!cats[0].hidden);
    assert_eq!(cats[1].name, "tools");
    assert_eq!(cats[1].blurb.as_deref(), Some("Small utilities"));
    assert!(!cats[1].hidden);
    assert_eq!(cats[2].name, "secret");
    assert!(cats[2].hidden);
}

#[test]
fn get_categories_not_a_hash() {
    match get_categories("- a\n- b\n") {
        Err(YamlError::InvalidData(m)) => assert_eq!(m, "could not parse as hash"),
        other => panic!("unexpected {:?}", other),
    }
}

#[test]
fn get_categories_missing_key() {
    match get_categories("projects:\n  - a\n") {
        Err(YamlError::InvalidData(m)) => assert_eq!(m, "no categories key"),
        other => panic!("unexpected {:?}", other),
    }
}

#[test]
fn get_categories_not_a_list() {
    match get_categories("categories: main\n") {
        Err(YamlError::InvalidData(m)) => assert_eq!(m, "categories is not a list"),
        other => panic!("unexpected {:?}", other),
    }
}

#[test]
fn get_categories_empty_text_has_no_document() {
    assert!(matches!(get_categories(""), Err(YamlError::NoDocument)));
}

#[test]
fn get_categories_bad_yaml() {
    assert!(matches!(get_categories("categories: [a, b\n"), Err(YamlError::Scan(_))));
}

#[test]
fn get_categories_uses_first_document() {
    let cats = get_categories("categories:\n  - one\n---\ncategories:\n  - two\n").unwrap();
    assert_eq!(cats.len(), 1);
    assert_eq!(cats[0].name, "one");
}

#[test]
fn category_from_name() {
    let c = Category::from("other");
    assert_eq!(c.name, "other");
    assert_eq!(c.blurb, None);
    assert!(!c.hidden);
}

#[test]
fn category_from_yaml_requires_string_name() {
    let h = vec![(key("name"), YamlNode::Integer(5))];
    assert!(Category::from_yaml(&h).is_none());
    let h = vec![(key("name"), key("x")), (key("blurb"), YamlNode::Array(vec![YamlNode::Integer(1)]))];
    assert!(Category::from_yaml(&h).is_none());
    let h = vec![(key("hidden"), YamlNode::Boolean(false)), (key("name"), key("x"))];
    let c = Category::from_yaml(&h).unwrap();
    assert_eq!(c.name, "x");
    assert!(!c.hidden);
    let h = vec![(key("name"), key("y")), (key("blurb"), key("b")), (key("hidden"), YamlNode::Boolean(true))];
    let c = Category::from_yaml(&h).unwrap();
    assert_eq!(c.blurb.as_deref(), Some("b"));
    assert!(c.hidden);
    let h = vec![(key("name"), key("first")), (key("name"), key("second"))];
    assert_eq!(Category::from_yaml(&h).unwrap().name, "first");
}

#[test]
fn get_categories_converts_yaml_values() {
    let cats = get_categories("categories:\n  - name: \"quoted\"\n    blurb: 'single'\n  - 7\n  - true\n  - ~\n  - [a]\n  - plain\n").unwrap();
    assert_eq!(cats.len(), 2);
    assert_eq!(cats[0].name, "quoted");
    assert_eq!(cats[0].blurb.as_deref(), Some("single"));
    assert_eq!(cats[1].name, "plain");
}

#[test]
fn categories_from_documents_reads_first() {
    let docs = vec![
        YamlNode::Hash(vec![(key("categories"), YamlNode::Array(vec![key("a"), YamlNode::Null]))]),
        YamlNode::Hash(vec![(key("categories"), YamlNode::Array(vec![key("b")]))]),
    ];
    let cats = categories_from_documents(&docs).unwrap();
    assert_eq!(cats.len(), 1);
    assert_eq!(cats[0].name, "a");
    match categories_from_documents(&vec![YamlNode::Null]) {
        Err(YamlError::InvalidData(m)) => assert_eq!(m, "could not parse as hash"),
        other => panic!("unexpected {:?}", other),
    }
}

#[test]
fn yaml_err_cases() {
    assert_eq!(yaml_err(Some(3), "m").unwrap(), 3);
    match yaml_err::<u8>(None, "missing") {
        Err(YamlError::InvalidData(m)) => assert_eq!(m, "missing"),
        other => panic!("unexpected {:?}", other),
    }
}
