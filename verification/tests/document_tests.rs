use portfolio::document::{read_file, document_from_parts, ReadError};

const KLIPR: &str = "+++\nid = \"klipr\"\ncategory = \"main\"\ntitle = \"klipr\"\n+++\nVideo editor written in *Rust*.\n";

#[test]
fn read_file_splits_frontmatter_and_body() {
    let doc = read_file(KLIPR).unwrap();
    assert_eq!(doc.frontmatter, "id = \"klipr\"\ncategory = \"main\"\ntitle = \"klipr\"");
    assert!(doc.body.contains("<p>Video editor written in <em>Rust</em>.</p>"));
    assert!(!doc.body.contains("klipr"));
}

#[test]
fn read_file_without_frontmatter_is_refused() {
    match read_file("# Just a heading\n\nSome text.\n") {
        Err(ReadError::MissingFrontmatter) => {}
        other => panic!("unexpected {:?}", other),
    }
}

#[test]
fn read_file_with_yaml_frontmatter_is_refused() {
    match read_file("---\nid: x\n---\nbody\n") {
        Err(ReadError::MissingFrontmatter) => {}
        other => panic!("unexpected {:?}", other),
    }
}

#[test]
fn read_file_unclosed_frontmatter_is_refused() {
    assert!(matches!(read_file("+++\nid = \"x\"\nno closing fence\n"), Err(ReadError::MissingFrontmatter)));
}

#[test]
fn read_file_allows_raw_html() {
    let doc = read_file("+++\nid = \"a\"\n+++\n<div class=\"x\">hi</div>\n").unwrap();
    assert!(doc.body.contains("<div class=\"x\">hi</div>"));
}

#[test]
fn document_from_parts_cases() {
    let d = document_from_parts(Some("a = 1".to_string()), "<p>b</p>".to_string()).unwrap();
    assert_eq!(d.frontmatter, "a = 1");
    assert_eq!(d.body, "<p>b</p>");
    assert!(matches!(document_from_parts(None, "x".to_string()), Err(ReadError::MissingFrontmatter)));
}

#[test]
fn missing_frontmatter_message() {
    for text in ["---\nid: klipr\n---\nhi", "hi", ""] {
        let e = read_file(text).unwrap_err();
        assert_eq!(e.message(), "could not find frontmatter");
    }
    assert_eq!(ReadError::Io("gone".to_string()).message(), "gone");
    assert_eq!(ReadError::InvalidFrontmatter("bad key".to_string()).message(), "bad key");
}
