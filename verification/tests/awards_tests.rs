use portfolio::awards::{fetch_awards, sort_award_files, Award, AwardEntry, Link};
use portfolio::document::ReadError;

fn award(id: &str) -> Award {
    Award {
        id: id.to_string(),
        title: format!("{} award", id),
        date: Some("2023".to_string()),
        body: String::new(),
        links: Some(vec![Link { href: "https://x".to_string(), name: "x".to_string() }]),
    }
}

#[test]
fn from_file_puts_body_in() {
    let a = Award::from_file(Ok((award("a"), "<p>won</p>".to_string()))).unwrap();
    assert_eq!(a.body, "<p>won</p>");
    assert_eq!(a.id, "a");
    assert_eq!(a.links.unwrap()[0].name, "x");
    assert!(matches!(Award::from_file(Err(ReadError::MissingFrontmatter)), Err(ReadError::MissingFrontmatter)));
}

#[test]
fn fetch_awards_newest_path_first_skipping_errors() {
    let entries: Vec<AwardEntry> = vec![
        ("awards/2021_b.md".to_string(), Ok(award("b"))),
        ("awards/2023_c.md".to_string(), Ok(award("c"))),
        ("awards/2022_bad.md".to_string(), Err(ReadError::InvalidFrontmatter("bad".to_string()))),
        ("awards/2019_a.md".to_string(), Ok(award("a"))),
    ];
    let got = fetch_awards(Some(entries)).unwrap();
    let ids: Vec<&str> = got.iter().map(|a| a.id.as_str()).collect();
    assert_eq!(ids, vec!["c", "b", "a"]);
}

#[test]
fn fetch_awards_without_listing() {
    assert!(fetch_awards(None).is_none());
    assert!(fetch_awards(Some(Vec::new())).unwrap().is_empty());
}

#[test]
fn sort_award_files_orders_by_path_descending() {
    let entries: Vec<AwardEntry> = vec![
        ("a/b".to_string(), Ok(award("1"))),
        ("a/bc".to_string(), Ok(award("2"))),
        ("a/é".to_string(), Ok(award("3"))),
        ("a/Z".to_string(), Ok(award("4"))),
    ];
    let sorted = sort_award_files(entries);
    let paths: Vec<&str> = sorted.iter().map(|e| e.0.as_str()).collect();
    assert_eq!(paths, vec!["a/é", "a/bc", "a/b", "a/Z"]);
}
