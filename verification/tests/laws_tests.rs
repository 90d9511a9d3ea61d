use portfolio::awards::{fetch_awards, Award, AwardEntry};
use portfolio::document::ReadError;
use portfolio::project::Project;
use portfolio::projects::Projects;
use portfolio::site::template_context;

fn project(id: &str, category: &str, body_marker: &str) -> Project {
    Project {
        id: id.to_string(),
        category: category.to_string(),
        title: body_marker.to_string(),
        year: "2020 - now".to_string(),
        description: String::new(),
        body: String::new(),
        thumbnail: None,
        url: None,
        github: Some("https://github.com/x".to_string()),
        stars: None,
        forks: Some(1),
        flags: None,
    }
}

fn every_project_listed(p: &Projects) -> bool {
    p.value().iter().all(|proj| p.categories().iter().any(|c| c.ids.contains(&proj.id)))
}

#[test]
fn law_lookup_after_process_concrete() {
    let mut p = Projects::new();
    p.process(project("a", "main", "A"), "<p>a</p>".to_string());
    p.process(project("b", "main", "B"), "<p>b</p>".to_string());
    p.process(project("a", "main", "A2"), "<p>a2</p>".to_string());
    assert_eq!(p.get("a").unwrap().title, "A2");
    assert_eq!(p.get("a").unwrap().body, "<p>a2</p>");
    assert_eq!(p.get("b").unwrap().body, "<p>b</p>");
}

#[test]
fn law_remove_undoes_new_process_concrete() {
    let mut p = Projects::new();
    p.process(project("a", "main", "A"), String::new());
    let before: Vec<String> = p.value().iter().map(|x| x.id.clone()).collect();
    p.process(project("new", "other", "N"), String::new());
    p.remove("new");
    let after: Vec<String> = p.value().iter().map(|x| x.id.clone()).collect();
    assert_eq!(before, after);
    assert!(p.get("new").is_none());
}

#[test]
fn law_lists_only_grow_concrete() {
    let mut p = Projects::new();
    p.process(project("a", "main", "A"), String::new());
    let before = p.ids_under("main").unwrap().clone();
    p.process(project("b", "main", "B"), String::new());
    p.process(project("a", "other", "A"), String::new());
    let after = p.ids_under("main").unwrap().clone();
    assert!(after.starts_with(&before));
    assert_eq!(after, vec!["a".to_string(), "b".to_string()]);
}

#[test]
fn law_indexed_projects_are_listed_concrete() {
    let mut p = Projects::new();
    assert!(every_project_listed(&p));
    p.process(project("a", "main", "A"), String::new());
    p.process(project("b", "tools", "B"), String::new());
    p.process(project("a", "tools", "A"), String::new());
    assert!(every_project_listed(&p));
    p.remove("b");
    assert!(every_project_listed(&p));
}

#[test]
fn law_context_has_page_concrete() {
    let ctx = template_context(1, Some(vec![("awards".to_string(), 2)]));
    assert!(ctx.contains(&("page".to_string(), 1)));
    let ctx = template_context(1, Some(vec![("page".to_string(), 3)]));
    assert_eq!(ctx, vec![("page".to_string(), 3)]);
}

#[test]
fn law_process_keeps_index_consistent_concrete() {
    let mut p = Projects::new();
    p.process(project("a", "main", "A"), String::new());
    p.process(project("b", "tools", "B"), String::new());
    p.process(project("a", "tools", "A"), String::new());
    p.process(project("c", "main", "C"), String::new());
    let listed: Vec<&String> = p.categories().iter().flat_map(|c| c.ids.iter()).collect();
    for id in &listed {
        assert!(p.get(id).is_some());
    }
    for proj in p.value() {
        assert_eq!(listed.iter().filter(|x| ***x == proj.id).count(), 1);
    }
}

#[test]
fn law_awards_ignore_listing_order_concrete() {
    let entry = |path: &str, ok: bool| -> AwardEntry {
        let r = if ok {
            Ok(Award { id: path.to_string(), title: String::new(), date: None, body: String::new(), links: None })
        } else {
            Err(ReadError::MissingFrontmatter)
        };
        (path.to_string(), r)
    };
    let first = vec![entry("a/1", true), entry("a/3", true), entry("a/2", false), entry("a/4", true)];
    let second = vec![entry("a/4", true), entry("a/2", false), entry("a/1", true), entry("a/3", true)];
    let x: Vec<String> = fetch_awards(Some(first)).unwrap().into_iter().map(|a| a.id).collect();
    let y: Vec<String> = fetch_awards(Some(second)).unwrap().into_iter().map(|a| a.id).collect();
    assert_eq!(x, y);
    assert_eq!(x, vec!["a/4", "a/3", "a/1"]);
}
