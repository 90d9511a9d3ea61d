use portfolio::categories::Category;
use portfolio::project::{Project, ProjectFlags};
use portfolio::projects::Projects;

fn project(id: &str, category: &str) -> Project {
    Project {
        id: id.to_string(),
        category: category.to_string(),
        title: format!("{} title", id),
        year: "2024".to_string(),
        description: "desc".to_string(),
        body: String::new(),
        thumbnail: None,
        url: Some("https://example.com".to_string()),
        github: None,
        stars: Some(3),
        forks: None,
        flags: Some(ProjectFlags { readme_thumbnail: true }),
    }
}

fn ids(p: &Projects, cat: &str) -> Vec<String> {
    p.ids_under(cat).cloned().unwrap_or_default()
}

#[test]
fn process_stores_project_with_body() {
    let mut p = Projects::new();
    p.process(project("klipr", "main"), "<p>hi</p>".to_string());
    let got = p.get("klipr").unwrap();
    assert_eq!(got.body, "<p>hi</p>");
    assert_eq!(got.title, "klipr title");
    assert_eq!(ids(&p, "main"), vec!["klipr".to_string()]);
    assert!(p.get("other").is_none());
}

#[test]
fn process_lists_new_ids_in_order() {
    let mut p = Projects::new();
    p.process(project("a", "main"), String::new());
    p.process(project("b", "other"), String::new());
    p.process(project("c", "main"), String::new());
    assert_eq!(ids(&p, "main"), vec!["a".to_string(), "c".to_string()]);
    assert_eq!(ids(&p, "other"), vec!["b".to_string()]);
    assert_eq!(p.value().len(), 3);
    assert_eq!(p.categories().len(), 2);
}

#[test]
fn process_again_replaces_without_relisting() {
    let mut p = Projects::new();
    p.process(project("a", "main"), "one".to_string());
    p.process(project("a", "other"), "two".to_string());
    assert_eq!(p.get("a").unwrap().body, "two");
    assert_eq!(p.get("a").unwrap().category, "other");
    assert_eq!(ids(&p, "main"), vec!["a".to_string()]);
    assert!(p.ids_under("other").is_none());
    assert_eq!(p.value().len(), 1);
}

#[test]
fn process_twice_is_same_as_once() {
    let mut p = Projects::new();
    p.process(project("a", "main"), "x".to_string());
    p.process(project("a", "main"), "x".to_string());
    assert_eq!(p.value().len(), 1);
    assert_eq!(ids(&p, "main"), vec!["a".to_string()]);
}

#[test]
fn remove_drops_project_but_keeps_lists() {
    let mut p = Projects::new();
    p.process(project("a", "main"), String::new());
    p.process(project("b", "main"), String::new());
    p.remove("a");
    assert!(p.get("a").is_none());
    assert!(p.get("b").is_some());
    assert_eq!(ids(&p, "main"), vec!["a".to_string(), "b".to_string()]);
    p.remove("nothing");
    assert_eq!(p.value().len(), 1);
}

#[test]
fn remove_then_process_lists_again() {
    let mut p = Projects::new();
    p.process(project("a", "main"), String::new());
    p.remove("a");
    p.process(project("a", "main"), String::new());
    assert_eq!(ids(&p, "main"), vec!["a".to_string(), "a".to_string()]);
}

#[test]
fn group_projects_follows_category_order() {
    let mut p = Projects::new();
    p.process(project("a", "other"), String::new());
    p.process(project("b", "main"), String::new());
    p.process(project("c", "main"), String::new());
    let order = vec![Category::from("main"), Category::from("empty"), Category::from("other")];
    let groups = p.group_projects(&order).unwrap();
    assert_eq!(groups.len(), 2);
    assert_eq!(groups[0].0.name, "main");
    let main: Vec<&str> = groups[0].1.iter().map(|x| x.id.as_str()).collect();
    assert_eq!(main, vec!["b", "c"]);
    assert_eq!(groups[1].0.name, "other");
    assert_eq!(groups[1].1[0].id, "a");
}

#[test]
fn group_projects_missing_project_gives_none() {
    let mut p = Projects::new();
    p.process(project("a", "main"), String::new());
    p.remove("a");
    assert!(p.group_projects(&vec![Category::from("main")]).is_none());
    assert!(p.group_projects(&vec![Category::from("other")]).unwrap().is_empty());
}

#[test]
fn project_copy_keeps_fields() {
    let p = project("z", "main");
    let c = p.copy();
    assert_eq!(c.id, "z");
    assert_eq!(c.url, p.url);
    assert_eq!(c.stars, Some(3));
    assert!(c.flags.unwrap().readme_thumbnail);
}
