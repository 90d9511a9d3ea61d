use portfolio::site::{bind_address, render_fail_wrapper, stylesheet_target, template_context, ServerConfig};
use portfolio::watch::{index_action, is_category_file, stylesheet_action, FsEvent, IndexAction};

#[test]
fn config_defaults() {
    let c = ServerConfig::from_env(false, None);
    assert!(!c.dev);
    assert_eq!(c.path_root, ".");
    assert_eq!(c.path("projects/categories.yml"), "./projects/categories.yml");
    let c = ServerConfig::from_env(true, Some("/srv/site".to_string()));
    assert!(c.dev);
    assert_eq!(c.path("awards/"), "/srv/site/awards/");
}

#[test]
fn bind_address_defaults() {
    assert_eq!(bind_address(None, None), "0.0.0.0:9090");
    assert_eq!(bind_address(Some("127.0.0.1".to_string()), Some("80".to_string())), "127.0.0.1:80");
}

#[test]
fn render_fail_wrapper_cases() {
    assert_eq!(render_fail_wrapper::<()>(Ok("<p>page</p>".to_string())), "<p>page</p>");
    assert_eq!(render_fail_wrapper::<&str>(Err("no template")), "<h1>404</h1>");
}

#[test]
fn template_context_has_page_and_extra() {
    let ctx = template_context("projects", Some(vec![("categories".to_string(), "list"), ("order".to_string(), "o")]));
    assert_eq!(ctx.len(), 3);
    assert!(ctx.contains(&("page".to_string(), "projects")));
    assert!(ctx.contains(&("categories".to_string(), "list")));
    let ctx = template_context("index", None);
    assert_eq!(ctx, vec![("page".to_string(), "index")]);
    let ctx = template_context("x", Some(vec![("page".to_string(), "y"), ("k".to_string(), "1"), ("k".to_string(), "2")]));
    assert_eq!(ctx, vec![("page".to_string(), "y"), ("k".to_string(), "2")]);
}

#[test]
fn stylesheet_target_cases() {
    let (file, public) = stylesheet_target(".", "main.scss").unwrap();
    assert_eq!(file, "./static/styles/main.css");
    assert_eq!(public, "/static/styles/main.css");
    assert!(stylesheet_target(".", "readme.md").is_none());
    let (file, public) = stylesheet_target("", "a.scss").unwrap();
    assert_eq!(file, "/static/styles/a.css");
    assert_eq!(public, "static/styles/a.css");
}

#[test]
fn index_action_cases() {
    assert!(matches!(index_action(FsEvent::Write("p")), IndexAction::Process("p")));
    assert!(matches!(index_action(FsEvent::Create("p")), IndexAction::Process("p")));
    assert!(matches!(index_action(FsEvent::NoticeRemove("p")), IndexAction::Process("p")));
    assert!(matches!(index_action(FsEvent::Remove("p")), IndexAction::Remove("p")));
    assert!(matches!(index_action(FsEvent::Rename("old", "new")), IndexAction::Process("new")));
    assert!(matches!(index_action(FsEvent::<&str>::Rescan), IndexAction::Ignore));
    assert!(matches!(index_action(FsEvent::Error(Some("p"))), IndexAction::Ignore));
}

#[test]
fn stylesheet_action_cases() {
    assert_eq!(stylesheet_action(FsEvent::Write("a.scss")), Some("a.scss"));
    assert_eq!(stylesheet_action(FsEvent::Create("a.scss")), None);
    assert_eq!(stylesheet_action(FsEvent::NoticeWrite("a.scss")), None);
}

#[test]
fn category_file_is_recognised() {
    assert!(is_category_file("categories.yml"));
    assert!(!is_category_file("95_klipr.md"));
}
