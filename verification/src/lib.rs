//! The content side of a personal portfolio site: project pages and award
//! pages written as markdown with TOML frontmatter, a YAML list of project
//! categories, the in-memory project index kept up to date by a file
//! watcher, and the small decisions the web server makes around them.
pub mod text;
pub mod document;
pub mod yaml;
pub mod categories;
pub mod keyed;
pub mod project;
pub mod projects;
pub mod sorting;
pub mod order;
pub mod awards;
pub mod watch;
pub mod site;
pub mod laws;
