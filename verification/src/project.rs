//! A project page: the fields of its frontmatter and its rendered body.
use vstd::prelude::*;
use crate::categories::{opt_str_view, copy_opt_str};
use crate::keyed::Keyed;

verus! {

/// Miscellaneous per-project switches.
#[derive(Clone, Debug)]
pub struct ProjectFlags {
    /// The thumbnail is taken from the project's README.
    pub readme_thumbnail: bool,
}

/// A project shown on the site.
#[derive(Clone, Debug)]
pub struct Project {
    /// Project id, also its page's path segment.
    pub id: String,
    /// Name of the category the project is listed under.
    pub category: String,
    pub title: String,
    /// Year or year range, such as `2020 - now`.
    pub year: String,
    /// Short text-only description.
    pub description: String,
    /// Full description as HTML, rendered from the page body.
    pub body: String,
    pub thumbnail: Option<String>,
    pub url: Option<String>,
    pub github: Option<String>,
    pub stars: Option<i64>,
    pub forks: Option<i64>,
    pub flags: Option<ProjectFlags>,
}

/// A project as plain values; `flags` holds `readme_thumbnail`.
pub struct ProjectView {
    pub id: Seq<char>,
    pub category: Seq<char>,
    pub title: Seq<char>,
    pub year: Seq<char>,
    pub description: Seq<char>,
    pub body: Seq<char>,
    pub thumbnail: Option<Seq<char>>,
    pub url: Option<Seq<char>>,
    pub github: Option<Seq<char>>,
    pub stars: Option<i64>,
    pub forks: Option<i64>,
    pub flags: Option<bool>,
}

/// The flags as plain values.
pub open spec fn flags_view(f: Option<ProjectFlags>) -> Option<bool> {
    match f {
        Some(x) => Some(x.readme_thumbnail),
        None => None,
    }
}

impl View for Project {
    type V = ProjectView;

    open spec fn view(&self) -> ProjectView {
        ProjectView {
            id: self.id@,
            category: self.category@,
            title: self.title@,
            year: self.year@,
            description: self.description@,
            body: self.body@,
            thumbnail: opt_str_view(self.thumbnail),
            url: opt_str_view(self.url),
            github: opt_str_view(self.github),
            stars: self.stars,
            forks: self.forks,
            flags: flags_view(self.flags),
        }
    }
}

impl Project {
    /// A copy of the project.
    pub fn copy(&self) -> (res: Project)
        ensures
            res@ == self@,
    {
        Project {
            id: self.id.clone(),
            category: self.category.clone(),
            title: self.title.clone(),
            year: self.year.clone(),
            description: self.description.clone(),
            body: self.body.clone(),
            thumbnail: copy_opt_str(&self.thumbnail),
            url: copy_opt_str(&self.url),
            github: copy_opt_str(&self.github),
            stars: self.stars,
            forks: self.forks,
            flags: match &self.flags {
                Some(f) => Some(ProjectFlags { readme_thumbnail: f.readme_thumbnail }),
                None => None,
            },
        }
    }
}

impl Keyed for Project {
    open spec fn key(&self) -> Seq<char> {
        self.id@
    }

    fn key_text(&self) -> (res: &String) {
        &self.id
    }
}

} // verus!
