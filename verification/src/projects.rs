//! The in-memory index of project pages: projects by id, and for each
//! category the ids of the projects first indexed under it, in the order they
//! were added.
use vstd::prelude::*;
use crate::keyed::{
    Keyed, keys_distinct, keyed_map, find_key, lemma_keyed_map_at, lemma_keyed_map_update,
    lemma_keyed_map_push, lemma_keyed_map_remove,
};
use crate::project::{Project, ProjectView};
use crate::categories::{Category, CategoryView};

verus! {

/// The ids listed under one category name.
#[derive(Debug)]
pub struct CategoryEntry {
    pub name: String,
    pub ids: Vec<String>,
}

impl Keyed for CategoryEntry {
    open spec fn key(&self) -> Seq<char> {
        self.name@
    }

    fn key_text(&self) -> (res: &String) {
        &self.name
    }
}

/// The projects after indexing `project` with `body` as its body: it is
/// stored under its id, replacing any project with that id.
pub open spec fn indexed(m: Map<Seq<char>, Project>, project: Project, body: String) -> Map<
    Seq<char>,
    Project,
> {
    m.insert(project.id@, (Project { body: body, ..project }))
}

/// The category lists after indexing `project` into projects `m`: a project
/// whose id is new to `m` is appended to the list of its category.
pub open spec fn listed_after(
    listed: Map<Seq<char>, Seq<Seq<char>>>,
    m: Map<Seq<char>, Project>,
    project: Project,
) -> Map<Seq<char>, Seq<Seq<char>>> {
    if m.contains_key(project.id@) {
        listed
    } else {
        listed.insert(project.category@, listed_under(listed, project.category@).push(project.id@))
    }
}

/// The characters of each id.
pub open spec fn ids_view(s: Seq<String>) -> Seq<Seq<char>> {
    s.map_values(|x: String| x@)
}

/// The ids listed under `name`, or none.
pub open spec fn listed_under(
    listed: Map<Seq<char>, Seq<Seq<char>>>,
    name: Seq<char>,
) -> Seq<Seq<char>> {
    if listed.contains_key(name) {
        listed[name]
    } else {
        Seq::empty()
    }
}

/// The projects with the given ids, in order, looked up in `m`; nothing if
/// one of the ids is missing.
pub open spec fn resolve_ids(ids: Seq<Seq<char>>, m: Map<Seq<char>, Project>) -> Option<
    Seq<ProjectView>,
>
    decreases ids.len(),
{
    if ids.len() == 0 {
        Some(Seq::empty())
    } else {
        match resolve_ids(ids.drop_last(), m) {
            Some(r) => if m.contains_key(ids.last()) {
                Some(r.push(m[ids.last()]@))
            } else {
                None
            },
            None => None,
        }
    }
}

/// The projects page's grouping: for each category of `order` that has a
/// list, in the order of `order`, the category with the projects of its
/// list; nothing if a listed id has no project.
pub open spec fn grouped(
    order: Seq<Category>,
    listed: Map<Seq<char>, Seq<Seq<char>>>,
    m: Map<Seq<char>, Project>,
) -> Option<Seq<(CategoryView, Seq<ProjectView>)>>
    decreases order.len(),
{
    if order.len() == 0 {
        Some(Seq::empty())
    } else {
        match grouped(order.drop_last(), listed, m) {
            Some(g) => {
                let c = order.last();
                if listed.contains_key(c.name@) {
                    match resolve_ids(listed[c.name@], m) {
                        Some(ps) => Some(g.push((c@, ps))),
                        None => None,
                    }
                } else {
                    Some(g)
                }
            },
            None => None,
        }
    }
}

/// A grouping as plain values.
pub open spec fn group_view(g: Seq<(Category, Vec<Project>)>) -> Seq<
    (CategoryView, Seq<ProjectView>),
> {
    g.map_values(|e: (Category, Vec<Project>)| (e.0@, e.1@.map_values(|p: Project| p@)))
}

/// The project index.
#[derive(Debug)]
pub struct Projects {
    /// The projects, no two with the same id.
    pub value: Vec<Project>,
    /// The ids under each category name, no two entries with the same name.
    pub by_category: Vec<CategoryEntry>,
}

impl Projects {
    /// Ids and category names are each unique.
    pub open spec fn wf(&self) -> bool {
        keys_distinct(self.value@) && keys_distinct(self.by_category@)
    }

    /// The projects by id.
    pub open spec fn projects(&self) -> Map<Seq<char>, Project> {
        keyed_map(self.value@)
    }

    /// The ids listed under each category name, in the order they were added.
    pub open spec fn listed(&self) -> Map<Seq<char>, Seq<Seq<char>>> {
        keyed_map(self.by_category@).map_values(|e: CategoryEntry| ids_view(e.ids@))
    }

    /// An empty index.
    pub fn new() -> (res: Projects)
        ensures
            res.wf(),
            res.projects() == Map::<Seq<char>, Project>::empty(),
            res.listed() == Map::<Seq<char>, Seq<Seq<char>>>::empty(),
    {
        let res = Projects { value: Vec::new(), by_category: Vec::new() };
        assert(res.projects() =~= Map::<Seq<char>, Project>::empty());
        assert(res.listed() =~= Map::<Seq<char>, Seq<Seq<char>>>::empty());
        res
    }

    /// Appends `id` to the list of `category`, creating the list if needed.
    fn list_under(&mut self, category: String, id: String)
        requires
            old(self).wf(),
        ensures
            final(self).wf(),
            final(self).value == old(self).value,
            final(self).listed() == old(self).listed().insert(
                category@,
                listed_under(old(self).listed(), category@).push(id@),
            ),
    {
        let ghost old_entries = self.by_category@;
        match find_key(&self.by_category, category.as_str()) {
            Some(c) => {
                proof {
                    lemma_keyed_map_at(old_entries, c as int);
                }
                let mut ids = Vec::new();
                std::mem::swap(&mut ids, &mut self.by_category[c].ids);
                ids.push(id);
                let entry = CategoryEntry { name: category, ids };
                let ghost e = entry;
                assert(ids_view(e.ids@) =~= ids_view(old_entries[c as int].ids@).push(id@));
                self.by_category.set(c, entry);
                proof {
                    lemma_keyed_map_update(old_entries, c as int, e);
                    assert(self.by_category@ =~= old_entries.update(c as int, e));
                    assert(listed_under(old(self).listed(), category@) == ids_view(
                        old_entries[c as int].ids@,
                    ));
                }
            },
            None => {
                let mut ids = Vec::new();
                ids.push(id);
                let entry = CategoryEntry { name: category, ids };
                let ghost e = entry;
                assert(ids_view(e.ids@) =~= Seq::<Seq<char>>::empty().push(id@));
                self.by_category.push(entry);
                proof {
                    lemma_keyed_map_push(old_entries, e);
                    assert(listed_under(old(self).listed(), category@) =~= Seq::empty());
                }
            },
        }
        assert(self.listed() =~= old(self).listed().insert(
            category@,
            listed_under(old(self).listed(), category@).push(id@),
        ));
    }

    /// Indexes a project page: the project, with `body` as its body, is stored
    /// under its id, replacing any project with that id. A project whose id
    /// was not indexed yet is also appended to the list of its category.
    pub fn process(&mut self, project: Project, body: String)
        requires
            old(self).wf(),
        ensures
            final(self).wf(),
            final(self).projects() == indexed(old(self).projects(), project, body),
            final(self).listed() == listed_after(old(self).listed(), old(self).projects(), project),
    {
        let ghost old_value = self.value@;
        let mut project = project;
        project.body = body;
        let ghost stored = project;
        let id = project.id.clone();
        let category = project.category.clone();
        match find_key(&self.value, id.as_str()) {
            Some(i) => {
                proof {
                    lemma_keyed_map_at(old_value, i as int);
                }
                self.value.set(i, project);
                proof {
                    lemma_keyed_map_update(old_value, i as int, stored);
                }
            },
            None => {
                self.value.push(project);
                proof {
                    lemma_keyed_map_push(old_value, stored);
                }
                self.list_under(category, id);
            },
        }
    }

    /// Drops the project with id `id`, if any; category lists are left as they are.
    pub fn remove(&mut self, id: &str)
        requires
            old(self).wf(),
        ensures
            final(self).wf(),
            final(self).projects() == old(self).projects().remove(id@),
            final(self).by_category == old(self).by_category,
    {
        let ghost old_value = self.value@;
        match find_key(&self.value, id) {
            Some(i) => {
                self.value.remove(i);
                proof {
                    lemma_keyed_map_remove(old_value, i as int);
                }
            },
            None => {
                assert(self.projects() =~= old(self).projects().remove(id@));
            },
        }
    }

    /// The project with id `id`, if any.
    pub fn get(&self, id: &str) -> (res: Option<&Project>)
        requires
            self.wf(),
        ensures
            match res {
                Some(p) => self.projects().contains_key(id@) && *p == self.projects()[id@],
                None => !self.projects().contains_key(id@),
            },
    {
        match find_key(&self.value, id) {
            Some(i) => {
                proof {
                    lemma_keyed_map_at(self.value@, i as int);
                }
                Some(&self.value[i])
            },
            None => None,
        }
    }

    /// The ids listed under category `name`, if any.
    pub fn ids_under(&self, name: &str) -> (res: Option<&Vec<String>>)
        requires
            self.wf(),
        ensures
            match res {
                Some(ids) => self.listed().contains_key(name@) && ids_view(ids@)
                    == self.listed()[name@],
                None => !self.listed().contains_key(name@),
            },
    {
        match find_key(&self.by_category, name) {
            Some(c) => {
                proof {
                    lemma_keyed_map_at(self.by_category@, c as int);
                }
                Some(&self.by_category[c].ids)
            },
            None => None,
        }
    }

    /// Copies of the projects with the given ids, in order; nothing if one
    /// of them is not indexed.
    pub fn resolve(&self, ids: &Vec<String>) -> (res: Option<Vec<Project>>)
        requires
            self.wf(),
        ensures
            match resolve_ids(ids_view(ids@), self.projects()) {
                Some(ps) => res matches Some(r) && r@.map_values(|p: Project| p@) == ps,
                None => res is None,
            },
    {
        let n = ids.len();
        let mut out: Vec<Project> = Vec::new();
        let mut i: usize = 0;
        while i < n
            invariant
                self.wf(),
                n == ids@.len(),
                i <= n,
                resolve_ids(ids_view(ids@.take(i as int)), self.projects()) == Some(
                    out@.map_values(|p: Project| p@),
                ),
            decreases n - i,
        {
            assert(ids_view(ids@.take(i + 1)).drop_last() =~= ids_view(ids@.take(i as int)));
            assert(ids_view(ids@.take(i + 1)).last() == ids@[i as int]@);
            match self.get(ids[i].as_str()) {
                Some(p) => {
                    let ghost before = out@;
                    out.push(p.copy());
                    assert(out@.map_values(|p: Project| p@) =~= before.map_values(
                        |p: Project| p@,
                    ).push(self.projects()[ids@[i as int]@]@));
                },
                None => {
                    proof {
                        lemma_resolve_ids_none_extends(ids_view(ids@), i as int + 1, self.projects());
                    }
                    return None;
                },
            }
            i += 1;
        }
        assert(ids@.take(n as int) =~= ids@);
        Some(out)
    }

    /// The projects page's grouping of the index by the categories of `order`:
    /// nothing when an id listed under one of those categories has no project
    /// (as after a page was dropped), the state in which the page cannot be
    /// built; the server fails that request.
    pub fn group_projects(&self, order: &Vec<Category>) -> (res: Option<Vec<(Category, Vec<Project>)>>)
        requires
            self.wf(),
        ensures
            match grouped(order@, self.listed(), self.projects()) {
                Some(g) => res matches Some(r) && group_view(r@) == g,
                None => res is None,
            },
    {
        let n = order.len();
        let mut out: Vec<(Category, Vec<Project>)> = Vec::new();
        let mut i: usize = 0;
        while i < n
            invariant
                self.wf(),
                n == order@.len(),
                i <= n,
                grouped(order@.take(i as int), self.listed(), self.projects()) == Some(
                    group_view(out@),
                ),
            decreases n - i,
        {
            assert(order@.take(i + 1).drop_last() =~= order@.take(i as int));
            assert(order@.take(i + 1).last() == order@[i as int]);
            let c = &order[i];
            match self.ids_under(c.name.as_str()) {
                Some(ids) => match self.resolve(ids) {
                    Some(ps) => {
                        let ghost before = out@;
                        out.push((c.copy(), ps));
                        assert(group_view(out@) =~= group_view(before).push(
                            (c@, group_view(out@).last().1),
                        ));
                    },
                    None => {
                        proof {
                            lemma_grouped_none_extends(order@, i as int + 1, self.listed(), self.projects());
                        }
                        return None;
                    },
                },
                None => {},
            }
            i += 1;
        }
        assert(order@.take(n as int) =~= order@);
        Some(out)
    }

    /// All indexed projects.
    pub fn value(&self) -> (res: &Vec<Project>)
        ensures
            res == &self.value,
    {
        &self.value
    }

    /// The category lists.
    pub fn categories(&self) -> (res: &Vec<CategoryEntry>)
        ensures
            res == &self.by_category,
    {
        &self.by_category
    }
}

/// Once a prefix of the ids fails to resolve, every longer prefix does.
proof fn lemma_resolve_ids_none_extends(ids: Seq<Seq<char>>, k: int, m: Map<Seq<char>, Project>)
    requires
        0 <= k <= ids.len(),
        resolve_ids(ids.take(k), m) is None,
    ensures
        resolve_ids(ids, m) is None,
    decreases ids.len() - k,
{
    if k < ids.len() {
        assert(ids.take(k + 1).drop_last() =~= ids.take(k));
        lemma_resolve_ids_none_extends(ids, k + 1, m);
    } else {
        assert(ids.take(k) =~= ids);
    }
}

/// Once a prefix of the order fails to group, every longer prefix does.
proof fn lemma_grouped_none_extends(
    order: Seq<Category>,
    k: int,
    listed: Map<Seq<char>, Seq<Seq<char>>>,
    m: Map<Seq<char>, Project>,
)
    requires
        0 <= k <= order.len(),
        grouped(order.take(k), listed, m) is None,
    ensures
        grouped(order, listed, m) is None,
    decreases order.len() - k,
{
    if k < order.len() {
        assert(order.take(k + 1).drop_last() =~= order.take(k));
        lemma_grouped_none_extends(order, k + 1, listed, m);
    } else {
        assert(order.take(k) =~= order);
    }
}

} // verus!
