//! Properties of the project index and of template data that hold across
//! operations, stated over the models that the operations' contracts use.
use vstd::prelude::*;
use crate::project::{Project, ProjectView};
use crate::categories::CategoryView;
use crate::projects::{indexed, listed_after, listed_under, resolve_ids, grouped};
use crate::categories::{Category, category_from_hash};
use crate::yaml::{YamlNode, hash_get};
use crate::site::insert_all;
use crate::order::{entry_key, is_stable_key_sort, sorted_by_order_key, with_order_key};
use crate::awards::{AwardEntry, is_path_sort, sorted_by_path_desc, with_path, parsed_awards};
use crate::text::{text_le, lemma_text_le_antisym, lemma_text_le_refl};

verus! {

/// Every indexed project's id appears in some category list.
pub open spec fn all_listed(m: Map<Seq<char>, Project>, listed: Map<Seq<char>, Seq<Seq<char>>>) -> bool {
    forall|id: Seq<char>|
        #[trigger] m.contains_key(id) ==> exists|c: Seq<char>|
            listed.contains_key(c) && (#[trigger] listed[c]).contains(id)
}

/// Each list in `before` is a prefix of the list of that category in `after`.
pub open spec fn lists_extend(
    before: Map<Seq<char>, Seq<Seq<char>>>,
    after: Map<Seq<char>, Seq<Seq<char>>>,
) -> bool {
    forall|c: Seq<char>|
        #[trigger] before.contains_key(c) ==> after.contains_key(c) && before[c].is_prefix_of(
            after[c],
        )
}

/// After a page is indexed, looking up its id gives the page's project with
/// the page's body, and every other id gives what it gave before.
pub proof fn law_lookup_after_process(
    m: Map<Seq<char>, Project>,
    project: Project,
    body: String,
    other: Seq<char>,
)
    ensures
        indexed(m, project, body).contains_key(project.id@),
        indexed(m, project, body)[project.id@] == (Project { body: body, ..project }),
        other != project.id@ ==> indexed(m, project, body).get(other) == m.get(other),
{
}

/// Indexing the same page twice leaves the index as indexing it once: the
/// watcher may report a file more than once.
pub proof fn law_process_idempotent(
    m: Map<Seq<char>, Project>,
    listed: Map<Seq<char>, Seq<Seq<char>>>,
    project: Project,
    body: String,
)
    ensures
        indexed(indexed(m, project, body), project, body) == indexed(m, project, body),
        listed_after(listed_after(listed, m, project), indexed(m, project, body), project)
            == listed_after(listed, m, project),
{
    assert(indexed(indexed(m, project, body), project, body) =~= indexed(m, project, body));
}

/// Indexing never shortens or reorders a category list.
pub proof fn law_lists_only_grow(
    m: Map<Seq<char>, Project>,
    listed: Map<Seq<char>, Seq<Seq<char>>>,
    project: Project,
)
    ensures
        lists_extend(listed, listed_after(listed, m, project)),
{
    let after = listed_after(listed, m, project);
    assert forall|c: Seq<char>| #[trigger] listed.contains_key(c) implies after.contains_key(c)
        && listed[c].is_prefix_of(after[c]) by {
        if !m.contains_key(project.id@) && c == project.category@ {
            assert(after[c] == listed[c].push(project.id@));
            assert(listed[c].is_prefix_of(after[c]));
        }
    }
}

/// Every indexed project stays listed under some category: indexing and
/// dropping projects both keep this.
pub proof fn law_indexed_projects_are_listed(
    m: Map<Seq<char>, Project>,
    listed: Map<Seq<char>, Seq<Seq<char>>>,
    project: Project,
    body: String,
    removed: Seq<char>,
)
    requires
        all_listed(m, listed),
    ensures
        all_listed(indexed(m, project, body), listed_after(listed, m, project)),
        all_listed(m.remove(removed), listed),
{
    let m2 = indexed(m, project, body);
    let l2 = listed_after(listed, m, project);
    assert forall|id: Seq<char>| #[trigger] m2.contains_key(id) implies exists|c: Seq<char>|
        l2.contains_key(c) && (#[trigger] l2[c]).contains(id) by {
        if m.contains_key(id) {
            let c = choose|c: Seq<char>| listed.contains_key(c) && (#[trigger] listed[c]).contains(id);
            law_lists_only_grow(m, listed, project);
            assert(listed[c].is_prefix_of(l2[c]));
            let k = choose|k: int| 0 <= k < listed[c].len() && listed[c][k] == id;
            assert(l2[c][k] == id);
            assert(l2.contains_key(c) && l2[c].contains(id));
        } else {
            assert(id == project.id@);
            let c = project.category@;
            let l = listed_under(listed, c).push(project.id@);
            assert(l2[c] == l);
            assert(l[l.len() - 1] == id);
            assert(l2.contains_key(c) && l2[c].contains(id));
        }
    }
    assert forall|id: Seq<char>| #[trigger] m.remove(removed).contains_key(id) implies exists|
        c: Seq<char>,
    | listed.contains_key(c) && (#[trigger] listed[c]).contains(id) by {
        assert(m.contains_key(id));
    }
}

/// The index and its category lists agree: every listed id has a project,
/// and every project's id stands at exactly one place across all lists.
pub open spec fn index_consistent(
    m: Map<Seq<char>, Project>,
    listed: Map<Seq<char>, Seq<Seq<char>>>,
) -> bool {
    &&& forall|c: Seq<char>, i: int|
        listed.contains_key(c) && 0 <= i < listed[c].len() ==> m.contains_key(
            #[trigger] listed[c][i],
        )
    &&& forall|id: Seq<char>|
        #[trigger] m.contains_key(id) ==> exists|c: Seq<char>, i: int|
            listed.contains_key(c) && 0 <= i < listed[c].len() && #[trigger] listed[c][i] == id
    &&& forall|c1: Seq<char>, i1: int, c2: Seq<char>, i2: int|
        listed.contains_key(c1) && listed.contains_key(c2) && 0 <= i1 < listed[c1].len() && 0
            <= i2 < listed[c2].len() && #[trigger] listed[c1][i1] == #[trigger] listed[c2][i2]
            ==> c1 == c2 && i1 == i2
}

/// An empty index is consistent, and indexing a page keeps the index
/// consistent: no listed id lacks a project, and each project is listed
/// exactly once.
pub proof fn law_process_keeps_index_consistent(
    m: Map<Seq<char>, Project>,
    listed: Map<Seq<char>, Seq<Seq<char>>>,
    project: Project,
    body: String,
)
    requires
        index_consistent(m, listed),
    ensures
        index_consistent(
            Map::<Seq<char>, Project>::empty(),
            Map::<Seq<char>, Seq<Seq<char>>>::empty(),
        ),
        index_consistent(indexed(m, project, body), listed_after(listed, m, project)),
{
    let m2 = indexed(m, project, body);
    let l2 = listed_after(listed, m, project);
    let id = project.id@;
    if m.contains_key(id) {
        assert(l2 == listed);
        assert forall|x: Seq<char>| #[trigger] m2.contains_key(x) implies exists|c: Seq<char>, i: int|
            l2.contains_key(c) && 0 <= i < l2[c].len() && #[trigger] l2[c][i] == x by {
            assert(m.contains_key(x));
        }
    } else {
        let cat = project.category@;
        let l = listed_under(listed, cat);
        assert(l2 == listed.insert(cat, l.push(id)));
        assert forall|c: Seq<char>, i: int|
            l2.contains_key(c) && 0 <= i < l2[c].len() implies m2.contains_key(
            #[trigger] l2[c][i],
        ) by {
            if c == cat {
                if i < l.len() {
                    assert(listed.contains_key(cat));
                    assert(l2[c][i] == listed[cat][i]);
                }
            } else {
                assert(l2[c][i] == listed[c][i]);
            }
        }
        assert forall|x: Seq<char>| #[trigger] m2.contains_key(x) implies exists|c: Seq<char>, i: int|
            l2.contains_key(c) && 0 <= i < l2[c].len() && #[trigger] l2[c][i] == x by {
            if x == id {
                assert(l2[cat][l.len() as int] == x);
            } else {
                assert(m.contains_key(x));
                let (c, i) = choose|c: Seq<char>, i: int|
                    listed.contains_key(c) && 0 <= i < listed[c].len() && #[trigger] listed[c][i] == x;
                if c == cat {
                    assert(l2[cat][i] == x);
                } else {
                    assert(l2[c][i] == x);
                }
            }
        }
        assert forall|c1: Seq<char>, i1: int, c2: Seq<char>, i2: int|
            l2.contains_key(c1) && l2.contains_key(c2) && 0 <= i1 < l2[c1].len() && 0 <= i2
                < l2[c2].len() && #[trigger] l2[c1][i1] == #[trigger] l2[c2][i2] implies c1 == c2
            && i1 == i2 by {
            let new1 = c1 == cat && i1 == l.len();
            let new2 = c2 == cat && i2 == l.len();
            if !new1 {
                if c1 == cat {
                    assert(listed.contains_key(cat));
                }
                assert(l2[c1][i1] == listed[c1][i1]);
                assert(m.contains_key(listed[c1][i1]));
            }
            if !new2 {
                if c2 == cat {
                    assert(listed.contains_key(cat));
                }
                assert(l2[c2][i2] == listed[c2][i2]);
                assert(m.contains_key(listed[c2][i2]));
            }
            if !new1 && !new2 {
                assert(listed[c1][i1] == listed[c2][i2]);
            }
        }
    }
}

/// Dropping a page that was new when it was indexed gives back the projects
/// as they were before.
pub proof fn law_remove_undoes_new_process(
    m: Map<Seq<char>, Project>,
    project: Project,
    body: String,
)
    requires
        !m.contains_key(project.id@),
    ensures
        indexed(m, project, body).remove(project.id@) == m,
{
    assert(indexed(m, project, body).remove(project.id@) =~= m);
}

/// After a project is dropped, looking up its id finds nothing.
pub proof fn law_lookup_after_remove(m: Map<Seq<char>, Project>, id: Seq<char>)
    ensures
        !m.remove(id).contains_key(id),
{
}

/// A page template always has a `page` entry, holding the page's name unless
/// the page's own entries hold one.
pub proof fn law_context_has_page<V>(page: V, extra: Seq<(String, V)>)
    ensures
        insert_all(Map::<Seq<char>, V>::empty().insert("page"@, page), extra).contains_key(
            "page"@,
        ),
        (forall|i: int| 0 <= i < extra.len() ==> (#[trigger] extra[i]).0@ != "page"@) ==> insert_all(
            Map::<Seq<char>, V>::empty().insert("page"@, page),
            extra,
        )["page"@] == page,
    decreases extra.len(),
{
    if extra.len() > 0 {
        law_context_has_page(page, extra.drop_last());
        if forall|i: int| 0 <= i < extra.len() ==> (#[trigger] extra[i]).0@ != "page"@ {
            assert forall|i: int| 0 <= i < extra.drop_last().len() implies (
            #[trigger] extra.drop_last()[i]).0@ != "page"@ by {
                assert(extra.drop_last()[i] == extra[i]);
            }
            assert(extra[extra.len() - 1].0@ != "page"@);
        }
    }
}

/// An element of `t` that the filter `f` keeps at position `j`.
proof fn lemma_filter_member<A>(t: Seq<A>, f: spec_fn(A) -> bool, j: int) -> (i: int)
    requires
        0 <= j < t.filter(f).len(),
    ensures
        0 <= i < t.len(),
        t[i] == t.filter(f)[j],
        f(t[i]),
{
    broadcast use vstd::seq_lib::group_filter_ensures;

    let x = t.filter(f)[j];
    assert(f(x));
    t.lemma_filter_contains_rev(f, x);
    choose|i: int| 0 <= i < t.len() && t[i] == x
}

/// The last element of `t` is the last one its class keeps.
proof fn lemma_filter_last<A>(t: Seq<A>, f: spec_fn(A) -> bool)
    requires
        t.len() > 0,
        f(t.last()),
    ensures
        t.filter(f) == t.drop_last().filter(f).push(t.last()),
{
    assert(t =~= t.drop_last().push(t.last()));
    t.drop_last().lemma_filter_push(t.last(), f);
}

/// Selects the elements whose key is `k`.
pub open spec fn with_key<A, K>(key: spec_fn(A) -> K, k: K) -> spec_fn(A) -> bool {
    |x: A| key(x) == k
}

/// The keys of `t` are in order by `le`.
pub open spec fn sorted_by<A, K>(t: Seq<A>, key: spec_fn(A) -> K, le: spec_fn(K, K) -> bool) -> bool {
    forall|i: int, j: int| 0 <= i < j < t.len() ==> le(key(#[trigger] t[i]), key(#[trigger] t[j]))
}

/// Two sequences sorted by the same order on keys, whose classes of equal
/// key hold the same elements in the same order, are equal: a stable sort
/// has one result.
proof fn lemma_stable_sort_unique<A, K>(
    t1: Seq<A>,
    t2: Seq<A>,
    key: spec_fn(A) -> K,
    le: spec_fn(K, K) -> bool,
)
    requires
        forall|a: K| #[trigger] le(a, a),
        forall|a: K, b: K| #[trigger] le(a, b) && le(b, a) ==> a == b,
        sorted_by(t1, key, le),
        sorted_by(t2, key, le),
        forall|k: K| #[trigger] t1.filter(with_key(key, k)) == t2.filter(with_key(key, k)),
    ensures
        t1 == t2,
    decreases t1.len(),
{
    broadcast use vstd::seq_lib::group_filter_ensures;

    if t1.len() == 0 || t2.len() == 0 {
        if t2.len() > 0 {
            let k = key(t2.last());
            t2.lemma_filter_contains(with_key(key, k), t2.len() - 1);
            assert(t1 =~= Seq::<A>::empty());
            assert(t1.filter(with_key(key, k)) =~= t1) by {
                reveal(Seq::filter);
            }
        }
        if t1.len() > 0 {
            let k = key(t1.last());
            t1.lemma_filter_contains(with_key(key, k), t1.len() - 1);
            assert(t2 =~= Seq::<A>::empty());
            assert(t2.filter(with_key(key, k)) =~= t2) by {
                reveal(Seq::filter);
            }
        }
        assert(t1 =~= t2);
    } else {
        let k1 = key(t1.last());
        let k2 = key(t2.last());
        let f1 = with_key(key, k1);
        let f2 = with_key(key, k2);
        lemma_filter_last(t1, f1);
        lemma_filter_last(t2, f2);
        let i = lemma_filter_member(t2, f1, t2.filter(f1).len() - 1);
        if i < t2.len() - 1 {
            assert(le(key(t2[i]), key(t2[t2.len() - 1])));
        } else {
            assert(le(k2, k2));
        }
        let j = lemma_filter_member(t1, f2, t1.filter(f2).len() - 1);
        if j < t1.len() - 1 {
            assert(le(key(t1[j]), key(t1[t1.len() - 1])));
        } else {
            assert(le(k1, k1));
        }
        assert(le(k1, k2) && le(k2, k1));
        assert(k1 == k2);
        assert(t1.filter(f1) == t2.filter(f1));
        assert(t1.last() == t2.last());
        let d1 = t1.drop_last();
        let d2 = t2.drop_last();
        assert forall|k: K| #[trigger] d1.filter(with_key(key, k)) == d2.filter(with_key(key, k)) by {
            let f = with_key(key, k);
            assert(t1 =~= d1.push(t1.last()));
            assert(t2 =~= d2.push(t2.last()));
            d1.lemma_filter_push(t1.last(), f);
            d2.lemma_filter_push(t2.last(), f);
            assert(t1.filter(f) == t2.filter(f));
            if f(t1.last()) {
                assert(d1.filter(f) =~= t1.filter(f).drop_last());
                assert(d2.filter(f) =~= t2.filter(f).drop_last());
            }
        }
        lemma_stable_sort_unique(d1, d2, key, le);
        assert(t1 =~= d1.push(t1.last()));
        assert(t2 =~= d2.push(t2.last()));
    }
}

/// Project files sorted by their ordering key, with equal classes, are equal.
proof fn lemma_order_sort_unique<P>(t1: Seq<(P, Option<String>)>, t2: Seq<(P, Option<String>)>)
    requires
        sorted_by_order_key(t1),
        sorted_by_order_key(t2),
        forall|k: u32| #[trigger] t1.filter(with_order_key::<P>(k)) == t2.filter(with_order_key::<P>(k)),
    ensures
        t1 == t2,
{
    let key = |e: (P, Option<String>)| entry_key(e);
    let le = |a: u32, b: u32| a <= b;
    assert forall|k: u32| #[trigger] t1.filter(with_key(key, k)) == t2.filter(with_key(key, k)) by {
        assert(with_key(key, k) =~= with_order_key::<P>(k));
        assert(t1.filter(with_order_key::<P>(k)) == t2.filter(with_order_key::<P>(k)));
    }
    assert(sorted_by(t1, key, le));
    assert(sorted_by(t2, key, le));
    lemma_stable_sort_unique(t1, t2, key, le);
}

/// The order in which project files are indexed is determined by the files
/// given: any two results of `sort_project_paths` on the same files agree.
pub proof fn law_project_order_is_determined<P>(
    entries: Seq<(P, Option<String>)>,
    t1: Seq<(P, Option<String>)>,
    t2: Seq<(P, Option<String>)>,
)
    requires
        is_stable_key_sort(entries, t1),
        is_stable_key_sort(entries, t2),
    ensures
        t1 == t2,
{
    assert forall|k: u32| #[trigger] t1.filter(with_order_key::<P>(k)) == t2.filter(
        with_order_key::<P>(k),
    ) by {
        assert(t1.filter(with_order_key::<P>(k)) == entries.filter(with_order_key::<P>(k)));
        assert(t2.filter(with_order_key::<P>(k)) == entries.filter(with_order_key::<P>(k)));
    }
    lemma_order_sort_unique(t1, t2);
}

proof fn lemma_path_sort_unique(t1: Seq<AwardEntry>, t2: Seq<AwardEntry>)
    requires
        sorted_by_path_desc(t1),
        sorted_by_path_desc(t2),
        forall|k: Seq<char>| #[trigger] t1.filter(with_path(k)) == t2.filter(with_path(k)),
    ensures
        t1 == t2,
{
    let key = |e: AwardEntry| e.0@;
    let le = |a: Seq<char>, b: Seq<char>| text_le(b, a);
    assert forall|k: Seq<char>| #[trigger] t1.filter(with_key(key, k)) == t2.filter(with_key(key, k)) by {
        assert(with_key(key, k) =~= with_path(k));
        assert(t1.filter(with_path(k)) == t2.filter(with_path(k)));
    }
    assert forall|a: Seq<char>| #[trigger] le(a, a) by {
        lemma_text_le_refl(a);
    }
    assert forall|a: Seq<char>, b: Seq<char>| #[trigger] le(a, b) && le(b, a) implies a == b by {
        lemma_text_le_antisym(a, b);
    }
    assert(sorted_by(t1, key, le));
    assert(sorted_by(t2, key, le));
    lemma_stable_sort_unique(t1, t2, key, le);
}

/// The order in which awards are listed is determined by the files given:
/// any two results of sorting the same award files agree.
pub proof fn law_award_order_is_determined(
    entries: Seq<AwardEntry>,
    t1: Seq<AwardEntry>,
    t2: Seq<AwardEntry>,
)
    requires
        is_path_sort(entries, t1),
        is_path_sort(entries, t2),
    ensures
        t1 == t2,
{
    assert forall|k: Seq<char>| #[trigger] t1.filter(with_path(k)) == t2.filter(with_path(k)) by {
        assert(t1.filter(with_path(k)) == entries.filter(with_path(k)));
        assert(t2.filter(with_path(k)) == entries.filter(with_path(k)));
    }
    lemma_path_sort_unique(t1, t2);
}

/// No two entries of the listing share a path.
pub open spec fn paths_distinct(s: Seq<AwardEntry>) -> bool {
    forall|i: int, j: int|
        0 <= i < s.len() && 0 <= j < s.len() && i != j ==> (#[trigger] s[i]).0@ != (
        #[trigger] s[j]).0@
}

/// In a listing with distinct paths, the entries with path `k` are the one
/// entry that has it, or none.
proof fn lemma_filter_distinct_path(s: Seq<AwardEntry>, k: Seq<char>)
    requires
        paths_distinct(s),
    ensures
        forall|i: int| 0 <= i < s.len() && (#[trigger] s[i]).0@ == k ==> s.filter(with_path(k)) == seq![s[i]],
        (forall|i: int| 0 <= i < s.len() ==> (#[trigger] s[i]).0@ != k) ==> s.filter(with_path(k))
            == Seq::<AwardEntry>::empty(),
    decreases s.len(),
{
    if s.len() == 0 {
        assert(s.filter(with_path(k)) =~= Seq::<AwardEntry>::empty()) by {
            reveal(Seq::filter);
        }
    } else {
        let d = s.drop_last();
        assert forall|i: int, j: int|
            0 <= i < d.len() && 0 <= j < d.len() && i != j implies (#[trigger] d[i]).0@ != (
            #[trigger] d[j]).0@ by {
            assert(d[i] == s[i] && d[j] == s[j]);
        }
        lemma_filter_distinct_path(d, k);
        assert(s =~= d.push(s.last()));
        d.lemma_filter_push(s.last(), with_path(k));
        if s.last().0@ == k {
            assert forall|i: int| 0 <= i < d.len() implies (#[trigger] d[i]).0@ != k by {
                assert(d[i] == s[i]);
                assert(s[i].0@ != s[s.len() - 1].0@);
            }
            assert(s.filter(with_path(k)) =~= seq![s.last()]);
            assert forall|i: int| 0 <= i < s.len() && (#[trigger] s[i]).0@ == k implies s.filter(
                with_path(k),
            ) == seq![s[i]] by {
                if i < s.len() - 1 {
                    assert(s[i].0@ != s[s.len() - 1].0@);
                }
            }
        } else {
            assert forall|i: int| 0 <= i < s.len() && (#[trigger] s[i]).0@ == k implies s.filter(
                with_path(k),
            ) == seq![s[i]] by {
                assert(i < s.len() - 1);
                assert(d[i] == s[i]);
            }
            if forall|i: int| 0 <= i < s.len() ==> (#[trigger] s[i]).0@ != k {
                assert forall|i: int| 0 <= i < d.len() implies (#[trigger] d[i]).0@ != k by {
                    assert(d[i] == s[i]);
                }
            }
        }
    }
}

/// Two listings holding the same entries with distinct paths have the same
/// entries under each path.
proof fn lemma_same_listing_same_classes(e1: Seq<AwardEntry>, e2: Seq<AwardEntry>, k: Seq<char>)
    requires
        paths_distinct(e1),
        paths_distinct(e2),
        e1.to_multiset() == e2.to_multiset(),
    ensures
        e1.filter(with_path(k)) == e2.filter(with_path(k)),
{
    broadcast use vstd::seq_lib::to_multiset_contains;

    lemma_filter_distinct_path(e1, k);
    lemma_filter_distinct_path(e2, k);
    if exists|i: int| 0 <= i < e1.len() && (#[trigger] e1[i]).0@ == k {
        let i = choose|i: int| 0 <= i < e1.len() && (#[trigger] e1[i]).0@ == k;
        let x = e1[i];
        assert(e1.contains(x));
        assert(e1.to_multiset().count(x) > 0);
        assert(e2.contains(x));
        let j = choose|j: int| 0 <= j < e2.len() && e2[j] == x;
        assert(e2[j].0@ == k);
    } else if exists|j: int| 0 <= j < e2.len() && (#[trigger] e2[j]).0@ == k {
        let j = choose|j: int| 0 <= j < e2.len() && (#[trigger] e2[j]).0@ == k;
        let x = e2[j];
        assert(e2.contains(x));
        assert(e2.to_multiset().count(x) > 0);
        assert(e1.contains(x));
        let i = choose|i: int| 0 <= i < e1.len() && e1[i] == x;
        assert(e1[i].0@ == k);
    }
}

/// The awards listing does not depend on the order in which the directory
/// lists the award files: two listings of the same files (distinct paths)
/// in any orders sort to the same entries and give the same awards.
pub proof fn law_awards_ignore_listing_order(
    e1: Seq<AwardEntry>,
    e2: Seq<AwardEntry>,
    t1: Seq<AwardEntry>,
    t2: Seq<AwardEntry>,
)
    requires
        paths_distinct(e1),
        paths_distinct(e2),
        e1.to_multiset() == e2.to_multiset(),
        is_path_sort(e1, t1),
        is_path_sort(e2, t2),
    ensures
        t1 == t2,
        parsed_awards(t1) == parsed_awards(t2),
{
    assert forall|k: Seq<char>| #[trigger] t1.filter(with_path(k)) == t2.filter(with_path(k)) by {
        lemma_same_listing_same_classes(e1, e2, k);
        assert(t1.filter(with_path(k)) == e1.filter(with_path(k)));
        assert(t2.filter(with_path(k)) == e2.filter(with_path(k)));
    }
    lemma_path_sort_unique(t1, t2);
}

/// The awards listed are exactly the awards of the entries that were read
/// successfully, unchanged and in the entries' order.
pub proof fn law_awards_are_as_read(s: Seq<AwardEntry>)
    ensures
        parsed_awards(s) == s.filter(|e: AwardEntry| e.1 is Ok).map_values(|e: AwardEntry| e.1->Ok_0),
    decreases s.len(),
{
    let f = |e: AwardEntry| e.1 is Ok;
    let g = |e: AwardEntry| e.1->Ok_0;
    if s.len() == 0 {
        assert(s.filter(f) =~= Seq::<AwardEntry>::empty()) by {
            reveal(Seq::filter);
        }
        assert(parsed_awards(s) =~= s.filter(f).map_values(g));
    } else {
        let d = s.drop_last();
        law_awards_are_as_read(d);
        assert(s =~= d.push(s.last()));
        d.lemma_filter_push(s.last(), f);
        if f(s.last()) {
            assert(d.filter(f).push(s.last()).map_values(g) =~= d.filter(f).map_values(g).push(
                g(s.last()),
            ));
        }
        assert(parsed_awards(s) =~= s.filter(f).map_values(g));
    }
}

/// Resolving ids only looks projects up: the result has, for each id in
/// turn, the indexed project with that id, and there is none exactly when
/// some id has no project.
pub proof fn law_resolve_looks_up(ids: Seq<Seq<char>>, m: Map<Seq<char>, Project>)
    ensures
        match resolve_ids(ids, m) {
            Some(r) => r.len() == ids.len() && forall|i: int|
                0 <= i < ids.len() ==> m.contains_key(#[trigger] ids[i]) && r[i] == m[ids[i]]@,
            None => exists|i: int| 0 <= i < ids.len() && !m.contains_key(#[trigger] ids[i]),
        },
    decreases ids.len(),
{
    if ids.len() > 0 {
        let d = ids.drop_last();
        law_resolve_looks_up(d, m);
        match resolve_ids(d, m) {
            Some(r) => {
                if m.contains_key(ids.last()) {
                    assert forall|i: int| 0 <= i < ids.len() implies m.contains_key(
                        #[trigger] ids[i],
                    ) && resolve_ids(ids, m)->0[i] == m[ids[i]]@ by {
                        if i < ids.len() - 1 {
                            assert(d[i] == ids[i]);
                        }
                    }
                } else {
                    assert(!m.contains_key(ids[ids.len() - 1]));
                }
            },
            None => {
                let i = choose|i: int| 0 <= i < d.len() && !m.contains_key(#[trigger] d[i]);
                assert(ids[i] == d[i]);
            },
        }
    }
}

/// The projects page's grouping only selects and pairs: its categories are
/// those of `order` that have a list, unchanged and in order, each with the
/// indexed projects of its list; there is no grouping exactly when a listed
/// id of one of those categories has no project.
pub proof fn law_grouping_pairs_order_entries(
    order: Seq<Category>,
    listed: Map<Seq<char>, Seq<Seq<char>>>,
    m: Map<Seq<char>, Project>,
)
    ensures
        match grouped(order, listed, m) {
            Some(g) => {
                &&& g.map_values(|x: (CategoryView, Seq<ProjectView>)| x.0) == order.filter(
                    |c: Category| listed.contains_key(c.name@),
                ).map_values(|c: Category| c@)
                &&& forall|i: int|
                    0 <= i < g.len() ==> {
                        let ids = listed[(#[trigger] g[i]).0.name];
                        &&& listed.contains_key(g[i].0.name)
                        &&& g[i].1.len() == ids.len()
                        &&& forall|k: int|
                            0 <= k < ids.len() ==> m.contains_key(#[trigger] ids[k]) && g[i].1[k]
                                == m[ids[k]]@
                    }
            },
            None => exists|j: int, k: int|
                0 <= j < order.len() && listed.contains_key((#[trigger] order[j]).name@) && 0 <= k
                    < listed[order[j].name@].len() && !m.contains_key(
                    #[trigger] listed[order[j].name@][k],
                ),
        },
    decreases order.len(),
{
    let f = |c: Category| listed.contains_key(c.name@);
    let v = |c: Category| c@;
    let h = |x: (CategoryView, Seq<ProjectView>)| x.0;
    if order.len() == 0 {
        assert(order.filter(f) =~= Seq::<Category>::empty()) by {
            reveal(Seq::filter);
        }
        assert(grouped(order, listed, m)->0.map_values(h) =~= order.filter(f).map_values(v));
    } else {
        let d = order.drop_last();
        let c = order.last();
        law_grouping_pairs_order_entries(d, listed, m);
        assert(order =~= d.push(c));
        d.lemma_filter_push(c, f);
        match grouped(d, listed, m) {
            Some(g) => {
                if listed.contains_key(c.name@) {
                    law_resolve_looks_up(listed[c.name@], m);
                    match resolve_ids(listed[c.name@], m) {
                        Some(ps) => {
                            let g2 = g.push((c@, ps));
                            assert(g2.map_values(h) =~= g.map_values(h).push(c@));
                            assert(d.filter(f).push(c).map_values(v) =~= d.filter(f).map_values(
                                v,
                            ).push(c@));
                            assert forall|i: int| 0 <= i < g2.len() implies {
                                let ids = listed[(#[trigger] g2[i]).0.name];
                                &&& listed.contains_key(g2[i].0.name)
                                &&& g2[i].1.len() == ids.len()
                                &&& forall|k: int|
                                    0 <= k < ids.len() ==> m.contains_key(#[trigger] ids[k])
                                        && g2[i].1[k] == m[ids[k]]@
                            } by {
                                if i < g.len() {
                                    assert(g2[i] == g[i]);
                                }
                            }
                        },
                        None => {
                            let k = choose|k: int|
                                0 <= k < listed[c.name@].len() && !m.contains_key(
                                    #[trigger] listed[c.name@][k],
                                );
                            assert(order[order.len() - 1] == c);
                            assert(!m.contains_key(listed[order[order.len() - 1].name@][k]));
                        },
                    }
                } else {
                    assert(grouped(order, listed, m) == Some(g));
                }
            },
            None => {
                let (j, k) = choose|j: int, k: int|
                    0 <= j < d.len() && listed.contains_key((#[trigger] d[j]).name@) && 0 <= k
                        < listed[d[j].name@].len() && !m.contains_key(
                        #[trigger] listed[d[j].name@][k],
                    );
                assert(order[j] == d[j]);
                assert(!m.contains_key(listed[order[j].name@][k]));
            },
        }
    }
}

/// What a mapping entry of the categories list gives, field by field: a
/// category exactly when `name` is a string, `blurb` is absent or a string
/// and `hidden` is absent or a boolean; its name is that string, its blurb
/// that string or none, and it is hidden only when `hidden` says so.
pub proof fn law_category_fields(h: Seq<(YamlNode, YamlNode)>)
    ensures
        category_from_hash(h) is Some <==> (match hash_get(h, "name"@) {
            Some(YamlNode::Str(_)) => true,
            _ => false,
        }) && (match hash_get(h, "blurb"@) {
            None => true,
            Some(YamlNode::Str(_)) => true,
            _ => false,
        }) && (match hash_get(h, "hidden"@) {
            None => true,
            Some(YamlNode::Boolean(_)) => true,
            _ => false,
        }),
        category_from_hash(h) matches Some(c) ==> match hash_get(h, "name"@) {
            Some(YamlNode::Str(n)) => c.name == n@,
            _ => false,
        },
        category_from_hash(h) matches Some(c) ==> match hash_get(h, "blurb"@) {
            None => c.blurb is None,
            Some(YamlNode::Str(b)) => c.blurb == Some(b@),
            _ => false,
        },
        category_from_hash(h) matches Some(c) ==> match hash_get(h, "hidden"@) {
            None => !c.hidden,
            Some(YamlNode::Boolean(x)) => c.hidden == x,
            _ => false,
        },
{
}

/// Indexing a page whose id is new appends the id to the list of exactly
/// the project's own category (created if there was none) and leaves every
/// other list as it was; indexing a known id leaves all lists as they were.
pub proof fn law_new_id_listed_under_own_category(
    listed: Map<Seq<char>, Seq<Seq<char>>>,
    m: Map<Seq<char>, Project>,
    project: Project,
)
    ensures
        !m.contains_key(project.id@) ==> {
            let after = listed_after(listed, m, project);
            &&& after.contains_key(project.category@)
            &&& after[project.category@] == if listed.contains_key(project.category@) {
                listed[project.category@].push(project.id@)
            } else {
                seq![project.id@]
            }
            &&& after[project.category@].last() == project.id@
            &&& forall|c: Seq<char>|
                c != project.category@ ==> (#[trigger] after.contains_key(c) == listed.contains_key(c))
                    && (listed.contains_key(c) ==> after[c] == listed[c])
        },
        m.contains_key(project.id@) ==> listed_after(listed, m, project) == listed,
{
    if !m.contains_key(project.id@) && !listed.contains_key(project.category@) {
        assert(Seq::<Seq<char>>::empty().push(project.id@) =~= seq![project.id@]);
    }
}

} // verus!
