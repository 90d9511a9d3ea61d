//! Project categories, read from the `categories` list of a YAML file. Each
//! entry is either a bare name or a mapping with `name`, and optionally
//! `blurb` and `hidden`.
use vstd::prelude::*;
use crate::yaml::{YamlNode, YamlError, yaml_documents, load_yaml, hash_get, hash_lookup, yaml_err};

verus! {

/// A category of projects, in the order the site lists them.
#[derive(Clone, Debug)]
pub struct Category {
    pub name: String,
    pub blurb: Option<String>,
    pub hidden: bool,
}

/// The list of categories, in display order.
pub type Categories = Vec<Category>;

/// A category as plain values.
pub struct CategoryView {
    pub name: Seq<char>,
    pub blurb: Option<Seq<char>>,
    pub hidden: bool,
}

/// The characters of an optional string.
pub open spec fn opt_str_view(o: Option<String>) -> Option<Seq<char>> {
    match o {
        Some(s) => Some(s@),
        None => None,
    }
}

impl View for Category {
    type V = CategoryView;

    open spec fn view(&self) -> CategoryView {
        CategoryView { name: self.name@, blurb: opt_str_view(self.blurb), hidden: self.hidden }
    }
}

/// A copy of an optional string.
pub fn copy_opt_str(o: &Option<String>) -> (res: Option<String>)
    ensures
        opt_str_view(res) == opt_str_view(*o),
{
    match o {
        Some(s) => Some(s.clone()),
        None => None,
    }
}

/// What a mapping entry of the list gives: a `name` that is a string, a
/// `blurb` that is a string when present, and a `hidden` flag that is a
/// boolean when present (false when absent); anything else gives nothing.
pub open spec fn category_from_hash(h: Seq<(YamlNode, YamlNode)>) -> Option<CategoryView> {
    let blurb: Option<Option<Seq<char>>> = match hash_get(h, "blurb"@) {
        Some(YamlNode::Str(b)) => Some(Some(b@)),
        Some(_) => None,
        None => Some(None),
    };
    let hidden: Option<bool> = match hash_get(h, "hidden"@) {
        Some(YamlNode::Boolean(b)) => Some(b),
        Some(_) => None,
        None => Some(false),
    };
    let name: Option<Seq<char>> = match hash_get(h, "name"@) {
        Some(YamlNode::Str(n)) => Some(n@),
        _ => None,
    };
    match (name, blurb, hidden) {
        (Some(n), Some(b), Some(x)) => Some(CategoryView { name: n, blurb: b, hidden: x }),
        _ => None,
    }
}

/// What an entry of the list gives: a mapping as above, a bare string as a
/// visible category of that name without blurb, anything else nothing.
pub open spec fn category_of_node(n: YamlNode) -> Option<CategoryView> {
    match n {
        YamlNode::Hash(h) => category_from_hash(h@),
        YamlNode::Str(s) => Some(CategoryView { name: s@, blurb: None, hidden: false }),
        _ => None,
    }
}

impl Category {
    /// A visible category with the given name and no blurb.
    pub fn from(name: &str) -> (c: Category)
        ensures
            c@ == (CategoryView { name: name@, blurb: None, hidden: false }),
    {
        Category { name: name.to_owned(), blurb: None, hidden: false }
    }

    /// The category that a YAML mapping describes, if it describes one.
    pub fn from_yaml(hash: &Vec<(YamlNode, YamlNode)>) -> (res: Option<Category>)
        ensures
            match category_from_hash(hash@) {
                Some(v) => res matches Some(c) && c@ == v,
                None => res is None,
            },
    {
        let blurb = match hash_lookup(hash, "blurb") {
            Some(b) => match b {
                YamlNode::Str(s) => Some(s.clone()),
                _ => {
                    return None;
                },
            },
            None => None,
        };
        let hidden = match hash_lookup(hash, "hidden") {
            Some(b) => match b {
                YamlNode::Boolean(x) => *x,
                _ => {
                    return None;
                },
            },
            None => false,
        };
        let name = match hash_lookup(hash, "name") {
            Some(YamlNode::Str(s)) => s.clone(),
            _ => {
                return None;
            },
        };
        Some(Category { name, blurb, hidden })
    }

    /// A copy of the category.
    pub fn copy(&self) -> (res: Category)
        ensures
            res@ == self@,
    {
        Category { name: self.name.clone(), blurb: copy_opt_str(&self.blurb), hidden: self.hidden }
    }
}

/// The category that one entry of the list gives, if any.
pub fn category_of_entry(entry: &YamlNode) -> (res: Option<Category>)
    ensures
        match category_of_node(*entry) {
            Some(v) => res matches Some(c) && c@ == v,
            None => res is None,
        },
{
    match entry {
        YamlNode::Hash(h) => Category::from_yaml(h),
        YamlNode::Str(s) => Some(Category::from(s.as_str())),
        _ => None,
    }
}

/// The categories of a list of entries: those entries that give one, in order.
pub fn categories_of_list(items: &Vec<YamlNode>) -> (res: Categories)
    ensures
        res@.map_values(|c: Category| c@) == items@.filter_map(|n: YamlNode| category_of_node(n)),
{
    let n = items.len();
    let mut out: Vec<Category> = Vec::new();
    let mut i: usize = 0;
    while i < n
        invariant
            n == items@.len(),
            i <= n,
            out@.map_values(|c: Category| c@) == items@.take(i as int).filter_map(
                |n: YamlNode| category_of_node(n),
            ),
        decreases n - i,
    {
        let ghost before = out@;
        assert(items@.take(i + 1).drop_last() =~= items@.take(i as int));
        assert(items@.take(i + 1).last() == items@[i as int]);
        match category_of_entry(&items[i]) {
            Some(c) => {
                out.push(c);
                assert(out@.map_values(|c: Category| c@) =~= before.map_values(|c: Category| c@)
                    + seq![out@.last()@]);
            },
            None => {},
        }
        i += 1;
    }
    assert(items@.take(n as int) =~= items@);
    out
}

/// What the first YAML document of a categories file gives: the categories
/// of its `categories` list, or an error naming what is missing.
pub open spec fn categories_of_document(doc: YamlNode) -> Result<Seq<CategoryView>, Seq<char>> {
    match doc {
        YamlNode::Hash(h) => match hash_get(h@, "categories"@) {
            Some(YamlNode::Array(items)) => Ok(
                items@.filter_map(|n: YamlNode| category_of_node(n)),
            ),
            Some(_) => Err("categories is not a list"@),
            None => Err("no categories key"@),
        },
        _ => Err("could not parse as hash"@),
    }
}

/// The categories that loaded YAML documents describe, read from the first
/// document. There must be at least one document.
pub fn categories_from_documents(docs: &Vec<YamlNode>) -> (res: Result<Categories, YamlError>)
    requires
        docs@.len() > 0,
    ensures
        match categories_of_document(docs@[0]) {
            Ok(cs) => res matches Ok(r) && r@.map_values(|c: Category| c@) == cs,
            Err(msg) => res matches Err(YamlError::InvalidData(m)) && m@ == msg,
        },
{
    let first = &docs[0];
    let hash = match first {
        YamlNode::Hash(h) => Some(h),
        _ => None,
    };
    let hash = match yaml_err(hash, "could not parse as hash") {
        Ok(v) => v,
        Err(e) => {
            return Err(e);
        },
    };
    let list = match yaml_err(hash_lookup(hash, "categories"), "no categories key") {
        Ok(v) => v,
        Err(e) => {
            return Err(e);
        },
    };
    let items = match list {
        YamlNode::Array(items) => Some(items),
        _ => None,
    };
    let items = match yaml_err(items, "categories is not a list") {
        Ok(v) => v,
        Err(e) => {
            return Err(e);
        },
    };
    Ok(categories_of_list(items))
}

/// Reads the categories from the text of a categories file: parse errors
/// are `Scan`, a text without any document is `NoDocument`, and a first
/// document without a `categories` list is `InvalidData`. A text without
/// any document (empty, or only comments) is answered with `NoDocument`
/// where indexing the first document would panic; the server fails on
/// that error at start-up all the same.
pub fn get_categories(text: &str) -> (res: Result<Categories, YamlError>)
    ensures
        match yaml_documents(text@) {
            None => res matches Err(YamlError::Scan(_)),
            Some(docs) => if docs.len() == 0 {
                res matches Err(YamlError::NoDocument)
            } else {
                match categories_of_document(docs[0]) {
                    Ok(cs) => res matches Ok(r) && r@.map_values(|c: Category| c@) == cs,
                    Err(msg) => res matches Err(YamlError::InvalidData(m)) && m@ == msg,
                }
            },
        },
{
    let docs = match load_yaml(text) {
        Ok(docs) => docs,
        Err(msg) => {
            return Err(YamlError::Scan(msg));
        },
    };
    if docs.len() == 0 {
        return Err(YamlError::NoDocument);
    }
    categories_from_documents(&docs)
}

} // verus!
