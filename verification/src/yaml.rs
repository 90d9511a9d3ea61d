//! YAML documents as plain values, loaded with `yaml_rust`, and lookups in
//! them that mirror `yaml_rust`'s accessors.
use vstd::prelude::*;
use crate::text::str_eq;

verus! {

#[verifier::external_type_specification]
#[verifier::external_body]
pub struct ExYaml(yaml_rust::Yaml);

/// A YAML node, one variant for each variant of `yaml_rust::Yaml`; a mapping
/// holds its entries in document order.
#[derive(Debug)]
pub enum YamlNode {
    Real(String),
    Integer(i64),
    Str(String),
    Boolean(bool),
    Array(Vec<YamlNode>),
    Hash(Vec<(YamlNode, YamlNode)>),
    Alias(usize),
    Null,
    BadValue,
}

/// Why YAML could not be read as what was expected of it.
#[derive(Debug)]
pub enum YamlError {
    /// The text is not valid YAML; the parser's message.
    Scan(String),
    /// The YAML does not have the expected shape; a description of what is missing.
    InvalidData(String),
    /// The text holds no YAML document at all.
    NoDocument,
}

/// The documents that `yaml_rust::YamlLoader::load_from_str` reads from the
/// text, or `None` where it reports a scan error.
pub uninterp spec fn yaml_documents(text: Seq<char>) -> Option<Seq<YamlNode>>;

/// Converts a `yaml_rust` value into a `YamlNode`, variant for variant, the
/// entries of a mapping in the mapping's iteration order. Nothing is stated of
/// it on its own: its result reaches verified code only through `load_yaml`.
#[verifier::external_body]
fn node_of(y: &yaml_rust::Yaml) -> YamlNode {
    match y {
        yaml_rust::Yaml::Real(s) => YamlNode::Real(s.clone()),
        yaml_rust::Yaml::Integer(i) => YamlNode::Integer(*i),
        yaml_rust::Yaml::String(s) => YamlNode::Str(s.clone()),
        yaml_rust::Yaml::Boolean(b) => YamlNode::Boolean(*b),
        yaml_rust::Yaml::Array(a) => YamlNode::Array(a.iter().map(node_of).collect()),
        yaml_rust::Yaml::Hash(h) => YamlNode::Hash(
            h.iter().map(|(k, v)| (node_of(k), node_of(v))).collect(),
        ),
        yaml_rust::Yaml::Alias(n) => YamlNode::Alias(*n),
        yaml_rust::Yaml::Null => YamlNode::Null,
        yaml_rust::Yaml::BadValue => YamlNode::BadValue,
    }
}

/// Calls `yaml_rust::YamlLoader::load_from_str` and converts the documents it
/// returns; the result is named by `yaml_documents`. On a scan error it returns
/// the error's message, of which nothing is stated.
#[verifier::external_body]
pub(crate) fn load_yaml(text: &str) -> (res: Result<Vec<YamlNode>, String>)
    ensures
        match res {
            Ok(docs) => yaml_documents(text@) == Some(docs@),
            Err(_) => yaml_documents(text@) is None,
        },
{
    match yaml_rust::YamlLoader::load_from_str(text) {
        Ok(docs) => Ok(docs.iter().map(node_of).collect()),
        Err(e) => Err(e.to_string()),
    }
}

/// The key is the string `name`.
pub open spec fn is_key(k: YamlNode, name: Seq<char>) -> bool {
    match k {
        YamlNode::Str(s) => s@ == name,
        _ => false,
    }
}

/// The value under the string key `name` in a mapping's entries, as
/// `Hash::get(&Yaml::String(name))` finds it.
pub open spec fn hash_get(entries: Seq<(YamlNode, YamlNode)>, name: Seq<char>) -> Option<YamlNode>
    decreases entries.len(),
{
    if entries.len() == 0 {
        None
    } else if is_key(entries[0].0, name) {
        Some(entries[0].1)
    } else {
        hash_get(entries.drop_first(), name)
    }
}

/// Looks up the value under the string key `name` in a mapping's entries.
pub fn hash_lookup<'a>(entries: &'a Vec<(YamlNode, YamlNode)>, name: &str) -> (res: Option<
    &'a YamlNode,
>)
    ensures
        match hash_get(entries@, name@) {
            Some(v) => res == Some(&v),
            None => res is None,
        },
{
    let n = entries.len();
    let mut i: usize = 0;
    assert(entries@.skip(0) =~= entries@);
    while i < n
        invariant
            n == entries@.len(),
            i <= n,
            hash_get(entries@, name@) == hash_get(entries@.skip(i as int), name@),
        decreases n - i,
    {
        assert(entries@.skip(i as int).drop_first() =~= entries@.skip(i + 1));
        let key_matches = match &entries[i].0 {
            YamlNode::Str(s) => str_eq(s.as_str(), name),
            _ => false,
        };
        if key_matches {
            return Some(&entries[i].1);
        }
        i += 1;
    }
    None
}

/// Turns a missing value into an `InvalidData` error carrying `msg`.
pub fn yaml_err<E>(opt: Option<E>, msg: &str) -> (res: Result<E, YamlError>)
    ensures
        match opt {
            Some(v) => res == Ok::<E, YamlError>(v),
            None => res matches Err(YamlError::InvalidData(m)) && m@ == msg@,
        },
{
    match opt {
        Some(v) => Ok(v),
        None => Err(YamlError::InvalidData(msg.to_owned())),
    }
}

} // verus!
