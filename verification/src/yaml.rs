//! A dictionary document as a YAML tree: each node's value and where it sits
//! in the source. Reading the text is the YAML reader's work; everything
//! after it reads this tree.

use vstd::prelude::*;

use quarto_source_map::{SourceContext, SourceInfo};
use quarto_yaml::{YamlHashEntry, YamlWithSourceInfo};

use crate::text::str_eq;

verus! {

/// A node of the YAML reader's tree, as that crate hands it over.
#[verifier::external_type_specification]
#[verifier::external_body]
pub struct ExYamlWithSourceInfo(YamlWithSourceInfo);

/// A key/value entry of a mapping in the YAML reader's tree.
#[verifier::external_type_specification]
#[verifier::external_body]
pub struct ExYamlHashEntry(YamlHashEntry);

/// What a YAML node holds.
#[derive(Debug)]
pub enum YamlValue {
    Null,
    Bool(bool),
    Int(i64),
    /// A number with a fractional part or exponent, as written.
    Real(String),
    Str(String),
    List(Vec<Yaml>),
    Mapping(Vec<YamlEntry>),
    /// Anything else the reader produces (an alias, a bad value).
    Other,
}

/// A YAML node and where it sits in the source.
#[derive(Debug)]
pub struct Yaml {
    pub value: YamlValue,
    pub span: SourceInfo,
}

/// One entry of a mapping: its key and value nodes, with the spans of the key
/// and of the value.
#[derive(Debug)]
pub struct YamlEntry {
    pub key: Yaml,
    pub value: Yaml,
    pub key_span: SourceInfo,
    pub value_span: SourceInfo,
}

/// `YamlHashEntry` as a [`YamlEntry`], field by field.
#[verifier::external_body]
fn yaml_entry(e: &YamlHashEntry) -> (r: YamlEntry) {
    YamlEntry {
        key: yaml_node(&e.key),
        value: yaml_node(&e.value),
        key_span: e.key_span.clone(),
        value_span: e.value_span.clone(),
    }
}

/// `YamlWithSourceInfo` as a [`Yaml`]: one variant for each of the reader's,
/// children converted in order.
#[verifier::external_body]
fn yaml_node(y: &YamlWithSourceInfo) -> (r: Yaml) {
    let value = match &y.yaml {
        quarto_yaml::Yaml::Boolean(b) => YamlValue::Bool(*b),
        quarto_yaml::Yaml::Integer(i) => YamlValue::Int(*i),
        quarto_yaml::Yaml::Real(s) => YamlValue::Real(s.clone()),
        quarto_yaml::Yaml::String(s) => YamlValue::Str(s.clone()),
        quarto_yaml::Yaml::Null => YamlValue::Null,
        quarto_yaml::Yaml::Array(_) => YamlValue::List(y.as_array().unwrap_or(&[]).iter().map(yaml_node).collect()),
        quarto_yaml::Yaml::Hash(_) => YamlValue::Mapping(y.as_hash().unwrap_or(&[]).iter().map(yaml_entry).collect()),
        _ => YamlValue::Other,
    };
    Yaml { value, span: y.source_info.clone() }
}

/// What `quarto_yaml::parse_file` reads from `content` under the name
/// `filename`: the document's tree, or the reader's error message. A
/// function of the text and the name alone.
pub uninterp spec fn yaml_of(content: Seq<char>, filename: Seq<char>) -> Result<Yaml, Seq<char>>;

/// `quarto_yaml::parse_file(content, filename)`: the document's tree, or the
/// reader's error as text, as [`yaml_of`] names them.
#[verifier::external_body]
pub fn read_yaml(content: &str, filename: &str) -> (r: Result<Yaml, String>)
    ensures
        match (r, yaml_of(content@, filename@)) {
            (Ok(y), Ok(z)) => y == z,
            (Err(e), Err(m)) => e@ == m,
            _ => false,
        },
{
    match quarto_yaml::parse_file(content, filename) {
        Ok(doc) => Ok(yaml_node(&doc)),
        Err(e) => Err(e.to_string()),
    }
}

/// A fresh `SourceContext` holding the document `content` under the name
/// `filename`, with the file id `quarto_yaml::file_id_for_filename` gives it
/// (`SourceContext::new`, then `add_file_with_id`, which cannot find the id
/// taken in a fresh context). Nothing about the context is stated.
#[verifier::external_body]
pub(crate) fn source_for(content: &str, filename: &str) -> (r: SourceContext) {
    let mut source = SourceContext::new();
    source.add_file_with_id(quarto_yaml::file_id_for_filename(filename), filename.to_string(), Some(content.to_string()));
    source
}

// --- Reading the tree ----------------------------------------------------------------

/// The text of a string node.
pub open spec fn str_of(y: Yaml) -> Option<Seq<char>> {
    match y.value {
        YamlValue::Str(s) => Some(s@),
        _ => None,
    }
}

/// The entries of a mapping node.
pub open spec fn entries_of(y: Yaml) -> Option<Seq<YamlEntry>> {
    match y.value {
        YamlValue::Mapping(es) => Some(es@),
        _ => None,
    }
}

/// The items of a list node.
pub open spec fn items_of(y: Yaml) -> Option<Seq<Yaml>> {
    match y.value {
        YamlValue::List(xs) => Some(xs@),
        _ => None,
    }
}

/// The first entry of `es`, from `i` on, whose key is the string `key`.
pub open spec fn entry_from(es: Seq<YamlEntry>, key: Seq<char>, i: int) -> Option<int>
    decreases es.len() - i,
{
    if i < 0 || i >= es.len() {
        None
    } else if str_of(es[i].key) == Some(key) {
        Some(i)
    } else {
        entry_from(es, key, i + 1)
    }
}

/// The first entry of `es` whose key is the string `key`.
pub open spec fn entry_at(es: Seq<YamlEntry>, key: Seq<char>) -> Option<YamlEntry> {
    match entry_from(es, key, 0) {
        Some(i) => Some(es[i]),
        None => None,
    }
}

/// The value under `key` of a mapping node: its first entry with that key.
pub open spec fn value_at(y: Yaml, key: Seq<char>) -> Option<Yaml> {
    match entries_of(y) {
        Some(es) => match entry_at(es, key) {
            Some(e) => Some(e.value),
            None => None,
        },
        None => None,
    }
}

impl Yaml {
    /// The text of a string node.
    pub fn as_str(&self) -> (r: Option<&str>)
        ensures
            match r {
                Some(s) => str_of(*self) == Some(s@),
                None => str_of(*self) is None,
            },
    {
        match &self.value {
            YamlValue::Str(s) => Some(s.as_str()),
            _ => None,
        }
    }

    /// The entries of a mapping node.
    pub fn as_hash(&self) -> (r: Option<&Vec<YamlEntry>>)
        ensures
            match r {
                Some(es) => entries_of(*self) == Some(es@),
                None => entries_of(*self) is None,
            },
    {
        match &self.value {
            YamlValue::Mapping(es) => Some(es),
            _ => None,
        }
    }

    /// The items of a list node.
    pub fn as_array(&self) -> (r: Option<&Vec<Yaml>>)
        ensures
            match r {
                Some(xs) => items_of(*self) == Some(xs@),
                None => items_of(*self) is None,
            },
    {
        match &self.value {
            YamlValue::List(xs) => Some(xs),
            _ => None,
        }
    }

    /// The value under `key` of a mapping node, from its first entry with
    /// that key.
    pub fn get_hash_value(&self, key: &str) -> (r: Option<&Yaml>)
        ensures
            match r {
                Some(v) => value_at(*self, key@) == Some(*v),
                None => value_at(*self, key@) is None,
            },
    {
        match self.as_hash() {
            Some(es) => match find_entry(es, key) {
                Some(e) => Some(&e.value),
                None => None,
            },
            None => None,
        }
    }
}

/// The first entry of `es` whose key is the string `key`.
pub fn find_entry<'a>(es: &'a Vec<YamlEntry>, key: &str) -> (r: Option<&'a YamlEntry>)
    ensures
        match r {
            Some(e) => entry_at(es@, key@) == Some(*e),
            None => entry_at(es@, key@) is None,
        },
{
    let mut i: usize = 0;
    while i < es.len()
        invariant
            i <= es@.len(),
            entry_from(es@, key@, 0) == entry_from(es@, key@, i as int),
        decreases es@.len() - i,
    {
        let matches = match es[i].key.as_str() {
            Some(k) => str_eq(k, key),
            None => false,
        };
        if matches {
            return Some(&es[i]);
        }
        i = i + 1;
    }
    None
}

} // verus!
