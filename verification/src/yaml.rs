//! Reading and writing document values as YAML and JSON text.

use vstd::prelude::*;
use serde_yaml::value::TaggedValue;
use serde_yaml::Value;
use crate::node::{views_of, Mapping, Node, NodeView, Num, Tag};

verus! {

#[verifier::external_type_specification]
#[verifier::external_body]
pub struct ExYamlValue(serde_yaml::Value);

#[verifier::external_type_specification]
#[verifier::external_body]
pub struct ExYamlNumber(serde_yaml::Number);

#[verifier::external_type_specification]
#[verifier::external_body]
pub struct ExYamlError(serde_yaml::Error);

/// The value that a YAML text holds, where it is a YAML document.
pub uninterp spec fn yaml_value_of(text: Seq<char>) -> Option<NodeView>;

/// The items of the list that a YAML text holds, where it is one.
pub uninterp spec fn yaml_sequence_of(text: Seq<char>) -> Option<Seq<NodeView>>;

/// The value that a JSON text holds, where it is a JSON document that can
/// be kept as a document value.
pub uninterp spec fn json_value_of(text: Seq<char>) -> Option<NodeView>;

/// The YAML text of a value; empty where it has none.
pub uninterp spec fn yaml_text_of(v: NodeView) -> Seq<char>;

/// `serde_yaml::Number::as_u64`, `as_i64` and `to_string`: the number in the
/// library's own type, one variant for each of the three it can be.
#[verifier::external_body]
fn number_from_yaml(n: &serde_yaml::Number) -> Num {
    if let Some(u) = n.as_u64() {
        Num::PosInt(u)
    } else if let Some(i) = n.as_i64() {
        Num::NegInt(i)
    } else {
        Num::Float(n.to_string())
    }
}

/// The variants of `serde_yaml::Value`, each in the library's own type. The
/// text of a tag is what `Display` writes for it: an exclamation mark, then
/// the tag, so it is never empty.
#[verifier::external_body]
pub(crate) fn from_yaml(v: &serde_yaml::Value) -> Node {
    match v {
        serde_yaml::Value::Null => Node::Null,
        serde_yaml::Value::Bool(b) => Node::Bool(*b),
        serde_yaml::Value::Number(n) => Node::Number(number_from_yaml(n)),
        serde_yaml::Value::String(s) => Node::String(s.clone()),
        serde_yaml::Value::Sequence(items) => Node::Sequence(items.iter().map(from_yaml).collect()),
        serde_yaml::Value::Mapping(m) => Node::Mapping(
            Mapping { entries: m.iter().map(|(k, v)| (from_yaml(k), from_yaml(v))).collect() },
        ),
        serde_yaml::Value::Tagged(t) => Node::Tagged(
            Tag::or_bare(t.tag.to_string().as_str()),
            Box::new(from_yaml(&t.value)),
        ),
    }
}

/// `serde_yaml::Number::from` and `from_str`: the library's number as the
/// outside type; nothing where the text of a number is none that YAML reads.
#[verifier::external_body]
fn number_to_yaml(n: &Num) -> Option<serde_yaml::Number> {
    match n {
        Num::PosInt(u) => Some(serde_yaml::Number::from(*u)),
        Num::NegInt(i) => Some(serde_yaml::Number::from(*i)),
        Num::Float(t) => t.parse().ok(),
    }
}

/// The library's value as a `serde_yaml::Value`, variant by variant; nothing
/// where a number in it is none that YAML reads.
/// `serde_yaml::value::Tag::new` refuses an empty text; a tag of the library
/// never holds one.
#[verifier::external_body]
pub(crate) fn to_yaml(v: &Node) -> Option<Value> {
    Some(match v {
        Node::Null => Value::Null,
        Node::Bool(b) => Value::Bool(*b),
        Node::Number(n) => Value::Number(number_to_yaml(n)?),
        Node::String(s) => Value::String(s.clone()),
        Node::Sequence(items) => Value::Sequence(items.iter().map(to_yaml).collect::<Option<_>>()?),
        Node::Mapping(m) => pairs_to_yaml(m)?,
        Node::Tagged(t, inner) => Value::Tagged(
            Box::new(TaggedValue { tag: serde_yaml::value::Tag::new(t.as_str()), value: to_yaml(inner)? }),
        ),
    })
}

/// `serde_yaml::Mapping` from the entries of a mapping, in order, by
/// `FromIterator`: a later entry replaces an earlier one with the same key.
#[verifier::external_body]
fn pairs_to_yaml(m: &Mapping) -> Option<Value> {
    Some(Value::Mapping(m.entries.iter().map(|(k, v)| Some((to_yaml(k)?, to_yaml(v)?))).collect::<Option<_>>()?))
}

/// `serde_yaml::from_str` at the type of a single value: the value that
/// the text holds, or nothing where the text is no YAML document.
#[verifier::external_body]
pub(crate) fn parse_yaml(text: &str) -> (r: Option<Node>)
    ensures
        match r {
            Some(v) => yaml_value_of(text@) == Some(v@),
            None => yaml_value_of(text@) is None,
        },
{
    match serde_yaml::from_str::<serde_yaml::Value>(text) {
        Ok(v) => Some(from_yaml(&v)),
        Err(_) => None,
    }
}

/// `serde_yaml::from_str` at the type of a list of values: the items of
/// the list that the text holds, or the outside error where it holds none.
#[verifier::external_body]
pub(crate) fn parse_yaml_sequence(text: &str) -> (r: Result<Vec<Node>, serde_yaml::Error>)
    ensures
        match r {
            Ok(items) => yaml_sequence_of(text@) == Some(views_of(items@)),
            Err(_) => yaml_sequence_of(text@) is None,
        },
{
    match serde_yaml::from_str::<Vec<serde_yaml::Value>>(text) {
        Ok(items) => Ok(items.iter().map(from_yaml).collect()),
        Err(e) => Err(e),
    }
}

/// `serde_json::from_str`, then `serde_yaml::to_value`: the value that a JSON
/// text holds, or nothing where either refuses.
#[verifier::external_body]
pub(crate) fn parse_json(text: &str) -> (r: Option<Node>)
    ensures
        match r {
            Some(v) => json_value_of(text@) == Some(v@),
            None => json_value_of(text@) is None,
        },
{
    match serde_json::from_str::<serde_json::Value>(text) {
        Ok(json) => match serde_yaml::to_value(json) {
            Ok(v) => Some(from_yaml(&v)),
            Err(_) => None,
        },
        Err(_) => None,
    }
}

/// `serde_yaml::to_string`: the YAML text of a value, empty where the
/// outside crate gives none, or where the value holds a number that YAML
/// does not read.
#[verifier::external_body]
pub(crate) fn yaml_text(v: &Node) -> (r: String)
    ensures
        r@ == yaml_text_of(v@),
{
    match to_yaml(v) {
        Some(y) => serde_yaml::to_string(&y).unwrap_or_default(),
        None => String::new(),
    }
}

} // verus!
