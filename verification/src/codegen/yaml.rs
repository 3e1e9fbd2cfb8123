//! Reading a document from YAML text.
//!
//! The text is parsed by `serde_yaml`. What it yields is copied, node for
//! node, into the document tree that the parser reads.

use vstd::prelude::*;
use crate::codegen::document::Node;
use crate::codegen::error::{CodegenError, Failure};

verus! {

/// A YAML value as `serde_yaml` holds it. Nothing of its inside is known
/// here.
#[verifier::external_type_specification]
#[verifier::external_body]
pub struct ExValue(serde_yaml::Value);

/// The document tree that a YAML value holds: the value itself, node for
/// node.
pub uninterp spec fn value_node(value: serde_yaml::Value) -> Node;

/// The document that a YAML text stands for, as `serde_yaml::from_str`
/// reads it. Nothing where the text is not one YAML document.
pub uninterp spec fn yaml_document(text: Seq<char>) -> Option<Node>;

/// Binding to `serde_yaml::from_str`, reading a `serde_yaml::Value`.
/// Trusted: the value read holds the tree named [`yaml_document`]; a text
/// that `serde_yaml` refuses has no such tree.
#[verifier::external_body]
fn yaml_value(text: &str) -> (r: Option<serde_yaml::Value>)
    ensures
        match r {
            Some(v) => yaml_document(text@) == Some(value_node(v)),
            None => yaml_document(text@) is None,
        },
{
    serde_yaml::from_str::<serde_yaml::Value>(text).ok()
}

/// Copies a `serde_yaml::Value` into a document tree, variant for variant.
/// A number keeps what `Number::as_u64` gives, a tagged value only that it
/// is tagged. Trusted: the copy is the tree named [`value_node`].
#[verifier::external_body]
fn node_of_value(value: &serde_yaml::Value) -> (n: Node)
    ensures
        n == value_node(*value),
{
    match value {
        serde_yaml::Value::Null => Node::Null,
        serde_yaml::Value::Bool(b) => Node::Bool(*b),
        serde_yaml::Value::Number(x) => Node::Number(x.as_u64()),
        serde_yaml::Value::String(s) => Node::Str(s.clone()),
        serde_yaml::Value::Sequence(s) => Node::Sequence(s.iter().map(node_of_value).collect()),
        serde_yaml::Value::Mapping(m) => Node::Mapping(
            m.iter().map(|(k, v)| (node_of_value(k), node_of_value(v))).collect(),
        ),
        serde_yaml::Value::Tagged(_) => Node::Tagged,
    }
}

/// Reads a document from YAML text.
pub fn read_document(text: &str) -> (r: Result<Node, CodegenError>)
    ensures
        match yaml_document(text@) {
            Some(document) => r == Ok::<Node, CodegenError>(document),
            None => r matches Err(e) && e@ == Failure::InvalidYaml,
        },
{
    match yaml_value(text) {
        Some(value) => Ok(node_of_value(&value)),
        None => Err(CodegenError::InvalidYaml),
    }
}

} // verus!
