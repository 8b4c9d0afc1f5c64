//! Reading the arguments of an operation.

use vstd::prelude::*;
use crate::node::{lookup_text, Node, NodeView};

verus! {

/// Why an argument could not be read.
#[derive(Debug, Clone, Copy, PartialEq, Eq, Structural)]
pub enum ParamError {
    /// The arguments are no mapping.
    NotAMapping,
    /// The mapping has no text under the name.
    Missing,
    /// The arguments are neither a text nor a mapping with a text under
    /// "cmd".
    NoCommand,
}

/// Whether the arguments are a mapping with something under the name.
pub open spec fn is_param(args: NodeView, name: Seq<char>) -> bool {
    match args {
        NodeView::Mapping(m) => lookup_text(m, name) is Some,
        _ => false,
    }
}

/// Whether the arguments are a mapping with something under the name.
pub fn has_param(args: &Node, name: &str) -> (r: bool)
    ensures
        r == is_param(args@, name@),
{
    match args {
        Node::Mapping(map) => map.contains_key(name),
        _ => false,
    }
}

/// The text under a name of the arguments.
pub open spec fn text_param(args: NodeView, name: Seq<char>) -> Result<Seq<char>, ParamError> {
    match args {
        NodeView::Mapping(m) => match lookup_text(m, name) {
            Some(NodeView::String(s)) => Ok(s),
            _ => Err(ParamError::Missing),
        },
        _ => Err(ParamError::NotAMapping),
    }
}

/// The text under a name of the arguments.
pub fn get_text_param(args: &Node, name: &str) -> (r: Result<String, ParamError>)
    ensures
        match r {
            Ok(s) => text_param(args@, name@) == Ok::<Seq<char>, ParamError>(s@),
            Err(e) => text_param(args@, name@) == Err::<Seq<char>, ParamError>(e),
        },
{
    match args {
        Node::Mapping(map) => match map.get(name) {
            Some(Node::String(value)) => Ok(value.clone()),
            _ => Err(ParamError::Missing),
        },
        _ => Err(ParamError::NotAMapping),
    }
}

/// The command that the arguments hold: the arguments themselves where
/// they are a text, else the text under "cmd".
pub open spec fn command_arg(args: NodeView) -> Option<Seq<char>> {
    match args {
        NodeView::String(s) => Some(s),
        NodeView::Mapping(m) => match lookup_text(m, "cmd"@) {
            Some(NodeView::String(s)) => Some(s),
            _ => None,
        },
        _ => None,
    }
}

/// The command that the arguments hold.
pub fn extract_command_arg(args: &Node) -> (r: Result<String, ParamError>)
    ensures
        match r {
            Ok(s) => command_arg(args@) == Some(s@),
            Err(e) => command_arg(args@) is None && e == ParamError::NoCommand,
        },
{
    match args {
        Node::String(cmd) => Ok(cmd.clone()),
        Node::Mapping(map) => match map.get("cmd") {
            Some(Node::String(cmd)) => Ok(cmd.clone()),
            _ => Err(ParamError::NoCommand),
        },
        _ => Err(ParamError::NoCommand),
    }
}

} // verus!
