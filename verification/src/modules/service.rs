//! Bringing a service of a host into a state.

use vstd::prelude::*;
use crate::modules::param::{get_text_param, text_param, ParamError};
use crate::node::Node;

verus! {

/// The text under a name of the arguments.
pub fn get_param(args: &Node, name: &str) -> (r: Result<String, ParamError>)
    ensures
        match r {
            Ok(s) => text_param(args@, name@) == Ok::<Seq<char>, ParamError>(s@),
            Err(e) => text_param(args@, name@) == Err::<Seq<char>, ParamError>(e),
        },
{
    get_text_param(args, name)
}

} // verus!
