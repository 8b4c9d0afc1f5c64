//! Running a command on a host.

use vstd::prelude::*;
use crate::modules::param::{command_arg, extract_command_arg, ParamError};
use crate::node::Node;

verus! {

/// The operation that runs a command.
#[derive(Debug, Clone, Copy)]
pub struct CommandModule;

impl CommandModule {
    /// The command that the arguments hold.
    pub fn extract_command_arg(args: &Node) -> (r: Result<String, ParamError>)
        ensures
            match r {
                Ok(s) => command_arg(args@) == Some(s@),
                Err(e) => command_arg(args@) is None && e == ParamError::NoCommand,
            },
    {
        extract_command_arg(args)
    }
}

} // verus!
