//! Running a command through the shell of a host.

use vstd::prelude::*;
use crate::modules::param::{command_arg, extract_command_arg, ParamError};
use crate::node::Node;
use crate::text::{join2, replace_text, replaced};

verus! {

/// The operation that runs a command through the shell.
#[derive(Debug, Clone, Copy)]
pub struct ShellModule;

/// A command as the argument of `sh -c`, between single quotes, with the
/// single quotes in it written so that the shell reads them.
pub open spec fn shell_wrapped(command: Seq<char>) -> Seq<char> {
    "sh -c '"@ + replaced(command, "'"@, "'\\''"@) + "'"@
}

impl ShellModule {
    /// The command that the arguments hold.
    pub fn extract_command_arg(args: &Node) -> (r: Result<String, ParamError>)
        ensures
            match r {
                Ok(s) => command_arg(args@) == Some(s@),
                Err(e) => command_arg(args@) is None && e == ParamError::NoCommand,
            },
    {
        extract_command_arg(args)
    }

    /// The command as the shell is asked to run it.
    pub fn wrap(command: &str) -> (r: String)
        ensures
            r@ == shell_wrapped(command@),
    {
        proof {
            reveal_strlit("'");
        }
        let quoted = replace_text(command, "'", "'\\''");
        let head = join2("sh -c '", quoted.as_str());
        join2(head.as_str(), "'")
    }
}

} // verus!
