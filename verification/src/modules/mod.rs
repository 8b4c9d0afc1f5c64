//! What an operation on a host reports back.

pub mod command;
pub mod copy;
pub mod lineinfile;
pub mod param;
pub mod service;
pub mod shell;
pub mod states;

use vstd::prelude::*;
use crate::text::{join2, signed_decimal_of, signed_decimal_text, trim_text, trimmed};

verus! {

/// The report of one operation.
#[derive(Debug)]
pub struct ModuleResult {
    pub stdout: String,
    pub stderr: String,
    pub changed: bool,
    pub failed: bool,
    pub msg: String,
}

/// The mathematical value of a report.
pub struct ModuleResultView {
    pub stdout: Seq<char>,
    pub stderr: Seq<char>,
    pub changed: bool,
    pub failed: bool,
    pub msg: Seq<char>,
}

impl View for ModuleResult {
    type V = ModuleResultView;

    open spec fn view(&self) -> ModuleResultView {
        ModuleResultView {
            stdout: self.stdout@,
            stderr: self.stderr@,
            changed: self.changed,
            failed: self.failed,
            msg: self.msg@,
        }
    }
}

/// The report that says nothing: no output, not changed, not failed.
pub open spec fn empty_report() -> ModuleResultView {
    ModuleResultView {
        stdout: Seq::empty(),
        stderr: Seq::empty(),
        changed: false,
        failed: false,
        msg: Seq::empty(),
    }
}

/// What a module makes of a command that ended with an exit code: with
/// the code zero, a report of a change whose message names the code; with
/// any other code, the text of the failure, which ends with what the command
/// wrote to its error output, trimmed, where that is not blank.
pub open spec fn command_result(
    exit_code: int,
    stdout: Seq<char>,
    stderr: Seq<char>,
    success_msg: Seq<char>,
    error_prefix: Seq<char>,
) -> Result<ModuleResultView, Seq<char>> {
    if exit_code != 0 {
        if trimmed(stderr).len() == 0 {
            Err(error_prefix + " (exit code: "@ + signed_decimal_of(exit_code) + ")"@)
        } else {
            Err(
                error_prefix + " (exit code: "@ + signed_decimal_of(exit_code) + "): "@ + trimmed(
                    stderr,
                ),
            )
        }
    } else {
        Ok(
            ModuleResultView {
                stdout: stdout,
                stderr: stderr,
                changed: true,
                failed: false,
                msg: success_msg + " (exit code: "@ + signed_decimal_of(exit_code) + ")"@,
            },
        )
    }
}

/// What a module makes of a command that ended with an exit code.
pub fn process_command_result(
    exit_code: i32,
    stdout: String,
    stderr: String,
    success_msg: &str,
    error_prefix: &str,
) -> (r: Result<ModuleResult, String>)
    ensures
        match r {
            Ok(m) => command_result(exit_code as int, stdout@, stderr@, success_msg@, error_prefix@)
                == Ok::<ModuleResultView, Seq<char>>(m@),
            Err(e) => command_result(
                exit_code as int,
                stdout@,
                stderr@,
                success_msg@,
                error_prefix@,
            ) == Err::<ModuleResultView, Seq<char>>(e@),
        },
{
    let code = signed_decimal_text(exit_code);
    if exit_code != 0 {
        let said = trim_text(stderr.as_str());
        let a = join2(error_prefix, " (exit code: ");
        let b = join2(a.as_str(), code.as_str());
        if said.as_str().is_empty() {
            Err(join2(b.as_str(), ")"))
        } else {
            let c = join2(b.as_str(), "): ");
            Err(join2(c.as_str(), said.as_str()))
        }
    } else {
        let a = join2(success_msg, " (exit code: ");
        let b = join2(a.as_str(), code.as_str());
        let msg = join2(b.as_str(), ")");
        Ok(ModuleResult { stdout, stderr, changed: true, failed: false, msg })
    }
}

impl Default for ModuleResult {
    /// The report that says nothing.
    fn default() -> (r: ModuleResult)
        ensures
            r@ == empty_report(),
    {
        ModuleResult {
            stdout: String::new(),
            stderr: String::new(),
            changed: false,
            failed: false,
            msg: String::new(),
        }
    }
}

} // verus!
