//! Outcomes: from the report of an operation to the outcome of a task, and
//! from the outcomes of the iterations of a loop to one outcome.

use vstd::prelude::*;
use crate::modules::{ModuleResult, ModuleResultView};
use crate::node::{Node, NodeView};
use crate::playbook::task::{blank_result, Task, TaskResult, TaskResultView};
use crate::strmap::{
    lemma_map_of_take, lemma_prefixed_insert, map_of, prefixed, StrMap,
};
use crate::text::{
    decimal_of, decimal_text, join2, same_text, signed_decimal_of, signed_decimal_text,
};

verus! {

/// A copy of a map of values.
pub fn clone_vars(m: &StrMap<Node>) -> (r: StrMap<Node>)
    ensures
        r@ == m@,
        r.pairs() == m.pairs(),
{
    let mut out: Vec<(String, Node)> = Vec::new();
    let mut i: usize = 0;
    while i < m.entries.len()
        invariant
            i <= m.entries.len(),
            out@.len() == i,
            forall|j: int|
                0 <= j < i ==> (#[trigger] out@[j]).0@ == m.entries@[j].0@ && out@[j].1@
                    == m.entries@[j].1@,
        decreases m.entries.len() - i,
    {
        out.push((m.entries[i].0.clone(), m.entries[i].1.clone()));
        i = i + 1;
    }
    let r = StrMap { entries: out };
    proof {
        assert(r.pairs() =~= m.pairs());
        crate::strmap::lemma_map_of_pairs(r.entries@);
        crate::strmap::lemma_map_of_pairs(m.entries@);
    }
    r
}

impl Clone for TaskResult {
    /// A copy of the outcome.
    fn clone(&self) -> (r: TaskResult)
        ensures
            r@ == self@,
            r.values.pairs() == self.values.pairs(),
    {
        TaskResult {
            changed: self.changed,
            failed: self.failed,
            skipped: self.skipped,
            msg: self.msg.clone(),
            host: self.host.clone(),
            values: clone_vars(&self.values),
        }
    }
}

/// The values that a report leaves behind: its output and its error output,
/// where they are not empty.
pub open spec fn report_values(m: ModuleResultView) -> Map<Seq<char>, NodeView> {
    let a = if m.stdout.len() > 0 {
        Map::<Seq<char>, NodeView>::empty().insert("stdout"@, NodeView::String(m.stdout))
    } else {
        Map::<Seq<char>, NodeView>::empty()
    };
    if m.stderr.len() > 0 {
        a.insert("stderr"@, NodeView::String(m.stderr))
    } else {
        a
    }
}

/// The outcome that a report gives for a host.
pub open spec fn outcome_of_report(host: Seq<char>, m: ModuleResultView) -> TaskResultView {
    TaskResultView {
        changed: m.changed,
        failed: m.failed,
        skipped: false,
        msg: m.msg,
        host: host,
        values: report_values(m),
    }
}

impl TaskResult {
    /// The outcome that a report gives for a host.
    pub fn from_module_result(host: &str, module_result: ModuleResult) -> (r: TaskResult)
        ensures
            r@ == outcome_of_report(host@, module_result@),
    {
        let mut values: StrMap<Node> = StrMap::new();
        if !module_result.stdout.as_str().is_empty() {
            values.insert("stdout".to_owned(), Node::String(module_result.stdout));
        }
        if !module_result.stderr.as_str().is_empty() {
            values.insert("stderr".to_owned(), Node::String(module_result.stderr));
        }
        TaskResult {
            changed: module_result.changed,
            failed: module_result.failed,
            skipped: false,
            msg: module_result.msg,
            host: host.to_owned(),
            values,
        }
    }
}

/// What is said of a command that ended with an exit code.
pub open spec fn command_message(module: Seq<char>, exit_code: int) -> Seq<char> {
    if exit_code == 0 {
        if module == "shell"@ {
            "Shell command executed with exit code: "@ + signed_decimal_of(exit_code)
        } else {
            "Command executed successfully (exit code: "@ + signed_decimal_of(exit_code) + ")"@
        }
    } else {
        if module == "shell"@ {
            "Shell command failed with exit code: "@ + signed_decimal_of(exit_code)
        } else {
            "Command failed with exit code: "@ + signed_decimal_of(exit_code)
        }
    }
}

/// The report of a command that ended with an exit code: changed where
/// the code is zero, failed where it is not.
pub open spec fn command_report(
    module: Seq<char>,
    exit_code: int,
    stdout: Seq<char>,
    stderr: Seq<char>,
) -> ModuleResultView {
    ModuleResultView {
        stdout: stdout,
        stderr: stderr,
        changed: exit_code == 0,
        failed: exit_code != 0,
        msg: command_message(module, exit_code),
    }
}

/// The report for a module that is not known: nothing changed, nothing
/// failed, and the message says so.
pub open spec fn unknown_report(module: Seq<char>, local: bool) -> ModuleResultView {
    ModuleResultView {
        stdout: Seq::empty(),
        stderr: if local {
            "Module "@ + module + " is only available with SSH"@
        } else {
            "Module "@ + module + " is not implemented"@
        },
        changed: false,
        failed: false,
        msg: if local {
            "Module '"@ + module + "' not implemented for local execution"@
        } else {
            "Unknown module: "@ + module
        },
    }
}

/// What came back from the attempt to run an operation on a host.
#[derive(Debug)]
pub enum ModuleOutcome {
    /// The operation ran and reports.
    Report(ModuleResult),
    /// A command ran on the machine itself and ended.
    Command { exit_code: i32, stdout: String, stderr: String },
    /// The host could not be reached.
    ConnectFailed(String),
    /// No operation of that name is known.
    Unknown,
    /// The operation gave up with an error.
    Failed(String),
}

/// The outcome of a task on a host, given what came back: a report as it
/// is; a host that could not be reached as a failure of the task on that
/// host; an error of the operation as no outcome at all.
pub open spec fn concluded(
    module: Seq<char>,
    host: Seq<char>,
    local: bool,
    outcome: ModuleOutcome,
) -> Option<TaskResultView> {
    match outcome {
        ModuleOutcome::Report(m) => Some(outcome_of_report(host, m@)),
        ModuleOutcome::Command { exit_code, stdout, stderr } => Some(
            outcome_of_report(host, command_report(module, exit_code as int, stdout@, stderr@)),
        ),
        ModuleOutcome::ConnectFailed(e) => Some(
            TaskResultView {
                failed: true,
                msg: "Failed to connect to host: "@ + e@,
                ..blank_result(host)
            },
        ),
        ModuleOutcome::Unknown => Some(outcome_of_report(host, unknown_report(module, local))),
        ModuleOutcome::Failed(_) => None,
    }
}

impl Task {
    /// The report of a command that ended with an exit code.
    pub fn process_command_result(&self, exit_code: i32, stdout: String, stderr: String) -> (r:
        ModuleResult)
        ensures
            r@ == command_report(self@.module, exit_code as int, stdout@, stderr@),
    {
        let code = signed_decimal_text(exit_code);
        let shell = same_text(self.module.as_str(), "shell");
        let msg = if exit_code == 0 {
            if shell {
                join2("Shell command executed with exit code: ", code.as_str())
            } else {
                let head = join2("Command executed successfully (exit code: ", code.as_str());
                join2(head.as_str(), ")")
            }
        } else {
            if shell {
                join2("Shell command failed with exit code: ", code.as_str())
            } else {
                join2("Command failed with exit code: ", code.as_str())
            }
        };
        ModuleResult { stdout, stderr, changed: exit_code == 0, failed: exit_code != 0, msg }
    }

    /// The report for a module that is not known.
    pub fn unknown_module(&self, local: bool) -> (r: ModuleResult)
        ensures
            r@ == unknown_report(self@.module, local),
    {
        let head = join2("Module ", self.module.as_str());
        if local {
            let quoted = join2("Module '", self.module.as_str());
            ModuleResult {
                stdout: String::new(),
                stderr: join2(head.as_str(), " is only available with SSH"),
                changed: false,
                failed: false,
                msg: join2(quoted.as_str(), "' not implemented for local execution"),
            }
        } else {
            ModuleResult {
                stdout: String::new(),
                stderr: join2(head.as_str(), " is not implemented"),
                changed: false,
                failed: false,
                msg: join2("Unknown module: ", self.module.as_str()),
            }
        }
    }

    /// The outcome of the task on a host, given what came back from the
    /// attempt to run its operation. An error of the operation is handed on.
    pub fn conclude(&self, host: &str, local: bool, outcome: ModuleOutcome) -> (r: Result<
        TaskResult,
        String,
    >)
        ensures
            match r {
                Ok(t) => concluded(self@.module, host@, local, outcome) == Some(t@),
                Err(e) => concluded(self@.module, host@, local, outcome) is None && outcome
                    == ModuleOutcome::Failed(e),
            },
    {
        match outcome {
            ModuleOutcome::Report(m) => Ok(TaskResult::from_module_result(host, m)),
            ModuleOutcome::Command { exit_code, stdout, stderr } => {
                let m = self.process_command_result(exit_code, stdout, stderr);
                Ok(TaskResult::from_module_result(host, m))
            },
            ModuleOutcome::ConnectFailed(e) => {
                let mut t = TaskResult::new(host);
                t.failed = true;
                t.msg = join2("Failed to connect to host: ", e.as_str());
                Ok(t)
            },
            ModuleOutcome::Unknown => {
                let m = self.unknown_module(local);
                Ok(TaskResult::from_module_result(host, m))
            },
            ModuleOutcome::Failed(e) => Err(e),
        }
    }
}

/// The outcome of an execution that a condition held back.
pub open spec fn skipped_result(host: Seq<char>, looping: bool) -> TaskResultView {
    TaskResultView {
        skipped: true,
        msg: if looping {
            "Skipped loop item due to condition"@
        } else {
            "Skipped due to condition"@
        },
        ..blank_result(host)
    }
}

/// What a condition decides: where it does not hold, the execution is
/// skipped and nothing is run; where it holds, or where there is none,
/// nothing is decided here.
pub fn gate(host: &str, looping: bool, verdict: Option<bool>) -> (r: Option<TaskResult>)
    ensures
        match r {
            Some(t) => verdict == Some(false) && t@ == skipped_result(host@, looping) && t.skipped
                && !t.changed && !t.failed,
            None => verdict != Some(false),
        },
{
    match verdict {
        Some(false) => {
            let mut t = TaskResult::new(host);
            t.skipped = true;
            t.msg = if looping {
                "Skipped loop item due to condition".to_owned()
            } else {
                "Skipped due to condition".to_owned()
            };
            Some(t)
        },
        _ => None,
    }
}

/// The mathematical values of a list of outcomes.
pub open spec fn result_views(rs: Seq<TaskResult>) -> Seq<TaskResultView> {
    Seq::new(rs.len(), |i: int| rs[i]@)
}

/// How many of the first `n` outcomes changed something.
pub open spec fn count_changed(rs: Seq<TaskResultView>, n: nat) -> nat
    decreases n,
{
    if n == 0 || n > rs.len() {
        0
    } else {
        count_changed(rs, (n - 1) as nat) + if rs[n - 1].changed {
            1nat
        } else {
            0nat
        }
    }
}

/// Whether one of the first `n` outcomes failed.
pub open spec fn any_failed(rs: Seq<TaskResultView>, n: nat) -> bool
    decreases n,
{
    if n == 0 || n > rs.len() {
        false
    } else {
        any_failed(rs, (n - 1) as nat) || rs[n - 1].failed
    }
}

/// What is said of the iterations of a loop: how many changed something,
/// how many did not, and how many there were.
pub open spec fn summary_message(rs: Seq<TaskResultView>) -> Seq<char> {
    let changed = count_changed(rs, rs.len());
    let ok = (rs.len() - changed) as nat;
    if changed > 0 {
        "changed="@ + decimal_of(changed) + " ok="@ + decimal_of(ok) + " iterations="@ + decimal_of(
            rs.len(),
        )
    } else {
        "ok="@ + decimal_of(ok) + " iterations="@ + decimal_of(rs.len())
    }
}

/// What goes in front of the keys of the values of iteration `index`.
pub open spec fn item_prefix(index: nat) -> Seq<char> {
    "item_"@ + decimal_of(index) + "."@
}

/// The values of the first `n` iterations, each under its key with the
/// number of its iteration in front.
pub open spec fn item_values(rs: Seq<TaskResultView>, n: nat) -> Map<Seq<char>, NodeView>
    decreases n,
{
    if n == 0 || n > rs.len() {
        Map::empty()
    } else {
        item_values(rs, (n - 1) as nat).union_prefer_right(
            prefixed(rs[n - 1].values, item_prefix((n - 1) as nat)),
        )
    }
}

/// The one outcome of a task on a host, from the outcomes of its
/// executions: changed where one of them changed something; failed where one
/// of them failed, unless the task ignores errors. One execution gives its
/// message and its values; several, or none, give the count of each kind and
/// the values of each under the number of its iteration.
pub open spec fn summary(ignore_errors: bool, host: Seq<char>, rs: Seq<TaskResultView>) -> TaskResultView {
    TaskResultView {
        changed: count_changed(rs, rs.len()) > 0,
        failed: any_failed(rs, rs.len()) && !ignore_errors,
        skipped: false,
        msg: if rs.len() == 1 {
            rs[0].msg
        } else {
            summary_message(rs)
        },
        host: host,
        values: if rs.len() == 1 {
            rs[0].values
        } else {
            item_values(rs, rs.len())
        },
    }
}

/// Copies into `target` the values of one iteration, each under its key
/// with the number of the iteration in front.
fn add_item_values(target: &mut StrMap<Node>, values: &StrMap<Node>, index: usize)
    ensures
        final(target)@ == old(target)@.union_prefer_right(
            prefixed(values@, item_prefix(index as nat)),
        ),
{
    let number = decimal_text(index);
    let head = join2("item_", number.as_str());
    let prefix = join2(head.as_str(), ".");
    let ghost p = item_prefix(index as nat);
    assert(prefix@ == p);
    let mut i: usize = 0;
    proof {
        assert(values.entries@.take(0).len() == 0);
        assert(target@ =~= old(target)@.union_prefer_right(
            prefixed(map_of(values.entries@.take(0)), p),
        ));
    }
    while i < values.entries.len()
        invariant
            i <= values.entries.len(),
            prefix@ == p,
            target@ == old(target)@.union_prefer_right(
                prefixed(map_of(values.entries@.take(i as int)), p),
            ),
        decreases values.entries.len() - i,
    {
        proof {
            lemma_map_of_take(values.entries@, i as int);
            lemma_prefixed_insert(
                map_of(values.entries@.take(i as int)),
                p,
                values.entries@[i as int].0@,
                values.entries@[i as int].1@,
            );
        }
        let key = join2(prefix.as_str(), values.entries[i].0.as_str());
        target.insert(key, values.entries[i].1.clone());
        assert(target@ =~= old(target)@.union_prefer_right(
            prefixed(map_of(values.entries@.take(i + 1)), p),
        ));
        i = i + 1;
    }
    proof {
        assert(values.entries@.take(i as int) =~= values.entries@);
    }
}

impl Task {
    /// The one outcome of the task on a host, from the outcomes of its
    /// executions.
    pub fn summarize(&self, host: &str, results: &Vec<TaskResult>) -> (r: TaskResult)
        ensures
            r@ == summary(self@.ignore_errors, host@, result_views(results@)),
    {
        let ghost rs = result_views(results@);
        let mut changed: usize = 0;
        let mut failed = false;
        let mut i: usize = 0;
        while i < results.len()
            invariant
                i <= results.len(),
                rs == result_views(results@),
                changed == count_changed(rs, i as nat),
                changed <= i,
                failed == any_failed(rs, i as nat),
            decreases results.len() - i,
        {
            assert(rs[i as int] == results@[i as int]@);
            if results[i].changed {
                changed = changed + 1;
            }
            if results[i].failed {
                failed = true;
            }
            i = i + 1;
        }
        let mut out = TaskResult::new(host);
        out.changed = changed > 0;
        out.failed = failed && !self.ignore_errors;
        if results.len() == 1 {
            assert(rs[0] == results@[0]@);
            out.msg = results[0].msg.clone();
            out.values = clone_vars(&results[0].values);
        } else {
            let total = decimal_text(results.len());
            let ok = decimal_text(results.len() - changed);
            let tail = join2(" iterations=", total.as_str());
            let ok_part = join2("ok=", ok.as_str());
            if changed > 0 {
                let count = decimal_text(changed);
                let head = join2("changed=", count.as_str());
                let spaced = join2(head.as_str(), " ");
                let both = join2(spaced.as_str(), ok_part.as_str());
                out.msg = join2(both.as_str(), tail.as_str());
                proof {
                    reveal_strlit(" ");
                    reveal_strlit("ok=");
                    reveal_strlit(" ok=");
                    assert(" ok="@ =~= " "@ + "ok="@);
                    assert(out.msg@ =~= summary_message(rs));
                }
            } else {
                out.msg = join2(ok_part.as_str(), tail.as_str());
                assert(out.msg@ =~= summary_message(rs));
            }
            let mut k: usize = 0;
            while k < results.len()
                invariant
                    k <= results.len(),
                    rs == result_views(results@),
                    out.values@ == item_values(rs, k as nat),
                    out.changed == (count_changed(rs, rs.len()) > 0),
                    out.failed == (any_failed(rs, rs.len()) && !self.ignore_errors),
                    !out.skipped,
                    out.host@ == host@,
                    out.msg@ == summary_message(rs),
                decreases results.len() - k,
            {
                assert(rs[k as int] == results@[k as int]@);
                add_item_values(&mut out.values, &results[k].values, k);
                k = k + 1;
            }
        }
        out
    }
}

/// An execution that a condition holds back is skipped, changes nothing
/// and fails nothing, on whatever host and in or out of a loop.
pub proof fn law_false_condition_skips(host: Seq<char>, looping: bool)
    ensures
        skipped_result(host, looping).skipped,
        !skipped_result(host, looping).changed,
        !skipped_result(host, looping).failed,
{
}

} // verus!
