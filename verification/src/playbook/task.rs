//! Tasks: one operation each, with its arguments, conditions and modifiers.

use vstd::prelude::*;
use crate::node::{Mapping, Node, NodeView, Pairs};
use crate::strmap::{names_of, StrMap};
use crate::text::{clone_opt_text, clone_texts, opt_view};

verus! {

/// One operation, as the playbook declares it.
#[derive(Debug)]
pub struct Task {
    pub name: String,
    pub module: String,
    pub args: Mapping,
    pub is_become: bool,
    pub become_user: String,
    pub register: Option<String>,
    pub when: Option<Node>,
    pub notify: Vec<String>,
    pub ignore_errors: bool,
    pub tags: Vec<String>,
    pub loop_items: Option<Node>,
    pub loop_var_name: Option<String>,
    pub index_var_name: Option<String>,
}

/// The mathematical value of a task.
pub struct TaskView {
    pub name: Seq<char>,
    pub module: Seq<char>,
    pub args: Pairs,
    pub is_become: bool,
    pub become_user: Seq<char>,
    pub register: Option<Seq<char>>,
    pub when: Option<NodeView>,
    pub notify: Seq<Seq<char>>,
    pub ignore_errors: bool,
    pub tags: Seq<Seq<char>>,
    pub loop_items: Option<NodeView>,
    pub loop_var_name: Option<Seq<char>>,
    pub index_var_name: Option<Seq<char>>,
}

/// The mathematical value of a document value that may be missing.
pub open spec fn opt_node(o: Option<Node>) -> Option<NodeView> {
    match o {
        Some(v) => Some(v@),
        None => None,
    }
}

impl View for Task {
    type V = TaskView;

    open spec fn view(&self) -> TaskView {
        TaskView {
            name: self.name@,
            module: self.module@,
            args: self.args@,
            is_become: self.is_become,
            become_user: self.become_user@,
            register: opt_view(self.register),
            when: opt_node(self.when),
            notify: names_of(self.notify@),
            ignore_errors: self.ignore_errors,
            tags: names_of(self.tags@),
            loop_items: opt_node(self.loop_items),
            loop_var_name: opt_view(self.loop_var_name),
            index_var_name: opt_view(self.index_var_name),
        }
    }
}

/// A copy of a document value that may be missing.
pub fn clone_opt_node(o: &Option<Node>) -> (r: Option<Node>)
    ensures
        opt_node(r) == opt_node(*o),
{
    match o {
        Some(v) => Some(v.clone()),
        None => None,
    }
}

impl Clone for Task {
    /// A copy of the task.
    fn clone(&self) -> (r: Task)
        ensures
            r@ == self@,
    {
        Task {
            name: self.name.clone(),
            module: self.module.clone(),
            args: self.args.clone(),
            is_become: self.is_become,
            become_user: self.become_user.clone(),
            register: clone_opt_text(&self.register),
            when: clone_opt_node(&self.when),
            notify: clone_texts(&self.notify),
            ignore_errors: self.ignore_errors,
            tags: clone_texts(&self.tags),
            loop_items: clone_opt_node(&self.loop_items),
            loop_var_name: clone_opt_text(&self.loop_var_name),
            index_var_name: clone_opt_text(&self.index_var_name),
        }
    }
}

/// The outcome of one task on one host.
#[derive(Debug)]
pub struct TaskResult {
    pub changed: bool,
    pub failed: bool,
    pub skipped: bool,
    pub msg: String,
    pub host: String,
    pub values: StrMap<Node>,
}

/// The mathematical value of an outcome.
pub struct TaskResultView {
    pub changed: bool,
    pub failed: bool,
    pub skipped: bool,
    pub msg: Seq<char>,
    pub host: Seq<char>,
    pub values: Map<Seq<char>, NodeView>,
}

impl View for TaskResult {
    type V = TaskResultView;

    open spec fn view(&self) -> TaskResultView {
        TaskResultView {
            changed: self.changed,
            failed: self.failed,
            skipped: self.skipped,
            msg: self.msg@,
            host: self.host@,
            values: self.values@,
        }
    }
}

/// The outcome that says nothing yet: not changed, not failed, not skipped.
pub open spec fn blank_result(host: Seq<char>) -> TaskResultView {
    TaskResultView {
        changed: false,
        failed: false,
        skipped: false,
        msg: Seq::empty(),
        host: host,
        values: Map::empty(),
    }
}

impl TaskResult {
    /// The outcome that says nothing yet.
    pub fn new(host: &str) -> (r: TaskResult)
        ensures
            r@ == blank_result(host@),
    {
        TaskResult {
            changed: false,
            failed: false,
            skipped: false,
            msg: String::new(),
            host: host.to_owned(),
            values: StrMap::new(),
        }
    }
}

} // verus!
