//! The execution of one task on one host: which operation to run next, with
//! which arguments, and what to make of what comes back.

use vstd::prelude::*;
use crate::engine::{context_keys, create_tera_context, filter_names, new_engine};
use crate::inventory::host::{Host};
use crate::node::{
    lookup_text, put, text_value, views_of, Mapping, Node, NodeView, Num, NumView, Pairs,
};
use crate::playbook::args::{fails_on, resolves, ArgumentError};
use crate::playbook::loops::{
    direct_items, rendered_items, resolve_loop_items, unlooped, LoopError, LoopFault,
};
use crate::playbook::outcome::{
    clone_vars, concluded, gate, result_views, skipped_result, summary, ModuleOutcome,
};
use crate::playbook::task::{Task, TaskResult, TaskView};
use crate::playbook::templar::{
    condition_template, evaluate_condition, judged, may_render, render_fails, truthy, RenderError,
};
use crate::strmap::{lemma_map_of_pairs, pairs_map, StrMap};
use crate::text::same_text;
use crate::yaml::{yaml_text, yaml_text_of};

verus! {

/// The patterns by which the clock is read.
pub open spec fn is_clock_pattern(p: Seq<char>) -> bool {
    p == "%Y-%m-%d"@ || p == "%H:%M:%S"@ || p == "%Y"@ || p == "%m"@ || p == "%d"@ || p == "%H"@
        || p == "%M"@ || p == "%S"@ || p == "%A"@ || p == "%a"@
}

/// `chrono::Local::now`, then `format`, `timestamp` and `to_rfc3339` on
/// that one instant: the instant written by each of the patterns, the number
/// of its seconds since 1970, and its text after RFC 3339. The patterns are
/// those that the outside crate reads.
#[verifier::external_body]
fn clock_fields(patterns: &Vec<String>) -> (r: (Vec<String>, String, String))
    requires
        forall|i: int| 0 <= i < patterns@.len() ==> is_clock_pattern((#[trigger] patterns@[i])@),
    ensures
        r.0@.len() == patterns@.len(),
{
    let now = chrono::Local::now();
    (
        patterns.iter().map(|p| now.format(p).to_string()).collect(),
        now.timestamp().to_string(),
        now.to_rfc3339(),
    )
}

/// The names of the facts about the date and the time, in order.
pub open spec fn date_keys() -> Seq<Seq<char>> {
    seq![
        "date"@,
        "time"@,
        "year"@,
        "month"@,
        "day"@,
        "hour"@,
        "minute"@,
        "second"@,
        "weekday"@,
        "weekday_short"@,
        "epoch"@,
        "iso8601"@,
    ]
}

/// Whether a mapping holds the facts about the date and the time: a text
/// under each of their names, in order.
pub open spec fn is_date_facts(m: Pairs) -> bool {
    m.len() == 12 && forall|i: int|
        0 <= i < 12 ==> (#[trigger] m[i]).0 == text_value(date_keys()[i]) && m[i].1 is String
}

/// The facts about the date and the time, read from the clock now.
pub fn date_time_facts() -> (r: Mapping)
    ensures
        is_date_facts(r@),
{
    let mut patterns: Vec<String> = Vec::new();
    patterns.push("%Y-%m-%d".to_owned());
    patterns.push("%H:%M:%S".to_owned());
    patterns.push("%Y".to_owned());
    patterns.push("%m".to_owned());
    patterns.push("%d".to_owned());
    patterns.push("%H".to_owned());
    patterns.push("%M".to_owned());
    patterns.push("%S".to_owned());
    patterns.push("%A".to_owned());
    patterns.push("%a".to_owned());
    let mut names: Vec<String> = Vec::new();
    names.push("date".to_owned());
    names.push("time".to_owned());
    names.push("year".to_owned());
    names.push("month".to_owned());
    names.push("day".to_owned());
    names.push("hour".to_owned());
    names.push("minute".to_owned());
    names.push("second".to_owned());
    names.push("weekday".to_owned());
    names.push("weekday_short".to_owned());
    let (fields, epoch, iso) = clock_fields(&patterns);
    let mut entries: Vec<(Node, Node)> = Vec::new();
    let mut i: usize = 0;
    while i < 10
        invariant
            i <= 10,
            names@.len() == 10,
            fields@.len() == 10,
            entries@.len() == i,
            forall|j: int| 0 <= j < 10 ==> (#[trigger] names@[j])@ == date_keys()[j],
            forall|j: int|
                0 <= j < i ==> (#[trigger] entries@[j]).0@ == text_value(date_keys()[j])
                    && entries@[j].1@ is String,
        decreases 10 - i,
    {
        entries.push((Node::String(names[i].clone()), Node::String(fields[i].clone())));
        i = i + 1;
    }
    entries.push((Node::text("epoch"), Node::String(epoch)));
    entries.push((Node::text("iso8601"), Node::String(iso)));
    let r = Mapping { entries };
    proof {
        r.lemma_view();
    }
    r
}

/// Whether `out` is `vars` with the facts about the date and the time under
/// "ansible_date_time", unless `vars` has something under that name already.
pub open spec fn dated(vars: Map<Seq<char>, NodeView>, out: Map<Seq<char>, NodeView>) -> bool {
    &&& out.dom() == vars.dom().insert("ansible_date_time"@)
    &&& forall|k: Seq<char>| vars.contains_key(k) ==> out[k] == vars[k]
    &&& !vars.contains_key("ansible_date_time"@) ==> out["ansible_date_time"@] is Mapping
        && is_date_facts(out["ansible_date_time"@]->Mapping_0)
}

/// The variables with the facts about the date and the time added, unless
/// something stands under their name already.
pub fn with_date(vars: &StrMap<Node>) -> (r: StrMap<Node>)
    ensures
        dated(vars@, r@),
{
    let mut out = clone_vars(vars);
    if !out.contains_key("ansible_date_time") {
        let facts = date_time_facts();
        out.insert("ansible_date_time".to_owned(), Node::Mapping(facts));
    }
    assert(out@.dom() =~= vars@.dom().insert("ansible_date_time"@));
    out
}

/// Whether an address is that of the machine itself.
pub open spec fn is_local_host(hostname: Seq<char>) -> bool {
    hostname == "localhost"@ || hostname == "127.0.0.1"@
}

/// A mapping with the first `n` variables put in, each under its name.
pub open spec fn merged_vars(base: Pairs, vars: Seq<(Seq<char>, NodeView)>, n: nat) -> Pairs
    decreases n,
{
    if n == 0 || n > vars.len() {
        base
    } else {
        put(merged_vars(base, vars, (n - 1) as nat), text_value(vars[n - 1].0), vars[n - 1].1)
    }
}

/// The arguments that go to the operation: the resolved arguments; for the
/// machine itself, with "_host_type" set to "local"; for a template, with
/// the variables of the task put into the mapping under "vars".
pub open spec fn call_args(
    module: Seq<char>,
    resolved: Pairs,
    local: bool,
    vars: Seq<(Seq<char>, NodeView)>,
) -> Pairs {
    let a = if local {
        put(resolved, text_value("_host_type"@), text_value("local"@))
    } else {
        resolved
    };
    if module == "template"@ {
        let base = match lookup_text(a, "vars"@) {
            Some(NodeView::Mapping(m)) => m,
            _ => Pairs::empty(),
        };
        put(a, text_value("vars"@), NodeView::Mapping(merged_vars(base, vars, vars.len())))
    } else {
        a
    }
}

/// Whether `args` can be the arguments that go to the operation of a task:
/// `all` are the variables with the facts about the date and the time added,
/// `known` the names among them that the evaluator was given, and `resolved`
/// what resolving the arguments of the task against them gave.
pub open spec fn prepares(
    t: TaskView,
    vars: Map<Seq<char>, NodeView>,
    local: bool,
    all: Seq<(Seq<char>, NodeView)>,
    known: Set<Seq<char>>,
    resolved: Pairs,
    args: Pairs,
) -> bool {
    dated(vars, pairs_map(all)) && known.subset_of(pairs_map(all).dom()) && resolves(
        t.module,
        t.args,
        t.args.len(),
        pairs_map(all),
        known,
        resolved,
    ) && args == call_args(t.module, resolved, local, all)
}

/// Whether `args` can be the arguments that go to the operation of a task
/// with the given variables.
pub open spec fn prepared_for(
    t: TaskView,
    vars: Map<Seq<char>, NodeView>,
    local: bool,
    args: Pairs,
) -> bool {
    exists|all: Seq<(Seq<char>, NodeView)>, known: Set<Seq<char>>, resolved: Pairs| #[trigger]
        prepares(t, vars, local, all, known, resolved, args)
}

/// Whether `e` can be why no operation came of a task with the given
/// variables: one of its arguments is a text that could not be rendered,
/// the evaluator knowing no names but those of the variables and of the
/// facts about the date and the time.
pub open spec fn unprepared(t: TaskView, vars: Map<Seq<char>, NodeView>, e: ArgumentError) -> bool {
    exists|known: Set<Seq<char>>, i: int|
        known.subset_of(vars.dom().insert("ansible_date_time"@)) && 0 <= i < t.args.len()
            && #[trigger] fails_on(t.module, t.args[i], known, e)
}

/// The command of a command or shell task: the text under "_raw_params",
/// or the YAML text of what else stands there.
pub open spec fn command_text(args: Pairs) -> Seq<char> {
    match lookup_text(args, "_raw_params"@) {
        Some(NodeView::String(s)) => s,
        Some(v) => yaml_text_of(v),
        None => yaml_text_of(NodeView::Null),
    }
}

/// One operation to run on one host.
#[derive(Debug)]
pub struct ModuleCall {
    pub module: String,
    pub args: Mapping,
    /// Whether the host is the machine itself.
    pub local: bool,
    pub is_become: bool,
    pub become_user: String,
}

impl ModuleCall {
    /// The command of a command or shell task.
    pub fn command(&self) -> (r: String)
        ensures
            r@ == command_text(self.args@),
    {
        match self.args.get("_raw_params") {
            Some(Node::String(s)) => s.clone(),
            Some(v) => yaml_text(v),
            None => yaml_text(&Node::Null),
        }
    }
}

/// The arguments with the variables of the task put into the mapping under
/// "vars".
fn with_task_vars(args: &mut Mapping, vars: &StrMap<Node>)
    ensures
        ({
            let base = match lookup_text(old(args)@, "vars"@) {
                Some(NodeView::Mapping(m)) => m,
                _ => Pairs::empty(),
            };
            final(args)@ == put(
                old(args)@,
                text_value("vars"@),
                NodeView::Mapping(merged_vars(base, vars.pairs(), vars.pairs().len())),
            )
        }),
{
    let mut merged = match args.get("vars") {
        Some(Node::Mapping(m)) => m.clone(),
        _ => Mapping::new(),
    };
    let ghost base = merged@;
    let ghost pairs = vars.pairs();
    let mut i: usize = 0;
    while i < vars.entries.len()
        invariant
            i <= vars.entries.len(),
            pairs == vars.pairs(),
            merged@ == merged_vars(base, pairs, i as nat),
        decreases vars.entries.len() - i,
    {
        assert(pairs[i as int] == (vars.entries@[i as int].0@, vars.entries@[i as int].1@));
        merged.insert(Node::String(vars.entries[i].0.clone()), vars.entries[i].1.clone());
        i = i + 1;
    }
    args.insert(Node::text("vars"), Node::Mapping(merged));
}

/// Whether `items` can be what a loop source gives: the items that it
/// gives without any rendering where it gives some, else those of some
/// rendering of the source.
pub open spec fn loops_over(
    source: NodeView,
    vars: Map<Seq<char>, NodeView>,
    items: Seq<NodeView>,
) -> bool {
    match direct_items(source, vars) {
        Some(list) => items == list,
        None => match source {
            NodeView::String(text) => exists|known: Set<Seq<char>>, v: NodeView|
                known.subset_of(vars.dom()) && #[trigger] may_render(text, known, false, v)
                    && rendered_items(text, v) == Some(items),
            _ => false,
        },
    }
}

/// Why a task came to no outcome on a host.
#[derive(Debug)]
pub enum TaskFailure {
    /// The loop source gives no list of items.
    Loop(LoopError),
    /// The condition could not be evaluated.
    Condition(RenderError),
    /// An argument could not be rendered.
    Argument(ArgumentError),
    /// The operation gave up with an error.
    Module(String),
}

/// Where the execution of a task on a host stands.
#[derive(Debug)]
pub struct TaskRun {
    /// The items of the loop, where the task has one.
    pub items: Option<Vec<Node>>,
    /// The number of executions that are settled.
    pub next: usize,
    /// The outcomes of the settled executions.
    pub results: Vec<TaskResult>,
}

/// What to do next for a task on a host.
#[derive(Debug)]
pub enum TaskStep {
    /// Run this operation, and record what comes back.
    Call(ModuleCall),
    /// Nothing is left to run: this is the outcome of the task.
    Done(TaskResult),
}

/// The mathematical values of the items of a run.
pub open spec fn run_items(run: TaskRun) -> Option<Seq<NodeView>> {
    match run.items {
        Some(items) => Some(views_of(items@)),
        None => None,
    }
}

/// How many executions a run has in all.
pub open spec fn run_total(run: TaskRun) -> nat {
    match run.items {
        Some(items) => items@.len(),
        None => 1,
    }
}

/// The variables of one iteration: those of the host, with the item under
/// the loop variable and, where asked for, the number of the iteration under
/// the index variable. The loop variable is "item" unless the task names
/// another.
pub open spec fn iteration_vars(
    t: TaskView,
    vars: Map<Seq<char>, NodeView>,
    item: NodeView,
    index: nat,
) -> Map<Seq<char>, NodeView> {
    let loop_var = match t.loop_var_name {
        Some(name) => name,
        None => "item"@,
    };
    let a = vars.insert(loop_var, item);
    match t.index_var_name {
        Some(name) => a.insert(name, NodeView::Number(NumView::PosInt(index as u64))),
        None => a,
    }
}

/// The variables of the execution of number `j`: those of its iteration
/// where the task has a loop, else those of the host.
pub open spec fn vars_at(
    t: TaskView,
    items: Option<Seq<NodeView>>,
    vars: Map<Seq<char>, NodeView>,
    j: int,
) -> Map<Seq<char>, NodeView> {
    match items {
        Some(list) => iteration_vars(t, vars, list[j], j as nat),
        None => vars,
    }
}

/// The variables of the execution that is next in a run.
pub open spec fn step_vars(t: TaskView, run: TaskRun, vars: Map<Seq<char>, NodeView>) -> Map<
    Seq<char>,
    NodeView,
> {
    vars_at(t, run_items(run), vars, run.next as int)
}

/// Whether the condition of a task can come out as `holds` against the
/// given variables. Where there is none it holds. A truth value counts as
/// it is, and anything else that is no text as true. A text is evaluated as
/// an expression, and counts as what some rendering of it counts as, the
/// evaluator knowing no names but those of the variables.
pub open spec fn may_hold(
    when: Option<NodeView>,
    vars: Map<Seq<char>, NodeView>,
    holds: bool,
) -> bool {
    match when {
        None => holds,
        Some(NodeView::Bool(b)) => holds == b,
        Some(NodeView::String(text)) => exists|known: Set<Seq<char>>, v: NodeView|
            known.subset_of(vars.dom()) && truthy(v) == holds && #[trigger] may_render(
                condition_template(text),
                known,
                false,
                v,
            ),
        Some(_) => holds,
    }
}

/// Whether `r` and `after` can be what one step does to the run `before`
/// of a task on a host.
///
/// The outcomes that were settled stay. Each execution that the step
/// settles is skipped, and its condition can come out as false against its
/// own variables. An operation is handed out only for an execution whose
/// condition can come out as true, with the arguments prepared against the
/// variables of that execution. The task is done when no execution is left.
/// The step fails on a condition only where the condition is a text, and on
/// an argument only where the condition can come out as true and a text
/// among the arguments could not be rendered.
pub open spec fn advanced(
    t: Task,
    host: crate::inventory::host::HostView,
    vars: Map<Seq<char>, NodeView>,
    before: TaskRun,
    after: TaskRun,
    r: Result<TaskStep, TaskFailure>,
) -> bool {
    &&& run_items(after) == run_items(before)
    &&& run_total(after) == run_total(before)
    &&& before.next <= after.next <= run_total(after)
    &&& after.results@.len() == after.next
    &&& forall|j: int|
        0 <= j < before.next ==> (#[trigger] result_views(after.results@)[j]) == result_views(
            before.results@,
        )[j]
    &&& forall|j: int|
        before.next <= j < after.next ==> (#[trigger] result_views(after.results@)[j])
            == skipped_result(host.name, after.items is Some) && may_hold(
            t@.when,
            vars_at(t@, run_items(after), vars, j),
            false,
        )
    &&& match r {
        Ok(TaskStep::Call(call)) => after.next < run_total(after) && may_hold(
            t@.when,
            step_vars(t@, after, vars),
            true,
        ) && call.module@ == t@.module && call.local == is_local_host(host.hostname)
            && call.is_become == t.is_become && call.become_user@ == t@.become_user
            && prepared_for(t@, step_vars(t@, after, vars), call.local, call.args@),
        Ok(TaskStep::Done(outcome)) => after.next == run_total(after) && (after.items is None
            && before.next == 0 ==> outcome@ == skipped_result(host.name, false)) && (
        after.items is Some || before.next == 1 ==> outcome@ == summary(
            t@.ignore_errors,
            host.name,
            result_views(after.results@),
        )),
        Err(TaskFailure::Condition(e)) => after.next < run_total(after) && match t@.when {
            Some(NodeView::String(text)) => exists|known: Set<Seq<char>>|
                known.subset_of(step_vars(t@, after, vars).dom()) && #[trigger] render_fails(
                    condition_template(text),
                    known,
                    e,
                ),
            _ => false,
        },
        Err(TaskFailure::Argument(e)) => after.next < run_total(after) && may_hold(
            t@.when,
            step_vars(t@, after, vars),
            true,
        ) && unprepared(t@, step_vars(t@, after, vars), e),
        Err(_) => false,
    }
}

/// A task whose condition is the truth value false runs nothing: whatever
/// is left of it is settled as skipped in one step, and the task is done.
/// Without a loop, the outcome of the task is the skipped one.
pub proof fn law_false_condition_runs_nothing(
    t: Task,
    host: crate::inventory::host::HostView,
    vars: Map<Seq<char>, NodeView>,
    before: TaskRun,
    after: TaskRun,
    r: Result<TaskStep, TaskFailure>,
)
    requires
        advanced(t, host, vars, before, after, r),
        t@.when == Some(NodeView::Bool(false)),
    ensures
        r is Ok,
        r.unwrap() is Done,
        after.next == run_total(before),
        forall|j: int|
            before.next <= j < run_total(before) ==> (#[trigger] result_views(after.results@)[j])
                == skipped_result(host.name, before.items is Some),
        before.items is None && before.next == 0 ==> r.unwrap()->Done_0@ == skipped_result(
            host.name,
            false,
        ),
{
}

/// A task without a condition skips nothing: while an execution is left,
/// the step settles none, and it either hands out the operation for the
/// next execution or fails on an argument. Where no argument is a text it
/// does not fail, so the operation is handed out once for each execution.
pub proof fn law_unconditional_task_runs(
    t: Task,
    host: crate::inventory::host::HostView,
    vars: Map<Seq<char>, NodeView>,
    before: TaskRun,
    after: TaskRun,
    r: Result<TaskStep, TaskFailure>,
)
    requires
        advanced(t, host, vars, before, after, r),
        t@.when is None,
        before.next < run_total(before),
    ensures
        after.next == before.next,
        r is Ok ==> r.unwrap() is Call,
        r is Err ==> r.unwrap_err() is Argument,
        (forall|i: int| 0 <= i < t@.args.len() ==> !((#[trigger] t@.args[i]).1 is String)) ==> r
            is Ok,
{
    if after.next > before.next {
        assert(result_views(after.results@)[before.next as int] == skipped_result(
            host.name,
            after.items is Some,
        ));
    }
}

/// The condition decides each execution by itself: an execution is skipped
/// only where the condition can come out as false against the variables of
/// that execution, and the operation is handed out only where it can come
/// out as true. With a truth value or no condition, only one of the two can
/// be.
pub proof fn law_condition_decides_each_execution(
    t: Task,
    host: crate::inventory::host::HostView,
    vars: Map<Seq<char>, NodeView>,
    before: TaskRun,
    after: TaskRun,
    r: Result<TaskStep, TaskFailure>,
    j: int,
)
    requires
        advanced(t, host, vars, before, after, r),
        before.next <= j < run_total(before),
    ensures
        j < after.next ==> result_views(after.results@)[j].skipped && may_hold(
            t@.when,
            vars_at(t@, run_items(before), vars, j),
            false,
        ),
        j == after.next && r is Ok ==> r.unwrap() is Call && may_hold(
            t@.when,
            vars_at(t@, run_items(before), vars, j),
            true,
        ),
        !(t@.when is Some && t@.when.unwrap() is String) ==> !(may_hold(
            t@.when,
            vars_at(t@, run_items(before), vars, j),
            false,
        ) && may_hold(t@.when, vars_at(t@, run_items(before), vars, j), true)),
{
    if j < after.next {
        assert(result_views(after.results@)[j] == skipped_result(host.name, after.items is Some));
    }
}

impl Task {
    /// Whether the condition of the task holds: a text is evaluated as an
    /// expression, a truth value counts as it is, anything else as true.
    pub fn evaluate_condition(
        &self,
        condition: &Node,
        tera: &mut tera::Tera,
        context: &tera::Context,
    ) -> (r: Result<bool, RenderError>)
        ensures
            match condition@ {
                NodeView::String(text) => judged(text, context_keys(*context), r),
                NodeView::Bool(b) => r is Ok && r.unwrap() == b,
                _ => r is Ok && r.unwrap(),
            },
        filter_names(*final(tera)) == filter_names(*old(tera)),
    {
        match condition {
            Node::String(text) => evaluate_condition(text.as_str(), tera, context),
            Node::Bool(b) => Ok(*b),
            _ => Ok(true),
        }
    }

    /// The variables of the iteration `index` over `item`.
    pub fn loop_vars(&self, vars: &StrMap<Node>, item: &Node, index: usize) -> (r: StrMap<Node>)
        ensures
            r@ == iteration_vars(self@, vars@, item@, index as nat),
    {
        let mut out = clone_vars(vars);
        match &self.loop_var_name {
            Some(name) => {
                out.insert(name.clone(), item.clone());
            },
            None => {
                out.insert("item".to_owned(), item.clone());
            },
        }
        match &self.index_var_name {
            Some(name) => {
                out.insert(name.clone(), Node::Number(Num::PosInt(index as u64)));
            },
            None => {},
        }
        out
    }

    /// The operation that the task runs on a host with the given variables:
    /// its arguments rendered, with the facts about the date and the time
    /// among the variables.
    pub fn prepare(&self, host: &Host, tera: &mut tera::Tera, vars: &StrMap<Node>) -> (r: Result<
        ModuleCall,
        ArgumentError,
    >)
        ensures
            match r {
                Ok(call) => call.module@ == self@.module && call.local == is_local_host(
                    host@.hostname,
                ) && call.is_become == self.is_become && call.become_user@ == self@.become_user
                    && prepared_for(self@, vars@, call.local, call.args@),
                Err(e) => unprepared(self@, vars@, e),
            },
        filter_names(*final(tera)) == filter_names(*old(tera)),
    {
        let all = with_date(vars);
        let context = create_tera_context(&all);
        proof {
            lemma_map_of_pairs(all.entries@);
        }
        assert(dated(vars@, pairs_map(all.pairs())));
        assert(context_keys(context).subset_of(vars@.dom().insert("ansible_date_time"@)));
        let mut args = match self.resolve_args(tera, &context, &all) {
            Ok(resolved) => resolved,
            Err(e) => {
                assert(unprepared(self@, vars@, e)) by {
                    let i = choose|i: int|
                        0 <= i < self@.args.len() && fails_on(
                            self@.module,
                            #[trigger] self@.args[i],
                            context_keys(context),
                            e,
                        );
                    assert(fails_on(self@.module, self@.args[i], context_keys(context), e));
                }
                return Err(e);
            },
        };
        let ghost resolved = args@;
        let local = same_text(host.hostname.as_str(), "localhost") || same_text(
            host.hostname.as_str(),
            "127.0.0.1",
        );
        if local {
            args.insert(Node::text("_host_type"), Node::text("local"));
        }
        if same_text(self.module.as_str(), "template") {
            with_task_vars(&mut args, &all);
        }
        let call = ModuleCall {
            module: self.module.clone(),
            args,
            local,
            is_become: self.is_become,
            become_user: self.become_user.clone(),
        };
        assert(call.args@ == call_args(self@.module, resolved, local, all.pairs()));
        assert(call.module@ == self@.module);
        assert(call.local == is_local_host(host@.hostname));
        assert(call.become_user@ == self@.become_user);
        assert(dated(vars@, pairs_map(all.pairs())));
        assert(context_keys(context).subset_of(pairs_map(all.pairs()).dom()));
        assert(prepares(
            self@,
            vars@,
            local,
            all.pairs(),
            context_keys(context),
            resolved,
            call.args@,
        ));
        Ok(call)
    }

    /// Starts the execution of the task on a host: resolves its loop source,
    /// where it has one.
    pub fn begin(&self, tera: &mut tera::Tera, vars: &StrMap<Node>) -> (r: Result<
        TaskRun,
        TaskFailure,
    >)
        ensures
            match r {
                Ok(run) => run.next == 0 && run.results@.len() == 0 && (run.items is Some
                    == self@.loop_items is Some) && (self@.loop_items is Some ==> loops_over(
                    self@.loop_items.unwrap(),
                    vars@,
                    run_items(run).unwrap(),
                )),
                Err(e) => self@.loop_items is Some && direct_items(
                    self@.loop_items.unwrap(),
                    vars@,
                ) is None && match e {
                    TaskFailure::Loop(l) => match self@.loop_items.unwrap() {
                        NodeView::String(text) => exists|known: Set<Seq<char>>|
                            known.subset_of(vars@.dom()) && #[trigger] unlooped(text, known, l),
                        _ => l.fault == LoopFault::UnsupportedType,
                    },
                    _ => false,
                },
            },
        filter_names(*final(tera)) == filter_names(*old(tera)),
    {
        match &self.loop_items {
            Some(source) => {
                let context = create_tera_context(vars);
                match resolve_loop_items(source, tera, &context, vars) {
                    Ok(Some(items)) => Ok(
                        TaskRun { items: Some(items), next: 0, results: Vec::new() },
                    ),
                    Ok(None) => Ok(
                        TaskRun { items: Some(Vec::new()), next: 0, results: Vec::new() },
                    ),
                    Err(e) => {
                        assert(match source@ {
                            NodeView::String(text) => context_keys(context).subset_of(vars@.dom())
                                && unlooped(text, context_keys(context), e),
                            _ => e.fault == LoopFault::UnsupportedType,
                        });
                        Err(TaskFailure::Loop(e))
                    },
                }
            },
            None => Ok(TaskRun { items: None, next: 0, results: Vec::new() }),
        }
    }

    /// What to do next for the task on a host.
    ///
    /// While executions are left, the condition of the next one is
    /// evaluated against its variables. Where it does not hold, the
    /// execution is settled as skipped and nothing is run for it. Where it
    /// holds, or where there is none, the operation to run is handed out,
    /// and what comes back is to be recorded. A task without a loop that is
    /// skipped has the skipped outcome as its own; any other task has the
    /// summary of its executions.
    pub fn advance(
        &self,
        run: &mut TaskRun,
        host: &Host,
        tera: &mut tera::Tera,
        vars: &StrMap<Node>,
    ) -> (r: Result<TaskStep, TaskFailure>)
        requires
            old(run).next <= run_total(*old(run)),
            old(run).results@.len() == old(run).next,
        ensures
            advanced(*self, host@, vars@, *old(run), *final(run), r),
        filter_names(*final(tera)) == filter_names(*old(tera)),
    {
        let looping = run.items.is_some();
        loop
            invariant
                looping == run.items is Some,
                run_items(*run) == run_items(*old(run)),
                run_total(*run) == run_total(*old(run)),
                run.next <= run_total(*run),
                run.results@.len() == run.next,
                old(run).next <= run.next,
                old(run).results@.len() == old(run).next,
                forall|j: int|
                    0 <= j < old(run).next ==> (#[trigger] result_views(run.results@)[j])
                        == result_views(old(run).results@)[j],
                forall|j: int|
                    old(run).next <= j < run.next ==> (#[trigger] result_views(run.results@)[j])
                        == skipped_result(host@.name, looping) && may_hold(
                        self@.when,
                        vars_at(self@, run_items(*old(run)), vars@, j),
                        false,
                    ),
                run.items is None ==> run.next == old(run).next,
                filter_names(*tera) == filter_names(*old(tera)),
            decreases run_total(*run) - run.next,
        {
            let total = match &run.items {
                Some(items) => items.len(),
                None => 1,
            };
            if run.next >= total {
                return Ok(TaskStep::Done(self.summarize(host.name.as_str(), &run.results)));
            }
            let current = match &run.items {
                Some(items) => {
                    proof {
                        Node::lemma_models(items@, items@.len());
                    }
                    self.loop_vars(vars, &items[run.next], run.next)
                },
                None => clone_vars(vars),
            };
            let ghost here = run.next as int;
            assert(current@ == vars_at(self@, run_items(*old(run)), vars@, here));
            let verdict = match &self.when {
                Some(condition) => {
                    let context = create_tera_context(&current);
                    let mut plain = new_engine();
                    match self.evaluate_condition(condition, &mut plain, &context) {
                        Ok(b) => {
                            assert(may_hold(self@.when, current@, b)) by {
                                match condition@ {
                                    NodeView::String(text) => {
                                        let v = choose|v: NodeView|
                                            #[trigger] may_render(
                                                condition_template(text),
                                                context_keys(context),
                                                false,
                                                v,
                                            ) && b == truthy(v);
                                        assert(context_keys(context).subset_of(current@.dom())
                                            && truthy(v) == b && may_render(
                                            condition_template(text),
                                            context_keys(context),
                                            false,
                                            v,
                                        ));
                                    },
                                    _ => {},
                                }
                            }
                            Some(b)
                        },
                        Err(e) => {
                            assert(match condition@ {
                                NodeView::String(text) => context_keys(context).subset_of(
                                    current@.dom(),
                                ) && render_fails(condition_template(text), context_keys(context), e),
                                _ => false,
                            });
                            return Err(TaskFailure::Condition(e));
                        },
                    }
                },
                None => None,
            };
            assert(match verdict {
                Some(b) => may_hold(self@.when, current@, b),
                None => self@.when is None,
            });
            match gate(host.name.as_str(), looping, verdict) {
                Some(skipped) => {
                    if !looping {
                        let ghost before = result_views(run.results@);
                        let outcome = skipped.clone();
                        run.results.push(skipped);
                        run.next = run.next + 1;
                        assert forall|j: int| 0 <= j < old(run).next implies (
                        #[trigger] result_views(run.results@)[j]) == result_views(
                            old(run).results@,
                        )[j] by {
                            assert(result_views(run.results@)[j] == before[j]);
                        }
                        return Ok(TaskStep::Done(outcome));
                    } else {
                        let ghost before = result_views(run.results@);
                        run.results.push(skipped);
                        run.next = run.next + 1;
                        assert forall|j: int| 0 <= j < run.next - 1 implies (
                        #[trigger] result_views(run.results@)[j]) == before[j] by {}
                    }
                },
                None => {
                    assert(current@ == step_vars(self@, *run, vars@));
                    match self.prepare(host, tera, &current) {
                        Ok(call) => {
                            return Ok(TaskStep::Call(call));
                        },
                        Err(e) => {
                            return Err(TaskFailure::Argument(e));
                        },
                    }
                },
            }
        }
    }

    /// Records what came back from the operation that was handed out last.
    /// An error of the operation ends the task on this host.
    pub fn record(&self, run: &mut TaskRun, host: &Host, local: bool, outcome: ModuleOutcome) -> (r:
        Result<(), TaskFailure>)
        requires
            old(run).next < run_total(*old(run)),
            old(run).results@.len() == old(run).next,
        ensures
            run_items(*final(run)) == run_items(*old(run)),
            match r {
                Ok(_) => final(run).next == old(run).next + 1 && concluded(
                    self@.module,
                    host@.name,
                    local,
                    outcome,
                ) is Some && result_views(final(run).results@) == result_views(
                    old(run).results@,
                ).push(concluded(self@.module, host@.name, local, outcome).unwrap()),
                Err(e) => e is Module && outcome is Failed && final(run).next == old(run).next
                    && result_views(final(run).results@) == result_views(old(run).results@),
            },
    {
        let total = match &run.items {
            Some(items) => items.len(),
            None => 1,
        };
        assert(run.next < total);
        match self.conclude(host.name.as_str(), local, outcome) {
            Ok(t) => {
                let ghost before = result_views(run.results@);
                run.results.push(t);
                run.next = run.next + 1;
                assert(result_views(run.results@) =~= before.push(t@));
                Ok(())
            },
            Err(e) => Err(TaskFailure::Module(e)),
        }
    }
}

} // verus!
