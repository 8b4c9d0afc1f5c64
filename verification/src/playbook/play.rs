//! Plays: an ordered list of tasks and handlers bound to a host pattern, the
//! variables that a task sees on a host, and the course of a play over its
//! tasks, hosts and handlers.

use vstd::prelude::*;
use crate::inventory::host::{Host, HostView};
use crate::node::{text_value, Mapping, Node, NodeView, Num, NumView, Pairs};
use crate::playbook::exec::{iteration_vars, merged_vars};
use crate::playbook::handlers::Handler;
use crate::playbook::task::{Task, TaskResult, TaskResultView, TaskView};
use crate::strmap::{lemma_map_of_take, map_of, names_of, StrMap, StrSet};
use crate::text::{decimal_of, decimal_text, join2};

verus! {

/// A unit of work on a host pattern.
#[derive(Debug)]
pub struct Play {
    pub name: String,
    pub hosts: String,
    pub tasks: Vec<Task>,
    pub handlers: Vec<Handler>,
    pub vars: Mapping,
    pub is_become: bool,
    pub become_user: String,
    pub tags: Vec<String>,
}

/// The mathematical value of a play.
pub struct PlayView {
    pub name: Seq<char>,
    pub hosts: Seq<char>,
    pub tasks: Seq<TaskView>,
    pub handlers: Seq<TaskView>,
    pub vars: Pairs,
    pub is_become: bool,
    pub become_user: Seq<char>,
    pub tags: Seq<Seq<char>>,
}

/// The mathematical values of a list of tasks.
pub open spec fn task_views(tasks: Seq<Task>) -> Seq<TaskView> {
    Seq::new(tasks.len(), |i: int| tasks[i]@)
}

/// The mathematical values of a list of handlers.
pub open spec fn handler_views(handlers: Seq<Handler>) -> Seq<TaskView> {
    Seq::new(handlers.len(), |i: int| handlers[i]@)
}

impl View for Play {
    type V = PlayView;

    open spec fn view(&self) -> PlayView {
        PlayView {
            name: self.name@,
            hosts: self.hosts@,
            tasks: task_views(self.tasks@),
            handlers: handler_views(self.handlers@),
            vars: self.vars@,
            is_become: self.is_become,
            become_user: self.become_user@,
            tags: names_of(self.tags@),
        }
    }
}

/// A task with the privilege escalation that counts for it: its own where
/// it asks for one, else that of the play.
pub open spec fn effective(t: TaskView, p: PlayView) -> TaskView {
    if !t.is_become && p.is_become {
        TaskView { is_become: true, become_user: p.become_user, ..t }
    } else {
        t
    }
}

/// Texts as document values.
pub open spec fn text_nodes(m: Map<Seq<char>, Seq<char>>) -> Map<Seq<char>, NodeView> {
    m.map_values(|s: Seq<char>| NodeView::String(s))
}

/// The first `n` entries of a mapping whose key is a text, under their keys.
pub open spec fn text_keyed(m: Pairs, n: nat) -> Map<Seq<char>, NodeView>
    decreases n,
{
    if n == 0 || n > m.len() {
        Map::empty()
    } else {
        match m[n - 1].0 {
            NodeView::String(k) => text_keyed(m, (n - 1) as nat).insert(k, m[n - 1].1),
            _ => text_keyed(m, (n - 1) as nat),
        }
    }
}

/// The facts that the engine itself knows of a host.
pub open spec fn facts(h: HostView) -> Map<Seq<char>, NodeView> {
    Map::<Seq<char>, NodeView>::empty().insert("ansible_hostname"@, NodeView::String(h.hostname)).insert(
        "inventory_hostname"@,
        NodeView::String(h.name),
    ).insert("ansible_host"@, NodeView::String(h.hostname)).insert(
        "ansible_port"@,
        NodeView::Number(NumView::PosInt(h.port as u64)),
    )
}

/// The variables that a task of a play sees on a host. From the weakest to
/// the strongest: what the host inherits, the variables of the play, the
/// variables of the host itself, the facts, and what earlier tasks have
/// registered on this host.
pub open spec fn host_vars(
    play_vars: Pairs,
    h: HostView,
    registered: Map<Seq<char>, NodeView>,
) -> Map<Seq<char>, NodeView> {
    text_nodes(h.inherited_variables).union_prefer_right(
        text_keyed(play_vars, play_vars.len()),
    ).union_prefer_right(text_nodes(h.variables)).union_prefer_right(facts(h)).union_prefer_right(
        registered,
    )
}

/// A variable has the value of the strongest layer that defines it.
pub proof fn law_variable_precedence(
    play_vars: Pairs,
    h: HostView,
    registered: Map<Seq<char>, NodeView>,
    k: Seq<char>,
)
    ensures
        registered.contains_key(k) ==> host_vars(play_vars, h, registered)[k] == registered[k],
        !registered.contains_key(k) && facts(h).contains_key(k) ==> host_vars(
            play_vars,
            h,
            registered,
        )[k] == facts(h)[k],
        !registered.contains_key(k) && !facts(h).contains_key(k) && h.variables.contains_key(k)
            ==> host_vars(play_vars, h, registered)[k] == NodeView::String(h.variables[k]),
        !registered.contains_key(k) && !facts(h).contains_key(k) && !h.variables.contains_key(k)
            && text_keyed(play_vars, play_vars.len()).contains_key(k) ==> host_vars(
            play_vars,
            h,
            registered,
        )[k] == text_keyed(play_vars, play_vars.len())[k],
        !registered.contains_key(k) && !facts(h).contains_key(k) && !h.variables.contains_key(k)
            && !text_keyed(play_vars, play_vars.len()).contains_key(k)
            && h.inherited_variables.contains_key(k) ==> host_vars(play_vars, h, registered)[k]
            == NodeView::String(h.inherited_variables[k]),
        host_vars(play_vars, h, registered).contains_key(k) <==> (registered.contains_key(k)
            || facts(h).contains_key(k) || h.variables.contains_key(k) || text_keyed(
            play_vars,
            play_vars.len(),
        ).contains_key(k) || h.inherited_variables.contains_key(k)),
{
}

/// In an iteration of a loop, the loop variable is the item, whatever the
/// variables of the host say, unless the index variable has the same name.
pub proof fn law_loop_variable_wins(
    t: TaskView,
    vars: Map<Seq<char>, NodeView>,
    item: NodeView,
    index: nat,
)
    ensures
        ({
            let loop_var = match t.loop_var_name {
                Some(name) => name,
                None => "item"@,
            };
            t.index_var_name != Some(loop_var) ==> iteration_vars(t, vars, item, index)[loop_var]
                == item
        }),
{
}

/// Copies texts into a map of document values.
fn add_texts(target: &mut StrMap<Node>, texts: &StrMap<String>)
    ensures
        final(target)@ == old(target)@.union_prefer_right(text_nodes(texts@)),
{
    let mut i: usize = 0;
    proof {
        assert(texts.entries@.take(0).len() == 0);
        assert(target@ =~= old(target)@.union_prefer_right(
            text_nodes(map_of(texts.entries@.take(0))),
        ));
    }
    while i < texts.entries.len()
        invariant
            i <= texts.entries.len(),
            target@ == old(target)@.union_prefer_right(
                text_nodes(map_of(texts.entries@.take(i as int))),
            ),
        decreases texts.entries.len() - i,
    {
        proof {
            lemma_map_of_take(texts.entries@, i as int);
        }
        target.insert(texts.entries[i].0.clone(), Node::String(texts.entries[i].1.clone()));
        assert(target@ =~= old(target)@.union_prefer_right(
            text_nodes(map_of(texts.entries@.take(i + 1))),
        ));
        i = i + 1;
    }
    proof {
        assert(texts.entries@.take(i as int) =~= texts.entries@);
    }
}

/// Copies one map of document values over another.
fn add_nodes(target: &mut StrMap<Node>, nodes: &StrMap<Node>)
    ensures
        final(target)@ == old(target)@.union_prefer_right(nodes@),
{
    let mut i: usize = 0;
    proof {
        assert(nodes.entries@.take(0).len() == 0);
        assert(target@ =~= old(target)@.union_prefer_right(map_of(nodes.entries@.take(0))));
    }
    while i < nodes.entries.len()
        invariant
            i <= nodes.entries.len(),
            target@ == old(target)@.union_prefer_right(map_of(nodes.entries@.take(i as int))),
        decreases nodes.entries.len() - i,
    {
        proof {
            lemma_map_of_take(nodes.entries@, i as int);
        }
        target.insert(nodes.entries[i].0.clone(), nodes.entries[i].1.clone());
        assert(target@ =~= old(target)@.union_prefer_right(map_of(nodes.entries@.take(i + 1))));
        i = i + 1;
    }
    proof {
        assert(nodes.entries@.take(i as int) =~= nodes.entries@);
    }
}

/// What a registered outcome holds before the values of the operation:
/// whether it changed, failed or was skipped, and its message unless empty.
pub open spec fn registered_base(r: TaskResultView) -> Pairs {
    let flags = seq![
        (text_value("changed"@), NodeView::Bool(r.changed)),
        (text_value("failed"@), NodeView::Bool(r.failed)),
        (text_value("skipped"@), NodeView::Bool(r.skipped)),
    ];
    if r.msg.len() > 0 {
        flags.push((text_value("msg"@), NodeView::String(r.msg)))
    } else {
        flags
    }
}

/// What a registered variable holds of an outcome: the flags, the message
/// and the values of the operation, each under its name.
pub open spec fn registered_value(r: TaskResultView, values: Seq<(Seq<char>, NodeView)>) -> Pairs {
    merged_vars(registered_base(r), values, values.len())
}

/// What a registered variable holds of an outcome.
pub fn register_value(result: &TaskResult) -> (r: Mapping)
    ensures
        r@ == registered_value(result@, result.values.pairs()),
{
    let mut entries: Vec<(Node, Node)> = Vec::new();
    entries.push((Node::text("changed"), Node::Bool(result.changed)));
    entries.push((Node::text("failed"), Node::Bool(result.failed)));
    entries.push((Node::text("skipped"), Node::Bool(result.skipped)));
    if !result.msg.as_str().is_empty() {
        entries.push((Node::text("msg"), Node::String(result.msg.clone())));
    }
    let mut out = Mapping { entries };
    proof {
        out.lemma_view();
        assert(out@ =~= registered_base(result@));
    }
    let ghost pairs = result.values.pairs();
    let ghost base = out@;
    let mut i: usize = 0;
    while i < result.values.entries.len()
        invariant
            i <= result.values.entries.len(),
            pairs == result.values.pairs(),
            out@ == merged_vars(base, pairs, i as nat),
        decreases result.values.entries.len() - i,
    {
        assert(pairs[i as int] == (
            result.values.entries@[i as int].0@,
            result.values.entries@[i as int].1@,
        ));
        out.insert(
            Node::String(result.values.entries[i].0.clone()),
            result.values.entries[i].1.clone(),
        );
        i = i + 1;
    }
    out
}

/// What a host has registered after an outcome of a task: the outcome under
/// the name that the task registers, where it registers one.
pub open spec fn after_register(
    registered: Map<Seq<char>, NodeView>,
    t: TaskView,
    r: TaskResultView,
    values: Seq<(Seq<char>, NodeView)>,
) -> Map<Seq<char>, NodeView> {
    match t.register {
        Some(name) => registered.insert(name, NodeView::Mapping(registered_value(r, values))),
        None => registered,
    }
}

/// Keeps the outcome of a task on a host under the name that the task
/// registers, for the later tasks on that host.
pub fn register(task: &Task, result: &TaskResult, registered: &mut StrMap<Node>)
    ensures
        final(registered)@ == after_register(
            old(registered)@,
            task@,
            result@,
            result.values.pairs(),
        ),
{
    match &task.register {
        Some(name) => {
            registered.insert(name.clone(), Node::Mapping(register_value(result)));
        },
        None => {},
    }
}

impl Play {
    /// The task with the privilege escalation that counts for it.
    pub fn effective_task(&self, task: &Task) -> (r: Task)
        ensures
            r@ == effective(task@, self@),
    {
        let mut t = task.clone();
        if !t.is_become && self.is_become {
            t.is_become = true;
            t.become_user = self.become_user.clone();
        }
        t
    }

    /// The variables that a task of the play sees on a host.
    pub fn host_vars(&self, host: &Host, registered: &StrMap<Node>) -> (r: StrMap<Node>)
        ensures
            r@ == host_vars(self@.vars, host@, registered@),
    {
        let mut out: StrMap<Node> = StrMap::new();
        add_texts(&mut out, &host.inherited_variables);
        assert(out@ =~= text_nodes(host@.inherited_variables));
        proof {
            self.vars.lemma_view();
        }
        let ghost start = out@;
        let ghost pv = self.vars@;
        let mut i: usize = 0;
        assert(out@ =~= start.union_prefer_right(text_keyed(pv, 0)));
        while i < self.vars.entries.len()
            invariant
                i <= self.vars.entries.len(),
                pv == self.vars@,
                pv.len() == self.vars.entries@.len(),
                forall|j: int|
                    0 <= j < self.vars.entries@.len() ==> (#[trigger] pv[j]) == (
                        self.vars.entries@[j].0@,
                        self.vars.entries@[j].1@,
                    ),
                out@ == start.union_prefer_right(text_keyed(pv, i as nat)),
            decreases self.vars.entries.len() - i,
        {
            assert(pv[i as int].0 == self.vars.entries@[i as int].0@);
            match &self.vars.entries[i].0 {
                Node::String(k) => {
                    out.insert(k.clone(), self.vars.entries[i].1.clone());
                    assert(out@ =~= start.union_prefer_right(text_keyed(pv, (i + 1) as nat)));
                },
                _ => {},
            }
            i = i + 1;
        }
        add_texts(&mut out, &host.variables);
        out.insert("ansible_hostname".to_owned(), Node::String(host.hostname.clone()));
        out.insert("inventory_hostname".to_owned(), Node::String(host.name.clone()));
        out.insert("ansible_host".to_owned(), Node::String(host.hostname.clone()));
        out.insert("ansible_port".to_owned(), Node::Number(Num::PosInt(host.port as u64)));
        assert(out@ =~= text_nodes(host@.inherited_variables).union_prefer_right(
            text_keyed(pv, pv.len()),
        ).union_prefer_right(text_nodes(host@.variables)).union_prefer_right(facts(host@)));
        add_nodes(&mut out, registered);
        out
    }
}

/// The part of a play that is under way.
#[derive(Debug, Clone, Copy, PartialEq, Eq, Structural)]
pub enum Phase {
    Tasks,
    Handlers,
    Finished,
}

/// A task that failed on hosts, and so ended its play.
#[derive(Debug, Clone, Copy, PartialEq, Eq, Structural)]
pub struct PlayFailure {
    /// The position of the task in the play.
    pub task: usize,
    /// The number of hosts on which it failed.
    pub hosts: usize,
}

/// What to run next in a play.
#[derive(Debug, Clone, Copy, PartialEq, Eq, Structural)]
pub enum PlayStep {
    /// The task at this position, on the host at this position.
    Task { task: usize, host: usize },
    /// The handler at this position, on the host at this position.
    Handler { handler: usize, host: usize },
    /// Nothing: the play is over.
    Finished,
}

/// Where a play stands, and what it has seen so far.
#[derive(Debug)]
pub struct PlayRun {
    pub phase: Phase,
    /// The position of the task or handler that is under way.
    pub task: usize,
    /// The position of the host that is next.
    pub host: usize,
    /// The number of hosts in the play.
    pub hosts: usize,
    /// On how many hosts the task under way has failed.
    pub failed_in_task: usize,
    /// The names of the handlers that were notified.
    pub notified: StrSet,
    /// The hosts on which a task failed.
    pub failed_hosts: StrSet,
    /// The hosts on which a task changed something.
    pub changed_hosts: StrSet,
    /// How many outcomes were neither failed nor skipped.
    pub ok: usize,
    /// How many outcomes were skipped.
    pub skipped: usize,
    /// The task that ended the play, where one did.
    pub failure: Option<PlayFailure>,
}

/// The mathematical value of the state of a play.
pub struct PlayRunView {
    pub phase: Phase,
    pub task: nat,
    pub host: nat,
    pub hosts: nat,
    pub failed_in_task: nat,
    pub notified: Set<Seq<char>>,
    pub failed_hosts: Set<Seq<char>>,
    pub changed_hosts: Set<Seq<char>>,
    pub ok: nat,
    pub skipped: nat,
    pub failure: Option<PlayFailure>,
}

impl View for PlayRun {
    type V = PlayRunView;

    open spec fn view(&self) -> PlayRunView {
        PlayRunView {
            phase: self.phase,
            task: self.task as nat,
            host: self.host as nat,
            hosts: self.hosts as nat,
            failed_in_task: self.failed_in_task as nat,
            notified: self.notified@,
            failed_hosts: self.failed_hosts@,
            changed_hosts: self.changed_hosts@,
            ok: self.ok as nat,
            skipped: self.skipped as nat,
            failure: self.failure,
        }
    }
}

/// The first handler at or after position `from` that was notified, or the
/// number of handlers where there is none.
pub open spec fn next_notified(handlers: Seq<TaskView>, notified: Set<Seq<char>>, from: nat) -> nat
    decreases handlers.len() - from,
{
    if from >= handlers.len() {
        handlers.len()
    } else if notified.contains(handlers[from as int].name) {
        from
    } else {
        next_notified(handlers, notified, from + 1)
    }
}

/// The state of a play in which the handlers begin at or after position
/// `from`; the play is over where none is left.
pub open spec fn at_handler(p: PlayView, s: PlayRunView, from: nat) -> PlayRunView {
    let h = next_notified(p.handlers, s.notified, from);
    PlayRunView {
        phase: if h >= p.handlers.len() || s.hosts == 0 {
            Phase::Finished
        } else {
            Phase::Handlers
        },
        task: h,
        host: 0,
        failed_in_task: 0,
        ..s
    }
}

/// The state of a play at its beginning.
pub open spec fn initial(p: PlayView, hosts: nat) -> PlayRunView {
    let s = PlayRunView {
        phase: Phase::Tasks,
        task: 0,
        host: 0,
        hosts: hosts,
        failed_in_task: 0,
        notified: Set::empty(),
        failed_hosts: Set::empty(),
        changed_hosts: Set::empty(),
        ok: 0,
        skipped: 0,
        failure: None,
    };
    if p.tasks.len() == 0 || hosts == 0 {
        PlayRunView { phase: Phase::Finished, ..s }
    } else {
        s
    }
}

/// The notified handlers after a task with an outcome: those it names,
/// where it changed something.
pub open spec fn after_notify(notified: Set<Seq<char>>, changed: bool, names: Seq<Seq<char>>) -> Set<
    Seq<char>,
> {
    if changed {
        notified.union(names.to_set())
    } else {
        notified
    }
}

/// Notifying the same handlers again changes nothing: however many tasks
/// name a handler, it is notified once.
pub proof fn law_notification_collapses(notified: Set<Seq<char>>, names: Seq<Seq<char>>)
    ensures
        after_notify(after_notify(notified, true, names), true, names) == after_notify(
            notified,
            true,
            names,
        ),
{
    assert(notified.union(names.to_set()).union(names.to_set()) =~= notified.union(names.to_set()));
}

/// The notified handler that follows the one at position `i` stands after
/// it: no handler comes up twice in a play.
pub proof fn law_handler_runs_once(handlers: Seq<TaskView>, notified: Set<Seq<char>>, i: nat)
    ensures
        next_notified(handlers, notified, i + 1) > i || handlers.len() <= i,
        next_notified(handlers, notified, i) >= i || handlers.len() <= i,
        next_notified(handlers, notified, i) <= handlers.len(),
        next_notified(handlers, notified, i) < handlers.len() ==> notified.contains(
            handlers[next_notified(handlers, notified, i) as int].name,
        ),
    decreases handlers.len() - i,
{
    if i < handlers.len() {
        law_handler_runs_once(handlers, notified, i + 1);
    }
}

/// The state of a play after the outcome of the task under way on the host
/// that was next. `outcome` is the outcome, or nothing where the task came to
/// none, which counts as a failure on that host.
///
/// A failed outcome marks the host as failed; a skipped one is counted as
/// skipped; any other as fine, and the host as changed where it is. A changed
/// outcome notifies the handlers that the task names. After the last host, a
/// task that failed on a host and does not ignore errors ends the play;
/// else the next task is under way, or the notified handlers.
pub open spec fn after_task(
    p: PlayView,
    s: PlayRunView,
    host_name: Seq<char>,
    outcome: Option<TaskResultView>,
) -> PlayRunView {
    let t = p.tasks[s.task as int];
    let failed = outcome is None || outcome.unwrap().failed;
    let skipped = !failed && outcome.unwrap().skipped;
    let changed = outcome is Some && outcome.unwrap().changed;
    let tallied = PlayRunView {
        host: s.host + 1,
        failed_in_task: if failed {
            s.failed_in_task + 1
        } else {
            s.failed_in_task
        },
        notified: after_notify(s.notified, changed, t.notify),
        failed_hosts: if failed {
            s.failed_hosts.insert(host_name)
        } else {
            s.failed_hosts
        },
        changed_hosts: if !failed && !skipped && changed {
            s.changed_hosts.insert(host_name)
        } else {
            s.changed_hosts
        },
        ok: if !failed && !skipped {
            s.ok + 1
        } else {
            s.ok
        },
        skipped: if skipped {
            s.skipped + 1
        } else {
            s.skipped
        },
        ..s
    };
    if tallied.host < s.hosts {
        tallied
    } else if tallied.failed_in_task > 0 && !t.ignore_errors {
        PlayRunView {
            phase: Phase::Finished,
            failure: Some(
                PlayFailure { task: s.task as usize, hosts: tallied.failed_in_task as usize },
            ),
            ..tallied
        }
    } else if s.task + 1 < p.tasks.len() {
        PlayRunView { task: s.task + 1, host: 0, failed_in_task: 0, ..tallied }
    } else {
        at_handler(p, tallied, 0)
    }
}

/// The state of a play after the handler under way ran on the host that was
/// next, whatever came of it.
pub open spec fn after_handler(p: PlayView, s: PlayRunView) -> PlayRunView {
    if s.host + 1 < s.hosts {
        PlayRunView { host: s.host + 1, ..s }
    } else {
        at_handler(p, s, s.task + 1)
    }
}

/// What is to run in a state of a play.
pub open spec fn step_of(s: PlayRunView) -> PlayStep {
    match s.phase {
        Phase::Tasks => PlayStep::Task { task: s.task as usize, host: s.host as usize },
        Phase::Handlers => PlayStep::Handler { handler: s.task as usize, host: s.host as usize },
        Phase::Finished => PlayStep::Finished,
    }
}

/// Whether a state of a play is one that the play can be in.
pub open spec fn run_ok(p: PlayView, s: PlayRunView) -> bool {
    match s.phase {
        Phase::Tasks => s.task < p.tasks.len() && s.host < s.hosts && s.failed_in_task <= s.host,
        Phase::Handlers => s.task < p.handlers.len() && s.host < s.hosts,
        Phase::Finished => true,
    }
}

/// What is said of a play that a task ended.
pub open spec fn failure_message(task_name: Seq<char>, hosts: nat) -> Seq<char> {
    "Task '"@ + task_name + "' failed on "@ + decimal_of(hosts) + " hosts"@
}

impl Play {
    /// The state of the play at its beginning, for a number of hosts.
    pub fn start(&self, hosts: usize) -> (r: PlayRun)
        ensures
            r@ == initial(self@, hosts as nat),
            run_ok(self@, r@),
    {
        let phase = if self.tasks.len() == 0 || hosts == 0 {
            Phase::Finished
        } else {
            Phase::Tasks
        };
        PlayRun {
            phase,
            task: 0,
            host: 0,
            hosts,
            failed_in_task: 0,
            notified: StrSet::new(),
            failed_hosts: StrSet::new(),
            changed_hosts: StrSet::new(),
            ok: 0,
            skipped: 0,
            failure: None,
        }
    }

    /// What is to run next.
    pub fn next_step(&self, run: &PlayRun) -> (r: PlayStep)
        ensures
            r == step_of(run@),
    {
        match run.phase {
            Phase::Tasks => PlayStep::Task { task: run.task, host: run.host },
            Phase::Handlers => PlayStep::Handler { handler: run.task, host: run.host },
            Phase::Finished => PlayStep::Finished,
        }
    }

    /// Moves to the first notified handler at or after position `from`.
    fn enter_handlers(&self, run: &mut PlayRun, from: usize)
        requires
            from <= self.handlers@.len(),
        ensures
            final(run)@ == at_handler(self@, old(run)@, from as nat),
            run_ok(self@, final(run)@),
    {
        let mut h: usize = from;
        while h < self.handlers.len() && !run.notified.contains(self.handlers[h].task.name.as_str())
            invariant
                from <= h <= self.handlers@.len(),
                *run == *old(run),
                next_notified(self@.handlers, run@.notified, from as nat) == next_notified(
                    self@.handlers,
                    run@.notified,
                    h as nat,
                ),
            decreases self.handlers.len() - h,
        {
            assert(self@.handlers[h as int].name == self.handlers@[h as int].task.name@);
            h = h + 1;
        }
        proof {
            if h < self.handlers.len() {
                assert(self@.handlers[h as int].name == self.handlers@[h as int].task.name@);
            }
        }
        run.phase = if h >= self.handlers.len() || run.hosts == 0 {
            Phase::Finished
        } else {
            Phase::Handlers
        };
        run.task = h;
        run.host = 0;
        run.failed_in_task = 0;
    }

    /// Records the outcome of the task under way on the host that was next.
    /// `outcome` is nothing where the task came to no outcome.
    pub fn record_task(&self, run: &mut PlayRun, host: &Host, outcome: Option<&TaskResult>)
        requires
            old(run).phase == Phase::Tasks,
            run_ok(self@, old(run)@),
            old(run).ok < usize::MAX,
            old(run).skipped < usize::MAX,
        ensures
            final(run)@ == after_task(self@, old(run)@, host@.name, match outcome {
                Some(t) => Some(t@),
                None => None,
            }),
            run_ok(self@, final(run)@),
    {
        let task = &self.tasks[run.task];
        assert(self@.tasks[run.task as int] == task@);
        let failed = match outcome {
            Some(t) => t.failed,
            None => true,
        };
        let skipped = match outcome {
            Some(t) => !t.failed && t.skipped,
            None => false,
        };
        let changed = match outcome {
            Some(t) => t.changed,
            None => false,
        };
        if failed {
            let _ = run.failed_hosts.insert(host.name.clone());
            run.failed_in_task = run.failed_in_task + 1;
        } else if skipped {
            run.skipped = run.skipped + 1;
        } else {
            run.ok = run.ok + 1;
            if changed {
                let _ = run.changed_hosts.insert(host.name.clone());
            }
        }
        if changed {
            let ghost before = run.notified@;
            let mut k: usize = 0;
            while k < task.notify.len()
                invariant
                    k <= task.notify.len(),
                    run.notified@ == before.union(names_of(task.notify@).take(k as int).to_set()),
                    run.phase == old(run).phase,
                    run.task == old(run).task,
                    run.host == old(run).host,
                    run.hosts == old(run).hosts,
                    run.failed_in_task == old(run).failed_in_task + (if failed { 1int } else { 0int }),
                    old(run).failed_in_task <= old(run).host,
                    old(run).host < old(run).hosts,
                    run.failed_hosts@ == (if failed {
                        old(run).failed_hosts@.insert(host@.name)
                    } else {
                        old(run).failed_hosts@
                    }),
                    run.changed_hosts@ == (if !failed && !skipped && changed {
                        old(run).changed_hosts@.insert(host@.name)
                    } else {
                        old(run).changed_hosts@
                    }),
                    run.ok == old(run).ok + (if !failed && !skipped { 1int } else { 0int }),
                    run.skipped == old(run).skipped + (if skipped { 1int } else { 0int }),
                    run.failure == old(run).failure,
                decreases task.notify.len() - k,
            {
                let ghost names = names_of(task.notify@);
                let _ = run.notified.insert(task.notify[k].clone());
                proof {
                    let shorter = names.take(k as int);
                    let longer = names.take(k + 1);
                    assert forall|x: Seq<char>| longer.contains(x) <==> (shorter.contains(x) || x
                        == names[k as int]) by {
                        if longer.contains(x) {
                            let j = choose|j: int| 0 <= j < longer.len() && longer[j] == x;
                            if j < k {
                                assert(shorter[j] == x);
                            }
                        }
                        if shorter.contains(x) {
                            let j = choose|j: int| 0 <= j < shorter.len() && shorter[j] == x;
                            assert(longer[j] == x);
                        }
                        if x == names[k as int] {
                            assert(longer[k as int] == x);
                        }
                    }
                    assert(run.notified@ =~= before.union(longer.to_set()));
                }
                k = k + 1;
            }
            assert(names_of(task.notify@).take(k as int) =~= names_of(task.notify@));
        } else {
            proof {
                assert(names_of(task.notify@).take(0).to_set() =~= Set::<Seq<char>>::empty());
            }
        }
        run.host = run.host + 1;
        assert(self@.tasks.len() == self.tasks@.len());
        let tasks = self.tasks.len();
        assert(run.task < tasks);
        if run.host >= run.hosts {
            if run.failed_in_task > 0 && !task.ignore_errors {
                run.phase = Phase::Finished;
                run.failure = Some(PlayFailure { task: run.task, hosts: run.failed_in_task });
            } else if run.task + 1 < self.tasks.len() {
                run.task = run.task + 1;
                run.host = 0;
                run.failed_in_task = 0;
            } else {
                self.enter_handlers(run, 0);
            }
        }
    }

    /// Records that the handler under way ran on the host that was next.
    /// What came of it does not matter to the play.
    pub fn record_handler(&self, run: &mut PlayRun)
        requires
            old(run).phase == Phase::Handlers,
            run_ok(self@, old(run)@),
        ensures
            final(run)@ == after_handler(self@, old(run)@),
            run_ok(self@, final(run)@),
    {
        assert(self@.handlers.len() == self.handlers@.len());
        let handlers = self.handlers.len();
        assert(run.task < handlers);
        if run.host + 1 < run.hosts {
            run.host = run.host + 1;
        } else {
            let from = run.task + 1;
            self.enter_handlers(run, from);
        }
    }

    /// What is said of the play where a task ended it.
    pub fn failure_text(&self, failure: &PlayFailure) -> (r: String)
        requires
            failure.task < self@.tasks.len(),
        ensures
            r@ == failure_message(self@.tasks[failure.task as int].name, failure.hosts as nat),
    {
        assert(self@.tasks[failure.task as int] == self.tasks@[failure.task as int]@);
        let count = decimal_text(failure.hosts);
        let a = join2("Task '", self.tasks[failure.task].name.as_str());
        let b = join2(a.as_str(), "' failed on ");
        let c = join2(b.as_str(), count.as_str());
        join2(c.as_str(), " hosts")
    }
}

} // verus!
