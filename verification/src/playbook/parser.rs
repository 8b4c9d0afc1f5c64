//! Reading a playbook from a loosely-typed document.

use vstd::prelude::*;
use crate::node::{lookup_text, views_of, Mapping, Node, NodeView, Pairs};
use crate::playbook::handlers::Handler;
use crate::playbook::play::{handler_views, task_views, Play, PlayView};
use crate::playbook::task::{Task, TaskView};
use crate::strmap::names_of;
use crate::text::{lowercase_of, same_text, to_lowercase};
use crate::yaml::{parse_yaml_sequence, yaml_sequence_of};

verus! {

/// Why a task could not be read.
#[derive(Debug, Clone, Copy, PartialEq, Eq, Structural)]
pub enum TaskError {
    /// The task has a name that is no text.
    NameNotText,
    /// The task has no name.
    NameMissing,
    /// The value under the module key is neither a text nor a mapping.
    UnsupportedArguments,
    /// No key of the task names a module.
    NoModule,
}

/// Why a play could not be read.
#[derive(Debug, Clone, Copy, PartialEq, Eq, Structural)]
pub enum PlayError {
    /// The play has a name that is no text.
    NameNotText,
    /// The play has no name.
    NameMissing,
    /// The play has a host pattern that is no text.
    HostsNotText,
    /// The play has no host pattern.
    HostsMissing,
    /// The task at this position could not be read.
    Task { index: usize, cause: TaskError },
    /// The handler at this position could not be read.
    Handler { index: usize, cause: TaskError },
}

/// Why a playbook could not be read.
#[derive(Debug, Clone, Copy, PartialEq, Eq, Structural)]
pub enum PlaybookError {
    /// The text is no YAML list.
    Syntax,
    /// The play at position `play` of the list at position `document`
    /// could not be read.
    Play { play: usize, document: usize, cause: PlayError },
    /// The play at position `document` could not be read.
    Document { document: usize, cause: PlayError },
}

/// The plays of a run, and whether a failed play ends the run.
#[derive(Debug)]
pub struct Playbook {
    pub plays: Vec<Play>,
    pub fail_fast: bool,
}

/// The mathematical value of a playbook.
pub struct PlaybookView {
    pub plays: Seq<PlayView>,
    pub fail_fast: bool,
}

/// The mathematical values of a list of plays.
pub open spec fn play_views(plays: Seq<Play>) -> Seq<PlayView> {
    Seq::new(plays.len(), |i: int| plays[i]@)
}

impl View for Playbook {
    type V = PlaybookView;

    open spec fn view(&self) -> PlaybookView {
        PlaybookView { plays: play_views(self.plays@), fail_fast: self.fail_fast }
    }
}

/// The keys of a task that never name a module.
pub open spec fn is_reserved(k: Seq<char>) -> bool {
    k == "name"@ || k == "become"@ || k == "become_user"@ || k == "register"@ || k == "when"@ || k
        == "tags"@ || k == "notify"@ || k == "ignore_errors"@ || k == "vars"@ || k
        == "with_items"@ || k == "loop"@ || k == "loop_control"@
}

/// Whether a key can name a module: a text that is not reserved.
pub open spec fn is_module_key(k: NodeView) -> bool {
    k is String && !is_reserved(k->String_0)
}

/// The first position at or after `from` whose key can name a module, or
/// the number of entries where there is none.
pub open spec fn module_pos(m: Pairs, from: int) -> int
    decreases m.len() - from,
{
    if from < 0 || from >= m.len() {
        m.len() as int
    } else if is_module_key(m[from].0) {
        from
    } else {
        module_pos(m, from + 1)
    }
}

/// The truth value under a key; false where the key holds none.
pub open spec fn flag_at(m: Pairs, key: Seq<char>) -> bool {
    match lookup_text(m, key) {
        Some(NodeView::Bool(b)) => b,
        _ => false,
    }
}

/// The text under a key, where the key holds one.
pub open spec fn text_at(m: Pairs, key: Seq<char>) -> Option<Seq<char>> {
    match lookup_text(m, key) {
        Some(NodeView::String(s)) => Some(s),
        _ => None,
    }
}

/// The user to escalate to: the text under "become_user", else "root".
pub open spec fn become_user_of(m: Pairs) -> Seq<char> {
    match text_at(m, "become_user"@) {
        Some(s) => s,
        None => "root"@,
    }
}

/// The texts among a list of values, in order.
pub open spec fn texts_in(items: Seq<NodeView>) -> Seq<Seq<char>>
    decreases items.len(),
{
    if items.len() == 0 {
        Seq::empty()
    } else {
        match items.last() {
            NodeView::String(s) => texts_in(items.drop_last()).push(s),
            _ => texts_in(items.drop_last()),
        }
    }
}

/// The texts under a key: those of a list, or the one text.
pub open spec fn text_list_at(m: Pairs, key: Seq<char>) -> Seq<Seq<char>> {
    match lookup_text(m, key) {
        Some(NodeView::Sequence(items)) => texts_in(items),
        Some(NodeView::String(s)) => seq![s],
        _ => Seq::empty(),
    }
}

/// Whether errors are ignored: a truth value as it is, the texts "yes" and
/// "true" in any case of letters as true, all else false.
pub open spec fn ignore_errors_of(m: Pairs) -> bool {
    match lookup_text(m, "ignore_errors"@) {
        Some(NodeView::Bool(b)) => b,
        Some(NodeView::String(s)) => lowercase_of(s) == "yes"@ || lowercase_of(s) == "true"@,
        _ => false,
    }
}

/// The loop source: what stands under "loop", else under "with_items".
pub open spec fn loop_source_of(m: Pairs) -> Option<NodeView> {
    if lookup_text(m, "loop"@) is Some {
        lookup_text(m, "loop"@)
    } else {
        lookup_text(m, "with_items"@)
    }
}

/// The text under a key of the mapping under "loop_control".
pub open spec fn loop_control_at(m: Pairs, key: Seq<char>) -> Option<Seq<char>> {
    match lookup_text(m, "loop_control"@) {
        Some(NodeView::Mapping(lc)) => text_at(lc, key),
        _ => None,
    }
}

/// The arguments that the value under a module key gives: a mapping as it
/// is; a text as the one argument "msg" of the module "debug" and as the one
/// argument "_raw_params" of any other; nothing else.
pub open spec fn module_args(module: Seq<char>, v: NodeView) -> Option<Pairs> {
    match v {
        NodeView::String(s) => Some(
            seq![
                (
                    NodeView::String(
                        if module == "debug"@ {
                            "msg"@
                        } else {
                            "_raw_params"@
                        },
                    ),
                    NodeView::String(s),
                ),
            ],
        ),
        NodeView::Mapping(p) => Some(p),
        _ => None,
    }
}

/// The task that a mapping declares. The module is the first key, in the
/// order of the document, that is a text and not reserved.
pub open spec fn task_of(m: Pairs) -> Result<TaskView, TaskError> {
    match lookup_text(m, "name"@) {
        None => Err(TaskError::NameMissing),
        Some(NodeView::String(name)) => {
            let p = module_pos(m, 0);
            if p >= m.len() {
                Err(TaskError::NoModule)
            } else {
                let module = m[p].0->String_0;
                match module_args(module, m[p].1) {
                    None => Err(TaskError::UnsupportedArguments),
                    Some(args) => if module.len() == 0 {
                        Err(TaskError::NoModule)
                    } else {
                        Ok(
                            TaskView {
                                name: name,
                                module: module,
                                args: args,
                                is_become: flag_at(m, "become"@),
                                become_user: become_user_of(m),
                                register: text_at(m, "register"@),
                                when: lookup_text(m, "when"@),
                                notify: text_list_at(m, "notify"@),
                                ignore_errors: ignore_errors_of(m),
                                tags: text_list_at(m, "tags"@),
                                loop_items: loop_source_of(m),
                                loop_var_name: loop_control_at(m, "loop_var"@),
                                index_var_name: loop_control_at(m, "index_var"@),
                            },
                        )
                    },
                }
            }
        },
        Some(_) => Err(TaskError::NameNotText),
    }
}

/// The tasks that the first `n` items of a list declare: each mapping is a
/// task, anything else is passed over, and the first task that cannot be read
/// ends the reading.
pub open spec fn tasks_of(items: Seq<NodeView>, n: nat) -> Result<Seq<TaskView>, (usize, TaskError)>
    decreases n,
{
    if n == 0 || n > items.len() {
        Ok(Seq::empty())
    } else {
        match tasks_of(items, (n - 1) as nat) {
            Err(e) => Err(e),
            Ok(before) => match items[n - 1] {
                NodeView::Mapping(m) => match task_of(m) {
                    Ok(t) => Ok(before.push(t)),
                    Err(e) => Err(((n - 1) as usize, e)),
                },
                _ => Ok(before),
            },
        }
    }
}

/// The tasks under a key of a play: those of the list that stands there.
pub open spec fn task_list_at(m: Pairs, key: Seq<char>) -> Result<Seq<TaskView>, (usize, TaskError)> {
    match lookup_text(m, key) {
        Some(NodeView::Sequence(items)) => tasks_of(items, items.len()),
        _ => Ok(Seq::empty()),
    }
}

/// The variables of a play: the mapping under "vars", else none.
pub open spec fn vars_of(m: Pairs) -> Pairs {
    match lookup_text(m, "vars"@) {
        Some(NodeView::Mapping(v)) => v,
        _ => Seq::empty(),
    }
}

/// The play that a mapping declares.
pub open spec fn play_of(m: Pairs) -> Result<PlayView, PlayError> {
    match lookup_text(m, "name"@) {
        None => Err(PlayError::NameMissing),
        Some(NodeView::String(name)) => match lookup_text(m, "hosts"@) {
            None => Err(PlayError::HostsMissing),
            Some(NodeView::String(hosts)) => match task_list_at(m, "tasks"@) {
                Err(e) => Err(PlayError::Task { index: e.0, cause: e.1 }),
                Ok(tasks) => match task_list_at(m, "handlers"@) {
                    Err(e) => Err(PlayError::Handler { index: e.0, cause: e.1 }),
                    Ok(handlers) => Ok(
                        PlayView {
                            name: name,
                            hosts: hosts,
                            tasks: tasks,
                            handlers: handlers,
                            vars: vars_of(m),
                            is_become: flag_at(m, "become"@),
                            become_user: become_user_of(m),
                            tags: text_list_at(m, "tags"@),
                        },
                    ),
                },
            },
            Some(_) => Err(PlayError::HostsNotText),
        },
        Some(_) => Err(PlayError::NameNotText),
    }
}

/// The plays that the first `n` items of a list of plays declare.
pub open spec fn plays_in(items: Seq<NodeView>, n: nat) -> Result<Seq<PlayView>, (usize, PlayError)>
    decreases n,
{
    if n == 0 || n > items.len() {
        Ok(Seq::empty())
    } else {
        match plays_in(items, (n - 1) as nat) {
            Err(e) => Err(e),
            Ok(before) => match items[n - 1] {
                NodeView::Mapping(m) => match play_of(m) {
                    Ok(p) => Ok(before.push(p)),
                    Err(e) => Err(((n - 1) as usize, e)),
                },
                _ => Ok(before),
            },
        }
    }
}

/// The playbook that the first `n` documents declare. A list holds plays;
/// a mapping is one play, and may say under "fail_fast" whether a failed play
/// ends the run; anything else is passed over.
pub open spec fn playbook_of(docs: Seq<NodeView>, n: nat) -> Result<PlaybookView, PlaybookError>
    decreases n,
{
    if n == 0 || n > docs.len() {
        Ok(PlaybookView { plays: Seq::empty(), fail_fast: false })
    } else {
        match playbook_of(docs, (n - 1) as nat) {
            Err(e) => Err(e),
            Ok(before) => match docs[n - 1] {
                NodeView::Sequence(items) => match plays_in(items, items.len()) {
                    Ok(plays) => Ok(
                        PlaybookView { plays: before.plays + plays, fail_fast: before.fail_fast },
                    ),
                    Err(e) => Err(
                        PlaybookError::Play { play: e.0, document: (n - 1) as usize, cause: e.1 },
                    ),
                },
                NodeView::Mapping(m) => match play_of(m) {
                    Ok(p) => Ok(
                        PlaybookView {
                            plays: before.plays.push(p),
                            fail_fast: match lookup_text(m, "fail_fast"@) {
                                Some(NodeView::Bool(b)) => b,
                                _ => before.fail_fast,
                            },
                        },
                    ),
                    Err(e) => Err(PlaybookError::Document { document: (n - 1) as usize, cause: e }),
                },
                _ => Ok(before),
            },
        }
    }
}

/// The playbook that a YAML text declares.
pub open spec fn playbook_of_text(text: Seq<char>) -> Result<PlaybookView, PlaybookError> {
    match yaml_sequence_of(text) {
        Some(docs) => playbook_of(docs, docs.len()),
        None => Err(PlaybookError::Syntax),
    }
}

/// Whether a key of a task is reserved.
fn reserved(k: &str) -> (r: bool)
    ensures
        r == is_reserved(k@),
{
    same_text(k, "name") || same_text(k, "become") || same_text(k, "become_user") || same_text(
        k,
        "register",
    ) || same_text(k, "when") || same_text(k, "tags") || same_text(k, "notify") || same_text(
        k,
        "ignore_errors",
    ) || same_text(k, "vars") || same_text(k, "with_items") || same_text(k, "loop") || same_text(
        k,
        "loop_control",
    )
}

/// The truth value under a key; false where the key holds none.
fn flag(m: &Mapping, key: &str) -> (r: bool)
    ensures
        r == flag_at(m@, key@),
{
    match m.get(key) {
        Some(Node::Bool(b)) => *b,
        _ => false,
    }
}

/// The text under a key, where the key holds one.
fn text(m: &Mapping, key: &str) -> (r: Option<String>)
    ensures
        crate::text::opt_view(r) == text_at(m@, key@),
{
    match m.get(key) {
        Some(Node::String(s)) => Some(s.clone()),
        _ => None,
    }
}

/// The texts among a list of values, in order.
fn texts(items: &Vec<Node>) -> (r: Vec<String>)
    ensures
        names_of(r@) == texts_in(views_of(items@)),
{
    let ghost views = views_of(items@);
    proof {
        Node::lemma_models(items@, items@.len());
    }
    let mut out: Vec<String> = Vec::new();
    let mut i: usize = 0;
    assert(names_of(out@) =~= texts_in(views.take(0)));
    while i < items.len()
        invariant
            i <= items.len(),
            views == views_of(items@),
            views.len() == items@.len(),
            forall|j: int| 0 <= j < items@.len() ==> (#[trigger] views[j]) == items@[j]@,
            names_of(out@) == texts_in(views.take(i as int)),
        decreases items.len() - i,
    {
        proof {
            assert(views.take(i + 1).drop_last() =~= views.take(i as int));
            assert(views.take(i + 1).last() == items@[i as int]@);
        }
        match &items[i] {
            Node::String(s) => {
                out.push(s.clone());
                assert(names_of(out@) =~= texts_in(views.take(i + 1)));
            },
            _ => {},
        }
        i = i + 1;
    }
    assert(views.take(i as int) =~= views);
    out
}

/// The texts under a key: those of a list, or the one text.
fn text_list(m: &Mapping, key: &str) -> (r: Vec<String>)
    ensures
        names_of(r@) == text_list_at(m@, key@),
{
    match m.get(key) {
        Some(Node::Sequence(items)) => texts(items),
        Some(Node::String(s)) => {
            let mut out: Vec<String> = Vec::new();
            out.push(s.clone());
            assert(names_of(out@) =~= seq![s@]);
            out
        },
        _ => {
            let out: Vec<String> = Vec::new();
            assert(names_of(out@) =~= Seq::<Seq<char>>::empty());
            out
        },
    }
}

/// Reads one task from the mapping that declares it.
pub fn parse_task(task_map: &Mapping) -> (r: Result<Task, TaskError>)
    ensures
        match r {
            Ok(t) => task_of(task_map@) == Ok::<TaskView, TaskError>(t@),
            Err(e) => task_of(task_map@) == Err::<TaskView, TaskError>(e),
        },
{
    let ghost m = task_map@;
    let name = match task_map.get("name") {
        Some(Node::String(name)) => name.clone(),
        Some(_) => {
            return Err(TaskError::NameNotText);
        },
        None => {
            return Err(TaskError::NameMissing);
        },
    };
    proof {
        task_map.lemma_view();
    }
    let mut i: usize = 0;
    let mut found = false;
    while i < task_map.entries.len() && !found
        invariant
            i <= task_map.entries.len(),
            m == task_map@,
            m.len() == task_map.entries@.len(),
            forall|j: int|
                0 <= j < task_map.entries@.len() ==> (#[trigger] m[j]) == (
                    task_map.entries@[j].0@,
                    task_map.entries@[j].1@,
                ),
            module_pos(m, 0) == module_pos(m, i as int),
            found ==> i < task_map.entries.len() && is_module_key(m[i as int].0),
        decreases task_map.entries.len() - i + (if found { 0int } else { 1int }),
    {
        let hit = match &task_map.entries[i].0 {
            Node::String(k) => !reserved(k.as_str()),
            _ => false,
        };
        if hit {
            found = true;
        } else {
            i = i + 1;
        }
    }
    if !found {
        return Err(TaskError::NoModule);
    }
    assert(module_pos(m, 0) == i);
    let module = match &task_map.entries[i].0 {
        Node::String(k) => k.clone(),
        _ => {
            assert(false);
            return Err(TaskError::NoModule);
        },
    };
    let args = match &task_map.entries[i].1 {
        Node::String(s) => {
            let key = if same_text(module.as_str(), "debug") {
                "msg"
            } else {
                "_raw_params"
            };
            let mut a = Mapping::new();
            a.insert(Node::text(key), Node::String(s.clone()));
            a
        },
        Node::Mapping(map) => map.clone(),
        _ => {
            return Err(TaskError::UnsupportedArguments);
        },
    };
    if module.as_str().is_empty() {
        return Err(TaskError::NoModule);
    }
    let ignore_errors = match task_map.get("ignore_errors") {
        Some(Node::Bool(b)) => *b,
        Some(Node::String(s)) => {
            let lower = to_lowercase(s.as_str());
            same_text(lower.as_str(), "yes") || same_text(lower.as_str(), "true")
        },
        _ => false,
    };
    let become_user = match text(task_map, "become_user") {
        Some(u) => u,
        None => "root".to_owned(),
    };
    let when = match task_map.get("when") {
        Some(v) => Some(v.clone()),
        None => None,
    };
    let loop_items = match task_map.get("loop") {
        Some(v) => Some(v.clone()),
        None => match task_map.get("with_items") {
            Some(v) => Some(v.clone()),
            None => None,
        },
    };
    let (loop_var_name, index_var_name) = match task_map.get("loop_control") {
        Some(Node::Mapping(lc)) => (text(lc, "loop_var"), text(lc, "index_var")),
        _ => (None, None),
    };
    proof {
        assert(m[i as int].0 == NodeView::String(module@));
        assert(module_args(module@, m[i as int].1) == Some(args@));
    }
    let task = Task {
        name,
        module,
        args,
        is_become: flag(task_map, "become"),
        become_user,
        register: text(task_map, "register"),
        when,
        notify: text_list(task_map, "notify"),
        ignore_errors,
        tags: text_list(task_map, "tags"),
        loop_items,
        loop_var_name,
        index_var_name,
    };
    Ok(task)
}

/// Reads one handler from the mapping that declares it.
pub fn parse_handler(handler_map: &Mapping) -> (r: Result<Handler, TaskError>)
    ensures
        match r {
            Ok(h) => task_of(handler_map@) == Ok::<TaskView, TaskError>(h@),
            Err(e) => task_of(handler_map@) == Err::<TaskView, TaskError>(e),
        },
{
    match parse_task(handler_map) {
        Ok(task) => Ok(Handler { task }),
        Err(e) => Err(e),
    }
}

/// Reads the tasks of a list.
fn parse_tasks(items: &Vec<Node>) -> (r: Result<Vec<Task>, (usize, TaskError)>)
    ensures
        match r {
            Ok(ts) => tasks_of(views_of(items@), items@.len()) == Ok::<
                Seq<TaskView>,
                (usize, TaskError),
            >(task_views(ts@)),
            Err(e) => tasks_of(views_of(items@), items@.len()) == Err::<
                Seq<TaskView>,
                (usize, TaskError),
            >(e),
        },
{
    let ghost views = views_of(items@);
    proof {
        Node::lemma_models(items@, items@.len());
    }
    let mut out: Vec<Task> = Vec::new();
    let mut i: usize = 0;
    assert(task_views(out@) =~= Seq::<TaskView>::empty());
    while i < items.len()
        invariant
            i <= items.len(),
            views == views_of(items@),
            views.len() == items@.len(),
            forall|j: int| 0 <= j < items@.len() ==> (#[trigger] views[j]) == items@[j]@,
            tasks_of(views, i as nat) == Ok::<Seq<TaskView>, (usize, TaskError)>(task_views(out@)),
        decreases items.len() - i,
    {
        assert(views[i as int] == items@[i as int]@);
        match &items[i] {
            Node::Mapping(m) => match parse_task(m) {
                Ok(t) => {
                    let ghost before = task_views(out@);
                    out.push(t);
                    assert(task_views(out@) =~= before.push(t@));
                },
                Err(e) => {
                    proof {
                        lemma_tasks_fail(views, (i + 1) as nat, items@.len());
                    }
                    return Err((i, e));
                },
            },
            _ => {},
        }
        i = i + 1;
    }
    Ok(out)
}

/// Once the reading has failed, more items do not mend it.
pub proof fn lemma_tasks_fail(items: Seq<NodeView>, n: nat, upto: nat)
    requires
        n <= upto <= items.len(),
        tasks_of(items, n) is Err,
    ensures
        tasks_of(items, upto) == tasks_of(items, n),
    decreases upto - n,
{
    if n < upto {
        lemma_tasks_fail(items, n, (upto - 1) as nat);
    }
}

/// Once the reading has failed, more items do not mend it.
pub proof fn lemma_plays_fail(items: Seq<NodeView>, n: nat, upto: nat)
    requires
        n <= upto <= items.len(),
        plays_in(items, n) is Err,
    ensures
        plays_in(items, upto) == plays_in(items, n),
    decreases upto - n,
{
    if n < upto {
        lemma_plays_fail(items, n, (upto - 1) as nat);
    }
}

/// Once the reading has failed, more documents do not mend it.
pub proof fn lemma_playbook_fail(docs: Seq<NodeView>, n: nat, upto: nat)
    requires
        n <= upto <= docs.len(),
        playbook_of(docs, n) is Err,
    ensures
        playbook_of(docs, upto) == playbook_of(docs, n),
    decreases upto - n,
{
    if n < upto {
        lemma_playbook_fail(docs, n, (upto - 1) as nat);
    }
}

/// Reads the handlers of a list.
fn parse_handlers(items: &Vec<Node>) -> (r: Result<Vec<Handler>, (usize, TaskError)>)
    ensures
        match r {
            Ok(hs) => tasks_of(views_of(items@), items@.len()) == Ok::<
                Seq<TaskView>,
                (usize, TaskError),
            >(handler_views(hs@)),
            Err(e) => tasks_of(views_of(items@), items@.len()) == Err::<
                Seq<TaskView>,
                (usize, TaskError),
            >(e),
        },
{
    let ghost views = views_of(items@);
    proof {
        Node::lemma_models(items@, items@.len());
    }
    let mut out: Vec<Handler> = Vec::new();
    let mut i: usize = 0;
    assert(handler_views(out@) =~= Seq::<TaskView>::empty());
    while i < items.len()
        invariant
            i <= items.len(),
            views == views_of(items@),
            views.len() == items@.len(),
            forall|j: int| 0 <= j < items@.len() ==> (#[trigger] views[j]) == items@[j]@,
            tasks_of(views, i as nat) == Ok::<Seq<TaskView>, (usize, TaskError)>(
                handler_views(out@),
            ),
        decreases items.len() - i,
    {
        assert(views[i as int] == items@[i as int]@);
        match &items[i] {
            Node::Mapping(m) => match parse_handler(m) {
                Ok(h) => {
                    let ghost before = handler_views(out@);
                    out.push(h);
                    assert(handler_views(out@) =~= before.push(h@));
                },
                Err(e) => {
                    proof {
                        lemma_tasks_fail(views, (i + 1) as nat, items@.len());
                    }
                    return Err((i, e));
                },
            },
            _ => {},
        }
        i = i + 1;
    }
    Ok(out)
}

/// Reads one play from the mapping that declares it. A play without a name
/// or without a host pattern is refused, and so is one with a task or a
/// handler that cannot be read.
pub fn parse_play(play_map: &Mapping) -> (r: Result<Play, PlayError>)
    ensures
        match r {
            Ok(p) => play_of(play_map@) == Ok::<PlayView, PlayError>(p@),
            Err(e) => play_of(play_map@) == Err::<PlayView, PlayError>(e),
        },
{
    let name = match play_map.get("name") {
        Some(Node::String(name)) => name.clone(),
        Some(_) => {
            return Err(PlayError::NameNotText);
        },
        None => {
            return Err(PlayError::NameMissing);
        },
    };
    let hosts = match play_map.get("hosts") {
        Some(Node::String(hosts)) => hosts.clone(),
        Some(_) => {
            return Err(PlayError::HostsNotText);
        },
        None => {
            return Err(PlayError::HostsMissing);
        },
    };
    let tasks = match play_map.get("tasks") {
        Some(Node::Sequence(items)) => match {
            proof {
                Node::lemma_models(items@, items@.len());
            }
            parse_tasks(items)
        } {
            Ok(ts) => ts,
            Err(e) => {
                return Err(PlayError::Task { index: e.0, cause: e.1 });
            },
        },
        _ => {
            let ts: Vec<Task> = Vec::new();
            assert(task_views(ts@) =~= Seq::<TaskView>::empty());
            ts
        },
    };
    let handlers = match play_map.get("handlers") {
        Some(Node::Sequence(items)) => match {
            proof {
                Node::lemma_models(items@, items@.len());
            }
            parse_handlers(items)
        } {
            Ok(hs) => hs,
            Err(e) => {
                return Err(PlayError::Handler { index: e.0, cause: e.1 });
            },
        },
        _ => {
            let hs: Vec<Handler> = Vec::new();
            assert(handler_views(hs@) =~= Seq::<TaskView>::empty());
            hs
        },
    };
    let vars = match play_map.get("vars") {
        Some(Node::Mapping(v)) => v.clone(),
        _ => Mapping::new(),
    };
    let become_user = match text(play_map, "become_user") {
        Some(u) => u,
        None => "root".to_owned(),
    };
    Ok(
        Play {
            name,
            hosts,
            tasks,
            handlers,
            vars,
            is_become: flag(play_map, "become"),
            become_user,
            tags: text_list(play_map, "tags"),
        },
    )
}

/// Reads the plays of a list of plays.
fn parse_plays(items: &Vec<Node>, out: &mut Vec<Play>) -> (r: Result<(), (usize, PlayError)>)
    ensures
        match r {
            Ok(_) => exists|plays: Seq<PlayView>|
                plays_in(views_of(items@), items@.len()) == Ok::<
                    Seq<PlayView>,
                    (usize, PlayError),
                >(plays) && play_views(final(out)@) == play_views(old(out)@) + plays,
            Err(e) => plays_in(views_of(items@), items@.len()) == Err::<
                Seq<PlayView>,
                (usize, PlayError),
            >(e),
        },
{
    let ghost views = views_of(items@);
    let ghost start = play_views(out@);
    proof {
        Node::lemma_models(items@, items@.len());
    }
    let ghost mut got: Seq<PlayView> = Seq::empty();
    let mut i: usize = 0;
    assert(play_views(out@) =~= start + got);
    while i < items.len()
        invariant
            i <= items.len(),
            views == views_of(items@),
            views.len() == items@.len(),
            forall|j: int| 0 <= j < items@.len() ==> (#[trigger] views[j]) == items@[j]@,
            plays_in(views, i as nat) == Ok::<Seq<PlayView>, (usize, PlayError)>(got),
            play_views(out@) == start + got,
        decreases items.len() - i,
    {
        assert(views[i as int] == items@[i as int]@);
        match &items[i] {
            Node::Mapping(m) => match parse_play(m) {
                Ok(p) => {
                    let ghost before = play_views(out@);
                    out.push(p);
                    proof {
                        got = got.push(p@);
                    }
                    assert(play_views(out@) =~= before.push(p@));
                    assert(play_views(out@) =~= start + got);
                },
                Err(e) => {
                    proof {
                        lemma_plays_fail(views, (i + 1) as nat, items@.len());
                    }
                    return Err((i, e));
                },
            },
            _ => {},
        }
        i = i + 1;
    }
    Ok(())
}

/// Reads a playbook from its documents. A list holds plays; a mapping is
/// one play; anything else is passed over. The first play that cannot be read
/// ends the reading.
pub fn load_playbook(docs: &Vec<Node>) -> (r: Result<Playbook, PlaybookError>)
    ensures
        match r {
            Ok(b) => playbook_of(views_of(docs@), docs@.len()) == Ok::<PlaybookView, PlaybookError>(
                b@,
            ),
            Err(e) => playbook_of(views_of(docs@), docs@.len()) == Err::<
                PlaybookView,
                PlaybookError,
            >(e),
        },
{
    let ghost views = views_of(docs@);
    proof {
        Node::lemma_models(docs@, docs@.len());
    }
    let mut plays: Vec<Play> = Vec::new();
    let mut fail_fast = false;
    let mut i: usize = 0;
    assert(play_views(plays@) =~= Seq::<PlayView>::empty());
    while i < docs.len()
        invariant
            i <= docs.len(),
            views == views_of(docs@),
            views.len() == docs@.len(),
            forall|j: int| 0 <= j < docs@.len() ==> (#[trigger] views[j]) == docs@[j]@,
            playbook_of(views, i as nat) == Ok::<PlaybookView, PlaybookError>(
                PlaybookView { plays: play_views(plays@), fail_fast: fail_fast },
            ),
        decreases docs.len() - i,
    {
        assert(views[i as int] == docs@[i as int]@);
        match &docs[i] {
            Node::Sequence(items) => match {
                proof {
                    Node::lemma_models(items@, items@.len());
                }
                parse_plays(items, &mut plays)
            } {
                Ok(_) => {},
                Err(e) => {
                    proof {
                        lemma_playbook_fail(views, (i + 1) as nat, docs@.len());
                    }
                    return Err(PlaybookError::Play { play: e.0, document: i, cause: e.1 });
                },
            },
            Node::Mapping(m) => match parse_play(m) {
                Ok(p) => {
                    let ghost before = play_views(plays@);
                    plays.push(p);
                    assert(play_views(plays@) =~= before.push(p@));
                    match m.get("fail_fast") {
                        Some(Node::Bool(b)) => {
                            fail_fast = *b;
                        },
                        _ => {},
                    }
                },
                Err(e) => {
                    proof {
                        lemma_playbook_fail(views, (i + 1) as nat, docs@.len());
                    }
                    return Err(PlaybookError::Document { document: i, cause: e });
                },
            },
            _ => {},
        }
        i = i + 1;
    }
    Ok(Playbook { plays, fail_fast })
}

/// Reads a playbook from its YAML text.
pub fn parse_playbook(content: &str) -> (r: Result<Playbook, PlaybookError>)
    ensures
        match r {
            Ok(b) => playbook_of_text(content@) == Ok::<PlaybookView, PlaybookError>(b@),
            Err(e) => playbook_of_text(content@) == Err::<PlaybookView, PlaybookError>(e),
        },
{
    match parse_yaml_sequence(content) {
        Ok(docs) => {
            proof {
                Node::lemma_models(docs@, docs@.len());
            }
            load_playbook(&docs)
        },
        Err(_) => Err(PlaybookError::Syntax),
    }
}

} // verus!
