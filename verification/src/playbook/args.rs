//! The arguments of a task: rendered against the variables of a host,
//! argument by argument.

use vstd::prelude::*;
use crate::engine::{clone_engine, context_keys, filter_names};
use crate::node::{put, text_value, without, Mapping, Node, NodeView, Pairs};
use crate::playbook::loops::{braced, get_nested_value, nested_value};
use crate::playbook::task::Task;
use crate::playbook::templar::{
    converted, has_syntax, may_render, render_fails, render_value, undefined_filtered, RenderError,
};
use crate::strmap::StrMap;
use crate::text::{
    find_from, first_at, has_sub, join2, same_text, str_contains, sub_chars, to_chars,
    trim_bounds, trimmed, trimmed_slice,
};

verus! {

/// Whether the rendered argument stays a text whatever it looks like: the
/// content of a template, and the message and the variable of a debug task.
pub open spec fn forces_text(module: Seq<char>, key: NodeView) -> bool {
    (module == "template"@ && key == text_value("content"@)) || (module == "debug"@ && (key
        == text_value("msg"@) || key == text_value("var"@)))
}

/// Whether the argument is the mode of a file.
pub open spec fn is_mode(module: Seq<char>, key: NodeView) -> bool {
    (module == "file"@ || module == "copy"@ || module == "template"@) && key == text_value("mode"@)
}

/// An inline choice, `{{ A if C else B }}`, as the block that the
/// evaluator reads. Any other text stays as it is, and so does one in which
/// the condition would be empty or "else" comes before "if".
pub open spec fn if_rewritten(v: Seq<char>) -> Seq<char> {
    if has_sub(v, " if "@) && has_sub(v, " else "@) {
        match braced(v) {
            Some(inner) => {
                let ip = first_at(inner, " if "@, 0);
                let ep = first_at(inner, " else "@, 0);
                if ip <= inner.len() && ep <= inner.len() && ip + 4 <= ep {
                    "{% if "@ + trimmed(inner.subrange(ip + 4, ep)) + " %}"@ + trimmed(
                        inner.subrange(0, ip),
                    ) + "{% else %}"@ + trimmed(inner.subrange(ep + 6, inner.len() as int))
                        + "{% endif %}"@
                } else {
                    v
                }
            },
            None => v,
        }
    } else {
        v
    }
}

/// The text that is rendered for an argument: the mode of a file with an
/// inline choice is rewritten first.
pub open spec fn prepared(module: Seq<char>, key: NodeView, s: Seq<char>) -> Seq<char> {
    if is_mode(module, key) && (has_sub(s, " if "@) || has_sub(s, " else "@)) {
        if_rewritten(s)
    } else {
        s
    }
}

/// Rewrites an inline choice as the block that the evaluator reads.
pub fn preprocess_if_condition(value: &str) -> (r: String)
    ensures
        r@ == if_rewritten(value@),
{
    if !(str_contains(value, " if ") && str_contains(value, " else ")) {
        return value.to_owned();
    }
    let v = to_chars(value);
    let (a, b) = trim_bounds(&v, 0, v.len());
    assert(v@.subrange(0, v.len() as int) =~= v@);
    let ghost t = trimmed(value@);
    if b - a < 4 || v[a] != '{' || v[a + 1] != '{' || v[b - 2] != '}' || v[b - 1] != '}' {
        proof {
            if t.len() >= 4 {
                assert(t[0] == v@[a as int]);
                assert(t[1] == v@[a + 1]);
                assert(t[t.len() - 2] == v@[b - 2]);
                assert(t[t.len() - 1] == v@[b - 1]);
            }
        }
        return value.to_owned();
    }
    proof {
        assert(t[0] == v@[a as int]);
        assert(t[1] == v@[a + 1]);
        assert(t[t.len() - 2] == v@[b - 2]);
        assert(t[t.len() - 1] == v@[b - 1]);
        assert(t.subrange(2, t.len() - 2) =~= v@.subrange(a + 2, b - 2));
    }
    let (c, d) = trim_bounds(&v, a + 2, b - 2);
    let inner = sub_chars(&v, c, d);
    assert(braced(value@) == Some(inner@));
    let if_pat = to_chars(" if ");
    let else_pat = to_chars(" else ");
    proof {
        reveal_strlit(" if ");
        reveal_strlit(" else ");
    }
    match find_from(&inner, &if_pat, 0) {
        Some(ip) => match find_from(&inner, &else_pat, 0) {
            Some(ep) => {
                proof {
                    crate::text::lemma_first_at(inner@, " if "@, 0);
                    crate::text::lemma_first_at(inner@, " else "@, 0);
                }
                if ip + 4 <= ep {
                    let then_part = trimmed_slice(&inner, 0, ip);
                    let cond_part = trimmed_slice(&inner, ip + 4, ep);
                    let else_part = trimmed_slice(&inner, ep + 6, inner.len());
                    let s1 = join2("{% if ", cond_part.as_str());
                    let s2 = join2(s1.as_str(), " %}");
                    let s3 = join2(s2.as_str(), then_part.as_str());
                    let s4 = join2(s3.as_str(), "{% else %}");
                    let s5 = join2(s4.as_str(), else_part.as_str());
                    join2(s5.as_str(), "{% endif %}")
                } else {
                    value.to_owned()
                }
            },
            None => value.to_owned(),
        },
        None => value.to_owned(),
    }
}

/// The arguments after one rendered argument was put in its place.
///
/// A mode that still holds expression syntax becomes "0644". The variable
/// of a debug task is looked up, and what it names is kept beside it.
pub open spec fn placed(
    module: Seq<char>,
    key: NodeView,
    rendered: NodeView,
    vars: Map<Seq<char>, NodeView>,
    resolved: Pairs,
) -> Pairs {
    if is_mode(module, key) && rendered is String && has_syntax(rendered->String_0) {
        put(resolved, key, text_value("0644"@))
    } else if module == "debug"@ && key == text_value("var"@) {
        match rendered {
            NodeView::String(name) => match nested_value(vars, name) {
                Some(found) => put(put(resolved, key, rendered), text_value("_var_value"@), found),
                None => without(put(resolved, key, rendered), text_value("_var_value"@)),
            },
            _ => without(put(resolved, key, rendered), text_value("_var_value"@)),
        }
    } else {
        put(resolved, key, rendered)
    }
}

/// An argument that could not be rendered. The task that it belongs to
/// fails on the host: the text as it was written is never handed to the
/// operation.
#[derive(Debug)]
pub struct ArgumentError {
    pub module: String,
    /// The name of the argument.
    pub key: Node,
    /// The argument as it was written.
    pub text: String,
    pub cause: RenderError,
}

/// Whether `e` can be the failure of a task on the argument `entry`: the
/// argument is a text, `e` names it, and its cause is a failure of the
/// rendering of that text.
pub open spec fn fails_on(
    module: Seq<char>,
    entry: (NodeView, NodeView),
    known: Set<Seq<char>>,
    e: ArgumentError,
) -> bool {
    e.module@ == module && entry == (e.key@, text_value(e.text@)) && render_fails(
        prepared(module, entry.0, e.text@),
        known,
        e.cause,
    )
}

/// Whether the rendered argument stays a text.
fn force_text(module: &str, key: &Node) -> (r: bool)
    ensures
        r == forces_text(module@, key@),
{
    match key {
        Node::String(k) => (same_text(module, "template") && same_text(k.as_str(), "content")) || (
        same_text(module, "debug") && (same_text(k.as_str(), "msg") || same_text(
            k.as_str(),
            "var",
        ))),
        _ => false,
    }
}

/// Whether the argument is the mode of a file.
fn mode_param(module: &str, key: &Node) -> (r: bool)
    ensures
        r == is_mode(module@, key@),
{
    match key {
        Node::String(k) => (same_text(module, "file") || same_text(module, "copy") || same_text(
            module,
            "template",
        )) && same_text(k.as_str(), "mode"),
        _ => false,
    }
}

/// Puts one rendered argument in its place. An argument that could not be
/// rendered is put nowhere: the failure comes back with the name and the
/// text of the argument.
pub fn place_argument(
    module: &str,
    key: &Node,
    text: &str,
    rendered: Result<Node, RenderError>,
    vars: &StrMap<Node>,
    resolved: &mut Mapping,
) -> (r: Result<(), ArgumentError>)
    ensures
        match rendered {
            Ok(v) => r is Ok && final(resolved)@ == placed(
                module@,
                key@,
                v@,
                vars@,
                old(resolved)@,
            ),
            Err(cause) => r is Err && r.unwrap_err().module@ == module@ && r.unwrap_err().key@
                == key@ && r.unwrap_err().text@ == text@ && r.unwrap_err().cause == cause
                && final(resolved)@ == old(resolved)@,
        },
{
    match rendered {
        Ok(value) => {
            let stale = match &value {
                Node::String(m) => mode_param(module, key) && (str_contains(m.as_str(), "{{")
                    || str_contains(m.as_str(), "{%")),
                _ => false,
            };
            if stale {
                resolved.insert(key.clone(), Node::text("0644"));
                return Ok(());
            }
            let is_var = same_text(module, "debug") && match key {
                Node::String(k) => same_text(k.as_str(), "var"),
                _ => false,
            };
            if is_var {
                let found = match &value {
                    Node::String(name) => match get_nested_value(name.as_str(), vars) {
                        Some(node) => Some(node.clone()),
                        None => None,
                    },
                    _ => None,
                };
                resolved.insert(key.clone(), value);
                match found {
                    Some(node) => {
                        resolved.insert(Node::text("_var_value"), node);
                    },
                    None => {
                        resolved.remove("_var_value");
                    },
                }
            } else {
                resolved.insert(key.clone(), value);
            }
            Ok(())
        },
        Err(e) => Err(
            ArgumentError {
                module: module.to_owned(),
                key: key.clone(),
                text: text.to_owned(),
                cause: e,
            },
        ),
    }
}

/// One argument resolved: a text is rendered and put in its place, anything
/// else is kept as it is.
pub open spec fn resolved_step(
    module: Seq<char>,
    entry: (NodeView, NodeView),
    vars: Map<Seq<char>, NodeView>,
    known: Set<Seq<char>>,
    before: Pairs,
    after: Pairs,
) -> bool {
    match entry.1 {
        NodeView::String(s) => exists|rendered: NodeView|
            after == placed(module, entry.0, rendered, vars, before) && #[trigger] may_render(
                prepared(module, entry.0, s),
                known,
                forces_text(module, entry.0),
                rendered,
            ),
        _ => after == put(before, entry.0, entry.1),
    }
}

/// A text argument whose rendering gave `rendered` is resolved by putting
/// that value in its place.
proof fn lemma_text_step(
    module: Seq<char>,
    entry: (NodeView, NodeView),
    vars: Map<Seq<char>, NodeView>,
    known: Set<Seq<char>>,
    before: Pairs,
    rendered: NodeView,
)
    requires
        entry.1 is String,
        may_render(
            prepared(module, entry.0, entry.1->String_0),
            known,
            forces_text(module, entry.0),
            rendered,
        ),
    ensures
        resolved_step(
            module,
            entry,
            vars,
            known,
            before,
            placed(module, entry.0, rendered, vars, before),
        ),
{
}

/// `out` can be what resolving the first `n` arguments gives.
pub open spec fn resolves(
    module: Seq<char>,
    args: Pairs,
    n: nat,
    vars: Map<Seq<char>, NodeView>,
    known: Set<Seq<char>>,
    out: Pairs,
) -> bool
    decreases n,
{
    if n == 0 || n > args.len() {
        out == Pairs::empty()
    } else {
        exists|before: Pairs|
            resolves(module, args, (n - 1) as nat, vars, known, before) && #[trigger] resolved_step(
                module,
                args[n - 1],
                vars,
                known,
                before,
                out,
            )
    }
}

/// A rendering failure is never passed over: where a text among the first
/// `n` arguments pipes a name that the evaluator does not know into a
/// filter, nothing can be what resolving those arguments gives, so that the
/// task can only fail.
pub proof fn law_unrenderable_argument_fails(
    module: Seq<char>,
    args: Pairs,
    n: nat,
    vars: Map<Seq<char>, NodeView>,
    known: Set<Seq<char>>,
    out: Pairs,
    i: int,
)
    requires
        0 <= i < n <= args.len(),
        args[i].1 is String,
        undefined_filtered(converted(prepared(module, args[i].0, args[i].1->String_0)), known)
            is Some,
    ensures
        !resolves(module, args, n, vars, known, out),
    decreases n,
{
    if resolves(module, args, n, vars, known, out) {
        let before = choose|before: Pairs|
            resolves(module, args, (n - 1) as nat, vars, known, before) && #[trigger] resolved_step(
                module,
                args[n - 1],
                vars,
                known,
                before,
                out,
            );
        if i < n - 1 {
            law_unrenderable_argument_fails(module, args, (n - 1) as nat, vars, known, before, i);
        }
    }
}

impl Task {
    /// The arguments of the task for one host: each text among them
    /// rendered against the context, in the order in which they were written.
    /// The first text that cannot be rendered fails the task, and so only a
    /// text with something for the evaluator to read can. The engine that
    /// renders them has the registry of `tera` and is not `tera` itself.
    pub fn resolve_args(
        &self,
        tera: &mut tera::Tera,
        context: &tera::Context,
        vars: &StrMap<Node>,
    ) -> (r: Result<Mapping, ArgumentError>)
        ensures
            match r {
                Ok(resolved) => resolves(
                    self@.module,
                    self@.args,
                    self@.args.len(),
                    vars@,
                    context_keys(*context),
                    resolved@,
                ),
                Err(e) => exists|i: int|
                    0 <= i < self@.args.len() && fails_on(
                        self@.module,
                        #[trigger] self@.args[i],
                        context_keys(*context),
                        e,
                    ),
            },
        filter_names(*final(tera)) == filter_names(*old(tera)),
    {
        let mut arg_tera = clone_engine(tera);
        let mut resolved = Mapping::new();
        let ghost args = self.args@;
        let ghost known = context_keys(*context);
        proof {
            self.args.lemma_view();
        }
        let mut i: usize = 0;
        while i < self.args.entries.len()
            invariant
                i <= self.args.entries.len(),
                args == self.args@,
                args.len() == self.args.entries@.len(),
                known == context_keys(*context),
                forall|j: int|
                    0 <= j < self.args.entries@.len() ==> (#[trigger] args[j]) == (
                        self.args.entries@[j].0@,
                        self.args.entries@[j].1@,
                    ),
                resolves(self.module@, args, i as nat, vars@, known, resolved@),
            decreases self.args.entries.len() - i,
        {
            let key = &self.args.entries[i].0;
            let value = &self.args.entries[i].1;
            let ghost before = resolved@;
            assert(args[i as int] == (key@, value@));
            match value {
                Node::String(s) => {
                    let force = force_text(self.module.as_str(), key);
                    let text = if mode_param(self.module.as_str(), key) && (str_contains(
                        s.as_str(),
                        " if ",
                    ) || str_contains(s.as_str(), " else ")) {
                        preprocess_if_condition(s.as_str())
                    } else {
                        s.clone()
                    };
                    let rendered = render_value(text.as_str(), &mut arg_tera, context, force);
                    let ghost outcome = rendered;
                    match place_argument(
                        self.module.as_str(),
                        key,
                        s.as_str(),
                        rendered,
                        vars,
                        &mut resolved,
                    ) {
                        Ok(_) => {
                            assert(outcome is Ok);
                            assert(value@ == NodeView::String(s@));
                            assert(may_render(
                                prepared(self.module@, key@, s@),
                                known,
                                forces_text(self.module@, key@),
                                outcome.unwrap()@,
                            ));
                            assert(resolved@ == placed(
                                self.module@,
                                key@,
                                outcome.unwrap()@,
                                vars@,
                                before,
                            ));
                            proof {
                                lemma_text_step(
                                    self.module@,
                                    args[i as int],
                                    vars@,
                                    known,
                                    before,
                                    outcome.unwrap()@,
                                );
                            }
                            assert(resolved_step(
                                self.module@,
                                args[i as int],
                                vars@,
                                known,
                                before,
                                resolved@,
                            ));
                        },
                        Err(e) => {
                            assert(fails_on(self@.module, self@.args[i as int], known, e));
                            return Err(e);
                        },
                    }
                },
                _ => {
                    resolved.insert(key.clone(), value.clone());
                    assert(resolved_step(
                        self.module@,
                        args[i as int],
                        vars@,
                        known,
                        before,
                        resolved@,
                    ));
                },
            }
            assert(resolves(self.module@, args, (i + 1) as nat, vars@, known, resolved@)) by {
                let n = (i + 1) as nat;
                assert(resolves(self.module@, args, (n - 1) as nat, vars@, known, before));
                assert(resolved_step(self.module@, args[n - 1], vars@, known, before, resolved@));
            }
            i = i + 1;
        }
        Ok(resolved)
    }
}

} // verus!
