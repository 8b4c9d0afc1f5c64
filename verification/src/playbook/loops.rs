//! Loop sources: the list of items over which a task is repeated.

use vstd::prelude::*;
use vstd::string::StrSliceExecFns;
use crate::engine::{context_keys, filter_names};
use crate::node::{clone_nodes, lookup_text, views_of, Node, NodeView};
use crate::playbook::templar::{
    has_syntax, is_plain, may_render, render_fails, render_value, RenderError,
};
use crate::strmap::{names_of, StrMap};
use crate::text::{
    alphanumeric, is_alphanumeric, join2, split_at_dots, split_dots, str_contains, to_chars,
    trim_bounds, trimmed,
};

verus! {

/// The characters of a variable reference: letters, digits, the
/// underscore, and the dot between the parts of a nested name.
pub open spec fn is_name_char(c: char) -> bool {
    is_alphanumeric(c) || c == '_' || c == '.'
}

/// Whether a text is a name, or names joined by single dots.
pub open spec fn is_dotted_name(s: Seq<char>) -> bool {
    &&& s.len() > 0
    &&& forall|i: int| 0 <= i < s.len() ==> is_name_char(#[trigger] s[i])
    &&& s[0] != '.'
    &&& s.last() != '.'
    &&& forall|i: int| 0 <= i < s.len() - 1 ==> !(#[trigger] s[i] == '.' && s[i + 1] == '.')
}

/// What stands between the braces of a text that is one expression.
pub open spec fn braced(s: Seq<char>) -> Option<Seq<char>> {
    let t = trimmed(s);
    if t.len() >= 4 && t[0] == '{' && t[1] == '{' && t[t.len() - 2] == '}' && t[t.len() - 1] == '}' {
        Some(trimmed(t.subrange(2, t.len() - 2)))
    } else {
        None
    }
}

/// The variable that a text refers to, where the text is exactly one bare
/// reference, nested or not.
pub open spec fn simple_variable(s: Seq<char>) -> Option<Seq<char>> {
    match braced(s) {
        Some(inner) => if is_dotted_name(inner) {
            Some(inner)
        } else {
            None
        },
        None => None,
    }
}

/// The variable that a text refers to, where the text is exactly one bare
/// reference.
pub fn extract_simple_variable(input: &str) -> (r: Option<&str>)
    ensures
        match r {
            Some(name) => simple_variable(input@) == Some(name@),
            None => simple_variable(input@) is None,
        },
{
    let v = to_chars(input);
    let (a, b) = trim_bounds(&v, 0, v.len());
    assert(v@.subrange(0, v.len() as int) =~= v@);
    let ghost t = trimmed(input@);
    if b - a < 4 || v[a] != '{' || v[a + 1] != '{' || v[b - 2] != '}' || v[b - 1] != '}' {
        proof {
            if t.len() >= 4 {
                assert(t[0] == v@[a as int]);
                assert(t[1] == v@[a + 1]);
                assert(t[t.len() - 2] == v@[b - 2]);
                assert(t[t.len() - 1] == v@[b - 1]);
            }
        }
        return None;
    }
    proof {
        assert(t[0] == v@[a as int]);
        assert(t[1] == v@[a + 1]);
        assert(t[t.len() - 2] == v@[b - 2]);
        assert(t[t.len() - 1] == v@[b - 1]);
        assert(t.subrange(2, t.len() - 2) =~= v@.subrange(a + 2, b - 2));
    }
    let (c, d) = trim_bounds(&v, a + 2, b - 2);
    let ghost inner = v@.subrange(c as int, d as int);
    assert(braced(input@) == Some(inner));
    if c == d || v[c] == '.' || v[d - 1] == '.' {
        proof {
            if c < d {
                assert(inner[0] == v@[c as int]);
                assert(inner.last() == v@[d - 1]);
            }
        }
        return None;
    }
    let mut i: usize = c;
    while i < d
        invariant
            c <= i <= d <= v.len(),
            inner == v@.subrange(c as int, d as int),
            braced(input@) == Some(inner),
            forall|j: int| 0 <= j < i - c ==> is_name_char(#[trigger] inner[j]),
            forall|j: int|
                0 <= j < i - c && j + 1 < d - c ==> !(#[trigger] inner[j] == '.' && inner[j + 1]
                    == '.'),
        decreases d - i,
    {
        let ch = v[i];
        assert(inner[i - c] == ch);
        if !(alphanumeric(ch) || ch == '_' || ch == '.') {
            return None;
        }
        if i + 1 < d && ch == '.' && v[i + 1] == '.' {
            assert(inner[i - c + 1] == v@[i + 1]);
            return None;
        }
        i = i + 1;
    }
    proof {
        assert(inner[0] == v@[c as int]);
        assert(inner.last() == v@[d - 1]);
        assert(is_dotted_name(inner));
    }
    Some(input.substring_char(c, d))
}

/// The value at the end of a path of keys through nested mappings.
pub open spec fn descend(v: NodeView, parts: Seq<Seq<char>>) -> Option<NodeView>
    decreases parts.len(),
{
    if parts.len() == 0 {
        Some(v)
    } else {
        match v {
            NodeView::Mapping(m) => match lookup_text(m, parts[0]) {
                Some(n) => descend(n, parts.drop_first()),
                None => None,
            },
            _ => None,
        }
    }
}

/// The value of a variable named with dots: the first part names a
/// variable, each further part a key of the mapping reached so far.
pub open spec fn nested_value(vars: Map<Seq<char>, NodeView>, key: Seq<char>) -> Option<NodeView> {
    let parts = split_dots(key);
    if vars.contains_key(parts[0]) {
        descend(vars[parts[0]], parts.drop_first())
    } else {
        None
    }
}

/// The value of a variable named with dots. A list cannot be entered.
pub fn get_nested_value<'a>(key: &str, vars: &'a StrMap<Node>) -> (r: Option<&'a Node>)
    ensures
        match r {
            Some(v) => nested_value(vars@, key@) == Some(v@),
            None => nested_value(vars@, key@) is None,
        },
{
    let chars = to_chars(key);
    let parts = split_at_dots(&chars, 0);
    assert(chars@.subrange(0, chars@.len() as int) =~= chars@);
    let ghost names = names_of(parts@);
    assert(names[0] == parts@[0]@);
    let mut current: &Node = match vars.get(parts[0].as_str()) {
        Some(v) => v,
        None => {
            return None;
        },
    };
    let mut k: usize = 1;
    assert(names.drop_first() =~= names.skip(1));
    while k < parts.len()
        invariant
            1 <= k <= parts.len(),
            names == names_of(parts@),
            nested_value(vars@, key@) == descend(vars@[names[0]], names.drop_first()),
            descend(vars@[names[0]], names.drop_first()) == descend(current@, names.skip(k as int)),
        decreases parts.len() - k,
    {
        assert(names.skip(k as int)[0] == parts@[k as int]@);
        assert(names.skip(k as int).drop_first() =~= names.skip(k + 1));
        match current {
            Node::Mapping(m) => match m.get(parts[k].as_str()) {
                Some(next) => {
                    current = next;
                },
                None => {
                    return None;
                },
            },
            _ => {
                return None;
            },
        }
        k = k + 1;
    }
    Some(current)
}

/// The kinds of failure of a loop source.
#[derive(Debug, Clone, Copy, PartialEq, Eq, Structural)]
pub enum LoopFault {
    /// The loop source is neither a list nor a text.
    UnsupportedType,
    /// The loop source was rendered, to something that is no list.
    NotASequence,
    /// The loop source could not be rendered.
    Render,
}

/// A loop source that gives no list of items.
#[derive(Debug)]
pub struct LoopError {
    pub fault: LoopFault,
    /// The loop source, where it is a text.
    pub source: String,
    /// The failed rendering, where there was one.
    pub cause: Option<RenderError>,
}

/// The text of a loop failure.
pub open spec fn loop_message(fault: LoopFault, source: Seq<char>) -> Seq<char> {
    match fault {
        LoopFault::UnsupportedType => "Unsupported loop type"@,
        LoopFault::NotASequence => "Loop expression '"@ + source
            + "' resolved to a non-sequence value"@,
        LoopFault::Render => "Failed to render loop expression '"@ + source + "'"@,
    }
}

impl LoopError {
    /// What went wrong, in words.
    pub fn to_string(&self) -> (r: String)
        ensures
            r@ == loop_message(self.fault, self.source@),
    {
        match self.fault {
            LoopFault::UnsupportedType => "Unsupported loop type".to_owned(),
            LoopFault::NotASequence => {
                let head = join2("Loop expression '", self.source.as_str());
                join2(head.as_str(), "' resolved to a non-sequence value")
            },
            LoopFault::Render => {
                let head = join2("Failed to render loop expression '", self.source.as_str());
                join2(head.as_str(), "'")
            },
        }
    }
}

/// The items that a loop source gives without any rendering: those of a
/// list, or those of the list that one bare variable reference names.
pub open spec fn direct_items(source: NodeView, vars: Map<Seq<char>, NodeView>) -> Option<
    Seq<NodeView>,
> {
    match source {
        NodeView::Sequence(s) => Some(s),
        NodeView::String(text) => match simple_variable(text) {
            Some(key) => match nested_value(vars, key) {
                Some(NodeView::Sequence(s)) => Some(s),
                _ => None,
            },
            None => None,
        },
        _ => None,
    }
}

/// The items that a rendered loop source gives: those of a list; a text as
/// the one item where the source holds no expression syntax; nothing else.
pub open spec fn rendered_items(source: Seq<char>, rendered: NodeView) -> Option<Seq<NodeView>> {
    match rendered {
        NodeView::Sequence(s) => Some(s),
        NodeView::String(s) => if has_syntax(source) {
            None
        } else {
            Some(seq![NodeView::String(s)])
        },
        _ => None,
    }
}

/// Whether `e` can be the failure of a loop over a text: the text holds
/// something for the evaluator to read, and either its rendering failed, or
/// it gave what has no items.
pub open spec fn unlooped(source: Seq<char>, known: Set<Seq<char>>, e: LoopError) -> bool {
    e.source@ == source && !is_plain(source) && match e.cause {
        Some(c) => e.fault == LoopFault::Render && render_fails(source, known, c),
        None => e.fault == LoopFault::NotASequence,
    }
}

/// The items of a loop whose source was rendered, or the failure.
pub fn loop_from_render(source: &str, rendered: Result<Node, RenderError>) -> (r: Result<
    Option<Vec<Node>>,
    LoopError,
>)
    ensures
        match r {
            Ok(items) => rendered is Ok && items is Some && rendered_items(
                source@,
                rendered.unwrap()@,
            ) == Some(views_of(items.unwrap()@)),
            Err(e) => e.source@ == source@ && match rendered {
                Ok(v) => e.fault == LoopFault::NotASequence && rendered_items(source@, v@) is None
                    && e.cause is None,
                Err(c) => e.fault == LoopFault::Render && e.cause == Some(c),
            },
        },
{
    match rendered {
        Ok(Node::Sequence(items)) => Ok(Some(items)),
        Ok(Node::String(s)) => {
            if !str_contains(source, "{{") && !str_contains(source, "{%") {
                let mut items: Vec<Node> = Vec::new();
                items.push(Node::String(s));
                proof {
                    Node::lemma_models(items@, items@.len());
                    assert(views_of(items@) =~= seq![NodeView::String(s@)]);
                }
                Ok(Some(items))
            } else {
                Err(
                    LoopError {
                        fault: LoopFault::NotASequence,
                        source: source.to_owned(),
                        cause: None,
                    },
                )
            }
        },
        Ok(_) => Err(
            LoopError { fault: LoopFault::NotASequence, source: source.to_owned(), cause: None },
        ),
        Err(e) => Err(
            LoopError { fault: LoopFault::Render, source: source.to_owned(), cause: Some(e) },
        ),
    }
}

/// The items over which a task is repeated.
///
/// A list is used as it is. A text that is one bare variable reference is
/// looked up without rendering; where that gives a list, the list is used.
/// Any other text is rendered: a list is used; a text counts as the one item
/// where the source holds no expression syntax; anything else is a failure.
pub fn resolve_loop_items(
    items: &Node,
    tera: &mut tera::Tera,
    context: &tera::Context,
    vars: &StrMap<Node>,
) -> (r: Result<Option<Vec<Node>>, LoopError>)
    ensures
        match direct_items(items@, vars@) {
            Some(list) => r is Ok && r.unwrap() is Some && views_of(r.unwrap().unwrap()@) == list,
            None => match items@ {
                NodeView::String(text) => match r {
                    Ok(found) => found is Some && exists|v: NodeView|
                        #[trigger] may_render(text, context_keys(*context), false, v)
                            && rendered_items(text, v) == Some(views_of(found.unwrap()@)),
                    Err(e) => unlooped(text, context_keys(*context), e),
                },
                _ => r is Err && r.unwrap_err().fault == LoopFault::UnsupportedType,
            },
        },
    filter_names(*final(tera)) == filter_names(*old(tera)),
{
    match items {
        Node::Sequence(seq) => Ok(Some(clone_nodes(seq))),
        Node::String(text) => {
            match extract_simple_variable(text.as_str()) {
                Some(key) => match get_nested_value(key, vars) {
                    Some(Node::Sequence(seq)) => {
                        return Ok(Some(clone_nodes(seq)));
                    },
                    _ => {},
                },
                None => {},
            }
            let rendered = render_value(text.as_str(), tera, context, false);
            let r = loop_from_render(text.as_str(), rendered);
            proof {
                if r is Ok {
                    assert(may_render(text@, context_keys(*context), false, rendered.unwrap()@));
                }
            }
            r
        },
        _ => Err(
            LoopError { fault: LoopFault::UnsupportedType, source: String::new(), cause: None },
        ),
    }
}

impl crate::playbook::task::Task {
    /// The items over which the task is repeated, from its loop source.
    pub fn resolve_loop_items(
        &self,
        items: &Node,
        tera: &mut tera::Tera,
        context: &tera::Context,
        vars: &StrMap<Node>,
    ) -> (r: Result<Option<Vec<Node>>, LoopError>)
        ensures
            match direct_items(items@, vars@) {
                Some(list) => r is Ok && r.unwrap() is Some && views_of(r.unwrap().unwrap()@)
                    == list,
                None => match items@ {
                    NodeView::String(text) => match r {
                        Ok(found) => found is Some && exists|v: NodeView|
                            #[trigger] may_render(text, context_keys(*context), false, v)
                                && rendered_items(text, v) == Some(views_of(found.unwrap()@)),
                        Err(e) => unlooped(text, context_keys(*context), e),
                    },
                    _ => r is Err && r.unwrap_err().fault == LoopFault::UnsupportedType,
                },
            },
        filter_names(*final(tera)) == filter_names(*old(tera)),
    {
        resolve_loop_items(items, tera, context, vars)
    }
}

} // verus!
