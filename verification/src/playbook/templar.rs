//! Rendering templates and evaluating conditions against the variables of
//! a host.

use vstd::prelude::*;
use crate::engine::{
    add_raw_template, clone_engine, context_contains_key, context_keys, filter_names,
    new_identifier, render_named, render_str,
};
use crate::node::{Node, NodeView, NumView};
use crate::strmap::names_of;
use crate::text::{
    contains_text, has_sub, is_space, is_space_exec, join2, lead_spaces, occurs_at,
    occurs_at_exec, replace_text, replaced, same_text, slice_text, str_contains, to_chars,
    trim_bounds, trimmed,
};
use crate::yaml::{json_value_of, parse_json, parse_yaml, yaml_value_of};

verus! {

/// How often at most a text is passed through the evaluator.
pub const MAX_TEMPLATE_RECURSION: usize = 10;

/// The kinds of failure of a rendering.
#[derive(Debug, Clone, Copy, PartialEq, Eq, Structural)]
pub enum RenderFault {
    /// A name that the context does not define is piped into a filter.
    UndefinedWithFilter,
    /// The evaluator refused a template of several lines.
    Template,
    /// The evaluator could not read the template, which names variables
    /// that the context does not define.
    ParseUndefined,
    /// The evaluator reports a variable that it did not find.
    UndefinedVariable,
    /// The evaluator reports a filter that it did not find.
    UnknownFilter,
    /// The evaluator failed otherwise.
    Other,
}

/// A failed rendering.
#[derive(Debug)]
pub struct RenderError {
    pub fault: RenderFault,
    /// The names that the context does not define.
    pub variables: Vec<String>,
    /// The template as it was given.
    pub template: String,
    /// What the evaluator said.
    pub detail: String,
    /// The round in which the evaluator failed.
    pub depth: usize,
}

/// Whether a text holds expression syntax.
pub open spec fn has_syntax(s: Seq<char>) -> bool {
    has_sub(s, "{{"@) || has_sub(s, "{%"@)
}

/// Whether a text holds nothing that the evaluator reads: no expression, no
/// statement and no comment.
pub open spec fn is_plain(s: Seq<char>) -> bool {
    !has_sub(s, "{{"@) && !has_sub(s, "{%"@) && !has_sub(s, "{#"@)
}

/// The filter calls with one unnamed argument that are rewritten to the
/// named form that the evaluator reads. A text without expression syntax is
/// left as it is.
pub open spec fn converted(input: Seq<char>) -> Seq<char> {
    if has_syntax(input) && has_sub(input, "password_hash("@) {
        let a = replaced(input, "password_hash('sha512')"@, "password_hash(hash_type='sha512')"@);
        let b = replaced(a, "password_hash('sha256')"@, "password_hash(hash_type='sha256')"@);
        let c = replaced(b, "password_hash('md5')"@, "password_hash(hash_type='md5')"@);
        let d = replaced(c, "password_hash('bcrypt')"@, "password_hash(hash_type='bcrypt')"@);
        let e = replaced(
            d,
            "password_hash(\"sha512\")"@,
            "password_hash(hash_type=\"sha512\")"@,
        );
        let f = replaced(
            e,
            "password_hash(\"sha256\")"@,
            "password_hash(hash_type=\"sha256\")"@,
        );
        let g = replaced(f, "password_hash(\"md5\")"@, "password_hash(hash_type=\"md5\")"@);
        replaced(g, "password_hash(\"bcrypt\")"@, "password_hash(hash_type=\"bcrypt\")"@)
    } else {
        input
    }
}

/// Rewrites the filter calls that the evaluator would not read.
pub fn convert_ansible_to_tera_syntax(input: &str) -> (r: String)
    ensures
        r@ == converted(input@),
{
    if (str_contains(input, "{{") || str_contains(input, "{%")) && str_contains(
        input,
        "password_hash(",
    ) {
        proof {
            reveal_strlit("password_hash('sha512')");
            reveal_strlit("password_hash('sha256')");
            reveal_strlit("password_hash('md5')");
            reveal_strlit("password_hash('bcrypt')");
            reveal_strlit("password_hash(\"sha512\")");
            reveal_strlit("password_hash(\"sha256\")");
            reveal_strlit("password_hash(\"md5\")");
            reveal_strlit("password_hash(\"bcrypt\")");
        }
        let a = replace_text(input, "password_hash('sha512')", "password_hash(hash_type='sha512')");
        let b = replace_text(
            a.as_str(),
            "password_hash('sha256')",
            "password_hash(hash_type='sha256')",
        );
        let c = replace_text(b.as_str(), "password_hash('md5')", "password_hash(hash_type='md5')");
        let d = replace_text(
            c.as_str(),
            "password_hash('bcrypt')",
            "password_hash(hash_type='bcrypt')",
        );
        let e = replace_text(
            d.as_str(),
            "password_hash(\"sha512\")",
            "password_hash(hash_type=\"sha512\")",
        );
        let f = replace_text(
            e.as_str(),
            "password_hash(\"sha256\")",
            "password_hash(hash_type=\"sha256\")",
        );
        let g = replace_text(
            f.as_str(),
            "password_hash(\"md5\")",
            "password_hash(hash_type=\"md5\")",
        );
        replace_text(g.as_str(), "password_hash(\"bcrypt\")", "password_hash(hash_type=\"bcrypt\")")
    } else {
        input.to_owned()
    }
}

/// The first position at or after `i` that holds no white space.
pub open spec fn skip_spaces(t: Seq<char>, i: int) -> int
    decreases t.len() - i,
{
    if 0 <= i < t.len() && is_space(t[i]) {
        skip_spaces(t, i + 1)
    } else {
        i
    }
}

/// Whether a name ends before position `i`: at white space, at a pipe, or
/// where an expression closes.
pub open spec fn ends_name(t: Seq<char>, i: int) -> bool {
    is_space(t[i]) || t[i] == '|' || occurs_at(t, "}}"@, i)
}

/// The first position at or after `i` before which a name ends.
pub open spec fn name_end(t: Seq<char>, i: int) -> int
    decreases t.len() - i,
{
    if 0 <= i < t.len() && !ends_name(t, i) {
        name_end(t, i + 1)
    } else {
        i
    }
}

/// The facts that are never reported as undefined.
pub open spec fn is_builtin(name: Seq<char>) -> bool {
    name == "inventory_hostname"@ || name == "ansible_hostname"@ || name == "ansible_host"@ || name
        == "ansible_port"@ || name == "ansible_ssh_user"@ || name == "ansible_user"@ || name
        == "group_names"@ || name == "groups"@
}

/// The names that lead an expression at or after position `i` and that are
/// neither facts nor known, in order. The text is read from the left; after
/// the opening of an expression and white space, the name runs up to white
/// space, a pipe or the closing. An expression that begins with a quote ends
/// the reading.
pub open spec fn undefined_from(t: Seq<char>, i: int, known: Set<Seq<char>>) -> Seq<Seq<char>>
    decreases t.len() - i,
{
    if i < 0 || i >= t.len() {
        Seq::empty()
    } else if occurs_at(t, "{{"@, i) {
        let a = skip_spaces(t, i + 2);
        let b = name_end(t, a);
        if a < t.len() && (t[a] == '\'' || t[a] == '"') {
            Seq::empty()
        } else if b <= i || b > t.len() {
            Seq::empty()
        } else if b > a && !is_builtin(t.subrange(a, b)) && !known.contains(t.subrange(a, b)) {
            seq![t.subrange(a, b)] + undefined_from(t, b, known)
        } else {
            undefined_from(t, b, known)
        }
    } else {
        undefined_from(t, i + 1, known)
    }
}

/// The names that lead an expression of `t` and that are neither facts nor
/// known.
pub open spec fn undefined_in(t: Seq<char>, known: Set<Seq<char>>) -> Seq<Seq<char>> {
    undefined_from(t, 0, known)
}

/// Whether a name is one of the facts that are never reported.
fn builtin(name: &str) -> (r: bool)
    ensures
        r == is_builtin(name@),
{
    same_text(name, "inventory_hostname") || same_text(name, "ansible_hostname") || same_text(
        name,
        "ansible_host",
    ) || same_text(name, "ansible_port") || same_text(name, "ansible_ssh_user") || same_text(
        name,
        "ansible_user",
    ) || same_text(name, "group_names") || same_text(name, "groups")
}

/// The names that lead an expression of the template and that the context
/// does not define, in order.
pub fn check_template_variables(template: &str, context: &tera::Context) -> (r: Vec<String>)
    ensures
        names_of(r@) == undefined_in(template@, context_keys(*context)),
{
    let t = to_chars(template);
    let open = to_chars("{{");
    let close = to_chars("}}");
    let ghost known = context_keys(*context);
    proof {
        reveal_strlit("{{");
        reveal_strlit("}}");
    }
    let mut out: Vec<String> = Vec::new();
    let mut i: usize = 0;
    assert(names_of(out@) + undefined_from(t@, 0, known) =~= undefined_in(template@, known));
    while i < t.len()
        invariant
            i <= t.len(),
            t@ == template@,
            open@ == "{{"@,
            close@ == "}}"@,
            open@.len() == 2,
            known == context_keys(*context),
            names_of(out@) + undefined_from(t@, i as int, known) == undefined_in(template@, known),
        decreases t.len() - i,
    {
        if occurs_at_exec(&t, &open, i) {
            let mut a: usize = i + 2;
            while a < t.len() && is_space_exec(t[a])
                invariant
                    i + 2 <= a <= t.len(),
                    skip_spaces(t@, i + 2) == skip_spaces(t@, a as int),
                decreases t.len() - a,
            {
                a = a + 1;
            }
            if a < t.len() && (t[a] == '\'' || t[a] == '"') {
                assert(undefined_from(t@, i as int, known) =~= Seq::<Seq<char>>::empty());
                assert(names_of(out@) =~= undefined_in(template@, known));
                return out;
            }
            let mut b: usize = a;
            while b < t.len() && !(is_space_exec(t[b]) || t[b] == '|' || occurs_at_exec(
                &t,
                &close,
                b,
            ))
                invariant
                    a <= b <= t.len(),
                    close@ == "}}"@,
                    name_end(t@, a as int) == name_end(t@, b as int),
                decreases t.len() - b,
            {
                b = b + 1;
            }
            let ghost before = names_of(out@);
            if b > a {
                let name = slice_text(&t, a, b);
                if !builtin(name.as_str()) && !context_contains_key(context, name.as_str()) {
                    out.push(name);
                    assert(names_of(out@) =~= before + seq![t@.subrange(a as int, b as int)]);
                }
            }
            assert(names_of(out@) + undefined_from(t@, b as int, known) =~= before
                + undefined_from(t@, i as int, known));
            i = b;
        } else {
            i = i + 1;
        }
    }
    assert(names_of(out@) + undefined_from(t@, i as int, known) =~= names_of(out@));
    out
}

/// The first of `names`, from position `k` on, that stands in `t` followed
/// by a space and a pipe.
pub open spec fn first_filtered(t: Seq<char>, names: Seq<Seq<char>>, k: int) -> Option<Seq<char>>
    decreases names.len() - k,
{
    if k < 0 || k >= names.len() {
        None
    } else if has_sub(t, names[k] + " |"@) {
        Some(names[k])
    } else {
        first_filtered(t, names, k + 1)
    }
}

/// The name that makes a template fail before it is rendered: the first
/// name that the context does not define and that is piped into a filter.
pub open spec fn undefined_filtered(t: Seq<char>, known: Set<Seq<char>>) -> Option<Seq<char>> {
    if has_sub(t, "{{"@) {
        first_filtered(t, undefined_in(t, known), 0)
    } else {
        None
    }
}

/// The check before rendering: the first undefined name that is piped into
/// a filter.
pub fn precheck(template: &str, context: &tera::Context) -> (r: Option<String>)
    ensures
        crate::text::opt_view(r) == undefined_filtered(template@, context_keys(*context)),
{
    if !str_contains(template, "{{") {
        return None;
    }
    let issues = check_template_variables(template, context);
    let t = to_chars(template);
    let ghost names = names_of(issues@);
    let mut k: usize = 0;
    while k < issues.len()
        invariant
            k <= issues.len(),
            t@ == template@,
            names == names_of(issues@),
            names == undefined_in(template@, context_keys(*context)),
            has_sub(template@, "{{"@),
            first_filtered(t@, names, 0) == first_filtered(t@, names, k as int),
        decreases issues.len() - k,
    {
        let probe = join2(issues[k].as_str(), " |");
        let p = to_chars(probe.as_str());
        assert(names[k as int] == issues@[k as int]@);
        if contains_text(&t, &p) {
            return Some(issues[k].clone());
        }
        k = k + 1;
    }
    None
}

/// Whether a text has no more than one line: it is not empty, and a line
/// feed stands at its end or nowhere.
pub open spec fn single_line(s: Seq<char>) -> bool {
    s.len() > 0 && forall|i: int| 0 <= i < s.len() - 1 ==> s[i] != '\n'
}

/// Whether a rendered text is taken for a plain line: one line with a space
/// in it that does not begin like a list or an object.
pub open spec fn looks_plain(s: Seq<char>) -> bool {
    let n = lead_spaces(s);
    single_line(s) && s.contains(' ') && !(n < s.len() && (s[n] == '-' || s[n] == '{' || s[n]
        == '['))
}

/// The typed value of a rendered text `current` of the template `input`,
/// given what the text is as JSON and as YAML. A forced text stays a text;
/// so does an input without expression syntax that came back unchanged, and
/// a plain line that YAML would read as a mapping. Else the JSON value
/// counts, then the YAML value, unless that is null for a text that is not
/// blank; else the text.
pub open spec fn coerced(
    input: Seq<char>,
    current: Seq<char>,
    force_string: bool,
    json: Option<NodeView>,
    yaml: Option<NodeView>,
) -> NodeView {
    if force_string {
        NodeView::String(current)
    } else if !has_syntax(input) && current == input {
        NodeView::String(current)
    } else if looks_plain(current) && yaml is Some && yaml.unwrap() is Mapping {
        NodeView::String(current)
    } else if json is Some {
        json.unwrap()
    } else if yaml is Some {
        if yaml.unwrap() is Null && trimmed(current).len() > 0 {
            NodeView::String(current)
        } else {
            yaml.unwrap()
        }
    } else {
        NodeView::String(current)
    }
}

/// Whether a text has no more than one line, has a space and does not
/// begin like a list or an object.
fn plain_line(s: &Vec<char>) -> (r: bool)
    ensures
        r == looks_plain(s@),
{
    if s.len() == 0 {
        return false;
    }
    let mut i: usize = 0;
    let mut space = false;
    while i < s.len()
        invariant
            i <= s.len(),
            s.len() > 0,
            forall|j: int| 0 <= j < i && j < s.len() - 1 ==> s[j] != '\n',
            space == s@.take(i as int).contains(' '),
        decreases s.len() - i,
    {
        if s[i] == '\n' && i + 1 < s.len() {
            return false;
        }
        proof {
            let before = s@.take(i as int);
            let after = s@.take(i + 1);
            assert(after.drop_last() =~= before);
            if before.contains(' ') {
                let j = choose|j: int| 0 <= j < before.len() && before[j] == ' ';
                assert(after[j] == ' ');
            }
            if after.contains(' ') && s[i as int] != ' ' {
                let j = choose|j: int| 0 <= j < after.len() && after[j] == ' ';
                assert(before[j] == ' ');
            }
            if s[i as int] == ' ' {
                assert(after[i as int] == ' ');
            }
        }
        if s[i] == ' ' {
            space = true;
        }
        i = i + 1;
    }
    assert(s@.take(i as int) =~= s@);
    if !space {
        return false;
    }
    let (a, _b) = trim_bounds(s, 0, s.len());
    assert(s@.subrange(0, s.len() as int) =~= s@);
    !(a < s.len() && (s[a] == '-' || s[a] == '{' || s[a] == '['))
}

/// The typed value of a rendered text, given what the text is as JSON and
/// as YAML.
pub fn coerce_with(
    input: &str,
    current: &str,
    force_string: bool,
    json: Option<Node>,
    yaml: Option<Node>,
) -> (r: Node)
    ensures
        r@ == coerced(
            input@,
            current@,
            force_string,
            crate::playbook::task::opt_node(json),
            crate::playbook::task::opt_node(yaml),
        ),
{
    if force_string {
        return Node::text(current);
    }
    if !str_contains(input, "{{") && !str_contains(input, "{%") && same_text(current, input) {
        return Node::text(current);
    }
    let chars = to_chars(current);
    if plain_line(&chars) {
        match &yaml {
            Some(Node::Mapping(_)) => {
                return Node::text(current);
            },
            _ => {},
        }
    }
    match json {
        Some(v) => v,
        None => match yaml {
            Some(v) => {
                let (a, b) = trim_bounds(&chars, 0, chars.len());
                assert(chars@.subrange(0, chars.len() as int) =~= chars@);
                let null = match &v {
                    Node::Null => true,
                    _ => false,
                };
                if null && b > a {
                    Node::text(current)
                } else {
                    v
                }
            },
            None => Node::text(current),
        },
    }
}

/// The typed value of a rendered text.
pub fn coerce_rendered(input: &str, current: &str, force_string: bool) -> (r: Node)
    ensures
        r@ == coerced(
            input@,
            current@,
            force_string,
            json_value_of(current@),
            yaml_value_of(current@),
        ),
{
    if force_string {
        return Node::text(current);
    }
    let json = parse_json(current);
    let yaml = parse_yaml(current);
    coerce_with(input, current, force_string, json, yaml)
}

/// A template without expression syntax that the evaluator leaves as it is
/// stays a text, whatever it would be as JSON or YAML.
pub proof fn law_plain_text_stays_text(
    input: Seq<char>,
    force_string: bool,
    json: Option<NodeView>,
    yaml: Option<NodeView>,
)
    requires
        !has_syntax(input),
    ensures
        coerced(input, input, force_string, json, yaml) == NodeView::String(input),
{
}

/// The kind of failure that the text of an error of the evaluator stands
/// for, given how many names of the template the context does not define.
pub open spec fn fault_of(error: Seq<char>, undefined: nat) -> RenderFault {
    if has_sub(error, "Failed to parse"@) && has_sub(error, "__tera_one_off"@) && undefined > 0 {
        RenderFault::ParseUndefined
    } else if has_sub(error, "Variable"@) && has_sub(error, "not found"@) {
        RenderFault::UndefinedVariable
    } else if has_sub(error, "Filter"@) && has_sub(error, "not found"@) {
        RenderFault::UnknownFilter
    } else {
        RenderFault::Other
    }
}

/// The kind of failure that the text of an error of the evaluator stands
/// for.
pub fn classify_fault(error: &str, undefined: usize) -> (r: RenderFault)
    ensures
        r == fault_of(error@, undefined as nat),
{
    if str_contains(error, "Failed to parse") && str_contains(error, "__tera_one_off") && undefined
        > 0 {
        RenderFault::ParseUndefined
    } else if str_contains(error, "Variable") && str_contains(error, "not found") {
        RenderFault::UndefinedVariable
    } else if str_contains(error, "Filter") && str_contains(error, "not found") {
        RenderFault::UnknownFilter
    } else {
        RenderFault::Other
    }
}

/// What one pass through the evaluator made of a text.
#[derive(Debug)]
pub enum Round {
    /// The pass changed the text to this one.
    Changed(String),
    /// The pass left the text as it was.
    Settled,
    /// The evaluator failed: the number of the pass, and what it said.
    Failed(usize, String),
}

/// The mathematical value of a round.
pub enum RoundView {
    Changed(Seq<char>),
    Settled,
    Failed(nat, Seq<char>),
}

impl View for Round {
    type V = RoundView;

    open spec fn view(&self) -> RoundView {
        match self {
            Round::Changed(t) => RoundView::Changed(t@),
            Round::Settled => RoundView::Settled,
            Round::Failed(n, e) => RoundView::Failed(*n as nat, e@),
        }
    }
}

/// What the evaluator answers to one text: the rendered text, or what it
/// says of its failure.
pub type Answer = Result<Seq<char>, Seq<char>>;

/// The mathematical value of an answer of the evaluator.
pub open spec fn answer_view(answer: Result<String, String>) -> Answer {
    match answer {
        Ok(t) => Ok(t@),
        Err(e) => Err(e@),
    }
}

/// What the pass of number `depth` makes of the text `current`, given the
/// answer of the evaluator: the text is settled exactly when the answer is
/// the text itself; any other answer is the next text; a failure carries
/// the number of its pass.
pub open spec fn round_of(current: Seq<char>, answer: Answer, depth: nat) -> RoundView {
    match answer {
        Ok(t) => if t == current {
            RoundView::Settled
        } else {
            RoundView::Changed(t)
        },
        Err(e) => RoundView::Failed(depth, e),
    }
}

/// What the pass of number `depth` makes of a text, given the answer of the
/// evaluator.
pub fn next_round(current: &str, answer: Result<String, String>, depth: usize) -> (r: Round)
    ensures
        r@ == round_of(current@, answer_view(answer), depth as nat),
{
    match answer {
        Ok(t) => if same_text(t.as_str(), current) {
            Round::Settled
        } else {
            Round::Changed(t)
        },
        Err(e) => Round::Failed(depth, e),
    }
}

/// Where a text stands after some passes through the evaluator.
pub enum Progress {
    /// Every pass so far changed the text, to this one at last.
    Open(Seq<char>),
    /// The pass of this number left this text as it was.
    Settled(Seq<char>, nat),
    /// The evaluator failed in the pass of this number, with these words.
    Failed(nat, Seq<char>),
}

/// Where the text `start` stands after the first `n` answers of the
/// evaluator, each given to the text that the answer before it left. Once a
/// pass has settled the text or failed, no further answer counts.
pub open spec fn progress(start: Seq<char>, answers: Seq<Answer>, n: nat) -> Progress
    decreases n,
{
    if n == 0 || n > answers.len() {
        Progress::Open(start)
    } else {
        match progress(start, answers, (n - 1) as nat) {
            Progress::Open(current) => match round_of(current, answers[n - 1], n) {
                RoundView::Changed(t) => Progress::Open(t),
                RoundView::Settled => Progress::Settled(current, n),
                RoundView::Failed(depth, e) => Progress::Failed(depth, e),
            },
            done => done,
        }
    }
}

/// A text after its passes through the evaluator.
#[derive(Debug)]
pub struct FixedPoint {
    /// The text after the last pass that changed it.
    pub text: String,
    /// The number of passes.
    pub rounds: usize,
    /// Whether the last pass left the text as it was.
    pub settled: bool,
}

/// Whether `r` is what the passes with the given answers come to: as many
/// passes as answers, no more than `MAX_TEMPLATE_RECURSION`; the last one
/// settles the text, or fails, or is the last that may be made, and then its
/// text is the result and there is no failure.
pub open spec fn passed(
    start: Seq<char>,
    answers: Seq<Answer>,
    r: Result<FixedPoint, (usize, String)>,
) -> bool {
    1 <= answers.len() <= MAX_TEMPLATE_RECURSION && match progress(
        start,
        answers,
        answers.len(),
    ) {
        Progress::Open(t) => answers.len() == MAX_TEMPLATE_RECURSION && r is Ok && r.unwrap().text@
            == t && r.unwrap().rounds == answers.len() && !r.unwrap().settled,
        Progress::Settled(t, n) => n == answers.len() && r is Ok && r.unwrap().text@ == t
            && r.unwrap().rounds == n && r.unwrap().settled,
        Progress::Failed(n, e) => n == answers.len() && r is Err && r.unwrap_err().0 == n
            && r.unwrap_err().1@ == e,
    }
}

/// The first `n` answers alone decide where a text stands after `n` passes.
pub proof fn lemma_progress_prefix(start: Seq<char>, a: Seq<Answer>, b: Seq<Answer>, n: nat)
    requires
        n <= a.len(),
        n <= b.len(),
        forall|i: int| 0 <= i < n ==> a[i] == b[i],
    ensures
        progress(start, a, n) == progress(start, b, n),
    decreases n,
{
    if n > 0 {
        lemma_progress_prefix(start, a, b, (n - 1) as nat);
    }
}

/// Rendering fails only where the evaluator does: while every answer is a
/// text, the passes come to a text, also where none of them settles it.
pub proof fn law_rendering_never_fails_alone(start: Seq<char>, answers: Seq<Answer>, n: nat)
    requires
        n <= answers.len(),
        forall|i: int| 0 <= i < n ==> (#[trigger] answers[i]) is Ok,
    ensures
        !(progress(start, answers, n) is Failed),
    decreases n,
{
    if n > 0 {
        law_rendering_never_fails_alone(start, answers, (n - 1) as nat);
    }
}

/// A text whose rendering holds another expression is rendered again: where
/// the first pass gives `middle`, the second `end`, and the third leaves
/// `end` as it is, the text is settled at `end` after three passes.
pub proof fn law_nested_expression_resolves(
    start: Seq<char>,
    middle: Seq<char>,
    end: Seq<char>,
)
    requires
        start != middle,
        middle != end,
    ensures
        progress(start, seq![Ok(middle), Ok(end), Ok(end)], 3) == Progress::Settled(end, 3),
{
    let answers: Seq<Answer> = seq![Ok(middle), Ok(end), Ok(end)];
    assert(progress(start, answers, 0) == Progress::Open(start));
    assert(progress(start, answers, 1) == Progress::Open(middle));
    assert(progress(start, answers, 2) == Progress::Open(end));
}

/// Passes a text through the evaluator until a pass leaves it as it is, at
/// most `MAX_TEMPLATE_RECURSION` times. Reaching that number is no failure:
/// the text of the last pass is returned. A failure of the evaluator comes
/// back with the round in which it happened. What the evaluator answers is
/// not known beforehand; the result is what the passes come to on the
/// answers that it gave.
pub fn render_fixed_point(start: &str, tera: &mut tera::Tera, context: &tera::Context) -> (r:
    Result<FixedPoint, (usize, String)>)
    ensures
        exists|answers: Seq<Answer>| #[trigger] passed(start@, answers, r),
        filter_names(*final(tera)) == filter_names(*old(tera)),
{
    let mut current = start.to_owned();
    let mut depth: usize = 0;
    let ghost mut answers: Seq<Answer> = Seq::empty();
    loop
        invariant
            depth < MAX_TEMPLATE_RECURSION,
            answers.len() == depth,
            progress(start@, answers, depth as nat) == Progress::Open(current@),
            filter_names(*tera) == filter_names(*old(tera)),
        decreases MAX_TEMPLATE_RECURSION - depth,
    {
        depth = depth + 1;
        let answer = render_str(tera, current.as_str(), context);
        let ghost before = answers;
        proof {
            answers = answers.push(answer_view(answer));
            lemma_progress_prefix(start@, before, answers, (depth - 1) as nat);
        }
        match next_round(current.as_str(), answer, depth) {
            Round::Changed(t) => {
                current = t;
                if depth >= MAX_TEMPLATE_RECURSION {
                    let r = Ok(FixedPoint { text: current, rounds: depth, settled: false });
                    assert(passed(start@, answers, r));
                    return r;
                }
            },
            Round::Settled => {
                let r = Ok(FixedPoint { text: current, rounds: depth, settled: true });
                assert(passed(start@, answers, r));
                return r;
            },
            Round::Failed(round, e) => {
                let r = Err((round, e));
                assert(passed(start@, answers, r));
                return r;
            },
        }
    }
}

/// Whether `e` can be the failure of a rendering of `input`: the text holds
/// something for the evaluator to read, and the failure is that of an
/// undefined name piped into a filter exactly where there is such a name.
pub open spec fn render_fails(input: Seq<char>, known: Set<Seq<char>>, e: RenderError) -> bool {
    !is_plain(input) && e.template@ == input && (e.fault == RenderFault::UndefinedWithFilter) == (
    undefined_filtered(converted(input), known) is Some) && (e.fault
        == RenderFault::UndefinedWithFilter ==> names_of(e.variables@) == seq![
        undefined_filtered(converted(input), known).unwrap(),
    ])
}

/// Whether `v` can be what a rendering of `input` gives: no undefined name
/// is piped into a filter, and `v` is the typed value of some text. A text
/// that holds nothing for the evaluator to read is its own rendering.
pub open spec fn may_render(
    input: Seq<char>,
    known: Set<Seq<char>>,
    force_string: bool,
    v: NodeView,
) -> bool {
    undefined_filtered(converted(input), known) is None && (is_plain(input) ==> v
        == NodeView::String(input)) && exists|text: Seq<char>|
        v == #[trigger] coerced(
            input,
            text,
            force_string,
            json_value_of(text),
            yaml_value_of(text),
        )
}

/// A text that holds nothing for the evaluator to read has one rendering
/// only: the text itself, as a text, whatever it would be as JSON or YAML
/// and whether or not a text is forced.
pub proof fn law_plain_text_renders_to_itself(
    input: Seq<char>,
    known: Set<Seq<char>>,
    force_string: bool,
    v: NodeView,
)
    requires
        is_plain(input),
    ensures
        may_render(input, known, force_string, v) <==> v == NodeView::String(input),
{
    if v == NodeView::String(input) {
        assert(v == coerced(
            input,
            input,
            force_string,
            json_value_of(input),
            yaml_value_of(input),
        ));
    }
}

/// Whether `r` is what rendering `input` comes to on the given answers of
/// the evaluator. A forced text of several lines gets one answer, which is
/// the result. Any other text is passed through the evaluator, and the text
/// that the passes come to is given its type; a failure of the evaluator is
/// the failure of the rendering, with the number of its pass.
pub open spec fn renders_on(
    input: Seq<char>,
    known: Set<Seq<char>>,
    force_string: bool,
    answers: Seq<Answer>,
    r: Result<Node, RenderError>,
) -> bool {
    if force_string && has_sub(converted(input), "\n"@) {
        answers.len() == 1 && match answers[0] {
            Ok(t) => r is Ok && r.unwrap()@ == NodeView::String(t),
            Err(e) => r is Err && r.unwrap_err().fault == RenderFault::Template
                && r.unwrap_err().detail@ == e,
        }
    } else {
        1 <= answers.len() <= MAX_TEMPLATE_RECURSION && match progress(
            converted(input),
            answers,
            answers.len(),
        ) {
            Progress::Open(t) => answers.len() == MAX_TEMPLATE_RECURSION && r is Ok && r.unwrap()@
                == coerced(input, t, force_string, json_value_of(t), yaml_value_of(t)),
            Progress::Settled(t, n) => n == answers.len() && r is Ok && r.unwrap()@ == coerced(
                input,
                t,
                force_string,
                json_value_of(t),
                yaml_value_of(t),
            ),
            Progress::Failed(n, e) => n == answers.len() && r is Err && r.unwrap_err().depth == n
                && r.unwrap_err().detail@ == e && r.unwrap_err().fault == fault_of(
                e,
                undefined_in(input, known).len(),
            ),
        }
    }
}

/// Renders a template against a context and gives the result its type.
///
/// A text that holds nothing for the evaluator to read comes back as it is,
/// as a text. Of any other text, a name that the context does not define and
/// that is piped into a filter fails the rendering. A forced text of several
/// lines is rendered once, by an engine of its own with the same registry.
/// Any other text is passed through the evaluator until it stays as it is,
/// and the result is typed unless a text is forced.
pub fn render_value(
    input: &str,
    tera: &mut tera::Tera,
    context: &tera::Context,
    force_string: bool,
) -> (r: Result<Node, RenderError>)
    ensures
        match r {
            Ok(v) => may_render(input@, context_keys(*context), force_string, v@) && (force_string
                ==> v@ is String),
            Err(e) => render_fails(input@, context_keys(*context), e),
        },
        is_plain(input@) ==> r is Ok && r.unwrap()@ == NodeView::String(input@),
        !is_plain(input@) && undefined_filtered(converted(input@), context_keys(*context))
            is None ==> exists|answers: Seq<Answer>| #[trigger]
            renders_on(input@, context_keys(*context), force_string, answers, r),
        filter_names(*final(tera)) == filter_names(*old(tera)),
{
    if !str_contains(input, "{{") && !str_contains(input, "{%") && !str_contains(input, "{#") {
        let v = Node::text(input);
        assert(v@ == coerced(
            input@,
            input@,
            force_string,
            json_value_of(input@),
            yaml_value_of(input@),
        ));
        return Ok(v);
    }
    let text = convert_ansible_to_tera_syntax(input);
    match precheck(text.as_str(), context) {
        Some(name) => {
            let mut variables: Vec<String> = Vec::new();
            variables.push(name);
            assert(names_of(variables@) =~= seq![
                undefined_filtered(converted(input@), context_keys(*context)).unwrap(),
            ]);
            return Err(
                RenderError {
                    fault: RenderFault::UndefinedWithFilter,
                    variables,
                    template: input.to_owned(),
                    detail: String::new(),
                    depth: 0,
                },
            );
        },
        None => {},
    }
    if force_string && str_contains(text.as_str(), "\n") {
        let mut local = clone_engine(tera);
        let id = new_identifier();
        let name = join2("__inline_content_", id.as_str());
        let answer = match add_raw_template(&mut local, name.as_str(), text.as_str()) {
            Ok(_) => render_named(&local, name.as_str(), context),
            Err(e) => Err(e),
        };
        let ghost said: Seq<Answer> = seq![answer_view(answer)];
        let r = match answer {
            Ok(rendered) => Ok(coerce_rendered(input, rendered.as_str(), true)),
            Err(e) => Err(
                RenderError {
                    fault: RenderFault::Template,
                    variables: Vec::new(),
                    template: input.to_owned(),
                    detail: e,
                    depth: 0,
                },
            ),
        };
        assert(renders_on(input@, context_keys(*context), force_string, said, r));
        return r;
    }
    let passes = render_fixed_point(text.as_str(), tera, context);
    let ghost said = choose|answers: Seq<Answer>| passed(text@, answers, passes);
    let r = match passes {
        Ok(p) => Ok(coerce_rendered(input, p.text.as_str(), force_string)),
        Err(e) => {
            let undefined = check_template_variables(input, context);
            assert(names_of(undefined@).len() == undefined@.len());
            let fault = classify_fault(e.1.as_str(), undefined.len());
            Err(
                RenderError {
                    fault,
                    variables: undefined,
                    template: input.to_owned(),
                    detail: e.1,
                    depth: e.0,
                },
            )
        },
    };
    assert(renders_on(input@, context_keys(*context), force_string, said, r));
    r
}

/// Whether a value counts as true: false, zero, the empty text, the empty
/// list, the empty mapping and null do not; all else does.
pub open spec fn truthy(v: NodeView) -> bool
    decreases v,
{
    match v {
        NodeView::Bool(b) => b,
        NodeView::Number(NumView::PosInt(n)) => n != 0,
        NodeView::Number(NumView::NegInt(n)) => n != 0,
        NodeView::Number(NumView::Float(t)) => !(t == "0.0"@ || t == "-0.0"@),
        NodeView::String(s) => s.len() != 0,
        NodeView::Sequence(s) => s.len() != 0,
        NodeView::Mapping(m) => m.len() != 0,
        NodeView::Null => false,
        NodeView::Tagged(_, inner) => truthy(*inner),
    }
}

/// Whether a value counts as true.
pub fn evaluate_truthiness(value: &Node) -> (r: bool)
    ensures
        r == truthy(value@),
    decreases value,
{
    match value {
        Node::Bool(b) => *b,
        Node::Number(n) => match n {
            crate::node::Num::PosInt(u) => *u != 0,
            crate::node::Num::NegInt(i) => *i != 0,
            crate::node::Num::Float(t) => !(same_text(t.as_str(), "0.0") || same_text(
                t.as_str(),
                "-0.0",
            )),
        },
        Node::String(s) => !s.as_str().is_empty(),
        Node::Sequence(items) => {
            proof {
                Node::lemma_models(items@, items@.len());
            }
            items.len() != 0
        },
        Node::Mapping(m) => !m.is_empty(),
        Node::Null => false,
        Node::Tagged(_, inner) => evaluate_truthiness(inner),
    }
}

/// A condition as the template that evaluates it.
pub open spec fn condition_template(condition: Seq<char>) -> Seq<char> {
    "{{ "@ + condition + " }}"@
}

/// Whether `r` can be what evaluating a condition gives: whether some
/// rendering of the condition as an expression counts as true, or a failure
/// of that rendering.
pub open spec fn judged(condition: Seq<char>, known: Set<Seq<char>>, r: Result<bool, RenderError>) -> bool {
    match r {
        Ok(b) => exists|v: NodeView|
            #[trigger] may_render(condition_template(condition), known, false, v) && b == truthy(v),
        Err(e) => render_fails(condition_template(condition), known, e),
    }
}

/// Evaluates a condition: wraps it as an expression, renders it, and says
/// whether the result counts as true.
pub fn evaluate_condition(condition: &str, tera: &mut tera::Tera, context: &tera::Context) -> (r:
    Result<bool, RenderError>)
    ensures
        judged(condition@, context_keys(*context), r),
        filter_names(*final(tera)) == filter_names(*old(tera)),
{
    let head = join2("{{ ", condition);
    let template = join2(head.as_str(), " }}");
    match render_value(template.as_str(), tera, context, false) {
        Ok(v) => {
            let b = evaluate_truthiness(&v);
            assert(may_render(condition_template(condition@), context_keys(*context), false, v@));
            Ok(b)
        },
        Err(e) => Err(e),
    }
}

} // verus!
