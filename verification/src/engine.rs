//! The expression evaluator: what the library asks of the template engine.

use vstd::prelude::*;
use crate::node::Node;
use crate::strmap::StrMap;
use crate::yaml::to_yaml;

verus! {

#[verifier::external_type_specification]
#[verifier::external_body]
pub struct ExTera(tera::Tera);

#[verifier::external_type_specification]
#[verifier::external_body]
pub struct ExContext(tera::Context);

/// The names that a context defines.
pub uninterp spec fn context_keys(c: tera::Context) -> Set<Seq<char>>;

/// `tera::Context::new`: a context that defines no name.
#[verifier::external_body]
pub(crate) fn new_context() -> (c: tera::Context)
    ensures
        context_keys(c) == Set::<Seq<char>>::empty(),
{
    tera::Context::new()
}

/// Whether a value can be kept as JSON.
pub uninterp spec fn json_ready(v: crate::node::NodeView) -> bool;

/// `serde_json::to_value`, then `tera::Context::insert`: defines `key`
/// where the value can be kept as JSON, and says whether it did. A value
/// with a number that YAML does not read cannot. No other name comes or
/// goes.
#[verifier::external_body]
pub(crate) fn context_insert(c: &mut tera::Context, key: &str, value: &Node) -> (r: bool)
    ensures
        r == json_ready(value@),
        r ==> context_keys(*final(c)) == context_keys(*old(c)).insert(key@),
        !r ==> context_keys(*final(c)) == context_keys(*old(c)),
{
    match to_yaml(value).map(serde_json::to_value) {
        Some(Ok(json)) => {
            c.insert(key, &json);
            true
        },
        _ => false,
    }
}

/// `tera::Context::contains_key`: whether the context defines `key`.
#[verifier::external_body]
pub(crate) fn context_contains_key(c: &tera::Context, key: &str) -> (r: bool)
    ensures
        r == context_keys(*c).contains(key@),
{
    c.contains_key(key)
}

/// `tera::Tera::default`: an engine with the built-in filters, tests and
/// functions of the outside crate and no template.
#[verifier::external_body]
pub(crate) fn new_engine() -> tera::Tera {
    tera::Tera::default()
}

/// The names of the filters that an engine knows.
pub uninterp spec fn filter_names(engine: tera::Tera) -> Set<Seq<char>>;

/// `tera::Tera::clone`: an engine with the same registry.
#[verifier::external_body]
pub(crate) fn clone_engine(engine: &tera::Tera) -> (r: tera::Tera)
    ensures
        filter_names(r) == filter_names(*engine),
{
    engine.clone()
}

/// `tera::Tera::render_str`: the text that the engine makes of a template
/// in a context, or the text of its error. What comes back may depend on the
/// time, on chance and on the environment, so nothing is claimed of it but
/// that the engine knows the same filters afterwards.
#[verifier::external_body]
pub(crate) fn render_str(engine: &mut tera::Tera, template: &str, context: &tera::Context) -> (r:
    Result<String, String>)
    ensures
        filter_names(*final(engine)) == filter_names(*old(engine)),
{
    match engine.render_str(template, context) {
        Ok(text) => Ok(text),
        Err(e) => Err(format!("{}", e)),
    }
}

/// `tera::Tera::add_raw_template`: keeps a template under a name, or gives
/// the text of the error.
#[verifier::external_body]
pub(crate) fn add_raw_template(engine: &mut tera::Tera, name: &str, content: &str) -> Result<
    (),
    String,
> {
    match engine.add_raw_template(name, content) {
        Ok(_) => Ok(()),
        Err(e) => Err(format!("{}", e)),
    }
}

/// `tera::Tera::render`: the text that the engine makes of the template
/// kept under a name, or the text of its error.
#[verifier::external_body]
pub(crate) fn render_named(engine: &tera::Tera, name: &str, context: &tera::Context) -> Result<
    String,
    String,
> {
    match engine.render(name, context) {
        Ok(text) => Ok(text),
        Err(e) => Err(format!("{}", e)),
    }
}

/// `uuid::Uuid::new_v4`: the text of a fresh random identifier.
#[verifier::external_body]
pub(crate) fn new_identifier() -> String {
    uuid::Uuid::new_v4().to_string()
}

/// The names among the first `n` variables whose value can be kept as
/// JSON.
pub open spec fn defined_names(vars: Seq<(Seq<char>, crate::node::NodeView)>, n: nat) -> Set<
    Seq<char>,
>
    decreases n,
{
    if n == 0 || n > vars.len() {
        Set::empty()
    } else if json_ready(vars[n - 1].1) {
        defined_names(vars, (n - 1) as nat).insert(vars[n - 1].0)
    } else {
        defined_names(vars, (n - 1) as nat)
    }
}

/// The names that `defined_names` gives are names of the variables.
pub proof fn lemma_defined_names(vars: Seq<(Seq<char>, crate::node::NodeView)>, n: nat, k: Seq<char>)
    requires
        n <= vars.len(),
        defined_names(vars, n).contains(k),
    ensures
        crate::strmap::pairs_map(vars).contains_key(k),
    decreases n,
{
    crate::strmap::lemma_find_key_map(vars, k);
    if n > 0 {
        if json_ready(vars[n - 1].1) && vars[n - 1].0 == k {
            crate::strmap::lemma_find_key_after(vars, k);
        } else {
            lemma_defined_names(vars, (n - 1) as nat, k);
        }
    }
}

/// The context that defines each variable whose value can be kept as JSON.
pub fn create_tera_context(vars: &StrMap<Node>) -> (c: tera::Context)
    ensures
        context_keys(c) == defined_names(vars.pairs(), vars.pairs().len()),
        context_keys(c).subset_of(vars@.dom()),
{
    let mut c = new_context();
    let ghost pairs = vars.pairs();
    let mut i: usize = 0;
    while i < vars.entries.len()
        invariant
            i <= vars.entries.len(),
            pairs == vars.pairs(),
            context_keys(c) == defined_names(pairs, i as nat),
        decreases vars.entries.len() - i,
    {
        assert(pairs[i as int] == (vars.entries@[i as int].0@, vars.entries@[i as int].1@));
        let _ = context_insert(&mut c, vars.entries[i].0.as_str(), &vars.entries[i].1);
        i = i + 1;
    }
    proof {
        crate::strmap::lemma_map_of_pairs(vars.entries@);
        assert forall|k: Seq<char>| context_keys(c).contains(k) implies vars@.dom().contains(k) by {
            lemma_defined_names(pairs, pairs.len(), k);
        }
    }
    c
}

} // verus!
