//! The filters that the library adds to the template engine: hashing a
//! password, selecting the items with an attribute, and taking an attribute
//! of each item.

use vstd::prelude::*;
use std::collections::hash_map::DefaultHasher;
use std::collections::HashMap;
use std::hash::Hasher;
use crate::node::{lookup_text, views_of, Node, NodeView};
use crate::engine::filter_names;
use crate::strmap::StrMap;
use crate::text::{hex_text, join2, same_text, text_of};
use crate::yaml::{from_yaml, to_yaml};

verus! {

#[verifier::external_type_specification]
#[verifier::external_body]
pub struct ExJsonValue(serde_json::Value);

#[verifier::external_type_specification]
#[verifier::external_body]
pub struct ExTeraError(tera::Error);

/// A filter that could not do its work.
#[derive(Debug)]
pub struct FilterError {
    pub message: String,
}

/// Hashes a password for the accounts of a system.
#[derive(Debug, Clone, Copy)]
pub struct PasswordHashFilter;

/// Keeps the items of a list whose attribute has a value.
#[derive(Debug, Clone, Copy)]
pub struct SelectAttrFilter;

/// Takes an attribute of each item of a list.
#[derive(Debug, Clone, Copy)]
pub struct MapAttributeFilter;

/// `sha_crypt::Sha512Params::new`, then `sha_crypt::sha512_simple`: a
/// SHA-512 hash of a password with a salt of its own, or the text of the
/// error.
#[verifier::external_body]
fn sha512_hash(password: &str, rounds: usize) -> Result<String, String> {
    match sha_crypt::Sha512Params::new(rounds) {
        Ok(params) => sha_crypt::sha512_simple(password, &params).map_err(|e| format!("{:?}", e)),
        Err(e) => Err(format!("{:?}", e)),
    }
}

/// `sha_crypt::Sha256Params::new`, then `sha_crypt::sha256_simple`: a
/// SHA-256 hash of a password with a salt of its own, or the text of the
/// error.
#[verifier::external_body]
fn sha256_hash(password: &str, rounds: usize) -> Result<String, String> {
    match sha_crypt::Sha256Params::new(rounds) {
        Ok(params) => sha_crypt::sha256_simple(password, &params).map_err(|e| format!("{:?}", e)),
        Err(e) => Err(format!("{:?}", e)),
    }
}

/// `rand::rng`, then `random_range`: a number below `bound`, by chance.
#[verifier::external_body]
fn random_below(bound: usize) -> (r: usize)
    requires
        bound > 0,
    ensures
        r < bound,
{
    rand::Rng::random_range(&mut rand::rng(), 0..bound)
}

/// `std::hash::Hash::hash` of a text: feeds the text to the hasher. Nothing
/// is claimed of what the hasher holds afterwards.
#[verifier::external_body]
fn feed_text(hasher: &mut DefaultHasher, input: &str) {
    std::hash::Hash::hash(input, hasher)
}

/// The characters of a salt.
pub open spec fn salt_chars() -> Seq<char> {
    "ABCDEFGHIJKLMNOPQRSTUVWXYZabcdefghijklmnopqrstuvwxyz0123456789"@
}

/// A salt of the given length, by chance: letters and digits.
pub fn generate_random_salt(length: usize) -> (r: String)
    ensures
        r@.len() == length,
        forall|i: int| 0 <= i < r@.len() ==> salt_chars().contains(#[trigger] r@[i]),
{
    let charset = crate::text::to_chars("ABCDEFGHIJKLMNOPQRSTUVWXYZabcdefghijklmnopqrstuvwxyz0123456789");
    proof {
        reveal_strlit("ABCDEFGHIJKLMNOPQRSTUVWXYZabcdefghijklmnopqrstuvwxyz0123456789");
    }
    let mut out: Vec<char> = Vec::new();
    let mut i: usize = 0;
    while i < length
        invariant
            i <= length,
            out@.len() == i,
            charset@ == salt_chars(),
            charset@.len() == 62,
            forall|j: int| 0 <= j < out@.len() ==> salt_chars().contains(#[trigger] out@[j]),
        decreases length - i,
    {
        let k = random_below(charset.len());
        out.push(charset[k]);
        i = i + 1;
    }
    text_of(&out)
}

/// The argument of a filter under one of two names, the first before the
/// second.
pub open spec fn argument(
    args: Map<Seq<char>, NodeView>,
    first: Seq<char>,
    second: Seq<char>,
) -> Option<NodeView> {
    if args.contains_key(first) {
        Some(args[first])
    } else if args.contains_key(second) {
        Some(args[second])
    } else {
        None
    }
}

/// The argument of a filter under one of two names.
fn arg<'a>(args: &'a StrMap<Node>, first: &str, second: &str) -> (r: Option<&'a Node>)
    ensures
        match r {
            Some(v) => argument(args@, first@, second@) == Some(v@),
            None => argument(args@, first@, second@) is None,
        },
{
    match args.get(first) {
        Some(v) => Some(v),
        None => args.get(second),
    }
}

/// The kind of hash that the arguments of the password filter ask for:
/// "sha512" where they name none; nothing where they name no text.
pub open spec fn hash_kind(args: Map<Seq<char>, NodeView>) -> Option<Seq<char>> {
    match argument(args, "0"@, "hash_type"@) {
        Some(NodeView::String(s)) => Some(s),
        Some(_) => None,
        None => Some("sha512"@),
    }
}

/// Whether a text is a salt of the given length: letters and digits.
pub open spec fn is_salt(s: Seq<char>, n: nat) -> bool {
    s.len() == n && forall|i: int| 0 <= i < s.len() ==> salt_chars().contains(#[trigger] s[i])
}

/// A hash as it is written: what names its kind, the salt, a dollar sign
/// and the digest.
pub open spec fn salted(prefix: Seq<char>, salt: Seq<char>, digest: Seq<char>) -> Seq<char> {
    prefix + salt + "$"@ + digest
}

/// Whether the kind of hash is one that the library writes itself, with a
/// salt of its own making, so that nothing outside can refuse it.
pub open spec fn is_own_kind(kind: Seq<char>) -> bool {
    kind == "md5"@ || kind == "bcrypt"@
}

/// What names the kind of an own hash, and the length of its salt.
pub open spec fn own_prefix(kind: Seq<char>) -> (Seq<char>, nat) {
    if kind == "md5"@ {
        ("$1$"@, 8)
    } else {
        ("$2b$12$"@, 22)
    }
}

/// Whether `out` can be what the password filter gives. The password is a
/// text and the kind, where one is named, is a text. An own hash is written
/// with a salt of the length of its kind; any other hash is a text.
pub open spec fn password_hashed(
    value: NodeView,
    args: Map<Seq<char>, NodeView>,
    out: NodeView,
) -> bool {
    value is String && hash_kind(args) is Some && if is_own_kind(hash_kind(args).unwrap()) {
        exists|salt: Seq<char>, digest: Seq<char>|
            is_salt(salt, own_prefix(hash_kind(args).unwrap()).1) && out == NodeView::String(
                #[trigger] salted(own_prefix(hash_kind(args).unwrap()).0, salt, digest),
            )
    } else {
        out is String
    }
}

/// What the password filter says where it fails: that the password is no
/// text, that the kind is no text, or that the hashing was refused, with
/// what was said of it.
pub open spec fn password_refused(
    value: NodeView,
    args: Map<Seq<char>, NodeView>,
    message: Seq<char>,
) -> bool {
    if !(value is String) {
        message == "Filter `password_hash` received an incorrect type for arg `value`"@
    } else if hash_kind(args) is None {
        message == "Filter `password_hash` received an incorrect type for arg `hash_type`"@
    } else if is_own_kind(hash_kind(args).unwrap()) {
        false
    } else if hash_kind(args).unwrap() == "sha256"@ {
        exists|detail: Seq<char>| message == "SHA-256 hash generation failed: "@ + detail
    } else {
        exists|detail: Seq<char>| message == "SHA-512 hash generation failed: "@ + detail
    }
}

/// What a hashing that may have been refused gives: its hash as a text, or
/// a failure that says what was refused and why.
pub fn hash_outcome(label: &str, outcome: Result<String, String>) -> (r: Result<Node, FilterError>)
    ensures
        match outcome {
            Ok(h) => r is Ok && r.unwrap()@ == NodeView::String(h@),
            Err(e) => r is Err && r.unwrap_err().message@ == label@ + e@,
        },
{
    match outcome {
        Ok(h) => Ok(Node::String(h)),
        Err(e) => Err(FilterError { message: join2(label, e.as_str()) }),
    }
}

/// An own hash of a password: the salt is made by chance, the digest is
/// that of the password with the salt.
pub fn own_hash(password: &str, prefix: &str, salt_length: usize) -> (r: String)
    ensures
        exists|salt: Seq<char>, digest: Seq<char>|
            is_salt(salt, salt_length as nat) && r@ == #[trigger] salted(prefix@, salt, digest),
{
    let salt = generate_random_salt(salt_length);
    let input = join2(password, salt.as_str());
    let mut hasher = DefaultHasher::new();
    feed_text(&mut hasher, input.as_str());
    let digest = hex_text(hasher.finish());
    let a = join2(prefix, salt.as_str());
    let b = join2(a.as_str(), "$");
    let r = join2(b.as_str(), digest.as_str());
    assert(is_salt(salt@, salt_length as nat));
    assert(r@ == salted(prefix@, salt@, digest@));
    r
}

impl PasswordHashFilter {
    /// The hash of a password, of the kind that the arguments name under "0"
    /// or "hash_type": "sha512" where they name none or one that is not
    /// known. The password and the kind are texts. An own hash ("md5",
    /// "bcrypt") is always given; another is given unless the hashing is
    /// refused. What the hash is depends on the salt, which chance gives.
    pub fn filter(&self, value: &Node, args: &StrMap<Node>) -> (r: Result<Node, FilterError>)
        ensures
            match r {
                Ok(out) => password_hashed(value@, args@, out@),
                Err(e) => password_refused(value@, args@, e.message@),
            },
    {
        let password = match value {
            Node::String(s) => s,
            _ => {
                return Err(
                    FilterError {
                        message: "Filter `password_hash` received an incorrect type for arg `value`".to_owned(),
                    },
                );
            },
        };
        let kind = match arg(args, "0", "hash_type") {
            Some(Node::String(s)) => s.clone(),
            Some(_) => {
                return Err(
                    FilterError {
                        message: "Filter `password_hash` received an incorrect type for arg `hash_type`".to_owned(),
                    },
                );
            },
            None => "sha512".to_owned(),
        };
        assert(hash_kind(args@) == Some(kind@));
        proof {
            reveal_strlit("sha256");
            reveal_strlit("sha512");
            reveal_strlit("md5");
            reveal_strlit("bcrypt");
            assert("sha256"@.len() != "md5"@.len());
            assert("sha256"@[0] != "bcrypt"@[0]);
            assert("md5"@.len() != "bcrypt"@.len());
            assert("sha512"@[5] != "sha256"@[5]);
        }
        if same_text(kind.as_str(), "sha256") {
            let outcome = sha256_hash(password.as_str(), 5000);
            let ghost said = outcome;
            let r = hash_outcome("SHA-256 hash generation failed: ", outcome);
            proof {
                assert(!is_own_kind(kind@));
                if said is Err {
                    assert(r.unwrap_err().message@ == "SHA-256 hash generation failed: "@
                        + said.unwrap_err()@);
                    assert(password_refused(value@, args@, r.unwrap_err().message@));
                } else {
                    assert(password_hashed(value@, args@, r.unwrap()@));
                }
            }
            r
        } else if same_text(kind.as_str(), "md5") {
            let hashed = own_hash(password.as_str(), "$1$", 8);
            assert(is_own_kind(kind@) && own_prefix(kind@) == ("$1$"@, 8nat));
            let ghost w = choose|salt: Seq<char>, digest: Seq<char>|
                is_salt(salt, 8nat) && hashed@ == #[trigger] salted("$1$"@, salt, digest);
            let out = Node::String(hashed);
            proof {
                let k = hash_kind(args@).unwrap();
                assert(is_salt(w.0, own_prefix(k).1));
                assert(out@ == NodeView::String(salted(own_prefix(k).0, w.0, w.1)));
            }
            Ok(out)
        } else if same_text(kind.as_str(), "bcrypt") {
            let hashed = own_hash(password.as_str(), "$2b$12$", 22);
            assert(is_own_kind(kind@) && own_prefix(kind@) == ("$2b$12$"@, 22nat));
            let ghost w = choose|salt: Seq<char>, digest: Seq<char>|
                is_salt(salt, 22nat) && hashed@ == #[trigger] salted("$2b$12$"@, salt, digest);
            let out = Node::String(hashed);
            proof {
                let k = hash_kind(args@).unwrap();
                assert(is_salt(w.0, own_prefix(k).1));
                assert(out@ == NodeView::String(salted(own_prefix(k).0, w.0, w.1)));
            }
            Ok(out)
        } else {
            let outcome = sha512_hash(password.as_str(), 5000);
            let ghost said = outcome;
            let r = hash_outcome("SHA-512 hash generation failed: ", outcome);
            proof {
                assert(!is_own_kind(kind@));
                if said is Err {
                    assert(r.unwrap_err().message@ == "SHA-512 hash generation failed: "@
                        + said.unwrap_err()@);
                    assert(password_refused(value@, args@, r.unwrap_err().message@));
                } else {
                    assert(password_hashed(value@, args@, r.unwrap()@));
                }
            }
            r
        }
    }
}

/// Whether an item is a mapping that gives the key the expected value.
pub open spec fn has_attr(item: NodeView, key: Seq<char>, expected: NodeView) -> bool {
    match item {
        NodeView::Mapping(m) => lookup_text(m, key) == Some(expected),
        _ => false,
    }
}

/// Those of the first `n` items that give the key the expected value, in
/// order.
pub open spec fn selected(items: Seq<NodeView>, key: Seq<char>, expected: NodeView, n: nat) -> Seq<
    NodeView,
>
    decreases n,
{
    if n == 0 || n > items.len() {
        Seq::empty()
    } else if has_attr(items[n - 1], key, expected) {
        selected(items, key, expected, (n - 1) as nat).push(items[n - 1])
    } else {
        selected(items, key, expected, (n - 1) as nat)
    }
}

/// What the selecting filter gives: the items whose attribute, named by
/// "key" or first, has the value named by "value" or third (null where none
/// is named). With another test than "equalto", named by "test" or second,
/// the list as it is. Nothing where the value is no list or a name is no
/// text.
pub open spec fn select_attr(value: NodeView, args: Map<Seq<char>, NodeView>) -> Option<NodeView> {
    match value {
        NodeView::Sequence(items) => match argument(args, "key"@, "0"@) {
            Some(NodeView::String(key)) => {
                let test = match argument(args, "test"@, "1"@) {
                    Some(t) => t,
                    None => NodeView::String("equalto"@),
                };
                let expected = match argument(args, "value"@, "2"@) {
                    Some(e) => e,
                    None => NodeView::Null,
                };
                match test {
                    NodeView::String(t) => if t == "equalto"@ {
                        Some(NodeView::Sequence(selected(items, key, expected, items.len())))
                    } else {
                        Some(value)
                    },
                    _ => None,
                }
            },
            _ => None,
        },
        _ => None,
    }
}

impl SelectAttrFilter {
    /// The items of a list whose attribute has a value.
    pub fn filter(&self, value: &Node, args: &StrMap<Node>) -> (r: Result<Node, FilterError>)
        ensures
            match r {
                Ok(v) => select_attr(value@, args@) == Some(v@),
                Err(_) => select_attr(value@, args@) is None,
            },
    {
        let items = match value {
            Node::Sequence(items) => items,
            _ => {
                return Err(
                    FilterError {
                        message: "Filter `selectattr` received an incorrect type for arg `value`".to_owned(),
                    },
                );
            },
        };
        let key = match arg(args, "key", "0") {
            Some(Node::String(k)) => k,
            _ => {
                return Err(
                    FilterError {
                        message: "Filter `selectattr` received an incorrect type for arg `key/arg0`".to_owned(),
                    },
                );
            },
        };
        let equalto = match arg(args, "test", "1") {
            Some(Node::String(t)) => same_text(t.as_str(), "equalto"),
            Some(_) => {
                return Err(
                    FilterError {
                        message: "Filter `selectattr` received an incorrect type for arg `test/arg1`".to_owned(),
                    },
                );
            },
            None => true,
        };
        if !equalto {
            return Ok(value.clone());
        }
        let null = Node::Null;
        let expected = match arg(args, "value", "2") {
            Some(e) => e,
            None => &null,
        };
        let ghost views = views_of(items@);
        proof {
            Node::lemma_models(items@, items@.len());
        }
        let mut out: Vec<Node> = Vec::new();
        let mut i: usize = 0;
        assert(views_of(out@) =~= selected(views, key@, expected@, 0));
        while i < items.len()
            invariant
                i <= items.len(),
                views == views_of(items@),
                views.len() == items@.len(),
                forall|j: int| 0 <= j < items@.len() ==> (#[trigger] views[j]) == items@[j]@,
                views_of(out@) == selected(views, key@, expected@, i as nat),
            decreases items.len() - i,
        {
            let hit = match &items[i] {
                Node::Mapping(m) => match m.get(key.as_str()) {
                    Some(found) => found.same(expected),
                    None => false,
                },
                _ => false,
            };
            assert(hit == has_attr(views[i as int], key@, expected@));
            if hit {
                let copy = items[i].clone();
                proof {
                    lemma_views_push(out@, copy);
                }
                out.push(copy);
            }
            i = i + 1;
        }
        Ok(Node::Sequence(out))
    }
}

/// The attribute of an item, where the item is a mapping that has it.
pub open spec fn attr_of(item: NodeView, key: Seq<char>) -> Option<NodeView> {
    match item {
        NodeView::Mapping(m) => lookup_text(m, key),
        _ => None,
    }
}

/// The attributes of those of the first `n` items that have one, in order.
pub open spec fn mapped(items: Seq<NodeView>, key: Seq<char>, n: nat) -> Seq<NodeView>
    decreases n,
{
    if n == 0 || n > items.len() {
        Seq::empty()
    } else {
        match attr_of(items[n - 1], key) {
            Some(v) => mapped(items, key, (n - 1) as nat).push(v),
            None => mapped(items, key, (n - 1) as nat),
        }
    }
}

/// What the mapping filter gives: the attribute named by "attribute" of
/// each item that has it. Nothing where the value is no list or the name is
/// no text.
pub open spec fn map_attribute(value: NodeView, args: Map<Seq<char>, NodeView>) -> Option<NodeView> {
    match value {
        NodeView::Sequence(items) => if args.contains_key("attribute"@) {
            match args["attribute"@] {
                NodeView::String(key) => Some(NodeView::Sequence(mapped(items, key, items.len()))),
                _ => None,
            }
        } else {
            None
        },
        _ => None,
    }
}

/// The views of a list with one more item.
proof fn lemma_views_push(s: Seq<Node>, v: Node)
    ensures
        views_of(s.push(v)) == views_of(s).push(v@),
{
    Node::lemma_models(s.push(v), s.len() + 1);
    Node::lemma_models(s, s.len());
    assert(views_of(s.push(v)) =~= views_of(s).push(v@));
}

impl MapAttributeFilter {
    /// The attribute of each item of a list that has it.
    pub fn filter(&self, value: &Node, args: &StrMap<Node>) -> (r: Result<Node, FilterError>)
        ensures
            match r {
                Ok(v) => map_attribute(value@, args@) == Some(v@),
                Err(_) => map_attribute(value@, args@) is None,
            },
    {
        let items = match value {
            Node::Sequence(items) => items,
            _ => {
                return Err(
                    FilterError {
                        message: "Filter `map` received an incorrect type for arg `value`".to_owned(),
                    },
                );
            },
        };
        let key = match args.get("attribute") {
            Some(Node::String(k)) => k,
            _ => {
                return Err(
                    FilterError {
                        message: "Filter `map` received an incorrect type for arg `attribute`".to_owned(),
                    },
                );
            },
        };
        let ghost views = views_of(items@);
        proof {
            Node::lemma_models(items@, items@.len());
        }
        let mut out: Vec<Node> = Vec::new();
        let mut i: usize = 0;
        assert(views_of(out@) =~= mapped(views, key@, 0));
        while i < items.len()
            invariant
                i <= items.len(),
                views == views_of(items@),
                views.len() == items@.len(),
                forall|j: int| 0 <= j < items@.len() ==> (#[trigger] views[j]) == items@[j]@,
                views_of(out@) == mapped(views, key@, i as nat),
            decreases items.len() - i,
        {
            let found = match &items[i] {
                Node::Mapping(m) => match m.get(key.as_str()) {
                    Some(v) => Some(v.clone()),
                    None => None,
                },
                _ => None,
            };
            assert(crate::playbook::task::opt_node(found) == attr_of(views[i as int], key@));
            match found {
                Some(v) => {
                    proof {
                        lemma_views_push(out@, v);
                    }
                    out.push(v);
                },
                None => {},
            }
            i = i + 1;
        }
        Ok(Node::Sequence(out))
    }
}

/// The filters of the library.
#[derive(Debug, Clone, Copy)]
pub enum FilterKind {
    PasswordHash,
    SelectAttr,
    MapAttribute,
}

/// What a value of the engine holds, as a document value.
pub uninterp spec fn json_node(v: serde_json::Value) -> NodeView;

/// What the arguments of a filter hold, each under its name.
pub uninterp spec fn args_nodes(args: HashMap<String, serde_json::Value>) -> Map<Seq<char>, NodeView>;

/// What a document value holds once the engine has taken it.
pub uninterp spec fn kept_as_json(v: NodeView) -> NodeView;

/// `serde_yaml::to_value` of a JSON value, in the library's own type;
/// null where the outside crate refuses.
#[verifier::external_body]
fn node_of_json(v: &serde_json::Value) -> (r: Node)
    ensures
        r@ == json_node(*v),
{
    match serde_yaml::to_value(v) {
        Ok(y) => from_yaml(&y),
        Err(_) => Node::Null,
    }
}

/// `serde_json::to_value` of the library's value; null where the outside
/// crate refuses, or where the value holds a number that YAML does not read.
#[verifier::external_body]
fn json_of_node(v: &Node) -> (r: serde_json::Value)
    ensures
        json_node(r) == kept_as_json(v@),
{
    match to_yaml(v).map(serde_json::to_value) {
        Some(Ok(json)) => json,
        _ => serde_json::Value::Null,
    }
}

/// The entries of the arguments of a filter, each value in the library's
/// own type.
#[verifier::external_body]
fn nodes_of_args(args: &HashMap<String, serde_json::Value>) -> (r: StrMap<Node>)
    ensures
        r@ == args_nodes(*args),
{
    StrMap { entries: args.iter().map(|(k, v)| (k.clone(), node_of_json(v))).collect() }
}

/// `tera::Error::msg`: the error of the engine with a message.
#[verifier::external_body]
fn engine_error(message: &str) -> tera::Error {
    tera::Error::msg(message)
}

/// Whether `out` can be what a filter of the library gives for a value and
/// arguments.
pub open spec fn filter_gives(
    kind: FilterKind,
    value: NodeView,
    args: Map<Seq<char>, NodeView>,
    out: NodeView,
) -> bool {
    match kind {
        FilterKind::PasswordHash => password_hashed(value, args, out),
        FilterKind::SelectAttr => select_attr(value, args) == Some(out),
        FilterKind::MapAttribute => map_attribute(value, args) == Some(out),
    }
}

/// Whether a filter of the library can fail for a value and arguments,
/// saying `message`.
pub open spec fn filter_refuses(
    kind: FilterKind,
    value: NodeView,
    args: Map<Seq<char>, NodeView>,
    message: Seq<char>,
) -> bool {
    match kind {
        FilterKind::PasswordHash => password_refused(value, args, message),
        FilterKind::SelectAttr => select_attr(value, args) is None,
        FilterKind::MapAttribute => map_attribute(value, args) is None,
    }
}

/// Runs the filter of the given kind on a value and arguments.
pub fn apply_filter(kind: FilterKind, value: &Node, args: &StrMap<Node>) -> (r: Result<
    Node,
    FilterError,
>)
    ensures
        match r {
            Ok(out) => filter_gives(kind, value@, args@, out@),
            Err(e) => filter_refuses(kind, value@, args@, e.message@),
        },
{
    match kind {
        FilterKind::PasswordHash => (PasswordHashFilter {}).filter(value, args),
        FilterKind::SelectAttr => (SelectAttrFilter {}).filter(value, args),
        FilterKind::MapAttribute => (MapAttributeFilter {}).filter(value, args),
    }
}

/// Runs a filter of the library on the values of the engine: the value and
/// the arguments are read as document values, the filter is run on them, and
/// what it gives is handed back as a value of the engine, what it refuses as
/// an error of the engine.
fn run_filter(
    kind: FilterKind,
    value: &serde_json::Value,
    args: &HashMap<String, serde_json::Value>,
) -> (r: Result<serde_json::Value, tera::Error>)
    ensures
        match r {
            Ok(given) => exists|out: NodeView|
                #[trigger] filter_gives(kind, json_node(*value), args_nodes(*args), out)
                    && json_node(given) == kept_as_json(out),
            Err(_) => exists|message: Seq<char>|
                #[trigger] filter_refuses(kind, json_node(*value), args_nodes(*args), message),
        },
{
    let v = node_of_json(value);
    let a = nodes_of_args(args);
    match apply_filter(kind, &v, &a) {
        Ok(node) => {
            let given = json_of_node(&node);
            assert(filter_gives(kind, json_node(*value), args_nodes(*args), node@));
            Ok(given)
        },
        Err(e) => {
            assert(filter_refuses(kind, json_node(*value), args_nodes(*args), e.message@));
            Err(engine_error(e.message.as_str()))
        },
    }
}

/// `tera::Tera::register_filter`: makes a filter of the library known to
/// the engine under a name, in place of one that it knew under that name.
#[verifier::external_body]
fn register_filter(tera: &mut tera::Tera, name: &str, kind: FilterKind)
    ensures
        filter_names(*final(tera)) == filter_names(*old(tera)).insert(name@),
{
    tera.register_filter(
        name,
        move |v: &serde_json::Value, a: &HashMap<String, serde_json::Value>| run_filter(kind, v, a),
    );
}

/// Makes the filters of the library known to an engine: "password_hash",
/// "selectattr" and "map".
pub fn register_ansible_filters(tera: &mut tera::Tera)
    ensures
        filter_names(*final(tera)) == filter_names(*old(tera)).insert("password_hash"@).insert(
            "selectattr"@,
        ).insert("map"@),
{
    register_filter(tera, "password_hash", FilterKind::PasswordHash);
    register_filter(tera, "selectattr", FilterKind::SelectAttr);
    register_filter(tera, "map", FilterKind::MapAttribute);
}

} // verus!
