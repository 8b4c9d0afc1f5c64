//! Loosely-typed document values: what a playbook, a variable or a rendered
//! template holds.

use vstd::prelude::*;
use crate::text::same_text;

verus! {

/// A number as the document formats hold it: a non-negative integer, a
/// negative integer, or a number with a fraction or an exponent, kept as the
/// text that the YAML format writes for it. Two of the last kind are the same
/// number when they are written the same.
#[derive(Debug, PartialEq)]
pub enum Num {
    PosInt(u64),
    NegInt(i64),
    Float(String),
}

/// The mathematical value of a number.
pub enum NumView {
    PosInt(u64),
    NegInt(i64),
    Float(Seq<char>),
}

impl View for Num {
    type V = NumView;

    open spec fn view(&self) -> NumView {
        match self {
            Num::PosInt(n) => NumView::PosInt(*n),
            Num::NegInt(n) => NumView::NegInt(*n),
            Num::Float(t) => NumView::Float(t@),
        }
    }
}

impl Clone for Num {
    /// A copy that stands for the same number.
    fn clone(&self) -> (r: Num)
        ensures
            r@ == self@,
    {
        match self {
            Num::PosInt(n) => Num::PosInt(*n),
            Num::NegInt(n) => Num::NegInt(*n),
            Num::Float(t) => Num::Float(t.clone()),
        }
    }
}

impl Num {
    /// Whether two numbers are the same.
    pub fn same(&self, other: &Num) -> (r: bool)
        ensures
            r == (self@ == other@),
    {
        match self {
            Num::PosInt(a) => match other {
                Num::PosInt(b) => *a == *b,
                _ => false,
            },
            Num::NegInt(a) => match other {
                Num::NegInt(b) => *a == *b,
                _ => false,
            },
            Num::Float(a) => match other {
                Num::Float(b) => *a == *b,
                _ => false,
            },
        }
    }
}

/// The tag of a tagged value: a text that is never empty, since the YAML
/// format has no way to write an empty tag.
#[derive(Debug, PartialEq)]
pub struct Tag {
    text: String,
}

impl View for Tag {
    type V = Seq<char>;

    closed spec fn view(&self) -> Seq<char> {
        self.text@
    }
}

impl Tag {
    #[verifier::type_invariant]
    spec fn holds_text(&self) -> bool {
        self.text@.len() > 0
    }

    /// The tag with the given text; none where the text is empty.
    pub fn new(text: &str) -> (r: Option<Tag>)
        ensures
            match r {
                Some(t) => t@ == text@ && text@.len() > 0,
                None => text@.len() == 0,
            },
    {
        if text.is_empty() {
            None
        } else {
            Some(Tag { text: text.to_owned() })
        }
    }

    /// The tag with the given text, and the tag "!" where the text is empty.
    pub fn or_bare(text: &str) -> (r: Tag)
        ensures
            r@ == (if text@.len() > 0 {
                text@
            } else {
                "!"@
            }),
    {
        proof {
            reveal_strlit("!");
        }
        if text.is_empty() {
            Tag { text: "!".to_owned() }
        } else {
            Tag { text: text.to_owned() }
        }
    }

    /// The text of the tag, which is not empty.
    pub fn as_str(&self) -> (r: &str)
        ensures
            r@ == self@,
            r@.len() > 0,
    {
        proof {
            use_type_invariant(self);
        }
        self.text.as_str()
    }

    /// Whether two tags have the same text.
    pub fn same(&self, other: &Tag) -> (r: bool)
        ensures
            r == (self@ == other@),
    {
        same_text(self.text.as_str(), other.text.as_str())
    }
}

impl Clone for Tag {
    /// A copy with the same text.
    fn clone(&self) -> (r: Tag)
        ensures
            r@ == self@,
    {
        proof {
            use_type_invariant(self);
        }
        Tag { text: self.text.clone() }
    }
}

/// A loosely-typed document value.
#[derive(Debug, PartialEq)]
pub enum Node {
    Null,
    Bool(bool),
    Number(Num),
    String(String),
    Sequence(Vec<Node>),
    Mapping(Mapping),
    Tagged(Tag, Box<Node>),
}

/// An ordered list of key/value pairs. Where a key stands twice, the later
/// entry is the one that counts.
#[derive(Debug, PartialEq)]
pub struct Mapping {
    pub entries: Vec<(Node, Node)>,
}

/// The mathematical value of a document value.
#[verifier::ext_equal]
pub enum NodeView {
    Null,
    Bool(bool),
    Number(NumView),
    String(Seq<char>),
    Sequence(Seq<NodeView>),
    Mapping(Seq<(NodeView, NodeView)>),
    Tagged(Seq<char>, Box<NodeView>),
}

/// The entries of a mapping, as mathematical values.
pub type Pairs = Seq<(NodeView, NodeView)>;

impl Node {
    /// The mathematical value that this document value stands for.
    pub open spec fn model(&self) -> NodeView
        decreases self, 0nat,
    {
        match self {
            Node::Null => NodeView::Null,
            Node::Bool(b) => NodeView::Bool(*b),
            Node::Number(n) => NodeView::Number(n@),
            Node::String(s) => NodeView::String(s@),
            Node::Sequence(items) => NodeView::Sequence(Self::models(items@, items@.len())),
            Node::Mapping(m) => NodeView::Mapping(
                Self::pair_models(m.entries@, m.entries@.len()),
            ),
            Node::Tagged(t, inner) => NodeView::Tagged(t@, Box::new(inner.model())),
        }
    }

    /// The models of the first `n` values of `items`.
    pub open spec fn models(items: Seq<Node>, n: nat) -> Seq<NodeView>
        decreases items, n,
    {
        if n == 0 || n > items.len() {
            Seq::empty()
        } else {
            Self::models(items, (n - 1) as nat).push(items[n - 1].model())
        }
    }

    /// The models of the first `n` pairs of `entries`.
    pub open spec fn pair_models(entries: Seq<(Node, Node)>, n: nat) -> Pairs
        decreases entries, n,
    {
        if n == 0 || n > entries.len() {
            Seq::empty()
        } else {
            Self::pair_models(entries, (n - 1) as nat).push(
                (entries[n - 1].0.model(), entries[n - 1].1.model()),
            )
        }
    }

    /// `models` takes the model of each value, in order.
    pub proof fn lemma_models(items: Seq<Node>, n: nat)
        requires
            n <= items.len(),
        ensures
            Self::models(items, n).len() == n,
            forall|i: int| 0 <= i < n ==> (#[trigger] Self::models(items, n)[i]) == items[i].model(),
        decreases n,
    {
        if n > 0 {
            Self::lemma_models(items, (n - 1) as nat);
        }
    }

    /// `pair_models` takes the model of each key and value, in order.
    pub proof fn lemma_pair_models(entries: Seq<(Node, Node)>, n: nat)
        requires
            n <= entries.len(),
        ensures
            Self::pair_models(entries, n).len() == n,
            forall|i: int|
                0 <= i < n ==> (#[trigger] Self::pair_models(entries, n)[i]) == (
                    entries[i].0.model(),
                    entries[i].1.model(),
                ),
        decreases n,
    {
        if n > 0 {
            Self::lemma_pair_models(entries, (n - 1) as nat);
        }
    }
}

impl View for Node {
    type V = NodeView;

    open spec fn view(&self) -> NodeView {
        self.model()
    }
}

impl View for Mapping {
    type V = Pairs;

    open spec fn view(&self) -> Pairs {
        Node::pair_models(self.entries@, self.entries@.len())
    }
}

/// The models of a list of values.
pub open spec fn views_of(items: Seq<Node>) -> Seq<NodeView> {
    Node::models(items, items.len())
}

/// The text `s` as a document value.
pub open spec fn text_value(s: Seq<char>) -> NodeView {
    NodeView::String(s)
}

/// The last position of `m` whose key is `k`, or -1.
pub open spec fn last_pos(m: Pairs, k: NodeView) -> int
    decreases m.len(),
{
    if m.len() == 0 {
        -1
    } else if m.last().0 == k {
        m.len() - 1
    } else {
        last_pos(m.drop_last(), k)
    }
}

/// The value that `m` gives to the key `k`.
pub open spec fn lookup(m: Pairs, k: NodeView) -> Option<NodeView> {
    if last_pos(m, k) < 0 {
        None
    } else {
        Some(m[last_pos(m, k)].1)
    }
}

/// The value that `m` gives to the text key `k`.
pub open spec fn lookup_text(m: Pairs, k: Seq<char>) -> Option<NodeView> {
    lookup(m, NodeView::String(k))
}

/// `m` with `k` set to `v`: in place where `m` has the key, at the end where
/// it has not.
pub open spec fn put(m: Pairs, k: NodeView, v: NodeView) -> Pairs {
    if last_pos(m, k) < 0 {
        m.push((k, v))
    } else {
        m.update(last_pos(m, k), (k, v))
    }
}

/// `m` without the key `k`: the last entry takes the place of the one that
/// leaves.
pub open spec fn without(m: Pairs, k: NodeView) -> Pairs {
    if last_pos(m, k) < 0 {
        m
    } else {
        m.update(last_pos(m, k), m.last()).drop_last()
    }
}

/// A position that holds `k` and after which no position holds it is the
/// last position of `k`.
pub proof fn lemma_last_pos_is(m: Pairs, k: NodeView, i: int)
    requires
        -1 <= i < m.len(),
        i >= 0 ==> m[i].0 == k,
        forall|j: int| i < j < m.len() ==> (#[trigger] m[j]).0 != k,
    ensures
        last_pos(m, k) == i,
    decreases m.len(),
{
    if m.len() > 0 && i < m.len() - 1 {
        let t = m.drop_last();
        assert(m[m.len() - 1].0 != k);
        assert forall|j: int| i < j < t.len() implies (#[trigger] t[j]).0 != k by {
            assert(t[j] == m[j]);
        }
        lemma_last_pos_is(t, k, i);
    }
}

impl Clone for Node {
    /// A copy that stands for the same value.
    fn clone(&self) -> (r: Node)
        ensures
            r@ == self@,
        decreases self,
    {
        match self {
            Node::Null => Node::Null,
            Node::Bool(b) => Node::Bool(*b),
            Node::Number(n) => Node::Number(n.clone()),
            Node::String(s) => Node::String(s.clone()),
            Node::Sequence(items) => {
                let mut out: Vec<Node> = Vec::new();
                let mut i: usize = 0;
                while i < items.len()
                    invariant
                        i <= items.len(),
                        out.len() == i,
                        self matches Node::Sequence(its) && its == items,
                        forall|j: int| 0 <= j < i ==> out[j]@ == items[j]@,
                    decreases items.len() - i,
                {
                    let c = items[i].clone();
                    out.push(c);
                    i = i + 1;
                }
                proof {
                    Self::lemma_models(out@, out@.len());
                    Self::lemma_models(items@, items@.len());
                    assert(Self::models(out@, out@.len()) =~= Self::models(items@, items@.len()));
                }
                Node::Sequence(out)
            },
            Node::Mapping(m) => {
                let mut out: Vec<(Node, Node)> = Vec::new();
                let mut i: usize = 0;
                while i < m.entries.len()
                    invariant
                        i <= m.entries.len(),
                        out.len() == i,
                        self matches Node::Mapping(mm) && mm == m,
                        forall|j: int|
                            0 <= j < i ==> out[j].0@ == m.entries[j].0@ && out[j].1@
                                == m.entries[j].1@,
                    decreases m.entries.len() - i,
                {
                    let k = m.entries[i].0.clone();
                    let v = m.entries[i].1.clone();
                    out.push((k, v));
                    i = i + 1;
                }
                proof {
                    Self::lemma_pair_models(out@, out@.len());
                    Self::lemma_pair_models(m.entries@, m.entries@.len());
                    assert(Self::pair_models(out@, out@.len()) =~= Self::pair_models(
                        m.entries@,
                        m.entries@.len(),
                    ));
                }
                Node::Mapping(Mapping { entries: out })
            },
            Node::Tagged(t, inner) => Node::Tagged(t.clone(), Box::new((**inner).clone())),
        }
    }
}

impl Clone for Mapping {
    /// A copy that stands for the same entries.
    fn clone(&self) -> (r: Mapping)
        ensures
            r@ == self@,
    {
        let mut out: Vec<(Node, Node)> = Vec::new();
        let mut i: usize = 0;
        while i < self.entries.len()
            invariant
                i <= self.entries.len(),
                out.len() == i,
                forall|j: int|
                    0 <= j < i ==> out[j].0@ == self.entries[j].0@ && out[j].1@
                        == self.entries[j].1@,
            decreases self.entries.len() - i,
        {
            let k = self.entries[i].0.clone();
            let v = self.entries[i].1.clone();
            out.push((k, v));
            i = i + 1;
        }
        proof {
            Node::lemma_pair_models(out@, out@.len());
            Node::lemma_pair_models(self.entries@, self.entries@.len());
            assert(Node::pair_models(out@, out@.len()) =~= Node::pair_models(
                self.entries@,
                self.entries@.len(),
            ));
        }
        Mapping { entries: out }
    }
}

/// A copy of a list of values.
pub fn clone_nodes(items: &Vec<Node>) -> (r: Vec<Node>)
    ensures
        views_of(r@) == views_of(items@),
        r@.len() == items@.len(),
        forall|j: int| 0 <= j < r@.len() ==> r[j]@ == items[j]@,
{
    let mut out: Vec<Node> = Vec::new();
    let mut i: usize = 0;
    while i < items.len()
        invariant
            i <= items.len(),
            out.len() == i,
            forall|j: int| 0 <= j < i ==> out[j]@ == items[j]@,
        decreases items.len() - i,
    {
        let c = items[i].clone();
        out.push(c);
        i = i + 1;
    }
    proof {
        Node::lemma_models(out@, out@.len());
        Node::lemma_models(items@, items@.len());
        assert(views_of(out@) =~= views_of(items@));
    }
    out
}

impl Node {
    /// The document value of a text.
    pub fn text(s: &str) -> (r: Node)
        ensures
            r@ == NodeView::String(s@),
    {
        Node::String(s.to_owned())
    }

    /// Whether two values stand for the same mathematical value.
    pub fn same(&self, other: &Node) -> (r: bool)
        ensures
            r == (self@ == other@),
        decreases self,
    {
        match self {
            Node::Null => matches!(other, Node::Null),
            Node::Bool(a) => match other {
                Node::Bool(b) => *a == *b,
                _ => false,
            },
            Node::Number(a) => match other {
                Node::Number(b) => a.same(b),
                _ => false,
            },
            Node::String(a) => match other {
                Node::String(b) => *a == *b,
                _ => false,
            },
            Node::Sequence(a) => match other {
                Node::Sequence(b) => {
                    proof {
                        Self::lemma_models(a@, a@.len());
                        Self::lemma_models(b@, b@.len());
                    }
                    if a.len() != b.len() {
                        return false;
                    }
                    let mut i: usize = 0;
                    while i < a.len()
                        invariant
                            i <= a.len(),
                            a.len() == b.len(),
                            self matches Node::Sequence(x) && x == a,
                            other matches Node::Sequence(y) && y == b,
                            forall|j: int| 0 <= j < i ==> a[j]@ == b[j]@,
                            Self::models(a@, a@.len()).len() == a@.len(),
                            Self::models(b@, b@.len()).len() == b@.len(),
                            forall|j: int|
                                0 <= j < a@.len() ==> (#[trigger] Self::models(a@, a@.len())[j])
                                    == a@[j].model(),
                            forall|j: int|
                                0 <= j < b@.len() ==> (#[trigger] Self::models(b@, b@.len())[j])
                                    == b@[j].model(),
                        decreases a.len() - i,
                    {
                        if !a[i].same(&b[i]) {
                            assert(Self::models(a@, a@.len())[i as int] != Self::models(
                                b@,
                                b@.len(),
                            )[i as int]);
                            return false;
                        }
                        i = i + 1;
                    }
                    assert(Self::models(a@, a@.len()) =~= Self::models(b@, b@.len()));
                    true
                },
                _ => false,
            },
            Node::Mapping(a) => match other {
                Node::Mapping(b) => {
                    proof {
                        Self::lemma_pair_models(a.entries@, a.entries@.len());
                        Self::lemma_pair_models(b.entries@, b.entries@.len());
                    }
                    if a.entries.len() != b.entries.len() {
                        return false;
                    }
                    let mut i: usize = 0;
                    while i < a.entries.len()
                        invariant
                            i <= a.entries.len(),
                            a.entries.len() == b.entries.len(),
                            self matches Node::Mapping(x) && x == a,
                            other matches Node::Mapping(y) && y == b,
                            forall|j: int|
                                0 <= j < i ==> a.entries[j].0@ == b.entries[j].0@ && a.entries[j].1@
                                    == b.entries[j].1@,
                            a@.len() == a.entries@.len(),
                            b@.len() == b.entries@.len(),
                            forall|j: int|
                                0 <= j < a.entries@.len() ==> (#[trigger] a@[j]) == (
                                    a.entries@[j].0.model(),
                                    a.entries@[j].1.model(),
                                ),
                            forall|j: int|
                                0 <= j < b.entries@.len() ==> (#[trigger] b@[j]) == (
                                    b.entries@[j].0.model(),
                                    b.entries@[j].1.model(),
                                ),
                        decreases a.entries.len() - i,
                    {
                        if !a.entries[i].0.same(&b.entries[i].0) || !a.entries[i].1.same(
                            &b.entries[i].1,
                        ) {
                            assert(a@[i as int] != b@[i as int]);
                            return false;
                        }
                        i = i + 1;
                    }
                    assert(a@ =~= b@);
                    true
                },
                _ => false,
            },
            Node::Tagged(ta, ia) => match other {
                Node::Tagged(tb, ib) => ta.same(tb) && ia.same(ib),
                _ => false,
            },
        }
    }
}

impl Mapping {
    /// The empty mapping.
    pub fn new() -> (r: Mapping)
        ensures
            r@ == Pairs::empty(),
    {
        Mapping { entries: Vec::new() }
    }

    /// The number of entries.
    pub fn len(&self) -> (r: usize)
        ensures
            r == self@.len(),
    {
        proof {
            Node::lemma_pair_models(self.entries@, self.entries@.len());
        }
        self.entries.len()
    }

    /// Whether the mapping has no entry.
    pub fn is_empty(&self) -> (r: bool)
        ensures
            r == (self@.len() == 0),
    {
        proof {
            Node::lemma_pair_models(self.entries@, self.entries@.len());
        }
        self.entries.len() == 0
    }

    /// The view lists the models of the entries.
    pub proof fn lemma_view(&self)
        ensures
            self@.len() == self.entries@.len(),
            forall|i: int|
                0 <= i < self.entries@.len() ==> (#[trigger] self@[i]) == (
                    self.entries@[i].0@,
                    self.entries@[i].1@,
                ),
    {
        Node::lemma_pair_models(self.entries@, self.entries@.len());
    }

    /// The last position whose key is `key`.
    pub fn position(&self, key: &Node) -> (r: Option<usize>)
        ensures
            match r {
                Some(i) => i == last_pos(self@, key@) && i < self.entries@.len(),
                None => last_pos(self@, key@) == -1,
            },
    {
        proof {
            self.lemma_view();
        }
        let mut i: usize = self.entries.len();
        while i > 0
            invariant
                i <= self.entries.len(),
                self@.len() == self.entries@.len(),
                forall|j: int|
                    0 <= j < self.entries@.len() ==> (#[trigger] self@[j]) == (
                        self.entries@[j].0@,
                        self.entries@[j].1@,
                    ),
                forall|j: int| i <= j < self@.len() ==> (#[trigger] self@[j]).0 != key@,
            decreases i,
        {
            i = i - 1;
            if self.entries[i].0.same(key) {
                proof {
                    lemma_last_pos_is(self@, key@, i as int);
                }
                return Some(i);
            }
        }
        proof {
            lemma_last_pos_is(self@, key@, -1);
        }
        None
    }

    /// The last position whose key is the text `key`.
    pub fn position_text(&self, key: &str) -> (r: Option<usize>)
        ensures
            match r {
                Some(i) => i == last_pos(self@, NodeView::String(key@)) && i < self.entries@.len(),
                None => last_pos(self@, NodeView::String(key@)) == -1,
            },
    {
        proof {
            self.lemma_view();
        }
        let mut i: usize = self.entries.len();
        while i > 0
            invariant
                i <= self.entries.len(),
                self@.len() == self.entries@.len(),
                forall|j: int|
                    0 <= j < self.entries@.len() ==> (#[trigger] self@[j]) == (
                        self.entries@[j].0@,
                        self.entries@[j].1@,
                    ),
                forall|j: int|
                    i <= j < self@.len() ==> (#[trigger] self@[j]).0 != NodeView::String(key@),
            decreases i,
        {
            i = i - 1;
            let hit = match &self.entries[i].0 {
                Node::String(s) => same_text(s.as_str(), key),
                _ => false,
            };
            if hit {
                proof {
                    lemma_last_pos_is(self@, NodeView::String(key@), i as int);
                }
                return Some(i);
            }
        }
        proof {
            lemma_last_pos_is(self@, NodeView::String(key@), -1);
        }
        None
    }

    /// Whether the mapping has the text key `key`.
    pub fn contains_key(&self, key: &str) -> (r: bool)
        ensures
            r == (lookup_text(self@, key@) is Some),
    {
        self.position_text(key).is_some()
    }

    /// The value of the text key `key`.
    pub fn get(&self, key: &str) -> (r: Option<&Node>)
        ensures
            match r {
                Some(v) => lookup_text(self@, key@) == Some(v@),
                None => lookup_text(self@, key@) is None,
            },
    {
        proof {
            self.lemma_view();
        }
        match self.position_text(key) {
            Some(i) => Some(&self.entries[i].1),
            None => None,
        }
    }

    /// Sets `key` to `value`: in place where the mapping has the key, at the
    /// end where it has not.
    pub fn insert(&mut self, key: Node, value: Node)
        ensures
            final(self)@ == put(old(self)@, key@, value@),
    {
        proof {
            self.lemma_view();
        }
        match self.position(&key) {
            Some(i) => {
                self.entries.set(i, (key, value));
            },
            None => {
                self.entries.push((key, value));
            },
        }
        proof {
            self.lemma_view();
            assert(self@ =~= put(old(self)@, key@, value@));
        }
    }

    /// Takes the text key `key` out; the last entry takes its place.
    pub fn remove(&mut self, key: &str)
        ensures
            final(self)@ == without(old(self)@, NodeView::String(key@)),
    {
        proof {
            self.lemma_view();
        }
        match self.position_text(key) {
            Some(i) => {
                let _ = self.entries.swap_remove(i);
            },
            None => {},
        }
        proof {
            self.lemma_view();
            assert(self@ =~= without(old(self)@, NodeView::String(key@)));
        }
    }
}

} // verus!
