//! Maps and sets keyed by text, kept in the order in which the keys came.
//!
//! A later entry for a key hides an earlier one, so walking the entries from
//! the front and inserting each into another map gives the union that prefers
//! the walked map.

use vstd::prelude::*;
use crate::text::same_text;

verus! {

/// The map that a list of entries stands for: the last entry of a key wins.
pub open spec fn map_of<V: View>(s: Seq<(String, V)>) -> Map<Seq<char>, V::V>
    decreases s.len(),
{
    if s.len() == 0 {
        Map::empty()
    } else {
        map_of(s.drop_last()).insert(s.last().0@, s.last().1@)
    }
}

/// `i` is the last position of `s` that holds the key `k`.
pub open spec fn last_index<V>(s: Seq<(String, V)>, k: Seq<char>, i: int) -> bool {
    0 <= i < s.len() && s[i].0@ == k && forall|j: int| i < j < s.len() ==> (#[trigger] s[j]).0@ != k
}

/// No position of `s` holds the key `k`.
pub open spec fn absent<V>(s: Seq<(String, V)>, k: Seq<char>) -> bool {
    forall|j: int| 0 <= j < s.len() ==> (#[trigger] s[j]).0@ != k
}

/// The entries as pairs of mathematical values, in order.
pub open spec fn pairs_of<V: View>(s: Seq<(String, V)>) -> Seq<(Seq<char>, V::V)> {
    Seq::new(s.len(), |i: int| (s[i].0@, s[i].1@))
}

/// The keys of a list of entries, in order.
pub open spec fn keys_of<V>(s: Seq<(String, V)>) -> Seq<Seq<char>> {
    Seq::new(s.len(), |i: int| s[i].0@)
}

pub proof fn lemma_map_of_found<V: View>(s: Seq<(String, V)>, k: Seq<char>, i: int)
    requires
        last_index(s, k, i),
    ensures
        map_of(s).contains_key(k),
        map_of(s)[k] == s[i].1@,
    decreases s.len(),
{
    if i < s.len() - 1 {
        let t = s.drop_last();
        assert forall|j: int| i < j < t.len() implies (#[trigger] t[j]).0@ != k by {
            assert(t[j] == s[j]);
        }
        lemma_map_of_found(t, k, i);
        assert(s.last().0@ != k);
    }
}

pub proof fn lemma_map_of_absent<V: View>(s: Seq<(String, V)>, k: Seq<char>)
    requires
        absent(s, k),
    ensures
        !map_of(s).contains_key(k),
    decreases s.len(),
{
    if s.len() > 0 {
        let t = s.drop_last();
        assert forall|j: int| 0 <= j < t.len() implies (#[trigger] t[j]).0@ != k by {
            assert(t[j] == s[j]);
        }
        lemma_map_of_absent(t, k);
        assert(s.last().0@ != k);
    }
}

/// A key is in the map exactly when some entry holds it.
pub proof fn lemma_map_of_dom<V: View>(s: Seq<(String, V)>, k: Seq<char>)
    ensures
        map_of(s).contains_key(k) <==> exists|j: int| 0 <= j < s.len() && (#[trigger] s[j]).0@ == k,
        map_of(s).dom().finite(),
    decreases s.len(),
{
    if s.len() > 0 {
        let t = s.drop_last();
        lemma_map_of_dom(t, k);
        if map_of(s).contains_key(k) {
            if s.last().0@ == k {
                assert(s[s.len() - 1].0@ == k);
            } else {
                let j = choose|j: int| 0 <= j < t.len() && (#[trigger] t[j]).0@ == k;
                assert(s[j].0@ == k);
            }
        }
        if exists|j: int| 0 <= j < s.len() && (#[trigger] s[j]).0@ == k {
            let j = choose|j: int| 0 <= j < s.len() && (#[trigger] s[j]).0@ == k;
            if j < s.len() - 1 {
                assert(t[j].0@ == k);
            }
        }
    }
}

/// Replacing the last entry of a key changes that key's value and nothing else.
pub proof fn lemma_map_of_update<V: View>(s: Seq<(String, V)>, i: int, e: (String, V))
    requires
        last_index(s, e.0@, i),
    ensures
        map_of(s.update(i, e)) == map_of(s).insert(e.0@, e.1@),
    decreases s.len(),
{
    let u = s.update(i, e);
    if i == s.len() - 1 {
        assert(u.drop_last() =~= s.drop_last());
        assert(map_of(u) =~= map_of(s).insert(e.0@, e.1@));
    } else {
        let t = s.drop_last();
        assert forall|j: int| i < j < t.len() implies (#[trigger] t[j]).0@ != e.0@ by {
            assert(t[j] == s[j]);
        }
        lemma_map_of_update(t, i, e);
        assert(u.drop_last() =~= t.update(i, e));
        assert(u.last() == s.last());
        assert(s.last().0@ != e.0@);
        assert(map_of(u) =~= map_of(s).insert(e.0@, e.1@));
    }
}

/// Appending an entry inserts it.
pub proof fn lemma_map_of_push<V: View>(s: Seq<(String, V)>, e: (String, V))
    ensures
        map_of(s.push(e)) == map_of(s).insert(e.0@, e.1@),
{
    assert(s.push(e).drop_last() =~= s);
}

/// Walking the first `n + 1` entries inserts the entry at `n` after the first `n`.
pub proof fn lemma_map_of_take<V: View>(s: Seq<(String, V)>, n: int)
    requires
        0 <= n < s.len(),
    ensures
        map_of(s.take(n + 1)) == map_of(s.take(n)).insert(s[n].0@, s[n].1@),
        map_of(s.take(0)) == Map::<Seq<char>, V::V>::empty(),
        map_of(s.take(s.len() as int)) == map_of(s),
{
    assert(s.take(n + 1).drop_last() =~= s.take(n));
    assert(s.take(s.len() as int) =~= s);
}

/// The map that a list of pairs stands for: the last pair of a key wins.
pub open spec fn pairs_map<T>(s: Seq<(Seq<char>, T)>) -> Map<Seq<char>, T>
    decreases s.len(),
{
    if s.len() == 0 {
        Map::empty()
    } else {
        pairs_map(s.drop_last()).insert(s.last().0, s.last().1)
    }
}

/// The map of a list of entries is the map of its pairs.
pub proof fn lemma_map_of_pairs<V: View>(s: Seq<(String, V)>)
    ensures
        map_of(s) == pairs_map(pairs_of(s)),
    decreases s.len(),
{
    if s.len() > 0 {
        lemma_map_of_pairs(s.drop_last());
        assert(pairs_of(s).drop_last() =~= pairs_of(s.drop_last()));
    }
}

/// The last position of `s` whose key is `k`, or -1.
pub open spec fn find_key<T>(s: Seq<(Seq<char>, T)>, k: Seq<char>) -> int
    decreases s.len(),
{
    if s.len() == 0 {
        -1
    } else if s.last().0 == k {
        s.len() - 1
    } else {
        find_key(s.drop_last(), k)
    }
}

/// A position that holds `k` and after which no position holds it is the
/// last position of `k`; where no position holds it, that is -1.
pub proof fn lemma_find_key_is<T>(s: Seq<(Seq<char>, T)>, k: Seq<char>, i: int)
    requires
        -1 <= i < s.len(),
        i >= 0 ==> s[i].0 == k,
        forall|j: int| i < j < s.len() ==> (#[trigger] s[j]).0 != k,
    ensures
        find_key(s, k) == i,
    decreases s.len(),
{
    if s.len() > 0 && i < s.len() - 1 {
        let t = s.drop_last();
        assert(s[s.len() - 1].0 != k);
        assert forall|j: int| i < j < t.len() implies (#[trigger] t[j]).0 != k by {
            assert(t[j] == s[j]);
        }
        lemma_find_key_is(t, k, i);
    }
}

/// The map of a list of pairs holds a key exactly where the key is found,
/// and holds for it what stands at the place where it is found.
pub proof fn lemma_find_key_map<T>(s: Seq<(Seq<char>, T)>, k: Seq<char>)
    ensures
        -1 <= find_key(s, k) < s.len(),
        pairs_map(s).contains_key(k) <==> find_key(s, k) >= 0,
        find_key(s, k) >= 0 ==> s[find_key(s, k)].0 == k && pairs_map(s)[k] == s[find_key(s, k)].1,
    decreases s.len(),
{
    if s.len() > 0 {
        lemma_find_key_map(s.drop_last(), k);
    }
}

/// `s` with `k` set to `v`: in place where `s` has the key, at the end where
/// it has not.
pub open spec fn put_pair<T>(s: Seq<(Seq<char>, T)>, k: Seq<char>, v: T) -> Seq<(Seq<char>, T)> {
    if find_key(s, k) < 0 {
        s.push((k, v))
    } else {
        s.update(find_key(s, k), (k, v))
    }
}

/// Setting a key keeps every key that was there.
pub proof fn lemma_put_pair_keeps<T>(s: Seq<(Seq<char>, T)>, k: Seq<char>, v: T, other: Seq<char>)
    ensures
        find_key(s, other) >= 0 ==> find_key(put_pair(s, k, v), other) >= 0,
        find_key(put_pair(s, k, v), k) >= 0,
        put_pair(s, k, v)[find_key(put_pair(s, k, v), k)].1 == v,
        other != k && find_key(s, other) >= 0 ==> put_pair(s, k, v)[find_key(
            put_pair(s, k, v),
            other,
        )].1 == s[find_key(s, other)].1,
        other != k ==> (find_key(put_pair(s, k, v), other) >= 0 <==> find_key(s, other) >= 0),
{
    lemma_find_key_map(s, k);
    lemma_find_key_map(s, other);
    let p = put_pair(s, k, v);
    if find_key(s, k) < 0 {
        lemma_find_key_is(p, k, s.len() as int);
        if other != k {
            assert(p.drop_last() =~= s);
        }
    } else {
        let i = find_key(s, k);
        lemma_find_key_after(s, k);
        assert forall|j: int| i < j < p.len() implies (#[trigger] p[j]).0 != k by {
            assert(p[j] == s[j]);
        }
        lemma_find_key_is(p, k, i);
        if other != k {
            let o = find_key(s, other);
            lemma_find_key_after(s, other);
            assert forall|j: int| o < j < p.len() implies (#[trigger] p[j]).0 != other by {
                if j != i {
                    assert(p[j] == s[j]);
                }
            }
            if o >= 0 {
                assert(p[o] == s[o]);
            }
            lemma_find_key_is(p, other, o);
        }
    }
}

/// No position after the one where a key is found holds the key.
pub proof fn lemma_find_key_after<T>(s: Seq<(Seq<char>, T)>, k: Seq<char>)
    ensures
        -1 <= find_key(s, k) < s.len(),
        forall|j: int| find_key(s, k) < j < s.len() ==> (#[trigger] s[j]).0 != k,
    decreases s.len(),
{
    if s.len() > 0 && s.last().0 != k {
        let t = s.drop_last();
        lemma_find_key_after(t, k);
        assert forall|j: int| find_key(s, k) < j < s.len() implies (#[trigger] s[j]).0 != k by {
            if j < t.len() {
                assert(t[j] == s[j]);
            }
        }
    }
}

/// Lists with the same keys at the same places find each key at the same
/// place.
pub proof fn lemma_find_key_same<T, U>(a: Seq<(Seq<char>, T)>, b: Seq<(Seq<char>, U)>, k: Seq<char>)
    requires
        a.len() == b.len(),
        forall|i: int| 0 <= i < a.len() ==> (#[trigger] a[i]).0 == b[i].0,
    ensures
        find_key(a, k) == find_key(b, k),
    decreases a.len(),
{
    if a.len() > 0 {
        assert(a.last().0 == a[a.len() - 1].0);
        assert(a[a.len() - 1].0 == b[a.len() - 1].0);
        if a.last().0 != k {
            let x = a.drop_last();
            let y = b.drop_last();
            assert forall|i: int| 0 <= i < x.len() implies (#[trigger] x[i]).0 == y[i].0 by {
                assert(x[i] == a[i]);
                assert(y[i] == b[i]);
                assert(a[i].0 == b[i].0);
            }
            lemma_find_key_same(x, y, k);
        }
    }
}

/// A map from text to values of `V`, in insertion order.
#[derive(Debug)]
pub struct StrMap<V> {
    pub entries: Vec<(String, V)>,
}

impl<V: View> View for StrMap<V> {
    type V = Map<Seq<char>, V::V>;

    open spec fn view(&self) -> Map<Seq<char>, V::V> {
        map_of(self.entries@)
    }
}

impl<V: View> StrMap<V> {
    /// The keys in the order of the entries.
    pub open spec fn keys(&self) -> Seq<Seq<char>> {
        keys_of(self.entries@)
    }

    /// The entries as pairs of mathematical values, in order.
    pub open spec fn pairs(&self) -> Seq<(Seq<char>, V::V)> {
        pairs_of(self.entries@)
    }

    /// The empty map.
    pub fn new() -> (r: Self)
        ensures
            r@ == Map::<Seq<char>, V::V>::empty(),
            r.entries@.len() == 0,
    {
        StrMap { entries: Vec::new() }
    }

    /// The number of entries.
    pub fn len(&self) -> (r: usize)
        ensures
            r == self.entries@.len(),
    {
        self.entries.len()
    }

    /// Whether the map has no entry.
    pub fn is_empty(&self) -> (r: bool)
        ensures
            r == (self.entries@.len() == 0),
            r == (self@ == Map::<Seq<char>, V::V>::empty()),
    {
        proof {
            if self.entries@.len() > 0 {
                assert(self@.contains_key(self.entries@.last().0@));
            }
        }
        self.entries.len() == 0
    }

    /// The last position that holds `key`.
    pub fn position(&self, key: &str) -> (r: Option<usize>)
        ensures
            match r {
                Some(i) => last_index(self.entries@, key@, i as int) && find_key(
                    self.pairs(),
                    key@,
                ) == i,
                None => absent(self.entries@, key@) && find_key(self.pairs(), key@) == -1,
            },
            r is Some == self@.contains_key(key@),
    {
        let mut i: usize = self.entries.len();
        while i > 0
            invariant
                i <= self.entries.len(),
                forall|j: int| i <= j < self.entries.len() ==> (#[trigger] self.entries@[j]).0@ != key@,
            decreases i,
        {
            i = i - 1;
            if same_text(self.entries[i].0.as_str(), key) {
                proof {
                    lemma_map_of_found(self.entries@, key@, i as int);
                    assert forall|j: int| i < j < self.pairs().len() implies (
                    #[trigger] self.pairs()[j]).0 != key@ by {
                        assert(self.entries@[j].0@ != key@);
                    }
                    lemma_find_key_is(self.pairs(), key@, i as int);
                }
                return Some(i);
            }
        }
        proof {
            lemma_map_of_absent(self.entries@, key@);
            assert forall|j: int| 0 <= j < self.pairs().len() implies (#[trigger] self.pairs()[j]).0
                != key@ by {
                assert(self.entries@[j].0@ != key@);
            }
            lemma_find_key_is(self.pairs(), key@, -1);
        }
        None
    }

    /// Whether the map holds `key`.
    pub fn contains_key(&self, key: &str) -> (r: bool)
        ensures
            r == self@.contains_key(key@),
    {
        self.position(key).is_some()
    }

    /// The value of `key`.
    pub fn get(&self, key: &str) -> (r: Option<&V>)
        ensures
            match r {
                Some(v) => self@.contains_key(key@) && v@ == self@[key@],
                None => !self@.contains_key(key@),
            },
    {
        match self.position(key) {
            Some(i) => {
                proof {
                    lemma_map_of_found(self.entries@, key@, i as int);
                }
                Some(&self.entries[i].1)
            },
            None => None,
        }
    }

    /// Sets the value of `key`: in place where the map holds the key, at the
    /// end where it does not.
    pub fn insert(&mut self, key: String, value: V)
        ensures
            final(self)@ == old(self)@.insert(key@, value@),
            old(self)@.contains_key(key@) ==> exists|i: int|
                last_index(old(self).entries@, key@, i) && final(self).entries@ == old(
                    self,
                ).entries@.update(i, (key, value)),
            !old(self)@.contains_key(key@) ==> final(self).entries@ == old(self).entries@.push(
                (key, value),
            ),
            final(self).pairs() == put_pair(old(self).pairs(), key@, value@),
    {
        match self.position(key.as_str()) {
            Some(i) => {
                proof {
                    lemma_map_of_update(self.entries@, i as int, (key, value));
                }
                self.entries.set(i, (key, value));
            },
            None => {
                proof {
                    lemma_map_of_push(self.entries@, (key, value));
                }
                self.entries.push((key, value));
            },
        }
        assert(self.pairs() =~= put_pair(old(self).pairs(), key@, value@));
    }

    /// The value of `key`, as the entries hold it.
    pub fn find(&self, key: &str) -> (r: Option<&V>)
        ensures
            match r {
                Some(v) => find_key(self.pairs(), key@) >= 0 && v@ == self.pairs()[find_key(
                    self.pairs(),
                    key@,
                )].1,
                None => find_key(self.pairs(), key@) < 0,
            },
            r is Some == pairs_map(self.pairs()).contains_key(key@),
    {
        proof {
            lemma_find_key_map(self.pairs(), key@);
        }
        match self.position(key) {
            Some(i) => Some(&self.entries[i].1),
            None => None,
        }
    }
}

/// The set that a list of texts stands for.
pub open spec fn set_of(s: Seq<String>) -> Set<Seq<char>> {
    Set::new(|k: Seq<char>| exists|i: int| 0 <= i < s.len() && (#[trigger] s[i])@ == k)
}

/// The texts of a list, in order.
pub open spec fn names_of(s: Seq<String>) -> Seq<Seq<char>> {
    Seq::new(s.len(), |i: int| s[i]@)
}

/// A set of texts, in insertion order.
#[derive(Debug)]
pub struct StrSet {
    pub items: Vec<String>,
}

impl View for StrSet {
    type V = Set<Seq<char>>;

    open spec fn view(&self) -> Set<Seq<char>> {
        set_of(self.items@)
    }
}

impl StrSet {
    /// The members in insertion order.
    pub open spec fn names(&self) -> Seq<Seq<char>> {
        names_of(self.items@)
    }

    /// The empty set.
    pub fn new() -> (r: Self)
        ensures
            r@ == Set::<Seq<char>>::empty(),
            r.items@.len() == 0,
    {
        let r = StrSet { items: Vec::new() };
        assert(r@ =~= Set::<Seq<char>>::empty());
        r
    }

    /// The number of members kept.
    pub fn len(&self) -> (r: usize)
        ensures
            r == self.items@.len(),
    {
        self.items.len()
    }

    /// Whether the set has no member.
    pub fn is_empty(&self) -> (r: bool)
        ensures
            r == (self.items@.len() == 0),
    {
        self.items.len() == 0
    }

    /// Whether `key` is a member.
    pub fn contains(&self, key: &str) -> (r: bool)
        ensures
            r == self@.contains(key@),
    {
        let mut i: usize = 0;
        while i < self.items.len()
            invariant
                i <= self.items.len(),
                forall|j: int| 0 <= j < i ==> (#[trigger] self.items@[j])@ != key@,
            decreases self.items.len() - i,
        {
            if same_text(self.items[i].as_str(), key) {
                return true;
            }
            i = i + 1;
        }
        false
    }

    /// Adds `key`; says whether it was new.
    pub fn insert(&mut self, key: String) -> (r: bool)
        ensures
            r == !old(self)@.contains(key@),
            final(self)@ == old(self)@.insert(key@),
            r ==> final(self).items@ == old(self).items@.push(key),
            !r ==> final(self).items@ == old(self).items@,
            old(self).names().no_duplicates() ==> final(self).names().no_duplicates(),
    {
        if self.contains(key.as_str()) {
            assert(self@ =~= old(self)@.insert(key@));
            false
        } else {
            let ghost before = self.items@;
            self.items.push(key);
            proof {
                assert forall|k: Seq<char>| self@.contains(k) <==> old(self)@.insert(key@).contains(
                    k,
                ) by {
                    if self@.contains(k) {
                        let i = choose|i: int| 0 <= i < self.items@.len() && (#[trigger] self.items@[i])@ == k;
                        if i < before.len() {
                            assert(before[i]@ == k);
                        }
                    }
                    if old(self)@.contains(k) {
                        let i = choose|i: int| 0 <= i < before.len() && (#[trigger] before[i])@ == k;
                        assert(self.items@[i]@ == k);
                    }
                    if k == key@ {
                        assert(self.items@[before.len() as int]@ == k);
                    }
                }
                assert(self@ =~= old(self)@.insert(key@));
                if old(self).names().no_duplicates() {
                    assert forall|i: int, j: int|
                        0 <= i < self.names().len() && 0 <= j < self.names().len() && i != j implies self.names()[i]
                        != self.names()[j] by {
                        if i < before.len() && j < before.len() {
                            assert(old(self).names()[i] != old(self).names()[j]);
                        } else if i < before.len() {
                            assert(before[i]@ != key@);
                        } else {
                            assert(before[j]@ != key@);
                        }
                    }
                }
            }
            true
        }
    }
}

impl Clone for StrMap<String> {
    /// A copy with the same entries in the same order.
    fn clone(&self) -> (r: StrMap<String>)
        ensures
            r.entries@ == self.entries@,
            r@ == self@,
    {
        let mut out: Vec<(String, String)> = Vec::new();
        let mut i: usize = 0;
        while i < self.entries.len()
            invariant
                i <= self.entries.len(),
                out@ == self.entries@.take(i as int),
            decreases self.entries.len() - i,
        {
            let k = self.entries[i].0.clone();
            let v = self.entries[i].1.clone();
            out.push((k, v));
            i = i + 1;
            assert(out@ =~= self.entries@.take(i as int));
        }
        assert(self.entries@.take(i as int) =~= self.entries@);
        StrMap { entries: out }
    }
}

impl Clone for StrSet {
    /// A copy with the same members in the same order.
    fn clone(&self) -> (r: StrSet)
        ensures
            r.items@ == self.items@,
            r@ == self@,
    {
        let mut out: Vec<String> = Vec::new();
        let mut i: usize = 0;
        while i < self.items.len()
            invariant
                i <= self.items.len(),
                out@ == self.items@.take(i as int),
            decreases self.items.len() - i,
        {
            out.push(self.items[i].clone());
            i = i + 1;
            assert(out@ =~= self.items@.take(i as int));
        }
        assert(self.items@.take(i as int) =~= self.items@);
        StrSet { items: out }
    }
}

/// The entries of `m` under their keys with `p` put in front.
pub open spec fn prefixed<T>(m: Map<Seq<char>, T>, p: Seq<char>) -> Map<Seq<char>, T> {
    Map::new(
        |k: Seq<char>| k.len() >= p.len() && k.take(p.len() as int) == p && m.contains_key(
            k.skip(p.len() as int),
        ),
        |k: Seq<char>| m[k.skip(p.len() as int)],
    )
}

/// Putting the prefix in front of a new entry is inserting the entry under
/// the longer key.
pub proof fn lemma_prefixed_insert<T>(m: Map<Seq<char>, T>, p: Seq<char>, k: Seq<char>, v: T)
    ensures
        prefixed(m.insert(k, v), p) == prefixed(m, p).insert(p + k, v),
{
    assert((p + k).skip(p.len() as int) =~= k);
    assert((p + k).take(p.len() as int) =~= p);
    assert forall|key: Seq<char>|
        prefixed(m.insert(k, v), p).contains_key(key) <==> prefixed(m, p).insert(
            p + k,
            v,
        ).contains_key(key) by {
        if key.len() >= p.len() && key.take(p.len() as int) == p && key.skip(p.len() as int) == k {
            assert(key =~= p + k);
        }
    }
    assert forall|key: Seq<char>| prefixed(m.insert(k, v), p).contains_key(key) implies prefixed(
        m.insert(k, v),
        p,
    )[key] == prefixed(m, p).insert(p + k, v)[key] by {
        if key.skip(p.len() as int) == k {
            assert(key =~= p + k);
        }
    }
    assert(prefixed(m.insert(k, v), p) =~= prefixed(m, p).insert(p + k, v));
}

} // verus!
