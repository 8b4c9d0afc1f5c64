//! The inventory: hosts, groups, variable inheritance and host patterns.

pub mod host;
pub mod parser;
pub mod vars;

use vstd::prelude::*;
use crate::strmap::{
    lemma_map_of_pairs, lemma_map_of_take, map_of, names_of, pairs_map, pairs_of, set_of, StrMap,
    StrSet,
};
use crate::text::same_text;
pub use crate::inventory::host::{Host, HostGroup};
use crate::inventory::host::{HostGroupView, HostView};

verus! {

/// Text to text.
pub type Vars = Map<Seq<char>, Seq<char>>;

/// The hosts and groups of a run.
#[derive(Debug)]
pub struct Inventory {
    pub hosts: StrMap<Host>,
    pub groups: StrMap<HostGroup>,
}

/// The mathematical value of an inventory: the hosts and the groups under
/// their keys, in the order in which they came. Of two entries with one key
/// the later is the one that a lookup finds.
pub struct InventoryView {
    pub hosts: Seq<(Seq<char>, HostView)>,
    pub groups: Seq<(Seq<char>, HostGroupView)>,
}

impl View for Inventory {
    type V = InventoryView;

    open spec fn view(&self) -> InventoryView {
        InventoryView { hosts: pairs_of(self.hosts.entries@), groups: pairs_of(self.groups.entries@) }
    }
}

/// The entries of `vars` whose key `explicit` does not define.
pub open spec fn gaps(vars: Vars, explicit: Vars) -> Vars {
    vars.remove_keys(explicit.dom())
}

/// The variables of the group "all".
pub open spec fn all_vars(groups: Seq<(Seq<char>, HostGroupView)>) -> Vars {
    if pairs_map(groups).contains_key("all"@) {
        pairs_map(groups)["all"@].variables
    } else {
        Map::empty()
    }
}

/// What the first `n` groups, but for "all", give to the host under the key
/// `host`: each group of which it is a member gives its variables where the
/// host defines none itself, a later group over an earlier one.
pub open spec fn group_writes(
    host: Seq<char>,
    explicit: Vars,
    groups: Seq<(Seq<char>, HostGroupView)>,
    n: nat,
) -> Vars
    decreases n,
{
    if n == 0 || n > groups.len() {
        Map::empty()
    } else {
        let prev = group_writes(host, explicit, groups, (n - 1) as nat);
        if groups[n - 1].0 != "all"@ && groups[n - 1].1.hosts.contains(host) {
            prev.union_prefer_right(gaps(groups[n - 1].1.variables, explicit))
        } else {
            prev
        }
    }
}

/// The inherited variables of a host after inheritance: what it had, then
/// what "all" gives, then what its groups give.
pub open spec fn inherited_after(
    key: Seq<char>,
    h: HostView,
    groups: Seq<(Seq<char>, HostGroupView)>,
) -> Vars {
    h.inherited_variables.union_prefer_right(gaps(all_vars(groups), h.variables)).union_prefer_right(
        group_writes(key, h.variables, groups, groups.len()),
    )
}

/// A host after inheritance from the groups.
pub open spec fn host_after(
    key: Seq<char>,
    h: HostView,
    groups: Seq<(Seq<char>, HostGroupView)>,
) -> HostView {
    HostView { inherited_variables: inherited_after(key, h, groups), ..h }
}

/// The hosts after inheritance from the groups.
pub open spec fn hosts_after(
    hosts: Seq<(Seq<char>, HostView)>,
    groups: Seq<(Seq<char>, HostGroupView)>,
) -> Seq<(Seq<char>, HostView)> {
    Seq::new(hosts.len(), |i: int| (hosts[i].0, host_after(hosts[i].0, hosts[i].1, groups)))
}

/// A group after it took from its parent, as the parent stood before the
/// pass, the variables that it does not define itself.
pub open spec fn group_after(g: HostGroupView, groups: Seq<(Seq<char>, HostGroupView)>) -> HostGroupView {
    match g.parent {
        Some(p) => if pairs_map(groups).contains_key(p) {
            HostGroupView {
                variables: g.variables.union_prefer_right(
                    gaps(pairs_map(groups)[p].variables, g.variables),
                ),
                ..g
            }
        } else {
            g
        },
        None => g,
    }
}

/// The groups after each took from its parent: one step, not the whole chain.
pub open spec fn groups_after(groups: Seq<(Seq<char>, HostGroupView)>) -> Seq<
    (Seq<char>, HostGroupView),
> {
    Seq::new(groups.len(), |i: int| (groups[i].0, group_after(groups[i].1, groups)))
}

/// The inventory after inheritance: the hosts from the groups as they
/// stood, then the groups from their parents.
pub open spec fn inherited(inv: InventoryView) -> InventoryView {
    InventoryView { hosts: hosts_after(inv.hosts, inv.groups), groups: groups_after(inv.groups) }
}

/// `h` is a member of the group `name` or of one of its descendants down to
/// `depth` levels below it.
pub open spec fn reaches(
    groups: Map<Seq<char>, HostGroupView>,
    name: Seq<char>,
    depth: nat,
    h: Seq<char>,
) -> bool
    decreases depth,
{
    groups.contains_key(name) && (groups[name].hosts.contains(h) || (depth > 0 && exists|
        c: Seq<char>,
    |
        #[trigger] groups[name].children.contains(c) && reaches(groups, c, (depth - 1) as nat, h)))
}

/// The hosts of the inventory among the members of the group `name` and of
/// its descendants down to `depth` levels below it.
pub open spec fn group_hosts(
    groups: Map<Seq<char>, HostGroupView>,
    known: Set<Seq<char>>,
    name: Seq<char>,
    depth: nat,
) -> Set<Seq<char>> {
    Set::new(|h: Seq<char>| known.contains(h) && reaches(groups, name, depth, h))
}

/// The keys of the hosts that a pattern selects: those of the group of that
/// name and of its descendants; else the host of that name; else none. A
/// chain of groups is followed as far as there are groups.
pub open spec fn matched(inv: InventoryView, pattern: Seq<char>) -> Set<Seq<char>> {
    if pairs_map(inv.groups).contains_key(pattern) {
        group_hosts(pairs_map(inv.groups), pairs_map(inv.hosts).dom(), pattern, inv.groups.len())
    } else if pairs_map(inv.hosts).contains_key(pattern) {
        set![pattern]
    } else {
        Set::empty()
    }
}

/// `hosts` are the snapshots of the hosts that `pattern` selects, each
/// once, under the keys `keys`: each as the inventory holds it, with what it
/// inherits from the groups.
pub open spec fn selection(
    inv: InventoryView,
    pattern: Seq<char>,
    keys: Seq<Seq<char>>,
    hosts: Seq<HostView>,
) -> bool {
    &&& keys.len() == hosts.len()
    &&& keys.no_duplicates()
    &&& forall|k: Seq<char>| keys.contains(k) <==> matched(inv, pattern).contains(k)
    &&& forall|i: int|
        0 <= i < keys.len() ==> pairs_map(inv.hosts).contains_key(#[trigger] keys[i]) && hosts[i]
            == host_after(keys[i], pairs_map(inv.hosts)[keys[i]], inv.groups)
}

/// The mathematical values of a list of hosts.
pub open spec fn host_views(hosts: Seq<Host>) -> Seq<HostView> {
    Seq::new(hosts.len(), |i: int| hosts[i]@)
}

/// Running inheritance again on hosts that have inherited from the same
/// groups changes nothing.
pub proof fn law_host_inheritance_idempotent(
    hosts: Seq<(Seq<char>, HostView)>,
    groups: Seq<(Seq<char>, HostGroupView)>,
)
    ensures
        hosts_after(hosts_after(hosts, groups), groups) == hosts_after(hosts, groups),
{
    let once = hosts_after(hosts, groups);
    let twice = hosts_after(once, groups);
    assert forall|i: int| 0 <= i < once.len() implies twice[i] == once[i] by {
        let h = hosts[i].1;
        let k = hosts[i].0;
        assert(inherited_after(k, once[i].1, groups) =~= inherited_after(k, h, groups));
    }
    assert(twice =~= once);
}

/// What the groups give to the host under the key `key`: what "all" gives,
/// then what the groups give of which it is a member.
pub open spec fn given(
    key: Seq<char>,
    explicit: Vars,
    groups: Seq<(Seq<char>, HostGroupView)>,
) -> Vars {
    gaps(all_vars(groups), explicit).union_prefer_right(
        group_writes(key, explicit, groups, groups.len()),
    )
}

/// Whether the hosts gain nothing from what the groups took from their
/// parents: what the groups give to a host as they stand after inheritance,
/// the host has inherited already.
pub open spec fn hosts_gain_nothing(inv: InventoryView) -> bool {
    forall|i: int|
        0 <= i < inv.hosts.len() ==> given(
            (#[trigger] inv.hosts[i]).0,
            inv.hosts[i].1.variables,
            groups_after(inv.groups),
        ).submap_of(inherited_after(inv.hosts[i].0, inv.hosts[i].1, inv.groups))
}

/// Running inheritance twice leaves every host as running it once does,
/// exactly where the hosts gain nothing from what the groups took from
/// their parents in the first run.
pub proof fn law_inheritance_idempotent(inv: InventoryView)
    ensures
        hosts_gain_nothing(inv) <==> inherited(inherited(inv)).hosts == inherited(inv).hosts,
{
    let g = inv.groups;
    let g2 = groups_after(g);
    let once = hosts_after(inv.hosts, g);
    let twice = hosts_after(once, g2);
    assert(inherited(inherited(inv)).hosts == twice);
    assert(inherited(inv).hosts == once);
    if hosts_gain_nothing(inv) {
        assert forall|i: int| 0 <= i < once.len() implies twice[i] == once[i] by {
            let k = inv.hosts[i].0;
            let h = inv.hosts[i].1;
            let first = inherited_after(k, h, g);
            let gift = given(k, h.variables, g2);
            assert(gift.submap_of(first));
            assert(once[i].1 == host_after(k, h, g));
            assert(inherited_after(k, once[i].1, g2) =~= first.union_prefer_right(gift));
            assert forall|x: Seq<char>| gift.dom().contains(x) implies first.dom().contains(x)
                && first[x] == gift[x] by {}
            assert(first.union_prefer_right(gift) =~= first);
        }
        assert(twice =~= once);
    }
    if twice == once {
        assert forall|i: int| 0 <= i < inv.hosts.len() implies given(
            (#[trigger] inv.hosts[i]).0,
            inv.hosts[i].1.variables,
            g2,
        ).submap_of(inherited_after(inv.hosts[i].0, inv.hosts[i].1, g)) by {
            let k = inv.hosts[i].0;
            let h = inv.hosts[i].1;
            assert(twice[i] == once[i]);
            assert(twice[i].1.inherited_variables == inherited_after(k, once[i].1, g2));
            assert(once[i].1.inherited_variables == inherited_after(k, h, g));
            assert(once[i].1.variables == h.variables);
            let first = inherited_after(k, h, g);
            let gift = given(k, h.variables, g2);
            assert(inherited_after(k, once[i].1, g2) =~= first.union_prefer_right(gift));
            assert forall|x: Seq<char>| gift.dom().contains(x) implies #[trigger] first.dom().contains(
                x,
            ) && first[x] == gift[x] by {
                assert(first.union_prefer_right(gift)[x] == gift[x]);
                assert(first.union_prefer_right(gift).dom().contains(x));
            }
        }
    }
}

/// Where no group takes anything from its parent, running inheritance
/// twice gives the same inventory as running it once, groups and all.
pub proof fn law_inheritance_fixed_without_parents(inv: InventoryView)
    requires
        groups_after(inv.groups) == inv.groups,
    ensures
        inherited(inherited(inv)) == inherited(inv),
{
    law_host_inheritance_idempotent(inv.hosts, inv.groups);
}

/// Where every host of the inventory is a member of the group "all" or of
/// one of its descendants, the pattern "all" selects every host, each once.
pub proof fn law_all_selects_every_host(
    inv: InventoryView,
    keys: Seq<Seq<char>>,
    hosts: Seq<HostView>,
)
    requires
        pairs_map(inv.groups).contains_key("all"@),
        pairs_map(inv.hosts).dom().subset_of(
            group_hosts(
                pairs_map(inv.groups),
                pairs_map(inv.hosts).dom(),
                "all"@,
                inv.groups.len(),
            ),
        ),
        selection(inv, "all"@, keys, hosts),
    ensures
        keys.no_duplicates(),
        forall|k: Seq<char>| keys.contains(k) <==> pairs_map(inv.hosts).contains_key(k),
{
}

/// Copies into `target` the entries of `vars` whose key `explicit` does not
/// define.
pub fn fill_gaps(target: &mut StrMap<String>, vars: &StrMap<String>, explicit: &StrMap<String>)
    ensures
        final(target)@ == old(target)@.union_prefer_right(gaps(vars@, explicit@)),
{
    let mut i: usize = 0;
    proof {
        assert(vars.entries@.take(0).len() == 0);
        assert(target@ =~= old(target)@.union_prefer_right(
            gaps(map_of(vars.entries@.take(0)), explicit@),
        ));
    }
    while i < vars.entries.len()
        invariant
            i <= vars.entries.len(),
            target@ == old(target)@.union_prefer_right(
                gaps(map_of(vars.entries@.take(i as int)), explicit@),
            ),
        decreases vars.entries.len() - i,
    {
        let key = &vars.entries[i].0;
        let value = &vars.entries[i].1;
        proof {
            lemma_map_of_take(vars.entries@, i as int);
        }
        if !explicit.contains_key(key.as_str()) {
            target.insert(key.clone(), value.clone());
            assert(target@ =~= old(target)@.union_prefer_right(
                gaps(map_of(vars.entries@.take(i + 1)), explicit@),
            ));
        } else {
            assert(gaps(map_of(vars.entries@.take(i + 1)), explicit@) =~= gaps(
                map_of(vars.entries@.take(i as int)),
                explicit@,
            ));
        }
        i = i + 1;
    }
    proof {
        assert(vars.entries@.take(i as int) =~= vars.entries@);
    }
}

/// Gives the host under the key `key` what the groups hold for it: first
/// the variables of "all", then those of each other group of which it is a
/// member. A variable that the host defines itself is never touched.
pub fn inherit_into(groups: &StrMap<HostGroup>, key: &str, host: &mut Host)
    ensures
        final(host)@ == host_after(key@, old(host)@, pairs_of(groups.entries@)),
        final(host).variables == old(host).variables,
{
    let ghost gs = pairs_of(groups.entries@);
    proof {
        lemma_map_of_pairs(groups.entries@);
    }
    let explicit = host.variables.clone();
    match groups.get("all") {
        Some(all) => {
            fill_gaps(&mut host.inherited_variables, &all.variables, &explicit);
        },
        None => {
            assert(host.inherited_variables@ =~= old(host).inherited_variables@.union_prefer_right(
                gaps(all_vars(gs), explicit@),
            ));
        },
    }
    let ghost base = host.inherited_variables@;
    let mut i: usize = 0;
    assert(host.inherited_variables@ =~= base.union_prefer_right(
        group_writes(key@, explicit@, gs, 0),
    ));
    while i < groups.entries.len()
        invariant
            i <= groups.entries.len(),
            gs == pairs_of(groups.entries@),
            explicit@ == old(host)@.variables,
            host.variables == old(host).variables,
            host.name == old(host).name,
            host.hostname == old(host).hostname,
            host.port == old(host).port,
            host.inherited_variables@ == base.union_prefer_right(
                group_writes(key@, explicit@, gs, i as nat),
            ),
        decreases groups.entries.len() - i,
    {
        let name = &groups.entries[i].0;
        let group = &groups.entries[i].1;
        if !same_text(name.as_str(), "all") && group.hosts.contains(key) {
            fill_gaps(&mut host.inherited_variables, &group.variables, &explicit);
            assert(host.inherited_variables@ =~= base.union_prefer_right(
                group_writes(key@, explicit@, gs, (i + 1) as nat),
            ));
        }
        i = i + 1;
    }
}

impl Inventory {
    /// An inventory with the two groups that every inventory has, "all"
    /// and "ungrouped", and no host.
    pub fn new() -> (r: Inventory)
        ensures
            r@.hosts.len() == 0,
            r@.groups == seq![
                ("all"@, crate::inventory::host::fresh_group("all"@)),
                ("ungrouped"@, crate::inventory::host::fresh_group("ungrouped"@)),
            ],
    {
        let mut groups: StrMap<HostGroup> = StrMap::new();
        groups.insert("all".to_owned(), HostGroup::new("all"));
        groups.insert("ungrouped".to_owned(), HostGroup::new("ungrouped"));
        let r = Inventory { hosts: StrMap::new(), groups };
        proof {
            reveal_strlit("all");
            reveal_strlit("ungrouped");
            assert("all"@.len() != "ungrouped"@.len());
            assert(r@.groups =~= seq![
                ("all"@, crate::inventory::host::fresh_group("all"@)),
                ("ungrouped"@, crate::inventory::host::fresh_group("ungrouped"@)),
            ]);
        }
        r
    }

    /// Puts a host under its name, in place of one that stood there.
    pub fn add_host(&mut self, host: Host)
        ensures
            pairs_map(final(self)@.hosts) == pairs_map(old(self)@.hosts).insert(host@.name, host@),
            final(self)@.groups == old(self)@.groups,
            !pairs_map(old(self)@.hosts).contains_key(host@.name) ==> final(self)@.hosts == old(
                self,
            )@.hosts.push((host@.name, host@)),
    {
        proof {
            lemma_map_of_pairs(self.hosts.entries@);
        }
        let name = host.name.clone();
        self.hosts.insert(name, host);
        proof {
            lemma_map_of_pairs(self.hosts.entries@);
            if !pairs_map(old(self)@.hosts).contains_key(host@.name) {
                assert(self@.hosts =~= old(self)@.hosts.push((host@.name, host@)));
            }
        }
    }

    /// Puts a group under its name, in place of one that stood there.
    pub fn add_group(&mut self, group: HostGroup)
        ensures
            pairs_map(final(self)@.groups) == pairs_map(old(self)@.groups).insert(
                group@.name,
                group@,
            ),
            final(self)@.hosts == old(self)@.hosts,
            !pairs_map(old(self)@.groups).contains_key(group@.name) ==> final(self)@.groups == old(
                self,
            )@.groups.push((group@.name, group@)),
    {
        proof {
            lemma_map_of_pairs(self.groups.entries@);
        }
        let name = group.name.clone();
        self.groups.insert(name, group);
        proof {
            lemma_map_of_pairs(self.groups.entries@);
            if !pairs_map(old(self)@.groups).contains_key(group@.name) {
                assert(self@.groups =~= old(self)@.groups.push((group@.name, group@)));
            }
        }
    }

    /// The group of the given name.
    pub fn get_group(&self, name: &str) -> (r: Option<&HostGroup>)
        ensures
            match r {
                Some(g) => pairs_map(self@.groups).contains_key(name@) && pairs_map(
                    self@.groups,
                )[name@] == g@,
                None => !pairs_map(self@.groups).contains_key(name@),
            },
    {
        proof {
            lemma_map_of_pairs(self.groups.entries@);
        }
        self.groups.get(name)
    }

    /// Applies inheritance: every host takes from "all" and from its groups
    /// the variables that it does not define itself; then every group takes
    /// from its parent, as the parent stood, the variables that the group does
    /// not define itself.
    pub fn apply_group_vars(&mut self)
        ensures
            final(self)@ == inherited(old(self)@),
    {
        let ghost gs = self@.groups;
        let ghost hs = self@.hosts;
        let mut i: usize = 0;
        while i < self.hosts.entries.len()
            invariant
                i <= self.hosts.entries.len(),
                self.groups == old(self).groups,
                gs == old(self)@.groups,
                hs == old(self)@.hosts,
                self@.hosts.len() == hs.len(),
                forall|j: int| 0 <= j < i ==> (#[trigger] self@.hosts[j]) == hosts_after(hs, gs)[j],
                forall|j: int| i <= j < hs.len() ==> (#[trigger] self@.hosts[j]) == hs[j],
            decreases self.hosts.entries.len() - i,
        {
            let key = self.hosts.entries[i].0.clone();
            let mut host = self.hosts.entries[i].1.clone();
            assert(self@.hosts[i as int] == hs[i as int]);
            inherit_into(&self.groups, key.as_str(), &mut host);
            let ghost before = self@.hosts;
            self.hosts.entries.set(i, (key, host));
            assert forall|j: int| 0 <= j < i + 1 implies (#[trigger] self@.hosts[j]) == hosts_after(
                hs,
                gs,
            )[j] by {
                if j < i {
                    assert(self@.hosts[j] == before[j]);
                }
            }
            assert forall|j: int| i + 1 <= j < hs.len() implies (#[trigger] self@.hosts[j])
                == hs[j] by {
                assert(self@.hosts[j] == before[j]);
            }
            i = i + 1;
        }
        assert(self@.hosts =~= hosts_after(hs, gs));
        self.apply_parent_group_vars();
    }

    /// Every group takes from its parent, as the parent stood before the
    /// pass, the variables that the group does not define itself.
    pub fn apply_parent_group_vars(&mut self)
        ensures
            final(self)@.groups == groups_after(old(self)@.groups),
            final(self)@.hosts == old(self)@.hosts,
    {
        let ghost gs = self@.groups;
        let mut parents: Vec<Option<StrMap<String>>> = Vec::new();
        let mut k: usize = 0;
        proof {
            lemma_map_of_pairs(self.groups.entries@);
        }
        while k < self.groups.entries.len()
            invariant
                k <= self.groups.entries.len(),
                self.groups == old(self).groups,
                self.hosts == old(self).hosts,
                gs == old(self)@.groups,
                map_of(self.groups.entries@) == pairs_map(gs),
                parents.len() == k,
                forall|j: int|
                    0 <= j < k ==> match (#[trigger] parents[j]) {
                        Some(vars) => gs[j].1.parent is Some && pairs_map(gs).contains_key(
                            gs[j].1.parent.unwrap(),
                        ) && vars@ == pairs_map(gs)[gs[j].1.parent.unwrap()].variables,
                        None => group_after(gs[j].1, gs) == gs[j].1,
                    },
            decreases self.groups.entries.len() - k,
        {
            let found = match &self.groups.entries[k].1.parent {
                Some(p) => match self.groups.get(p.as_str()) {
                    Some(pg) => Some(pg.variables.clone()),
                    None => None,
                },
                None => None,
            };
            parents.push(found);
            k = k + 1;
        }
        let mut i: usize = 0;
        while i < self.groups.entries.len()
            invariant
                i <= self.groups.entries.len(),
                self.hosts == old(self).hosts,
                gs == old(self)@.groups,
                self@.groups.len() == gs.len(),
                parents.len() == gs.len(),
                forall|j: int|
                    0 <= j < gs.len() ==> match (#[trigger] parents[j]) {
                        Some(vars) => gs[j].1.parent is Some && pairs_map(gs).contains_key(
                            gs[j].1.parent.unwrap(),
                        ) && vars@ == pairs_map(gs)[gs[j].1.parent.unwrap()].variables,
                        None => group_after(gs[j].1, gs) == gs[j].1,
                    },
                forall|j: int| 0 <= j < i ==> (#[trigger] self@.groups[j]) == groups_after(gs)[j],
                forall|j: int| i <= j < gs.len() ==> (#[trigger] self@.groups[j]) == gs[j],
            decreases self.groups.entries.len() - i,
        {
            assert(self@.groups[i as int] == gs[i as int]);
            match &parents[i] {
                Some(vars) => {
                    let key = self.groups.entries[i].0.clone();
                    let mut group = self.groups.entries[i].1.clone();
                    let own = group.variables.clone();
                    fill_gaps(&mut group.variables, vars, &own);
                    let ghost before = self@.groups;
                    self.groups.entries.set(i, (key, group));
                    assert forall|j: int| 0 <= j < i + 1 implies (#[trigger] self@.groups[j])
                        == groups_after(gs)[j] by {
                        if j < i {
                            assert(self@.groups[j] == before[j]);
                        }
                    }
                    assert forall|j: int| i + 1 <= j < gs.len() implies (#[trigger] self@.groups[j])
                        == gs[j] by {
                        assert(self@.groups[j] == before[j]);
                    }
                },
                None => {},
            }
            i = i + 1;
        }
        assert(self@.groups =~= groups_after(gs));
    }

    /// Adds to `result` the hosts of the inventory among the members of the
    /// group `group_name` and of its descendants down to `depth` levels.
    pub fn add_group_hosts_recursive(&self, group_name: &str, result: &mut StrSet, depth: usize)
        ensures
            final(result)@ == old(result)@.union(
                group_hosts(
                    pairs_map(self@.groups),
                    pairs_map(self@.hosts).dom(),
                    group_name@,
                    depth as nat,
                ),
            ),
            old(result).names().no_duplicates() ==> final(result).names().no_duplicates(),
        decreases depth,
    {
        let ghost groups = pairs_map(self@.groups);
        let ghost known = pairs_map(self@.hosts).dom();
        proof {
            lemma_map_of_pairs(self.groups.entries@);
            lemma_map_of_pairs(self.hosts.entries@);
        }
        match self.groups.get(group_name) {
            None => {
                assert(result@ =~= old(result)@.union(
                    group_hosts(groups, known, group_name@, depth as nat),
                ));
            },
            Some(group) => {
                let mut i: usize = 0;
                assert(result@ =~= old(result)@.union(
                    set_of(group.hosts.items@.take(0)).intersect(known),
                ));
                while i < group.hosts.items.len()
                    invariant
                        i <= group.hosts.items.len(),
                        known == map_of(self.hosts.entries@).dom(),
                        result@ == old(result)@.union(
                            set_of(group.hosts.items@.take(i as int)).intersect(known),
                        ),
                        old(result).names().no_duplicates() ==> result.names().no_duplicates(),
                    decreases group.hosts.items.len() - i,
                {
                    let name = &group.hosts.items[i];
                    let ghost seen = set_of(group.hosts.items@.take(i as int));
                    let ghost next = set_of(group.hosts.items@.take(i + 1));
                    proof {
                        assert forall|k: Seq<char>| next.contains(k) <==> (seen.contains(k) || k
                            == name@) by {
                            let t = group.hosts.items@.take(i + 1);
                            if next.contains(k) {
                                let j = choose|j: int| 0 <= j < t.len() && (#[trigger] t[j])@ == k;
                                if j < i {
                                    assert(group.hosts.items@.take(i as int)[j]@ == k);
                                }
                            }
                            if seen.contains(k) {
                                let j = choose|j: int|
                                    0 <= j < i && (#[trigger] group.hosts.items@.take(i as int)[j])@
                                        == k;
                                assert(t[j]@ == k);
                            }
                            if k == name@ {
                                assert(t[i as int]@ == k);
                            }
                        }
                    }
                    if self.hosts.contains_key(name.as_str()) {
                        let _ = result.insert(name.clone());
                    }
                    assert(result@ =~= old(result)@.union(next.intersect(known)));
                    i = i + 1;
                }
                assert(group.hosts.items@.take(i as int) =~= group.hosts.items@);
                let ghost direct = group@.hosts.intersect(known);
                assert(result@ == old(result)@.union(direct));
                if depth > 0 {
                    let mut j: usize = 0;
                    let ghost below = (depth - 1) as nat;
                    let ghost kids = group.children.items@;
                    assert(result@ =~= old(result)@.union(direct).union(
                        Set::new(
                            |h: Seq<char>|
                                known.contains(h) && exists|c: int|
                                    0 <= c < 0 && #[trigger] reaches(groups, kids[c]@, below, h),
                        ),
                    ));
                    while j < group.children.items.len()
                        invariant
                            j <= group.children.items.len(),
                            depth > 0,
                            below == (depth - 1) as nat,
                            kids == group.children.items@,
                            groups == pairs_map(self@.groups),
                            known == pairs_map(self@.hosts).dom(),
                            result@ == old(result)@.union(direct).union(
                                Set::new(
                                    |h: Seq<char>|
                                        known.contains(h) && exists|c: int|
                                            0 <= c < j && #[trigger] reaches(
                                                groups,
                                                kids[c]@,
                                                below,
                                                h,
                                            ),
                                ),
                            ),
                            old(result).names().no_duplicates() ==> result.names().no_duplicates(),
                        decreases group.children.items.len() - j,
                    {
                        let child = &group.children.items[j];
                        let ghost before = result@;
                        self.add_group_hosts_recursive(child.as_str(), result, depth - 1);
                        proof {
                            let goal = old(result)@.union(direct).union(
                                Set::new(
                                    |h: Seq<char>|
                                        known.contains(h) && exists|c: int|
                                            0 <= c < j + 1 && #[trigger] reaches(
                                                groups,
                                                kids[c]@,
                                                below,
                                                h,
                                            ),
                                ),
                            );
                            assert forall|h: Seq<char>| result@.contains(h) <==> goal.contains(h) by {
                                if group_hosts(groups, known, child@, below).contains(h) {
                                    assert(reaches(groups, kids[j as int]@, below, h));
                                }
                                if goal.contains(h) && !old(result)@.union(direct).contains(h) {
                                    let c = choose|c: int|
                                        0 <= c < j + 1 && #[trigger] reaches(
                                            groups,
                                            kids[c]@,
                                            below,
                                            h,
                                        );
                                    if c < j {
                                        assert(before.contains(h));
                                    }
                                }
                            }
                            assert(result@ =~= goal);
                        }
                        j = j + 1;
                    }
                    proof {
                        let whole = group_hosts(groups, known, group_name@, depth as nat);
                        assert(groups.contains_key(group_name@));
                        assert(groups[group_name@] == group@);
                        assert(below == (depth - 1) as nat);
                        assert forall|h: Seq<char>| result@.contains(h) <==> old(result)@.union(
                            whole,
                        ).contains(h) by {
                            if result@.contains(h) && !old(result)@.contains(h) && !direct.contains(
                                h,
                            ) {
                                let c = choose|c: int|
                                    0 <= c < j && #[trigger] reaches(groups, kids[c]@, below, h);
                                assert(group@.children.contains(kids[c]@));
                                assert(reaches(groups, group_name@, depth as nat, h));
                            }
                            if whole.contains(h) && !direct.contains(h) {
                                let c = choose|c: Seq<char>|
                                    #[trigger] group@.children.contains(c) && reaches(
                                        groups,
                                        c,
                                        below,
                                        h,
                                    );
                                let idx = choose|idx: int|
                                    0 <= idx < kids.len() && (#[trigger] kids[idx])@ == c;
                                assert(reaches(groups, kids[idx]@, below, h));
                            }
                        }
                        assert(result@ =~= old(result)@.union(whole));
                    }
                } else {
                    assert(result@ =~= old(result)@.union(
                        group_hosts(groups, known, group_name@, depth as nat),
                    ));
                }
            },
        }
    }

    /// Snapshots of the hosts that a pattern selects, each once: those of the
    /// group of that name and of its descendants; else the host of that name;
    /// else none. Each snapshot carries what the host inherits from the groups.
    pub fn filter_hosts(&self, pattern: &str) -> (r: Vec<Host>)
        ensures
            exists|keys: Seq<Seq<char>>| selection(self@, pattern@, keys, host_views(r@)),
    {
        let mut result = StrSet::new();
        proof {
            lemma_map_of_pairs(self.groups.entries@);
            lemma_map_of_pairs(self.hosts.entries@);
            assert(result.names() =~= Seq::<Seq<char>>::empty());
        }
        if self.groups.contains_key(pattern) {
            self.add_group_hosts_recursive(pattern, &mut result, self.groups.entries.len());
        } else if self.hosts.contains_key(pattern) {
            let _ = result.insert(pattern.to_owned());
        }
        assert(result@ =~= matched(self@, pattern@));
        let ghost keys = result.names();
        let mut hosts: Vec<Host> = Vec::new();
        let mut i: usize = 0;
        while i < result.items.len()
            invariant
                i <= result.items.len(),
                keys == names_of(result.items@),
                hosts.len() == i,
                forall|k: Seq<char>| result@.contains(k) ==> map_of(self.hosts.entries@).contains_key(k),
                map_of(self.hosts.entries@) == pairs_map(self@.hosts),
                forall|j: int|
                    0 <= j < i ==> (#[trigger] hosts[j])@ == host_after(
                        keys[j],
                        pairs_map(self@.hosts)[keys[j]],
                        self@.groups,
                    ),
            decreases result.items.len() - i,
        {
            let key = &result.items[i];
            assert(result@.contains(key@));
            match self.hosts.get(key.as_str()) {
                Some(host) => {
                    let mut snapshot = host.clone();
                    inherit_into(&self.groups, key.as_str(), &mut snapshot);
                    hosts.push(snapshot);
                },
                None => {
                    assert(false);
                },
            }
            i = i + 1;
        }
        proof {
            assert forall|k: Seq<char>| keys.contains(k) <==> matched(self@, pattern@).contains(k) by {
                if keys.contains(k) {
                    let j = choose|j: int| 0 <= j < keys.len() && keys[j] == k;
                    assert(result.items@[j]@ == k);
                }
                if result@.contains(k) {
                    let j = choose|j: int|
                        0 <= j < result.items@.len() && (#[trigger] result.items@[j])@ == k;
                    assert(keys[j] == k);
                }
            }
            assert forall|j: int| 0 <= j < keys.len() implies pairs_map(self@.hosts).contains_key(
                #[trigger] keys[j],
            ) && host_views(hosts@)[j] == host_after(
                keys[j],
                pairs_map(self@.hosts)[keys[j]],
                self@.groups,
            ) by {
                assert(result.items@[j]@ == keys[j]);
                assert(result@.contains(keys[j]));
                assert(hosts[j]@ == host_views(hosts@)[j]);
            }
            assert(selection(self@, pattern@, keys, host_views(hosts@)));
        }
        hosts
    }
}

} // verus!
