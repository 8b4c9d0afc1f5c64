//! Reading an inventory from its text: group headers, variables of groups,
//! children of groups, and host lines.

use vstd::prelude::*;
use crate::inventory::host::{
    clean_name, fresh_group, fresh_host, with_variable, Host, HostGroup, HostGroupView, HostView,
};
use crate::inventory::vars::{line_vars, parse_line_vars, TextPairs};
use crate::inventory::{inherited, Inventory, InventoryView};
use crate::inventory::{
    group_after, group_hosts, reaches, selection,
};
use crate::strmap::{
    find_key, lemma_find_key_map, lemma_find_key_same, lemma_put_pair_keeps, names_of, pairs_map,
    pairs_of, put_pair,
};
use crate::text::{
    find_from, first_at, lemma_first_at, parse_port, port_of, split_chars,
    split_on, to_chars, trim_text, trimmed, trimmed_slice,
};

verus! {

/// The groups that a pattern takes from its first match in a text, the
/// whole match first; an empty text for a group that took no part. Nothing
/// where the pattern matches nowhere, or is no pattern.
pub uninterp spec fn captures_of(pattern: Seq<char>, text: Seq<char>) -> Option<Seq<Seq<char>>>;

/// `regex::Regex::new`, then `captures`: the groups of the first match of a
/// pattern in a text, or nothing where there is no match or the pattern is
/// refused.
#[verifier::external_body]
fn regex_captures(pattern: &str, text: &str) -> (r: Option<Vec<String>>)
    ensures
        match r {
            Some(groups) => captures_of(pattern@, text@) == Some(names_of(groups@)),
            None => captures_of(pattern@, text@) is None,
        },
{
    match regex::Regex::new(pattern) {
        Ok(re) => re.captures(text).map(
            |c| c.iter().map(|m| m.map_or(String::new(), |x| x.as_str().to_string())).collect(),
        ),
        Err(_) => None,
    }
}

/// The header of the variables of a group.
pub open spec fn vars_header() -> Seq<char> {
    "^\\[([\\w.]+):vars\\]$"@
}

/// The header of the children of a group.
pub open spec fn children_header() -> Seq<char> {
    "^\\[([\\w.]+):children\\]$"@
}

/// The header of a group.
pub open spec fn group_header() -> Seq<char> {
    "^\\[([\\w.]+)(?::vars|:children)?\\]$"@
}

/// A host with a port.
pub open spec fn host_port() -> Seq<char> {
    "^(.+):(\\d+)$"@
}

/// A variable of a group.
pub open spec fn var_line() -> Seq<char> {
    "^(\\w+)=(.+)$"@
}

/// The name that a header of the given kind gives.
pub open spec fn header(pattern: Seq<char>, line: Seq<char>) -> Option<Seq<char>> {
    match captures_of(pattern, line) {
        Some(g) => if g.len() >= 2 {
            Some(trimmed(g[1]))
        } else {
            None
        },
        None => None,
    }
}

/// The name and the value that a line of variables gives.
pub open spec fn group_var(line: Seq<char>) -> Option<(Seq<char>, Seq<char>)> {
    match captures_of(var_line(), line) {
        Some(g) => if g.len() >= 3 {
            Some((trimmed(g[1]), trimmed(g[2])))
        } else {
            None
        },
        None => None,
    }
}

/// The name and the port of a host entry: port 22 where none is given or
/// the digits are no port.
pub open spec fn host_and_port(entry: Seq<char>) -> (Seq<char>, u16) {
    match captures_of(host_port(), entry) {
        Some(g) => if g.len() >= 3 {
            (
                trimmed(g[1]),
                match port_of(g[2]) {
                    Some(p) => p,
                    None => 22,
                },
            )
        } else {
            (entry, 22)
        },
        None => (entry, 22),
    }
}

/// The host entry of a host line, and what follows its first space.
pub open spec fn host_entry(line: Seq<char>) -> (Seq<char>, Option<Seq<char>>) {
    let p = first_at(line, seq![' '], 0);
    if 0 <= p < line.len() {
        (trimmed(line.subrange(0, p)), Some(trimmed(line.subrange(p + 1, line.len() as int))))
    } else {
        (trimmed(line), None)
    }
}

/// The part of an inventory that is being read.
#[derive(Debug)]
pub enum Section {
    /// Before any header.
    Top,
    /// The hosts of a group.
    Hosts(String),
    /// The variables of a group.
    Vars(String),
    /// The children of a group.
    Children(String),
}

/// The mathematical value of a section.
pub enum SectionView {
    Top,
    Hosts(Seq<char>),
    Vars(Seq<char>),
    Children(Seq<char>),
}

impl View for Section {
    type V = SectionView;

    open spec fn view(&self) -> SectionView {
        match self {
            Section::Top => SectionView::Top,
            Section::Hosts(g) => SectionView::Hosts(g@),
            Section::Vars(g) => SectionView::Vars(g@),
            Section::Children(g) => SectionView::Children(g@),
        }
    }
}

/// Whether the inventory has a group of that name.
pub open spec fn has_group(inv: InventoryView, name: Seq<char>) -> bool {
    find_key(inv.groups, name) >= 0
}

/// The group of that name.
pub open spec fn group_at(inv: InventoryView, name: Seq<char>) -> HostGroupView {
    inv.groups[find_key(inv.groups, name)].1
}

/// The inventory with a group put under a name.
pub open spec fn set_group(inv: InventoryView, name: Seq<char>, g: HostGroupView) -> InventoryView {
    InventoryView { groups: put_pair(inv.groups, name, g), ..inv }
}

/// The inventory with a group of that name, a new one where it had none.
pub open spec fn with_group(inv: InventoryView, name: Seq<char>) -> InventoryView {
    if has_group(inv, name) {
        inv
    } else {
        set_group(inv, name, fresh_group(name))
    }
}

/// The inventory after a group, where there is one of that name, has got
/// a variable.
pub open spec fn group_with_variable(
    inv: InventoryView,
    group: Seq<char>,
    key: Seq<char>,
    value: Seq<char>,
) -> InventoryView {
    if has_group(inv, group) {
        set_group(
            inv,
            group,
            HostGroupView {
                variables: group_at(inv, group).variables.insert(key, value),
                ..group_at(inv, group)
            },
        )
    } else {
        inv
    }
}

/// The inventory after a group, where there is one of that name, has got
/// a member.
pub open spec fn group_with_host(inv: InventoryView, group: Seq<char>, host: Seq<char>) -> InventoryView {
    if has_group(inv, group) {
        set_group(
            inv,
            group,
            HostGroupView { hosts: group_at(inv, group).hosts.insert(host), ..group_at(inv, group) },
        )
    } else {
        inv
    }
}

/// The inventory after a line under the children of `parent` has named
/// `child`: the child, made where it is new, has the parent, and the parent,
/// where there is a group of that name, has the child.
pub open spec fn with_child(inv: InventoryView, parent: Seq<char>, child: Seq<char>) -> InventoryView {
    let a = if has_group(inv, child) {
        set_group(inv, child, HostGroupView { parent: Some(parent), ..group_at(inv, child) })
    } else {
        set_group(inv, child, HostGroupView { parent: Some(parent), ..fresh_group(child) })
    };
    if has_group(a, parent) {
        set_group(
            a,
            parent,
            HostGroupView {
                children: group_at(a, parent).children.insert(child),
                ..group_at(a, parent)
            },
        )
    } else {
        a
    }
}

/// The inventory with a host of that name and port, unless it has a host
/// of that name already.
pub open spec fn with_host(inv: InventoryView, name: Seq<char>, port: u16) -> InventoryView {
    if find_key(inv.hosts, name) >= 0 {
        inv
    } else {
        InventoryView {
            hosts: put_pair(inv.hosts, clean_name(name), HostView { port: port, ..fresh_host(name) }),
            ..inv
        }
    }
}

/// The inventory after the host of that name, where there is one, has got
/// the first `n` of the variables, in order.
pub open spec fn with_host_vars(inv: InventoryView, name: Seq<char>, vars: TextPairs, n: nat) -> InventoryView
    decreases n,
{
    if n == 0 || n > vars.len() {
        inv
    } else {
        let before = with_host_vars(inv, name, vars, (n - 1) as nat);
        if find_key(before.hosts, name) >= 0 {
            InventoryView {
                hosts: put_pair(
                    before.hosts,
                    name,
                    with_variable(
                        before.hosts[find_key(before.hosts, name)].1,
                        vars[n - 1].0,
                        vars[n - 1].1,
                    ),
                ),
                ..before
            }
        } else {
            before
        }
    }
}

/// The inventory after a host line: the host is made where it is new, joins
/// the group whose hosts are being read, or "ungrouped" before any header,
/// and gets the variables of the line.
pub open spec fn with_host_line(inv: InventoryView, section: SectionView, line: Seq<char>) -> InventoryView {
    let entry = host_entry(line);
    let named = host_and_port(entry.0);
    let a = with_host(inv, named.0, named.1);
    let b = match section {
        SectionView::Hosts(g) => group_with_host(a, g, named.0),
        SectionView::Top => group_with_host(a, "ungrouped"@, named.0),
        _ => a,
    };
    match entry.1 {
        Some(rest) => with_host_vars(b, named.0, line_vars(rest), line_vars(rest).len()),
        None => b,
    }
}

/// The inventory and the section after one line that is neither empty nor
/// a comment.
pub open spec fn line_read(inv: InventoryView, section: SectionView, line: Seq<char>) -> (
    InventoryView,
    SectionView,
) {
    if header(vars_header(), line) is Some {
        let n = header(vars_header(), line).unwrap();
        (with_group(inv, n), SectionView::Vars(n))
    } else if header(children_header(), line) is Some {
        let n = header(children_header(), line).unwrap();
        (with_group(inv, n), SectionView::Children(n))
    } else if header(group_header(), line) is Some {
        let n = header(group_header(), line).unwrap();
        (with_group(inv, n), SectionView::Hosts(n))
    } else {
        match section {
            SectionView::Vars(g) => match group_var(line) {
                Some(kv) => (group_with_variable(inv, g, kv.0, kv.1), section),
                None => (with_host_line(inv, section, line), section),
            },
            SectionView::Children(g) => (with_child(inv, g, line), section),
            _ => (with_host_line(inv, section, line), section),
        }
    }
}

/// The inventory at the beginning: the groups "all" and "ungrouped".
pub open spec fn empty_inventory() -> InventoryView {
    InventoryView {
        hosts: Seq::empty(),
        groups: seq![("all"@, fresh_group("all"@)), ("ungrouped"@, fresh_group("ungrouped"@))],
    }
}

/// The inventory and the section after the first `n` lines. A line is
/// read without the white space around it; an empty line and a line that
/// begins with `#` are passed over.
pub open spec fn lines_read(lines: Seq<Seq<char>>, n: nat) -> (InventoryView, SectionView)
    decreases n,
{
    if n == 0 || n > lines.len() {
        (empty_inventory(), SectionView::Top)
    } else {
        let before = lines_read(lines, (n - 1) as nat);
        let line = trimmed(lines[n - 1]);
        if line.len() == 0 || line[0] == '#' {
            before
        } else {
            line_read(before.0, before.1, line)
        }
    }
}

/// The keys of the first `n` hosts.
pub open spec fn host_keys(hosts: Seq<(Seq<char>, HostView)>, n: nat) -> Set<Seq<char>>
    decreases n,
{
    if n == 0 || n > hosts.len() {
        Set::empty()
    } else {
        host_keys(hosts, (n - 1) as nat).insert(hosts[n - 1].0)
    }
}

/// The inventory with every host a member of the group "all".
pub open spec fn with_all_hosts(inv: InventoryView) -> InventoryView {
    if has_group(inv, "all"@) {
        set_group(
            inv,
            "all"@,
            HostGroupView {
                hosts: group_at(inv, "all"@).hosts.union(host_keys(inv.hosts, inv.hosts.len())),
                ..group_at(inv, "all"@)
            },
        )
    } else {
        inv
    }
}

/// The inventory that a text declares: its lines are read in order, every
/// host becomes a member of "all", and inheritance is applied.
pub open spec fn parsed(content: Seq<char>) -> InventoryView {
    let lines = split_on(content, '\n');
    inherited(with_all_hosts(lines_read(lines, lines.len()).0))
}

/// Whether every host of the inventory is a member of the group "all".
pub open spec fn all_holds_every_host(inv: InventoryView) -> bool {
    has_group(inv, "all"@) && forall|k: Seq<char>|
        find_key(inv.hosts, k) >= 0 ==> #[trigger] group_at(inv, "all"@).hosts.contains(k)
}

/// Giving variables to a host leaves the groups as they are.
proof fn lemma_host_vars_keep_groups(inv: InventoryView, name: Seq<char>, vars: TextPairs, n: nat)
    ensures
        with_host_vars(inv, name, vars, n).groups == inv.groups,
    decreases n,
{
    if n > 0 && n <= vars.len() {
        lemma_host_vars_keep_groups(inv, name, vars, (n - 1) as nat);
    }
}

/// A line of an inventory never takes a group away.
proof fn lemma_line_keeps_group(
    inv: InventoryView,
    section: SectionView,
    line: Seq<char>,
    name: Seq<char>,
)
    requires
        has_group(inv, name),
    ensures
        has_group(line_read(inv, section, line).0, name),
{
    if header(vars_header(), line) is Some {
        lemma_put_pair_keeps(
            inv.groups,
            header(vars_header(), line).unwrap(),
            fresh_group(header(vars_header(), line).unwrap()),
            name,
        );
    } else if header(children_header(), line) is Some {
        lemma_put_pair_keeps(
            inv.groups,
            header(children_header(), line).unwrap(),
            fresh_group(header(children_header(), line).unwrap()),
            name,
        );
    } else if header(group_header(), line) is Some {
        lemma_put_pair_keeps(
            inv.groups,
            header(group_header(), line).unwrap(),
            fresh_group(header(group_header(), line).unwrap()),
            name,
        );
    } else {
        match section {
            SectionView::Vars(g) => {
                match group_var(line) {
                    Some(kv) => {
                        if has_group(inv, g) {
                            lemma_put_pair_keeps(
                                inv.groups,
                                g,
                                HostGroupView {
                                    variables: group_at(inv, g).variables.insert(kv.0, kv.1),
                                    ..group_at(inv, g)
                                },
                                name,
                            );
                        }
                    },
                    None => {
                        lemma_host_line_keeps_group(inv, section, line, name);
                    },
                }
            },
            SectionView::Children(g) => {
                let a = if has_group(inv, line) {
                    set_group(inv, line, HostGroupView { parent: Some(g), ..group_at(inv, line) })
                } else {
                    set_group(inv, line, HostGroupView { parent: Some(g), ..fresh_group(line) })
                };
                if has_group(inv, line) {
                    lemma_put_pair_keeps(
                        inv.groups,
                        line,
                        HostGroupView { parent: Some(g), ..group_at(inv, line) },
                        name,
                    );
                } else {
                    lemma_put_pair_keeps(
                        inv.groups,
                        line,
                        HostGroupView { parent: Some(g), ..fresh_group(line) },
                        name,
                    );
                }
                if has_group(a, g) {
                    lemma_put_pair_keeps(
                        a.groups,
                        g,
                        HostGroupView {
                            children: group_at(a, g).children.insert(line),
                            ..group_at(a, g)
                        },
                        name,
                    );
                }
            },
            _ => {
                lemma_host_line_keeps_group(inv, section, line, name);
            },
        }
    }
}

/// A host line never takes a group away.
proof fn lemma_host_line_keeps_group(
    inv: InventoryView,
    section: SectionView,
    line: Seq<char>,
    name: Seq<char>,
)
    requires
        has_group(inv, name),
    ensures
        has_group(with_host_line(inv, section, line), name),
{
    let entry = host_entry(line);
    let named = host_and_port(entry.0);
    let a = with_host(inv, named.0, named.1);
    assert(a.groups == inv.groups);
    let b = match section {
        SectionView::Hosts(g) => group_with_host(a, g, named.0),
        SectionView::Top => group_with_host(a, "ungrouped"@, named.0),
        _ => a,
    };
    match section {
        SectionView::Hosts(g) => {
            if has_group(a, g) {
                lemma_put_pair_keeps(
                    a.groups,
                    g,
                    HostGroupView {
                        hosts: group_at(a, g).hosts.insert(named.0),
                        ..group_at(a, g)
                    },
                    name,
                );
            }
        },
        SectionView::Top => {
            if has_group(a, "ungrouped"@) {
                lemma_put_pair_keeps(
                    a.groups,
                    "ungrouped"@,
                    HostGroupView {
                        hosts: group_at(a, "ungrouped"@).hosts.insert(named.0),
                        ..group_at(a, "ungrouped"@)
                    },
                    name,
                );
            }
        },
        _ => {},
    }
    assert(has_group(b, name));
    match entry.1 {
        Some(rest) => {
            lemma_host_vars_keep_groups(b, named.0, line_vars(rest), line_vars(rest).len());
        },
        None => {},
    }
}

/// After any number of lines the inventory has the group "all".
proof fn lemma_lines_keep_all(lines: Seq<Seq<char>>, n: nat)
    ensures
        has_group(lines_read(lines, n).0, "all"@),
    decreases n,
{
    reveal_strlit("all");
    reveal_strlit("ungrouped");
    if n == 0 || n > lines.len() {
        let g = empty_inventory().groups;
        assert(g.last().0 == "ungrouped"@);
        assert("all"@.len() != "ungrouped"@.len());
        assert(g.drop_last().last().0 == "all"@);
        assert(find_key(g.drop_last(), "all"@) == 0);
        assert(find_key(g, "all"@) == 0);
    } else {
        lemma_lines_keep_all(lines, (n - 1) as nat);
        let before = lines_read(lines, (n - 1) as nat);
        let line = trimmed(lines[n - 1]);
        if !(line.len() == 0 || line[0] == '#') {
            lemma_line_keeps_group(before.0, before.1, line, "all"@);
        }
    }
}

/// The keys of the first `n` hosts are the keys that stand at one of the
/// first `n` places.
proof fn lemma_host_keys(hosts: Seq<(Seq<char>, HostView)>, n: nat, k: Seq<char>)
    requires
        n <= hosts.len(),
    ensures
        host_keys(hosts, n).contains(k) <==> exists|j: int| 0 <= j < n && (#[trigger] hosts[j]).0 == k,
    decreases n,
{
    if n > 0 {
        lemma_host_keys(hosts, (n - 1) as nat, k);
        if host_keys(hosts, n).contains(k) {
            if hosts[n - 1].0 == k {
                assert(hosts[n - 1].0 == k);
            } else {
                let j = choose|j: int| 0 <= j < n - 1 && (#[trigger] hosts[j]).0 == k;
                assert(hosts[j].0 == k);
            }
        }
    }
}

/// In the inventory that a text declares, every host is a member of the
/// group "all".
pub proof fn lemma_parsed_all(content: Seq<char>)
    ensures
        all_holds_every_host(parsed(content)),
{
    let lines = split_on(content, '\n');
    let read = lines_read(lines, lines.len()).0;
    lemma_lines_keep_all(lines, lines.len());
    let joined = with_all_hosts(read);
    let all = HostGroupView {
        hosts: group_at(read, "all"@).hosts.union(host_keys(read.hosts, read.hosts.len())),
        ..group_at(read, "all"@)
    };
    lemma_put_pair_keeps(read.groups, "all"@, all, "all"@);
    assert(has_group(joined, "all"@));
    assert(group_at(joined, "all"@) == all);
    let out = parsed(content);
    assert(out == crate::inventory::inherited(joined));
    lemma_find_key_same(out.groups, joined.groups, "all"@);
    let i = find_key(joined.groups, "all"@);
    lemma_find_key_map(joined.groups, "all"@);
    assert(out.groups[i].1 ==group_after(joined.groups[i].1, joined.groups));
    assert(group_at(out, "all"@).hosts == all.hosts);
    assert forall|k: Seq<char>| find_key(out.hosts, k) >= 0 implies #[trigger] group_at(
        out,
        "all"@,
    ).hosts.contains(k) by {
        lemma_find_key_same(out.hosts, joined.hosts, k);
        lemma_find_key_map(read.hosts, k);
        lemma_host_keys(read.hosts, read.hosts.len(), k);
        assert(read.hosts[find_key(read.hosts, k)].0 == k);
    }
}

/// In the inventory that a text declares, the pattern "all" selects every
/// host, each once, however the groups are nested.
pub proof fn law_all_selects_every_parsed_host(
    content: Seq<char>,
    keys: Seq<Seq<char>>,
    hosts: Seq<HostView>,
)
    requires
        selection(parsed(content), "all"@, keys, hosts),
    ensures
        keys.no_duplicates(),
        forall|k: Seq<char>| keys.contains(k) <==> pairs_map(parsed(content).hosts).contains_key(k),
{
    let inv = parsed(content);
    lemma_parsed_all(content);
    lemma_find_key_map(inv.groups, "all"@);
    assert forall|k: Seq<char>| pairs_map(inv.hosts).contains_key(k) implies group_hosts(
        pairs_map(inv.groups),
        pairs_map(inv.hosts).dom(),
        "all"@,
        inv.groups.len(),
    ).contains(k) by {
        lemma_find_key_map(inv.hosts, k);
        assert(group_at(inv, "all"@).hosts.contains(k));
        assert(reaches(pairs_map(inv.groups), "all"@, inv.groups.len(), k));
    }
    crate::inventory::law_all_selects_every_host(inv, keys, hosts);
}

/// The name that a header of the given kind gives.
fn header_name(pattern: &str, line: &str) -> (r: Option<String>)
    ensures
        crate::text::opt_view(r) == header(pattern@, line@),
{
    match regex_captures(pattern, line) {
        Some(groups) => {
            if groups.len() >= 2 {
                assert(names_of(groups@)[1] == groups@[1]@);
                Some(trim_text(groups[1].as_str()))
            } else {
                None
            }
        },
        None => None,
    }
}

/// Makes a group of that name where the inventory has none.
fn ensure_group(inv: &mut Inventory, name: &str)
    ensures
        final(inv)@ == with_group(old(inv)@, name@),
{
    if inv.groups.find(name).is_none() {
        inv.groups.insert(name.to_owned(), HostGroup::new(name));
    }
}

/// Gives a variable to the group of that name, where there is one.
fn set_group_variable(inv: &mut Inventory, group: &str, key: &str, value: &str)
    ensures
        final(inv)@ == group_with_variable(old(inv)@, group@, key@, value@),
{
    let changed = match inv.groups.find(group) {
        Some(g) => {
            let mut c = g.clone();
            c.set_variable(key, value);
            Some(c)
        },
        None => None,
    };
    match changed {
        Some(c) => {
            inv.groups.insert(group.to_owned(), c);
        },
        None => {},
    }
}

/// Makes a host a member of the group of that name, where there is one.
fn add_group_host(inv: &mut Inventory, group: &str, host: &str)
    ensures
        final(inv)@ == group_with_host(old(inv)@, group@, host@),
{
    let changed = match inv.groups.find(group) {
        Some(g) => {
            let mut c = g.clone();
            let _ = c.add_host(host);
            Some(c)
        },
        None => None,
    };
    match changed {
        Some(c) => {
            inv.groups.insert(group.to_owned(), c);
        },
        None => {},
    }
}

/// Reads a line under the children of a group.
fn declare_child(inv: &mut Inventory, parent: &str, child: &str)
    ensures
        final(inv)@ == with_child(old(inv)@, parent@, child@),
{
    let known = match inv.groups.find(child) {
        Some(g) => Some(g.clone().with_parent(parent)),
        None => None,
    };
    match known {
        Some(c) => {
            inv.groups.insert(child.to_owned(), c);
        },
        None => {
            inv.groups.insert(child.to_owned(), HostGroup::new(child).with_parent(parent));
        },
    }
    let changed = match inv.groups.find(parent) {
        Some(g) => {
            let mut c = g.clone();
            let _ = c.add_child(child);
            Some(c)
        },
        None => None,
    };
    match changed {
        Some(c) => {
            inv.groups.insert(parent.to_owned(), c);
        },
        None => {},
    }
}

/// Gives the host of that name, where there is one, the variables in order.
fn set_host_vars(inv: &mut Inventory, name: &str, vars: &Vec<(String, String)>)
    ensures
        final(inv)@ == with_host_vars(old(inv)@, name@, pairs_of(vars@), vars@.len()),
{
    let ghost pairs = pairs_of(vars@);
    let mut i: usize = 0;
    while i < vars.len()
        invariant
            i <= vars.len(),
            pairs == pairs_of(vars@),
            inv@ == with_host_vars(old(inv)@, name@, pairs, i as nat),
        decreases vars.len() - i,
    {
        assert(pairs[i as int] == (vars@[i as int].0@, vars@[i as int].1@));
        let changed = match inv.hosts.find(name) {
            Some(h) => {
                let mut c = h.clone();
                c.set_variable(vars[i].0.as_str(), vars[i].1.as_str());
                Some(c)
            },
            None => None,
        };
        match changed {
            Some(c) => {
                inv.hosts.insert(name.to_owned(), c);
            },
            None => {},
        }
        i = i + 1;
    }
}

/// Reads a host line.
fn read_host_line(inv: &mut Inventory, section: &Section, line: &str)
    ensures
        final(inv)@ == with_host_line(old(inv)@, section@, line@),
{
    let chars = to_chars(line);
    let mut space: Vec<char> = Vec::new();
    space.push(' ');
    assert(space@ =~= seq![' ']);
    proof {
        lemma_first_at(chars@, seq![' '], 0);
    }
    let (entry, rest) = match find_from(&chars, &space, 0) {
        Some(p) => {
            if p < chars.len() {
                (trimmed_slice(&chars, 0, p), Some(trimmed_slice(&chars, p + 1, chars.len())))
            } else {
                assert(chars@.subrange(0, chars@.len() as int) =~= chars@);
                (trimmed_slice(&chars, 0, chars.len()), None)
            }
        },
        None => {
            assert(chars@.subrange(0, chars@.len() as int) =~= chars@);
            (trimmed_slice(&chars, 0, chars.len()), None)
        },
    };
    assert(entry@ == host_entry(line@).0);
    assert(crate::text::opt_view(rest) == host_entry(line@).1);
    let (name, port) = match regex_captures("^(.+):(\\d+)$", entry.as_str()) {
        Some(groups) => {
            if groups.len() >= 3 {
                assert(names_of(groups@)[1] == groups@[1]@);
                assert(names_of(groups@)[2] == groups@[2]@);
                let port = match parse_port(groups[2].as_str()) {
                    Some(p) => p,
                    None => 22,
                };
                (trim_text(groups[1].as_str()), port)
            } else {
                (entry, 22)
            }
        },
        None => (entry, 22),
    };
    assert((name@, port) == host_and_port(host_entry(line@).0));
    if inv.hosts.find(name.as_str()).is_none() {
        let host = Host::new(name.as_str()).with_port(port);
        let key = host.name.clone();
        inv.hosts.insert(key, host);
    }
    match section {
        Section::Hosts(g) => {
            add_group_host(inv, g.as_str(), name.as_str());
        },
        Section::Top => {
            add_group_host(inv, "ungrouped", name.as_str());
        },
        _ => {},
    }
    match rest {
        Some(r) => {
            let vars = parse_line_vars(r.as_str());
            set_host_vars(inv, name.as_str(), &vars);
        },
        None => {},
    }
}

/// Reads one line that is neither empty nor a comment.
fn read_line(inv: &mut Inventory, section: Section, line: &str) -> (r: Section)
    ensures
        (final(inv)@, r@) == line_read(old(inv)@, section@, line@),
{
    match header_name("^\\[([\\w.]+):vars\\]$", line) {
        Some(n) => {
            ensure_group(inv, n.as_str());
            return Section::Vars(n);
        },
        None => {},
    }
    match header_name("^\\[([\\w.]+):children\\]$", line) {
        Some(n) => {
            ensure_group(inv, n.as_str());
            return Section::Children(n);
        },
        None => {},
    }
    match header_name("^\\[([\\w.]+)(?::vars|:children)?\\]$", line) {
        Some(n) => {
            ensure_group(inv, n.as_str());
            return Section::Hosts(n);
        },
        None => {},
    }
    match &section {
        Section::Vars(g) => {
            match regex_captures("^(\\w+)=(.+)$", line) {
                Some(groups) => {
                    if groups.len() >= 3 {
                        assert(names_of(groups@)[1] == groups@[1]@);
                        assert(names_of(groups@)[2] == groups@[2]@);
                        let key = trim_text(groups[1].as_str());
                        let value = trim_text(groups[2].as_str());
                        set_group_variable(inv, g.as_str(), key.as_str(), value.as_str());
                    } else {
                        read_host_line(inv, &section, line);
                    }
                },
                None => {
                    read_host_line(inv, &section, line);
                },
            }
        },
        Section::Children(g) => {
            declare_child(inv, g.as_str(), line);
        },
        _ => {
            read_host_line(inv, &section, line);
        },
    }
    section
}

/// Makes every host a member of the group "all".
fn join_all(inv: &mut Inventory)
    ensures
        final(inv)@ == with_all_hosts(old(inv)@),
{
    let changed = match inv.groups.find("all") {
        Some(g) => {
            let mut c = g.clone();
            let ghost start = c@;
            let mut i: usize = 0;
            assert(c@.hosts =~= start.hosts.union(host_keys(inv@.hosts, 0)));
            while i < inv.hosts.entries.len()
                invariant
                    i <= inv.hosts.entries.len(),
                    *inv == *old(inv),
                    c@ == (HostGroupView {
                        hosts: start.hosts.union(host_keys(inv@.hosts, i as nat)),
                        ..start
                    }),
                decreases inv.hosts.entries.len() - i,
            {
                assert(inv@.hosts[i as int].0 == inv.hosts.entries@[i as int].0@);
                let _ = c.add_host(inv.hosts.entries[i].0.as_str());
                assert(c@.hosts =~= start.hosts.union(host_keys(inv@.hosts, (i + 1) as nat)));
                i = i + 1;
            }
            Some(c)
        },
        None => None,
    };
    match changed {
        Some(c) => {
            inv.groups.insert("all".to_owned(), c);
        },
        None => {},
    }
}

/// Reads an inventory from its text.
///
/// The text holds group headers `[name]`, headers of group variables
/// `[name:vars]` with lines `key=value`, headers of child groups
/// `[name:children]` with one group a line, and host lines
/// `host[:port] key=value ...`. Lines that are empty or begin with `#` are
/// passed over. Every host becomes a member of "all", and inheritance is
/// applied.
pub fn parse_inventory(content: &str) -> (r: Inventory)
    ensures
        r@ == parsed(content@),
        all_holds_every_host(r@),
{
    proof {
        lemma_parsed_all(content@);
    }
    let chars = to_chars(content);
    let lines = split_chars(&chars, 0, '\n');
    assert(chars@.subrange(0, chars@.len() as int) =~= chars@);
    let ghost texts = names_of(lines@);
    let mut inv = Inventory::new();
    let mut section = Section::Top;
    let mut i: usize = 0;
    assert(inv@.hosts =~= Seq::empty());
    assert(inv@ == empty_inventory());
    while i < lines.len()
        invariant
            i <= lines.len(),
            texts == names_of(lines@),
            (inv@, section@) == lines_read(texts, i as nat),
        decreases lines.len() - i,
    {
        assert(texts[i as int] == lines@[i as int]@);
        let line = trim_text(lines[i].as_str());
        let skip = if line.as_str().is_empty() {
            true
        } else {
            let first = to_chars(line.as_str());
            first[0] == '#'
        };
        if !skip {
            section = read_line(&mut inv, section, line.as_str());
        }
        i = i + 1;
    }
    join_all(&mut inv);
    inv.apply_group_vars();
    inv
}

} // verus!
