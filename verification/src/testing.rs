//! Helpers for trying the library out on hosts made by hand.

use vstd::prelude::*;
use crate::inventory::host::{either_variable, fresh_host, variable_of, with_variable, Host, HostView};
use crate::node::{put, text_value, Mapping, Node, NodeView, Pairs};

verus! {

/// The host that `create_test_host` makes.
pub open spec fn test_host(
    name: Seq<char>,
    hostname: Seq<char>,
    port: u16,
    user: Option<Seq<char>>,
    password: Option<Seq<char>>,
) -> HostView {
    let a = with_variable(HostView { port: port, ..fresh_host(name) }, "ansible_host"@, hostname);
    let b = match user {
        Some(u) => with_variable(a, "ansible_ssh_user"@, u),
        None => a,
    };
    match password {
        Some(p) => with_variable(b, "ansible_ssh_pass"@, p),
        None => b,
    }
}

/// The characters of a text that may be missing.
pub open spec fn opt_str_view(o: Option<&str>) -> Option<Seq<char>> {
    match o {
        Some(s) => Some(s@),
        None => None,
    }
}

/// A host with an address, a port and, where given, a user and a password.
pub fn create_test_host(
    name: &str,
    hostname: &str,
    port: u16,
    user: Option<&str>,
    password: Option<&str>,
) -> (r: Host)
    ensures
        r@ == test_host(name@, hostname@, port, opt_str_view(user), opt_str_view(password)),
{
    let mut host = Host::new(name).with_port(port);
    host.set_variable("ansible_host", hostname);
    match user {
        Some(u) => {
            host.set_variable("ansible_ssh_user", u);
        },
        None => {},
    }
    match password {
        Some(p) => {
            host.set_variable("ansible_ssh_pass", p);
        },
        None => {},
    }
    host
}

/// The user to connect as.
pub fn get_host_ssh_user(host: &Host) -> (r: Option<String>)
    ensures
        crate::text::opt_view(r) == either_variable(host@, "ansible_user"@, "ansible_ssh_user"@),
{
    match host.get_ssh_user() {
        Some(s) => Some(s.clone()),
        None => None,
    }
}

/// The password to connect with.
pub fn get_host_ssh_password(host: &Host) -> (r: Option<String>)
    ensures
        crate::text::opt_view(r) == either_variable(host@, "ansible_password"@, "ansible_ssh_pass"@),
{
    match host.get_ssh_password() {
        Some(s) => Some(s.clone()),
        None => None,
    }
}

/// The path of the private key to connect with.
pub fn get_host_ssh_private_key(host: &Host) -> (r: Option<String>)
    ensures
        crate::text::opt_view(r) == variable_of(host@, "ansible_ssh_private_key_file"@),
{
    match host.get_ssh_private_key() {
        Some(s) => Some(s.clone()),
        None => None,
    }
}

/// The password for privilege escalation.
pub fn get_host_ssh_sudo_password(host: &Host) -> (r: Option<String>)
    ensures
        crate::text::opt_view(r) == either_variable(
            host@,
            "ansible_sudo_pass"@,
            "ansible_ssh_sudo_pass"@,
        ),
{
    match host.get_ssh_sudo_password() {
        Some(s) => Some(s.clone()),
        None => None,
    }
}

/// The mapping that holds the first `n` pairs, each value under its name.
pub open spec fn test_mapping(pairs: Seq<(Seq<char>, NodeView)>, n: nat) -> Pairs
    decreases n,
{
    if n == 0 || n > pairs.len() {
        Pairs::empty()
    } else {
        put(test_mapping(pairs, (n - 1) as nat), text_value(pairs[n - 1].0), pairs[n - 1].1)
    }
}

/// The mathematical values of a list of named values.
pub open spec fn named_views(pairs: Seq<(&str, Node)>) -> Seq<(Seq<char>, NodeView)> {
    Seq::new(pairs.len(), |i: int| (pairs[i].0@, pairs[i].1@))
}

/// A mapping from pairs of a name and a value.
pub fn create_test_mapping(pairs: Vec<(&str, Node)>) -> (r: Node)
    ensures
        r@ == NodeView::Mapping(test_mapping(named_views(pairs@), pairs@.len())),
{
    let ghost views = named_views(pairs@);
    let mut map = Mapping::new();
    let mut i: usize = 0;
    while i < pairs.len()
        invariant
            i <= pairs.len(),
            views == named_views(pairs@),
            map@ == test_mapping(views, i as nat),
        decreases pairs.len() - i,
    {
        assert(views[i as int] == (pairs@[i as int].0@, pairs@[i as int].1@));
        map.insert(Node::text(pairs[i].0), pairs[i].1.clone());
        i = i + 1;
    }
    let r = Node::Mapping(map);
    proof {
        map.lemma_view();
    }
    r
}

} // verus!
