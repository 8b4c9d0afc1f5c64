//! Hosts and host groups: the targets of a run and the variables they carry.

use vstd::prelude::*;
use crate::strmap::{StrMap, StrSet};
use crate::text::{first_at, find_from, parse_port, port_of, same_text, slice_text, to_chars};

verus! {

/// One managed target.
#[derive(Debug)]
pub struct Host {
    pub name: String,
    pub hostname: String,
    pub port: u16,
    pub variables: StrMap<String>,
    pub inherited_variables: StrMap<String>,
}

/// The mathematical value of a host.
pub struct HostView {
    pub name: Seq<char>,
    pub hostname: Seq<char>,
    pub port: u16,
    pub variables: Map<Seq<char>, Seq<char>>,
    pub inherited_variables: Map<Seq<char>, Seq<char>>,
}

impl View for Host {
    type V = HostView;

    open spec fn view(&self) -> HostView {
        HostView {
            name: self.name@,
            hostname: self.hostname@,
            port: self.port,
            variables: self.variables@,
            inherited_variables: self.inherited_variables@,
        }
    }
}

/// A host name as it is kept: what stands before the first space.
pub open spec fn clean_name(s: Seq<char>) -> Seq<char> {
    let p = first_at(s, seq![' '], 0);
    if p <= s.len() {
        s.subrange(0, p)
    } else {
        s
    }
}

/// The host as `Host::new` makes it from a name.
pub open spec fn fresh_host(name: Seq<char>) -> HostView {
    HostView {
        name: clean_name(name),
        hostname: clean_name(name),
        port: 22,
        variables: Map::empty(),
        inherited_variables: Map::empty(),
    }
}

/// Whether `key` names the address to connect to.
pub open spec fn is_host_key(key: Seq<char>) -> bool {
    key == "ansible_host"@ || key == "ansible_ssh_host"@
}

/// Whether `key` names the port to connect to.
pub open spec fn is_port_key(key: Seq<char>) -> bool {
    key == "ansible_port"@ || key == "ansible_ssh_port"@
}

/// The host after an explicit variable was set: the connection variables
/// also set the address and, where the value is a port number, the port.
pub open spec fn with_variable(h: HostView, key: Seq<char>, value: Seq<char>) -> HostView {
    HostView {
        name: h.name,
        hostname: if is_host_key(key) {
            value
        } else {
            h.hostname
        },
        port: if is_port_key(key) && port_of(value) is Some {
            port_of(value).unwrap()
        } else {
            h.port
        },
        variables: h.variables.insert(key, value),
        inherited_variables: h.inherited_variables,
    }
}

/// The value of a variable of a host: the explicit one wins over the
/// inherited one.
pub open spec fn variable_of(h: HostView, key: Seq<char>) -> Option<Seq<char>> {
    if h.variables.contains_key(key) {
        Some(h.variables[key])
    } else if h.inherited_variables.contains_key(key) {
        Some(h.inherited_variables[key])
    } else {
        None
    }
}

/// The first of two variables that the host has.
pub open spec fn either_variable(h: HostView, first: Seq<char>, second: Seq<char>) -> Option<
    Seq<char>,
> {
    if variable_of(h, first) is Some {
        variable_of(h, first)
    } else {
        variable_of(h, second)
    }
}

impl Host {
    /// A host of the given name, with port 22 and no variables. What follows
    /// the first space of `name` is dropped.
    pub fn new(name: &str) -> (r: Host)
        ensures
            r@ == fresh_host(name@),
    {
        let chars = to_chars(name);
        let mut space: Vec<char> = Vec::new();
        space.push(' ');
        assert(space@ =~= seq![' ']);
        let cleaned = match find_from(&chars, &space, 0) {
            Some(p) => slice_text(&chars, 0, p),
            None => name.to_owned(),
        };
        let hostname = cleaned.clone();
        Host {
            name: cleaned,
            hostname,
            port: 22,
            variables: StrMap::new(),
            inherited_variables: StrMap::new(),
        }
    }

    /// The same host with another port.
    pub fn with_port(self, port: u16) -> (r: Host)
        ensures
            r@ == (HostView { port: port, ..self@ }),
    {
        let mut h = self;
        h.port = port;
        h
    }

    /// Sets an inherited variable unless the host has an explicit variable
    /// of that name; says whether it did.
    pub fn add_inherited_variable(&mut self, key: &str, value: &str) -> (r: bool)
        ensures
            r == !old(self)@.variables.contains_key(key@),
            r ==> final(self)@ == (HostView {
                inherited_variables: old(self)@.inherited_variables.insert(key@, value@),
                ..old(self)@
            }),
            !r ==> final(self)@ == old(self)@,
    {
        if !self.variables.contains_key(key) {
            self.inherited_variables.insert(key.to_owned(), value.to_owned());
            true
        } else {
            false
        }
    }

    /// The value of a variable: the explicit one, else the inherited one.
    pub fn get_variable(&self, key: &str) -> (r: Option<&String>)
        ensures
            match r {
                Some(v) => variable_of(self@, key@) == Some(v@),
                None => variable_of(self@, key@) is None,
            },
    {
        match self.variables.get(key) {
            Some(v) => Some(v),
            None => self.inherited_variables.get(key),
        }
    }

    /// Sets an explicit variable. The connection variables also set the
    /// address and the port.
    pub fn set_variable(&mut self, key: &str, value: &str)
        ensures
            final(self)@ == with_variable(old(self)@, key@, value@),
    {
        if same_text(key, "ansible_host") || same_text(key, "ansible_ssh_host") {
            self.hostname = value.to_owned();
        } else if same_text(key, "ansible_port") || same_text(key, "ansible_ssh_port") {
            match parse_port(value) {
                Some(p) => {
                    self.port = p;
                },
                None => {},
            }
        }
        proof {
            reveal_strlit("ansible_host");
            reveal_strlit("ansible_ssh_host");
            reveal_strlit("ansible_port");
            reveal_strlit("ansible_ssh_port");
            assert("ansible_host"@[8] != "ansible_port"@[8]);
            assert("ansible_ssh_host"@[12] != "ansible_ssh_port"@[12]);
            assert("ansible_host"@.len() != "ansible_ssh_port"@.len());
            assert("ansible_ssh_host"@.len() != "ansible_port"@.len());
        }
        self.variables.insert(key.to_owned(), value.to_owned());
    }

    /// The first of two variables that the host has.
    fn first_of(&self, first: &str, second: &str) -> (r: Option<&String>)
        ensures
            match r {
                Some(v) => either_variable(self@, first@, second@) == Some(v@),
                None => either_variable(self@, first@, second@) is None,
            },
    {
        match self.get_variable(first) {
            Some(v) => Some(v),
            None => self.get_variable(second),
        }
    }

    /// The user to connect as.
    pub fn get_ssh_user(&self) -> (r: Option<&String>)
        ensures
            match r {
                Some(v) => either_variable(self@, "ansible_user"@, "ansible_ssh_user"@) == Some(v@),
                None => either_variable(self@, "ansible_user"@, "ansible_ssh_user"@) is None,
            },
    {
        self.first_of("ansible_user", "ansible_ssh_user")
    }

    /// The password to connect with.
    pub fn get_ssh_password(&self) -> (r: Option<&String>)
        ensures
            match r {
                Some(v) => either_variable(self@, "ansible_password"@, "ansible_ssh_pass"@) == Some(
                    v@,
                ),
                None => either_variable(self@, "ansible_password"@, "ansible_ssh_pass"@) is None,
            },
    {
        self.first_of("ansible_password", "ansible_ssh_pass")
    }

    /// The password for privilege escalation.
    pub fn get_ssh_sudo_password(&self) -> (r: Option<&String>)
        ensures
            match r {
                Some(v) => either_variable(self@, "ansible_sudo_pass"@, "ansible_ssh_sudo_pass"@)
                    == Some(v@),
                None => either_variable(self@, "ansible_sudo_pass"@, "ansible_ssh_sudo_pass"@)
                    is None,
            },
    {
        self.first_of("ansible_sudo_pass", "ansible_ssh_sudo_pass")
    }

    /// The path of the private key to connect with.
    pub fn get_ssh_private_key(&self) -> (r: Option<&String>)
        ensures
            match r {
                Some(v) => variable_of(self@, "ansible_ssh_private_key_file"@) == Some(v@),
                None => variable_of(self@, "ansible_ssh_private_key_file"@) is None,
            },
    {
        self.get_variable("ansible_ssh_private_key_file")
    }
}

impl PartialEq for Host {
    /// Two hosts are the same host when they have the same name.
    fn eq(&self, other: &Self) -> (r: bool) {
        self.name == other.name
    }
}

impl Eq for Host {

}

impl vstd::std_specs::cmp::PartialEqSpecImpl for Host {
    open spec fn obeys_eq_spec() -> bool {
        true
    }

    open spec fn eq_spec(&self, other: &Self) -> bool {
        self.name@ == other.name@
    }
}

impl Clone for Host {
    /// A snapshot of the host.
    fn clone(&self) -> (r: Host)
        ensures
            r@ == self@,
            r.variables.entries@ == self.variables.entries@,
            r.inherited_variables.entries@ == self.inherited_variables.entries@,
    {
        Host {
            name: self.name.clone(),
            hostname: self.hostname.clone(),
            port: self.port,
            variables: self.variables.clone(),
            inherited_variables: self.inherited_variables.clone(),
        }
    }
}

/// A named collection of hosts and of child groups.
#[derive(Debug)]
pub struct HostGroup {
    pub name: String,
    pub hosts: StrSet,
    pub variables: StrMap<String>,
    pub parent: Option<String>,
    pub children: StrSet,
}

/// The mathematical value of a host group.
pub struct HostGroupView {
    pub name: Seq<char>,
    pub hosts: Set<Seq<char>>,
    pub variables: Map<Seq<char>, Seq<char>>,
    pub parent: Option<Seq<char>>,
    pub children: Set<Seq<char>>,
}

impl View for HostGroup {
    type V = HostGroupView;

    open spec fn view(&self) -> HostGroupView {
        HostGroupView {
            name: self.name@,
            hosts: self.hosts@,
            variables: self.variables@,
            parent: match self.parent {
                Some(p) => Some(p@),
                None => None,
            },
            children: self.children@,
        }
    }
}

/// The group as `HostGroup::new` makes it from a name.
pub open spec fn fresh_group(name: Seq<char>) -> HostGroupView {
    HostGroupView {
        name: name,
        hosts: Set::empty(),
        variables: Map::empty(),
        parent: None,
        children: Set::empty(),
    }
}

impl HostGroup {
    /// A group of the given name, with no host, child, parent or variable.
    pub fn new(name: &str) -> (r: HostGroup)
        ensures
            r@ == fresh_group(name@),
            r.hosts.items@.len() == 0,
            r.children.items@.len() == 0,
            r.variables.entries@.len() == 0,
    {
        HostGroup {
            name: name.to_owned(),
            hosts: StrSet::new(),
            variables: StrMap::new(),
            parent: None,
            children: StrSet::new(),
        }
    }

    /// The same group with a parent.
    pub fn with_parent(self, parent: &str) -> (r: HostGroup)
        ensures
            r@ == (HostGroupView { parent: Some(parent@), ..self@ }),
            r.hosts == self.hosts,
            r.children == self.children,
            r.variables == self.variables,
    {
        let mut g = self;
        g.parent = Some(parent.to_owned());
        g
    }

    /// Adds a child group; says whether it was new.
    pub fn add_child(&mut self, child: &str) -> (r: bool)
        ensures
            r == !old(self)@.children.contains(child@),
            final(self)@ == (HostGroupView {
                children: old(self)@.children.insert(child@),
                ..old(self)@
            }),
    {
        self.children.insert(child.to_owned())
    }

    /// Adds a member host; says whether it was new.
    pub fn add_host(&mut self, host: &str) -> (r: bool)
        ensures
            r == !old(self)@.hosts.contains(host@),
            final(self)@ == (HostGroupView { hosts: old(self)@.hosts.insert(host@), ..old(self)@ }),
    {
        self.hosts.insert(host.to_owned())
    }

    /// Sets a variable of the group.
    pub fn add_variable(&mut self, key: &str, value: &str)
        ensures
            final(self)@ == (HostGroupView {
                variables: old(self)@.variables.insert(key@, value@),
                ..old(self)@
            }),
    {
        self.variables.insert(key.to_owned(), value.to_owned());
    }

    /// Sets a variable of the group.
    pub fn set_variable(&mut self, key: &str, value: &str)
        ensures
            final(self)@ == (HostGroupView {
                variables: old(self)@.variables.insert(key@, value@),
                ..old(self)@
            }),
    {
        self.variables.insert(key.to_owned(), value.to_owned());
    }
}

impl Clone for HostGroup {
    /// A copy of the group.
    fn clone(&self) -> (r: HostGroup)
        ensures
            r@ == self@,
            r.hosts.items@ == self.hosts.items@,
            r.children.items@ == self.children.items@,
            r.variables.entries@ == self.variables.entries@,
    {
        HostGroup {
            name: self.name.clone(),
            hosts: self.hosts.clone(),
            variables: self.variables.clone(),
            parent: match &self.parent {
                Some(p) => Some(p.clone()),
                None => None,
            },
            children: self.children.clone(),
        }
    }
}

} // verus!
