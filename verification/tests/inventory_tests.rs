use rustsible::inventory::parser::parse_inventory;
use rustsible::inventory::vars::parse_line_vars;
use rustsible::inventory::{Host, HostGroup, Inventory};

fn names(hosts: &Vec<Host>) -> Vec<String> {
    let mut v: Vec<String> = hosts.iter().map(|h| h.name.clone()).collect();
    v.sort();
    v
}

fn pairs(v: Vec<(&str, &str)>) -> Vec<(String, String)> {
    v.into_iter().map(|(a, b)| (a.to_string(), b.to_string())).collect()
}

#[test]
fn test_inventory_parsing() {
    let content = r#"
# 测试清单文件
[webservers]
test1.example.com ansible_ssh_user=admin
test2.example.com:2222 ansible_ssh_user=user

[dbservers]
db1.example.com

[webservers:vars]
http_port=80
https_port=443

[all:vars]
ansible_ssh_pass=testpassword
        "#;

    let inventory = parse_inventory(content);

    assert_eq!(inventory.hosts.len(), 3);
    assert_eq!(inventory.groups.len(), 4);

    let webservers = inventory.groups.get("webservers").unwrap();
    assert_eq!(webservers.hosts.len(), 2);

    let test1 = inventory.hosts.get("test1.example.com").unwrap();
    assert_eq!(test1.get_variable("ansible_ssh_user").unwrap(), "admin");

    assert_eq!(test1.get_variable("ansible_ssh_pass").unwrap(), "testpassword");

    let test2 = inventory.hosts.get("test2.example.com").unwrap();
    assert_eq!(test2.port, 2222);
}

#[test]
fn parsed_hosts_join_all_and_inherit() {
    let inventory = parse_inventory(
        "lonely\n[web]\na.example.com var1=x\n[web:vars]\nvar2=y\nvar1=group\n[db:children]\nweb\n",
    );
    assert_eq!(names(&inventory.filter_hosts("all")), vec!["a.example.com", "lonely"]);
    assert_eq!(names(&inventory.filter_hosts("ungrouped")), vec!["lonely"]);
    assert_eq!(names(&inventory.filter_hosts("web")), vec!["a.example.com"]);
    assert_eq!(names(&inventory.filter_hosts("db")), vec!["a.example.com"]);
    assert_eq!(inventory.groups.get("web").unwrap().parent, Some("db".to_string()));
    assert!(inventory.groups.get("db").unwrap().children.contains("web"));

    let a = inventory.hosts.get("a.example.com").unwrap();
    assert_eq!(a.get_variable("var1").unwrap(), "x");
    assert_eq!(a.get_variable("var2").unwrap(), "y");
    assert_eq!(a.inherited_variables.get("var1").is_none(), true);
    assert_eq!(a.port, 22);
}

#[test]
fn host_line_variables() {
    assert_eq!(parse_line_vars("a=1 b=2"), pairs(vec![("a", "1"), ("b", "2"), ("a", "1"), ("b", "2")]));
    assert_eq!(parse_line_vars("a='q'"), pairs(vec![]));
    assert_eq!(parse_line_vars("a='q' "), pairs(vec![("a", "q"), ("a", "q")]));
    assert_eq!(
        parse_line_vars("k=\"a b\" z=1"),
        pairs(vec![("k", "a b"), ("z", "1"), ("k", "\"a"), ("z", "1")])
    );
    assert_eq!(parse_line_vars("novalue"), pairs(vec![]));
    assert_eq!(parse_line_vars("a="), pairs(vec![]));
    assert_eq!(parse_line_vars("a= "), pairs(vec![("a", ""), ("a", "")]));
    assert_eq!(parse_line_vars("a=é"), pairs(vec![]));
    assert_eq!(parse_line_vars("a='"), pairs(vec![("a", "'"), ("a", "'")]));
    assert_eq!(parse_line_vars(""), pairs(vec![]));
}

#[test]
fn host_lines_outside_groups_and_ports() {
    let inventory = parse_inventory("h1:2200 ansible_host=10.0.0.1\nh2:notaport\n[g]\nh1\n");
    let h1 = inventory.hosts.get("h1").unwrap();
    assert_eq!(h1.port, 2200);
    assert_eq!(h1.hostname, "10.0.0.1");
    assert!(inventory.hosts.get("h2:notaport").is_some());
    assert_eq!(names(&inventory.filter_hosts("g")), vec!["h1"]);
    assert_eq!(inventory.hosts.len(), 2);
}

fn sample() -> Inventory {
    let mut inventory = Inventory::new();
    for name in ["a", "b", "c"] {
        inventory.add_host(Host::new(name));
    }
    let mut all = HostGroup::new("all");
    for name in ["a", "b", "c"] {
        all.add_host(name);
    }
    all.set_variable("scope", "all");
    all.set_variable("shared", "from-all");
    all.add_child("web");
    inventory.add_group(all);

    let mut web = HostGroup::new("web").with_parent("all");
    web.add_host("a");
    web.add_host("b");
    web.set_variable("shared", "from-web");
    web.add_child("front");
    inventory.add_group(web);

    let mut front = HostGroup::new("front").with_parent("web");
    front.add_host("a");
    front.add_host("ghost");
    front.add_child("web");
    inventory.add_group(front);
    inventory
}

#[test]
fn explicit_variable_is_never_overwritten() {
    let mut inventory = sample();
    let mut a = Host::new("a");
    a.set_variable("shared", "mine");
    inventory.add_host(a);
    inventory.apply_group_vars();
    let a = inventory.hosts.get("a").unwrap();
    assert_eq!(a.get_variable("shared").unwrap(), "mine");
    assert!(a.inherited_variables.get("shared").is_none());
    assert_eq!(a.get_variable("scope").unwrap(), "all");
    let b = inventory.hosts.get("b").unwrap();
    assert_eq!(b.get_variable("shared").unwrap(), "from-web");
    let c = inventory.hosts.get("c").unwrap();
    assert_eq!(c.get_variable("shared").unwrap(), "from-all");
}

#[test]
fn parent_inheritance_is_one_level_deep() {
    let mut inventory = sample();
    inventory.apply_group_vars();
    let web = inventory.groups.get("web").unwrap();
    assert_eq!(web.variables.get("scope").unwrap(), "all");
    assert_eq!(web.variables.get("shared").unwrap(), "from-web");
    let front = inventory.groups.get("front").unwrap();
    assert_eq!(front.variables.get("shared").unwrap(), "from-web");
    assert!(front.variables.get("scope").is_none());

    inventory.apply_group_vars();
    let front = inventory.groups.get("front").unwrap();
    assert_eq!(front.variables.get("scope").unwrap(), "all");
}

#[test]
fn inheritance_twice_is_inheritance_once_without_parents() {
    let mut once = parse_inventory("[web]\na v=1\nb\n[web:vars]\nv=2\nw=3\n[all:vars]\nw=0\nz=9\n");
    let mut twice = parse_inventory("[web]\na v=1\nb\n[web:vars]\nv=2\nw=3\n[all:vars]\nw=0\nz=9\n");
    once.apply_group_vars();
    twice.apply_group_vars();
    twice.apply_group_vars();
    for name in ["a", "b"] {
        let x = once.hosts.get(name).unwrap();
        let y = twice.hosts.get(name).unwrap();
        assert_eq!(x.inherited_variables.entries, y.inherited_variables.entries);
        assert_eq!(x.variables.entries, y.variables.entries);
    }
    let b = once.hosts.get("b").unwrap();
    assert_eq!(b.get_variable("v").unwrap(), "2");
    assert_eq!(b.get_variable("w").unwrap(), "3");
    assert_eq!(b.get_variable("z").unwrap(), "9");
}

#[test]
fn all_selects_every_host_once_whatever_the_nesting() {
    let inventory = sample();
    let hosts = inventory.filter_hosts("all");
    assert_eq!(names(&hosts), vec!["a", "b", "c"]);
    assert_eq!(names(&inventory.filter_hosts("web")), vec!["a", "b"]);
    assert_eq!(names(&inventory.filter_hosts("front")), vec!["a", "b"]);
    assert_eq!(names(&inventory.filter_hosts("c")), vec!["c"]);
    assert!(inventory.filter_hosts("nothing").is_empty());
    assert!(inventory.filter_hosts("ungrouped").is_empty());
}

#[test]
fn snapshots_carry_inherited_variables() {
    let inventory = sample();
    let hosts = inventory.filter_hosts("b");
    assert_eq!(hosts.len(), 1);
    assert_eq!(hosts[0].get_variable("shared").unwrap(), "from-web");
    assert_eq!(hosts[0].get_variable("scope").unwrap(), "all");
    assert!(inventory.hosts.get("b").unwrap().get_variable("scope").is_none());
}

#[test]
fn inventory_starts_with_two_groups() {
    let inventory = Inventory::new();
    assert_eq!(inventory.groups.len(), 2);
    assert!(inventory.get_group("all").is_some());
    assert!(inventory.get_group("ungrouped").is_some());
    assert!(inventory.get_group("web").is_none());
    assert_eq!(inventory.hosts.len(), 0);
}

#[test]
fn port_variable_must_be_a_port() {
    let mut host = Host::new("h");
    host.set_variable("ansible_ssh_port", "70000");
    assert_eq!(host.port, 22);
    host.set_variable("ansible_ssh_port", "+8022");
    assert_eq!(host.port, 8022);
    host.set_variable("ansible_port", "65535");
    assert_eq!(host.port, 65535);
    host.set_variable("ansible_port", "12a");
    assert_eq!(host.port, 65535);
    host.set_variable("ansible_port", "");
    assert_eq!(host.port, 65535);
    host.set_variable("ansible_ssh_host", "1.2.3.4");
    assert_eq!(host.hostname, "1.2.3.4");
    assert_eq!(host.name, "h");
    assert!(host.add_inherited_variable("fresh", "v"));
    assert_eq!(host.get_variable("fresh").unwrap(), "v");
}

#[test]
fn group_members_are_a_set() {
    let mut g = HostGroup::new("g");
    assert!(g.add_host("a"));
    assert!(!g.add_host("a"));
    assert!(g.add_child("c"));
    assert!(!g.add_child("c"));
    g.add_variable("k", "1");
    g.set_variable("k", "2");
    assert_eq!(g.variables.get("k").unwrap(), "2");
    assert_eq!(g.variables.len(), 1);
    assert_eq!(g.hosts.len(), 1);
    assert_eq!(g.parent, None);
    assert_eq!(g.with_parent("p").parent, Some("p".to_string()));
}

#[test]
fn inheritance_twice_leaves_hosts_alone_where_they_gain_nothing() {
    let mut once = sample();
    let mut twice = sample();
    once.apply_group_vars();
    twice.apply_group_vars();
    twice.apply_group_vars();
    for name in ["a", "b", "c"] {
        let x = once.hosts.get(name).unwrap();
        let y = twice.hosts.get(name).unwrap();
        assert_eq!(x.variables.entries, y.variables.entries);
        for key in ["scope", "shared"] {
            assert_eq!(x.inherited_variables.get(key), y.inherited_variables.get(key));
        }
        assert_eq!(x.inherited_variables.len(), y.inherited_variables.len());
    }
}

#[test]
fn inheritance_twice_gives_a_host_what_its_group_took() {
    let mut inventory = Inventory::new();
    inventory.add_host(Host::new("h"));
    let mut base = HostGroup::new("base");
    base.set_variable("x", "1");
    base.add_child("db");
    inventory.add_group(base);
    let mut db = HostGroup::new("db").with_parent("base");
    db.add_host("h");
    inventory.add_group(db);

    inventory.apply_group_vars();
    assert!(inventory.hosts.get("h").unwrap().get_variable("x").is_none());
    assert_eq!(inventory.groups.get("db").unwrap().variables.get("x").unwrap(), "1");
    inventory.apply_group_vars();
    assert_eq!(inventory.hosts.get("h").unwrap().get_variable("x").unwrap(), "1");
}
