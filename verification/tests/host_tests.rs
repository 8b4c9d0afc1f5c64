use rustsible::inventory::Host;

#[test]
fn test_host_new_and_port() {
    let host = Host::new("example.com");
    assert_eq!(host.name, "example.com");
    assert_eq!(host.hostname, "example.com");
    assert_eq!(host.port, 22);

    let host2 = Host::new("testhost extra");
    assert_eq!(host2.name, "testhost");
    assert_eq!(host2.hostname, "testhost");

    let host3 = host.with_port(2222);
    assert_eq!(host3.port, 2222);
}

#[test]
fn test_set_and_get_variable() {
    let mut host = Host::new("h1");
    host.set_variable("foo", "bar");
    assert_eq!(host.get_variable("foo"), Some(&"bar".to_string()));
    host.set_variable("baz", "qux");
    assert!(!host.add_inherited_variable("baz", "new"));

    host.set_variable("ansible_host", "remote");
    assert_eq!(host.hostname, "remote");

    host.set_variable("ansible_port", "2023");
    assert_eq!(host.port, 2023);
}

#[test]
fn test_ssh_credentials_helpers() {
    let mut host = Host::new("h2");
    host.set_variable("ansible_user", "user1");
    host.set_variable("ansible_password", "pass1");
    host.set_variable("ansible_ssh_private_key_file", "/key");

    assert_eq!(host.get_ssh_user(), Some(&"user1".to_string()));
    assert_eq!(host.get_ssh_password(), Some(&"pass1".to_string()));
    assert_eq!(host.get_ssh_private_key(), Some(&"/key".to_string()));
}

#[test]
fn hosts_are_the_same_by_name() {
    let mut a = Host::new("web1");
    a.set_variable("k", "v");
    let b = Host::new("web1").with_port(2222);
    assert!(a == b);
    assert!(a != Host::new("web2"));
    let copy = a.clone();
    assert_eq!(copy.get_variable("k"), Some(&"v".to_string()));
    assert_eq!(copy.port, 22);
}
