use rustsible::modules::command::CommandModule;
use rustsible::modules::param::{extract_command_arg, get_text_param, has_param, ParamError};
use rustsible::modules::service::get_param;
use rustsible::modules::shell::ShellModule;
use rustsible::node::{Mapping, Node, Num, Tag};
use rustsible::testing::create_test_mapping;

fn text(s: &str) -> Node {
    Node::String(s.to_string())
}

#[test]
fn command_test_extract_command_arg() {
    let string_arg = text("echo 'hello world'");
    assert_eq!(CommandModule::extract_command_arg(&string_arg).unwrap(), "echo 'hello world'");

    let mut map = Mapping::new();
    map.insert(text("cmd"), text("echo 'hello world'"));
    let mapped_arg = Node::Mapping(map);
    assert_eq!(CommandModule::extract_command_arg(&mapped_arg).unwrap(), "echo 'hello world'");

    let invalid_arg = Node::Sequence(vec![]);
    assert!(CommandModule::extract_command_arg(&invalid_arg).is_err());
}

#[test]
fn shell_test_extract_command_arg() {
    let string_arg = text("echo 'hello world'");
    assert_eq!(ShellModule::extract_command_arg(&string_arg).unwrap(), "echo 'hello world'");

    let mut map = Mapping::new();
    map.insert(text("cmd"), text("echo 'hello world'"));
    let mapped_arg = Node::Mapping(map);
    assert_eq!(ShellModule::extract_command_arg(&mapped_arg).unwrap(), "echo 'hello world'");

    let invalid_arg = Node::Sequence(vec![]);
    assert!(ShellModule::extract_command_arg(&invalid_arg).is_err());
}

#[test]
fn test_get_param() {
    let mut map = Mapping::new();
    map.insert(text("key"), text("value"));
    let args = Node::Mapping(map);
    assert_eq!(get_param(&args, "key").unwrap(), "value");
    assert!(get_param(&args, "missing").is_err());
    let not_map = text("string");
    assert!(get_param(&not_map, "key").is_err());
}

#[test]
fn test_has_param_true() {
    let mut map = Mapping::new();
    map.insert(text("foo"), text("bar"));
    let args = Node::Mapping(map);
    assert!(has_param(&args, "foo"));
}

#[test]
fn test_has_param_false() {
    let map = Mapping::new();
    let args = Node::Mapping(map);
    assert!(!has_param(&args, "foo"));
}

#[test]
fn test_content_param() {
    let mut map = Mapping::new();
    map.insert(text("content"), text("Hello, world!"));
    map.insert(text("dest"), text("/tmp/test-content"));
    let args = Node::Mapping(map);

    if let Node::Mapping(args_map) = &args {
        if let Some(content_value) = args_map.get("content") {
            match content_value {
                Node::String(s) => assert_eq!(s, "Hello, world!"),
                _ => panic!("Content value is not a string"),
            }
        } else {
            panic!("Content key not found");
        }
    } else {
        panic!("Args is not a mapping");
    }
}

#[test]
fn test_create_test_mapping() {
    let mapping = create_test_mapping(vec![
        ("key1", text("value1")),
        ("key2", Node::Number(Num::PosInt(42))),
    ]);

    assert_eq!(
        mapping,
        create_test_mapping(vec![("key1", text("value1")), ("key2", Node::Number(Num::PosInt(42)))])
    );
    match &mapping {
        Node::Mapping(m) => {
            assert_eq!(m.len(), 2);
            assert_eq!(m.get("key2"), Some(&Node::Number(Num::PosInt(42))));
        }
        _ => panic!("Expected a mapping"),
    }
}

#[test]
fn param_errors_each_have_their_input() {
    assert_eq!(get_text_param(&text("x"), "k").unwrap_err(), ParamError::NotAMapping);
    let args = create_test_mapping(vec![("n", Node::Number(Num::PosInt(1)))]);
    assert_eq!(get_text_param(&args, "n").unwrap_err(), ParamError::Missing);
    assert_eq!(get_text_param(&args, "other").unwrap_err(), ParamError::Missing);
    assert_eq!(extract_command_arg(&args).unwrap_err(), ParamError::NoCommand);
    assert_eq!(extract_command_arg(&Node::Null).unwrap_err(), ParamError::NoCommand);
    assert!(!has_param(&text("x"), "k"));
    assert!(has_param(&args, "n"));
    assert_eq!(ShellModule::wrap("echo 'hi'"), "sh -c 'echo '\\''hi'\\'''");
    assert_eq!(ShellModule::wrap("ls"), "sh -c 'ls'");
}

#[test]
fn mapping_keeps_order_and_replaces_in_place() {
    let mut m = Mapping::new();
    m.insert(text("a"), text("1"));
    m.insert(Node::Number(Num::PosInt(7)), text("seven"));
    m.insert(text("b"), text("2"));
    m.insert(text("a"), text("3"));
    assert_eq!(m.len(), 3);
    assert_eq!(m.entries[0], (text("a"), text("3")));
    assert_eq!(m.entries[1].1, text("seven"));
    m.insert(Node::Number(Num::PosInt(7)), text("VII"));
    assert_eq!(m.entries[1].1, text("VII"));
    m.remove("a");
    assert_eq!(m.len(), 2);
    assert_eq!(m.entries[0], (text("b"), text("2")));
    m.remove("missing");
    assert_eq!(m.len(), 2);
    assert!(!m.contains_key("a"));
    assert!(m.get("7").is_none());

    let nested = Node::Sequence(vec![Node::Mapping(m.clone()), Node::Tagged(Tag::new("t").unwrap(), Box::new(Node::Null))]);
    let copy = nested.clone();
    assert!(copy.same(&nested));
    assert!(!copy.same(&Node::Sequence(vec![])));
    assert!(!Node::Number(Num::PosInt(1)).same(&Node::Number(Num::NegInt(-1))));
    assert!(Node::Number(Num::Float("1.5".to_string())).same(&Node::Number(Num::Float("1.5".to_string()))));
}
