use rustsible::node::Node;
use rustsible::playbook::parser::{
    parse_play, parse_playbook, parse_task, PlayError, PlaybookError, TaskError,
};
use rustsible::node::Mapping;

#[test]
fn test_parse_simple_playbook() {
    let content = r#"
---
- name: Test Play
  hosts: localhost
  tasks:
    - name: Test Task
      command: echo hello
"#;
    let playbook = parse_playbook(content).unwrap();

    assert_eq!(playbook.plays.len(), 1);
    let play = &playbook.plays[0];
    assert_eq!(play.name, "Test Play");
    assert_eq!(play.hosts, "localhost");
    assert_eq!(play.tasks.len(), 1);

    let task = &play.tasks[0];
    assert_eq!(task.name, "Test Task");
    assert_eq!(task.module, "command");
    assert!(task.args.contains_key("_raw_params"));
}

#[test]
fn test_parse_task_with_details() {
    let content = r#"
---
- name: Detailed Play
  hosts: all
  tasks:
    - name: Detailed Task
      shell: echo {{ item }}
      become: true
      become_user: admin
      register: shell_result
      when: ansible_os_family == "Debian"
      notify: Restart service
      ignore_errors: yes
      with_items:
        - one
        - two
"#;
    let playbook = parse_playbook(content).unwrap();
    let task = &playbook.plays[0].tasks[0];

    assert_eq!(task.name, "Detailed Task");
    assert_eq!(task.module, "shell");
    assert!(task.args.contains_key("_raw_params"));
    assert_eq!(task.is_become, true);
    assert_eq!(task.become_user, "admin");
    assert_eq!(task.register, Some("shell_result".to_string()));
    assert!(task.when.is_some());
    assert_eq!(task.notify, vec!["Restart service".to_string()]);
    assert_eq!(task.ignore_errors, true);
    assert!(task.loop_items.is_some());
    if let Some(Node::Sequence(items)) = &task.loop_items {
        assert_eq!(items.len(), 2);
    } else {
        panic!("Expected loop_items to be a sequence");
    }
}

#[test]
fn test_parse_task_args_map() {
    let content = r#"
---
- name: Map Args Play
  hosts: all
  tasks:
    - name: File Task
      file:
        path: /tmp/test
        state: directory
"#;
    let playbook = parse_playbook(content).unwrap();
    let task = &playbook.plays[0].tasks[0];

    assert_eq!(task.module, "file");
    assert!(!task.args.contains_key("_raw_params"));
    assert_eq!(task.args.len(), 2);
    assert!(task.args.contains_key("path"));
    assert!(task.args.contains_key("state"));
}

#[test]
fn test_parse_handler() {
    let content = r#"
---
- name: Handler Play
  hosts: web
  tasks:
    - name: Dummy task
      command: echo
      notify: Restart nginx
  handlers:
    - name: Restart nginx
      service:
        name: nginx
        state: restarted
"#;
    let playbook = parse_playbook(content).unwrap();
    let play = &playbook.plays[0];

    assert_eq!(play.handlers.len(), 1);
    let handler_task = &play.handlers[0].task;
    assert_eq!(handler_task.name, "Restart nginx");
    assert_eq!(handler_task.module, "service");
    assert!(handler_task.args.contains_key("name"));
    assert!(handler_task.args.contains_key("state"));
}

#[test]
fn test_parse_loop_list() {
    let content = r#"
---
- name: Loop List Play
  hosts: all
  tasks:
    - name: Loop Task
      debug:
        msg: "Item: {{ item }}"
      loop:
        - first
        - second
"#;
    let playbook = parse_playbook(content).unwrap();
    let task = &playbook.plays[0].tasks[0];

    assert!(task.loop_items.is_some());
    if let Some(Node::Sequence(items)) = &task.loop_items {
        assert_eq!(items.len(), 2);
        assert_eq!(items[0], Node::String("first".to_string()));
    } else {
        panic!("Expected loop_items to be a sequence");
    }
    assert!(task.loop_var_name.is_none());
    assert!(task.index_var_name.is_none());
}

#[test]
fn test_parse_loop_string_expression() {
    let content = r#"
---
- name: Loop String Play
  hosts: all
  tasks:
    - name: Loop Task
      debug:
        msg: "Item: {{ item }}"
      loop: "{{ my_variable | flatten }}"
"#;
    let playbook = parse_playbook(content).unwrap();
    let task = &playbook.plays[0].tasks[0];

    assert!(task.loop_items.is_some());
    assert_eq!(
        task.loop_items,
        Some(Node::String("{{ my_variable | flatten }}".to_string()))
    );
    assert!(task.loop_var_name.is_none());
    assert!(task.index_var_name.is_none());
}

#[test]
fn test_parse_loop_control() {
    let content = r#"
---
- name: Loop Control Play
  hosts: all
  tasks:
    - name: Loop Task
      debug:
        msg: "Index: {{ idx }} Var: {{ element }}"
      loop:
        - a
        - b
      loop_control:
        loop_var: element
        index_var: idx
"#;
    let playbook = parse_playbook(content).unwrap();
    let task = &playbook.plays[0].tasks[0];

    assert!(task.loop_items.is_some());
    assert_eq!(task.loop_var_name, Some("element".to_string()));
    assert_eq!(task.index_var_name, Some("idx".to_string()));
}

fn text(s: &str) -> Node {
    Node::String(s.to_string())
}

fn mapping(pairs: Vec<(Node, Node)>) -> Mapping {
    let mut m = Mapping::new();
    for (k, v) in pairs {
        m.insert(k, v);
    }
    m
}

#[test]
fn module_is_first_unreserved_key_in_document_order() {
    let m = mapping(vec![
        (text("when"), Node::Bool(true)),
        (text("name"), text("t")),
        (text("shell"), text("ls")),
        (text("command"), text("pwd")),
    ]);
    let task = parse_task(&m).unwrap();
    assert_eq!(task.module, "shell");
    assert_eq!(task.args.get("_raw_params"), Some(&text("ls")));
    assert_eq!(task.args.len(), 1);

    let swapped = mapping(vec![
        (text("name"), text("t")),
        (text("command"), text("pwd")),
        (text("shell"), text("ls")),
    ]);
    assert_eq!(parse_task(&swapped).unwrap().module, "command");
}

#[test]
fn debug_shorthand_becomes_msg() {
    let m = mapping(vec![(text("name"), text("t")), (text("debug"), text("hello"))]);
    let task = parse_task(&m).unwrap();
    assert_eq!(task.module, "debug");
    assert_eq!(task.args.get("msg"), Some(&text("hello")));
    assert!(!task.args.contains_key("_raw_params"));
    assert_eq!(task.become_user, "root");
    assert!(!task.is_become);
    assert!(!task.ignore_errors);
    assert!(task.register.is_none());
}

#[test]
fn task_errors_each_have_their_input() {
    let no_name = mapping(vec![(text("shell"), text("ls"))]);
    assert_eq!(parse_task(&no_name).unwrap_err(), TaskError::NameMissing);

    let bad_name = mapping(vec![(text("name"), Node::Bool(true)), (text("shell"), text("ls"))]);
    assert_eq!(parse_task(&bad_name).unwrap_err(), TaskError::NameNotText);

    let no_module = mapping(vec![(text("name"), text("t")), (text("when"), text("x"))]);
    assert_eq!(parse_task(&no_module).unwrap_err(), TaskError::NoModule);

    let bad_args = mapping(vec![
        (text("name"), text("t")),
        (text("shell"), Node::Sequence(vec![])),
    ]);
    assert_eq!(parse_task(&bad_args).unwrap_err(), TaskError::UnsupportedArguments);

    let empty_module = mapping(vec![(text("name"), text("t")), (text(""), text("x"))]);
    assert_eq!(parse_task(&empty_module).unwrap_err(), TaskError::NoModule);
}

#[test]
fn ignore_errors_is_coerced() {
    for (value, expected) in vec![
        (Node::Bool(true), true),
        (Node::Bool(false), false),
        (text("yes"), true),
        (text("TRUE"), true),
        (text("Yes"), true),
        (text("no"), false),
        (text("1"), false),
        (Node::Null, false),
    ] {
        let m = mapping(vec![
            (text("name"), text("t")),
            (text("shell"), text("ls")),
            (text("ignore_errors"), value),
        ]);
        assert_eq!(parse_task(&m).unwrap().ignore_errors, expected);
    }
}

#[test]
fn loop_is_preferred_over_with_items() {
    let m = mapping(vec![
        (text("name"), text("t")),
        (text("shell"), text("ls")),
        (text("with_items"), text("a")),
        (text("loop"), text("b")),
    ]);
    assert_eq!(parse_task(&m).unwrap().loop_items, Some(text("b")));
}

#[test]
fn play_errors_each_have_their_input() {
    let no_name = mapping(vec![(text("hosts"), text("all"))]);
    assert_eq!(parse_play(&no_name).unwrap_err(), PlayError::NameMissing);

    let bad_name = mapping(vec![(text("name"), Node::Null), (text("hosts"), text("all"))]);
    assert_eq!(parse_play(&bad_name).unwrap_err(), PlayError::NameNotText);

    let no_hosts = mapping(vec![(text("name"), text("p"))]);
    assert_eq!(parse_play(&no_hosts).unwrap_err(), PlayError::HostsMissing);

    let bad_hosts = mapping(vec![(text("name"), text("p")), (text("hosts"), Node::Bool(true))]);
    assert_eq!(parse_play(&bad_hosts).unwrap_err(), PlayError::HostsNotText);

    let bad_task = mapping(vec![
        (text("name"), text("p")),
        (text("hosts"), text("all")),
        (
            text("tasks"),
            Node::Sequence(vec![
                Node::Mapping(mapping(vec![(text("name"), text("ok")), (text("shell"), text("x"))])),
                Node::Mapping(mapping(vec![(text("name"), text("broken"))])),
            ]),
        ),
    ]);
    assert_eq!(
        parse_play(&bad_task).unwrap_err(),
        PlayError::Task { index: 1, cause: TaskError::NoModule }
    );

    let bad_handler = mapping(vec![
        (text("name"), text("p")),
        (text("hosts"), text("all")),
        (
            text("handlers"),
            Node::Sequence(vec![Node::Mapping(mapping(vec![(text("shell"), text("x"))]))]),
        ),
    ]);
    assert_eq!(
        parse_play(&bad_handler).unwrap_err(),
        PlayError::Handler { index: 0, cause: TaskError::NameMissing }
    );
}

#[test]
fn playbook_load_fails_fast() {
    assert_eq!(parse_playbook("key: [unclosed").unwrap_err(), PlaybookError::Syntax);
    assert_eq!(parse_playbook("just: a mapping").unwrap_err(), PlaybookError::Syntax);

    let missing_hosts = "- name: first\n  hosts: all\n- name: second\n";
    assert_eq!(
        parse_playbook(missing_hosts).unwrap_err(),
        PlaybookError::Document { document: 1, cause: PlayError::HostsMissing }
    );
}

#[test]
fn fail_fast_is_read_from_a_play() {
    let content = "- name: p\n  hosts: all\n  fail_fast: true\n";
    let playbook = parse_playbook(content).unwrap();
    assert!(playbook.fail_fast);
    assert_eq!(playbook.plays[0].become_user, "root");
    assert!(playbook.plays[0].vars.is_empty());

    let plain = parse_playbook("- name: p\n  hosts: all\n").unwrap();
    assert!(!plain.fail_fast);
}
