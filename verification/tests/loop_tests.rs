use rustsible::engine::create_tera_context;
use tera::Tera;
use rustsible::node::{Mapping, Node, Num};
use rustsible::playbook::loops::{
    extract_simple_variable, get_nested_value, loop_from_render, resolve_loop_items, LoopFault,
};
use rustsible::playbook::task::Task;
use rustsible::strmap::StrMap;

fn text(s: &str) -> Node {
    Node::String(s.to_string())
}

fn num(n: u64) -> Node {
    Node::Number(Num::PosInt(n))
}

fn mapping(pairs: Vec<(&str, Node)>) -> Node {
    let mut m = Mapping::new();
    for (k, v) in pairs {
        m.insert(text(k), v);
    }
    Node::Mapping(m)
}

fn create_test_task() -> Task {
    Task {
        name: "Test Task".to_string(),
        module: "debug".to_string(),
        args: Mapping::new(),
        is_become: false,
        become_user: "root".to_string(),
        register: None,
        when: None,
        notify: Vec::new(),
        ignore_errors: false,
        tags: Vec::new(),
        loop_items: None,
        loop_var_name: None,
        index_var_name: None,
    }
}

fn create_test_tera_and_context() -> (Tera, tera::Context, StrMap<Node>) {
    let tera = Tera::default();
    let mut vars = StrMap::new();
    vars.insert("greeting".to_string(), text("Hello"));
    vars.insert("target".to_string(), text("world"));
    vars.insert("items_list".to_string(), Node::Sequence(vec![text("apple"), text("banana")]));

    let features_list = vec![
        mapping(vec![("name", text("FeatureA")), ("enabled", Node::Bool(true))]),
        mapping(vec![("name", text("FeatureB")), ("enabled", Node::Bool(false))]),
    ];
    vars.insert(
        "application".to_string(),
        mapping(vec![("features", Node::Sequence(features_list)), ("version", text("1.2.3"))]),
    );
    vars.insert(
        "complex_items".to_string(),
        Node::Sequence(vec![mapping(vec![("name", text("A"))]), mapping(vec![("name", text("B"))])]),
    );

    let context = create_tera_context(&vars);
    (tera, context, vars)
}

#[test]
fn test_get_nested_value_simple() {
    let (_tera, _context, vars) = create_test_tera_and_context();
    assert_eq!(get_nested_value("greeting", &vars), Some(&text("Hello")));
    assert_eq!(
        get_nested_value("items_list", &vars),
        Some(&Node::Sequence(vec![text("apple"), text("banana")]))
    );
}

#[test]
fn test_get_nested_value_nested() {
    let (_tera, _context, vars) = create_test_tera_and_context();
    let expected_value = text("1.2.3");
    assert_eq!(get_nested_value("application.version", &vars), Some(&expected_value));
}

#[test]
fn test_get_nested_value_list() {
    let (_tera, _context, vars) = create_test_tera_and_context();
    let expected = match vars.get("application").unwrap() {
        Node::Mapping(m) => m.get("features").unwrap(),
        _ => panic!("Expected a mapping"),
    };
    assert_eq!(get_nested_value("application.features", &vars), Some(expected));
}

#[test]
fn test_get_nested_value_not_found() {
    let (_tera, _context, vars) = create_test_tera_and_context();
    assert_eq!(get_nested_value("nonexistent", &vars), None);
    assert_eq!(get_nested_value("application.nonexistent", &vars), None);
    assert_eq!(get_nested_value("greeting.nonexistent", &vars), None);
    assert_eq!(get_nested_value("items_list.0", &vars), None);
}

#[test]
fn test_resolve_loop_items_direct_list() {
    let task = create_test_task();
    let items = Node::Sequence(vec![num(1), num(2)]);
    let (mut tera, context, vars) = create_test_tera_and_context();

    let result = task.resolve_loop_items(&items, &mut tera, &context, &vars).unwrap();
    assert_eq!(result, Some(vec![num(1), num(2)]));
}

#[test]
fn test_resolve_loop_items_variable_simple() {
    let task = create_test_task();
    let items_var = text("{{ items_list }}");
    let expected_list = vec![text("apple"), text("banana")];
    let (mut tera, context, vars) = create_test_tera_and_context();

    let result = task.resolve_loop_items(&items_var, &mut tera, &context, &vars).unwrap();
    assert_eq!(result, Some(expected_list));
}

#[test]
fn test_resolve_loop_items_variable_nested() {
    let task = create_test_task();
    let items_var = text("{{ application.features }}");
    let (mut tera, context, vars) = create_test_tera_and_context();
    let expected_list = vec![
        mapping(vec![("name", text("FeatureA")), ("enabled", Node::Bool(true))]),
        mapping(vec![("name", text("FeatureB")), ("enabled", Node::Bool(false))]),
    ];

    let result = task.resolve_loop_items(&items_var, &mut tera, &context, &vars).unwrap();
    assert_eq!(result, Some(expected_list));
}

#[test]
fn test_resolve_loop_items_variable_complex() {
    let task = create_test_task();
    let items_var = text("{{ complex_items }}");
    let expected_list = vec![mapping(vec![("name", text("A"))]), mapping(vec![("name", text("B"))])];
    let (mut tera, context, vars) = create_test_tera_and_context();

    let result = task.resolve_loop_items(&items_var, &mut tera, &context, &vars).unwrap();
    assert_eq!(result, Some(expected_list));
}

#[test]
fn test_resolve_loop_items_render_fallback() {
    let task = create_test_task();
    let items_expr = text("{{ items_list | join(\",\") }}");
    let (mut tera, context, vars) = create_test_tera_and_context();

    let result = task.resolve_loop_items(&items_expr, &mut tera, &context, &vars);
    assert!(
        result.is_err(),
        "Expected an error when rendered loop item is not a sequence"
    );
}

#[test]
fn test_resolve_loop_items_invalid_expr() {
    let task = create_test_task();
    let items_expr = text("{{ undefined_var | non_existent_filter }}");
    let (mut tera, context, vars) = create_test_tera_and_context();

    let result = task.resolve_loop_items(&items_expr, &mut tera, &context, &vars);
    assert!(result.is_err());
    assert!(result
        .unwrap_err()
        .to_string()
        .contains("Failed to render loop expression"));
}

#[test]
fn test_resolve_loop_items_not_a_list_variable() {
    let task = create_test_task();
    let items_expr = text("{{ greeting }}");
    let (mut tera, context, vars) = create_test_tera_and_context();

    let result = task.resolve_loop_items(&items_expr, &mut tera, &context, &vars);
    assert!(result.is_err());
    assert!(result
        .unwrap_err()
        .to_string()
        .contains("resolved to a non-sequence value"));
}

#[test]
fn test_resolve_loop_items_bare_string() {
    let task = create_test_task();
    let items_bare = text("single_item");
    let (mut tera, context, vars) = create_test_tera_and_context();

    let result = task.resolve_loop_items(&items_bare, &mut tera, &context, &vars).unwrap();
    assert_eq!(result, Some(vec![text("single_item")]));
}

#[test]
fn simple_variables_are_recognised() {
    assert_eq!(extract_simple_variable("{{ items }}"), Some("items"));
    assert_eq!(extract_simple_variable("  {{a.b_c.d1}}  "), Some("a.b_c.d1"));
    assert_eq!(extract_simple_variable("{{ données }}"), Some("données"));
    assert_eq!(extract_simple_variable("{{ a | upper }}"), None);
    assert_eq!(extract_simple_variable("{{ .a }}"), None);
    assert_eq!(extract_simple_variable("{{ a. }}"), None);
    assert_eq!(extract_simple_variable("{{ a..b }}"), None);
    assert_eq!(extract_simple_variable("{{ }}"), None);
    assert_eq!(extract_simple_variable("{{}}"), None);
    assert_eq!(extract_simple_variable("{{a}"), None);
    assert_eq!(extract_simple_variable("a"), None);
    assert_eq!(extract_simple_variable(""), None);
    assert_eq!(extract_simple_variable("x {{ a }}"), None);
    assert_eq!(extract_simple_variable("{{ a b }}"), None);
}

#[test]
fn loop_source_of_another_type_is_refused() {
    let (mut tera, context, vars) = create_test_tera_and_context();
    for source in vec![num(3), Node::Bool(true), Node::Null, mapping(vec![("a", num(1))])] {
        let error = resolve_loop_items(&source, &mut tera, &context, &vars).unwrap_err();
        assert_eq!(error.fault, LoopFault::UnsupportedType);
        assert_eq!(error.to_string(), "Unsupported loop type");
    }
}

#[test]
fn rendered_loop_sources() {
    let list = loop_from_render("{{ x }}", Ok(Node::Sequence(vec![num(1)]))).unwrap();
    assert_eq!(list, Some(vec![num(1)]));
    let single = loop_from_render("plain", Ok(text("plain"))).unwrap();
    assert_eq!(single, Some(vec![text("plain")]));

    let error = loop_from_render("{{ x }}", Ok(text("s"))).unwrap_err();
    assert_eq!(error.fault, LoopFault::NotASequence);
    assert_eq!(error.to_string(), "Loop expression '{{ x }}' resolved to a non-sequence value");
    let error = loop_from_render("{% y %}", Ok(text("s"))).unwrap_err();
    assert_eq!(error.fault, LoopFault::NotASequence);
    let error = loop_from_render("plain", Ok(num(4))).unwrap_err();
    assert_eq!(error.fault, LoopFault::NotASequence);
}

#[test]
fn loop_binds_items_in_order() {
    let (mut tera, _context, vars) = create_test_tera_and_context();
    let mut task = create_test_task();
    task.loop_items = Some(text("{{ items_list }}"));
    let run = task.begin(&mut tera, &vars).unwrap();
    let items = run.items.unwrap();
    assert_eq!(items, vec![text("apple"), text("banana")]);

    let first = task.loop_vars(&vars, &items[0], 0);
    assert_eq!(first.get("item"), Some(&text("apple")));
    let second = task.loop_vars(&vars, &items[1], 1);
    assert_eq!(second.get("item"), Some(&text("banana")));
    assert_eq!(second.get("greeting"), Some(&text("Hello")));

    task.loop_var_name = Some("fruit".to_string());
    task.index_var_name = Some("n".to_string());
    let named = task.loop_vars(&vars, &items[1], 1);
    assert_eq!(named.get("fruit"), Some(&text("banana")));
    assert_eq!(named.get("n"), Some(&num(1)));
    assert_eq!(named.get("item"), None);
}
