use rustsible::engine::create_tera_context;
use tera::Tera;
use rustsible::inventory::{Host, HostGroup, Inventory};
use rustsible::playbook::parser::parse_playbook;
use rustsible::node::{Mapping, Node, Num, Tag};
use rustsible::playbook::templar::{
    check_template_variables, classify_fault, coerce_rendered, coerce_with,
    convert_ansible_to_tera_syntax, evaluate_condition, evaluate_truthiness, next_round, precheck,
    render_fixed_point, render_value, RenderFault, Round, MAX_TEMPLATE_RECURSION,
};
use rustsible::strmap::StrMap;

fn text(s: &str) -> Node {
    Node::String(s.to_string())
}

fn num(n: u64) -> Node {
    Node::Number(Num::PosInt(n))
}

fn vars_of(pairs: Vec<(&str, Node)>) -> StrMap<Node> {
    let mut vars = StrMap::new();
    for (k, v) in pairs {
        vars.insert(k.to_string(), v);
    }
    vars
}

#[test]
fn test_render_value_simple() {
    let mut tera = Tera::default();
    let vars = vars_of(vec![("name", text("World"))]);
    let context = create_tera_context(&vars);

    let result = render_value("Hello {{ name }}!", &mut tera, &context, false).unwrap();
    assert_eq!(result, text("Hello World!"));
}

#[test]
fn test_render_value_complex_expression() {
    let mut tera = Tera::default();
    let vars = vars_of(vec![("a", num(5)), ("b", num(3))]);
    let context = create_tera_context(&vars);

    let result = render_value("{{ a + b * 2 }}", &mut tera, &context, false).unwrap();
    assert_eq!(result, num(11));
}

#[test]
fn test_render_value_conditional_expression() {
    let mut tera = Tera::default();
    let vars = vars_of(vec![("use_prod", Node::Bool(true))]);
    let context = create_tera_context(&vars);

    let result = render_value(
        "{% if use_prod %}production{% else %}staging{% endif %}",
        &mut tera,
        &context,
        false,
    )
    .unwrap();
    assert_eq!(result, text("production"));

    let vars2 = vars_of(vec![("use_prod", Node::Bool(false))]);
    let context2 = create_tera_context(&vars2);
    let result2 = render_value(
        "{% if use_prod %}production{% else %}staging{% endif %}",
        &mut tera,
        &context2,
        false,
    )
    .unwrap();
    assert_eq!(result2, text("staging"));
}

#[test]
fn test_evaluate_condition_simple_true() {
    let mut tera = Tera::default();
    let vars = vars_of(vec![("enabled", Node::Bool(true))]);
    let context = create_tera_context(&vars);
    assert!(evaluate_condition("enabled", &mut tera, &context).unwrap());
}

#[test]
fn test_evaluate_condition_simple_false() {
    let mut tera = Tera::default();
    let vars = vars_of(vec![("enabled", Node::Bool(false))]);
    let context = create_tera_context(&vars);
    assert!(!evaluate_condition("enabled", &mut tera, &context).unwrap());
}

#[test]
fn test_evaluate_condition_comparison() {
    let mut tera = Tera::default();
    let vars = vars_of(vec![("count", num(5)), ("name", text("test"))]);
    let context = create_tera_context(&vars);
    assert!(evaluate_condition("count > 3", &mut tera, &context).unwrap());
    assert!(!evaluate_condition("count < 5", &mut tera, &context).unwrap());
    assert!(evaluate_condition("count == 5", &mut tera, &context).unwrap());
    assert!(evaluate_condition("name == \"test\"", &mut tera, &context).unwrap());
    assert!(!evaluate_condition("name != 'test'", &mut tera, &context).unwrap());
}

#[test]
fn test_evaluate_condition_is_defined() {
    let mut tera = Tera::default();
    let vars = vars_of(vec![("defined_var", text("hello"))]);
    let context = create_tera_context(&vars);
    assert!(evaluate_condition("defined_var is defined", &mut tera, &context).unwrap());
    assert!(!evaluate_condition("undefined_var is defined", &mut tera, &context).unwrap());
}

#[test]
fn test_evaluate_condition_is_not_defined() {
    let mut tera = Tera::default();
    let vars = vars_of(vec![("defined_var", text("hello"))]);
    let context = create_tera_context(&vars);
    assert!(!evaluate_condition("defined_var is not defined", &mut tera, &context).unwrap());
    assert!(evaluate_condition("undefined_var is not defined", &mut tera, &context).unwrap());
}

#[test]
fn test_evaluate_condition_in_list() {
    let mut tera = Tera::default();
    let vars = vars_of(vec![
        ("my_list", Node::Sequence(vec![text("a"), text("b")])),
        ("check", text("a")),
    ]);
    let context = create_tera_context(&vars);
    assert!(evaluate_condition("'a' in my_list", &mut tera, &context).unwrap());
    assert!(!evaluate_condition("'c' in my_list", &mut tera, &context).unwrap());
    assert!(evaluate_condition("check in my_list", &mut tera, &context).unwrap());
}

#[test]
fn test_evaluate_condition_complex_with_item() {
    let mut tera = Tera::default();
    let mut item_map = Mapping::new();
    item_map.insert(text("enabled"), Node::Bool(true));
    item_map.insert(text("level"), num(2));

    let vars = vars_of(vec![("item", Node::Mapping(item_map))]);
    let context = create_tera_context(&vars);

    assert!(evaluate_condition("item.enabled", &mut tera, &context).unwrap());
    assert!(evaluate_condition("item.level > 1", &mut tera, &context).unwrap());
    assert!(evaluate_condition("item.enabled and item.level > 1", &mut tera, &context).unwrap());
    assert!(!evaluate_condition("item.enabled and item.level < 1", &mut tera, &context).unwrap());
    assert!(evaluate_condition("item.enabled or item.level < 1", &mut tera, &context).unwrap());
}

#[test]
fn plain_text_comes_back_as_text() {
    let mut tera = Tera::default();
    let context = create_tera_context(&StrMap::new());
    for input in vec!["hello", "42", "[1, 2]", "key: value", "true", "", "user ALL=(ALL) NOPASSWD: ALL"] {
        let result = render_value(input, &mut tera, &context, false).unwrap();
        assert_eq!(result, text(input));
        let forced = render_value(input, &mut tera, &context, true).unwrap();
        assert_eq!(forced, text(input));
    }
}

#[test]
fn nested_expressions_resolve_within_the_cap() {
    let mut tera = Tera::default();
    let vars = vars_of(vec![("outer", text("{{ inner }}-x")), ("inner", text("deep"))]);
    let context = create_tera_context(&vars);
    let result = render_value("{{ outer | safe }}", &mut tera, &context, true).unwrap();
    assert_eq!(result, text("deep-x"));

    let point = render_fixed_point("{{ outer | safe }}", &mut tera, &context).unwrap();
    assert_eq!(point.text, "deep-x");
    assert!(point.settled);
    assert_eq!(point.rounds, 3);
}

#[test]
fn self_reference_ends_at_the_cap() {
    let mut tera = Tera::default();
    let vars = vars_of(vec![("me", text("{{ me | safe }}x"))]);
    let context = create_tera_context(&vars);
    let point = render_fixed_point("{{ me | safe }}", &mut tera, &context).unwrap();
    assert_eq!(point.rounds, MAX_TEMPLATE_RECURSION);
    assert!(!point.settled);
    assert_eq!(point.text, "{{ me | safe }}xxxxxxxxxx");

    let result = render_value("{{ me | safe }}", &mut tera, &context, true);
    assert_eq!(result.unwrap(), text("{{ me | safe }}xxxxxxxxxx"));
}

#[test]
fn undefined_name_with_filter_fails_before_rendering() {
    let mut tera = Tera::default();
    let vars = vars_of(vec![("known", text("v"))]);
    let context = create_tera_context(&vars);

    let error = render_value("{{ missing | upper }}", &mut tera, &context, false).unwrap_err();
    assert_eq!(error.fault, RenderFault::UndefinedWithFilter);
    assert_eq!(error.variables, vec!["missing".to_string()]);
    assert_eq!(error.template, "{{ missing | upper }}");

    assert_eq!(precheck("{{ missing | upper }}", &context), Some("missing".to_string()));
    assert_eq!(precheck("{{ known | upper }}", &context), None);
    assert_eq!(precheck("{{ missing }}", &context), None);
    assert_eq!(precheck("no expression", &context), None);
    assert_eq!(precheck("{{ inventory_hostname | upper }}", &context), None);

    let ok = render_value("{{ known | upper }}", &mut tera, &context, false).unwrap();
    assert_eq!(ok, text("V"));
}

#[test]
fn undefined_names_are_found_in_order() {
    let vars = vars_of(vec![("b", text("v"))]);
    let context = create_tera_context(&vars);
    assert_eq!(
        check_template_variables("{{ a }} {{b}} {{  c|upper }} {{ ansible_host }} {{}}", &context),
        vec!["a".to_string(), "c".to_string()]
    );
    assert_eq!(
        check_template_variables("{{ a }} {{ 'lit' }} {{ z }}", &context),
        vec!["a".to_string()]
    );
    assert_eq!(check_template_variables("{{ a.b.c }}", &context), vec!["a.b.c".to_string()]);
    assert_eq!(check_template_variables("{{", &context), Vec::<String>::new());
    assert_eq!(check_template_variables("{{ x", &context), vec!["x".to_string()]);
}

#[test]
fn render_errors_are_classified() {
    let mut tera = Tera::default();
    let context = create_tera_context(&StrMap::new());

    let missing = render_value("{{ nope }}", &mut tera, &context, false).unwrap_err();
    assert_eq!(missing.fault, RenderFault::Other);
    assert_eq!(missing.detail, "Failed to render '__tera_one_off'");
    assert_eq!(missing.depth, 1);
    assert_eq!(missing.variables, vec!["nope".to_string()]);

    let broken = render_value("{{ ansible_host +* }}", &mut tera, &context, false).unwrap_err();
    assert_eq!(broken.fault, RenderFault::Other);

    let broken_undefined = render_value("{{ foo +* }}", &mut tera, &context, false).unwrap_err();
    assert_eq!(broken_undefined.fault, RenderFault::ParseUndefined);

    assert_eq!(
        classify_fault("Failed to parse '__tera_one_off'", 1),
        RenderFault::ParseUndefined
    );
    assert_eq!(classify_fault("Failed to parse '__tera_one_off'", 0), RenderFault::Other);
    assert_eq!(classify_fault("Variable `x` not found", 0), RenderFault::UndefinedVariable);
    assert_eq!(classify_fault("Filter 'x' not found", 3), RenderFault::UnknownFilter);
    assert_eq!(classify_fault("something else", 3), RenderFault::Other);
}

#[test]
fn rendered_text_is_coerced() {
    assert_eq!(coerce_rendered("{{ x }}", "11", false), num(11));
    assert_eq!(coerce_rendered("{{ x }}", "-3", false), Node::Number(Num::NegInt(-3)));
    assert_eq!(coerce_rendered("{{ x }}", "1.5", false), Node::Number(Num::Float("1.5".to_string())));
    assert_eq!(coerce_rendered("{{ x }}", "11", true), text("11"));
    assert_eq!(coerce_rendered("{{ x }}", "true", false), Node::Bool(true));
    assert_eq!(coerce_rendered("{{ x }}", "[1, \"a\"]", false), Node::Sequence(vec![num(1), text("a")]));
    assert_eq!(coerce_rendered("{{ x }}", "- a\n- b", false), Node::Sequence(vec![text("a"), text("b")]));
    assert_eq!(coerce_rendered("{{ x }}", "hello", false), text("hello"));
    assert_eq!(coerce_rendered("{{ x }}", "", false), Node::Null);
    assert_eq!(coerce_rendered("{{ x }}", "~", false), text("~"));
    assert_eq!(
        coerce_rendered("{{ x }}", "user ALL=(ALL) NOPASSWD: ALL", false),
        text("user ALL=(ALL) NOPASSWD: ALL")
    );
    let mut m = Mapping::new();
    m.insert(text("a"), num(1));
    assert_eq!(coerce_rendered("{{ x }}", "{\"a\": 1}", false), Node::Mapping(m));
    let mut y = Mapping::new();
    y.insert(text("key"), text("v"));
    assert_eq!(coerce_rendered("{{ x }}", "key:\n  v", false), Node::Mapping(y.clone()));
    assert_eq!(coerce_rendered("{{ x }}", "key: v", false), text("key: v"));
    assert_eq!(coerce_rendered("{{ x }}", "key:v2", false), text("key:v2"));
    assert_eq!(coerce_rendered("{{ x }}", "key: v\nother: w", false), {
        y.insert(text("other"), text("w"));
        Node::Mapping(y)
    });
    assert_eq!(coerce_rendered("12", "12", false), text("12"));
}

#[test]
fn coercion_follows_the_given_readings() {
    let mut m = Mapping::new();
    m.insert(text("a"), num(1));
    assert_eq!(
        coerce_with("{{ x }}", "a: 1", false, None, Some(Node::Mapping(m.clone()))),
        text("a: 1")
    );
    assert_eq!(
        coerce_with("{{ x }}", "- a: 1", false, None, Some(Node::Mapping(m.clone()))),
        Node::Mapping(m.clone())
    );
    assert_eq!(coerce_with("{{ x }}", "a", false, Some(num(7)), Some(num(8))), num(7));
    assert_eq!(coerce_with("{{ x }}", "a", false, None, Some(num(8))), num(8));
    assert_eq!(coerce_with("{{ x }}", "a", false, None, Some(Node::Null)), text("a"));
    assert_eq!(coerce_with("{{ x }}", "  ", false, None, Some(Node::Null)), Node::Null);
    assert_eq!(coerce_with("{{ x }}", "a", false, None, None), text("a"));
    assert_eq!(coerce_with("{{ x }}", "a", true, Some(num(7)), Some(num(8))), text("a"));
    assert_eq!(coerce_with("a", "a", false, Some(num(7)), Some(num(8))), text("a"));
    assert_eq!(coerce_with("a", "b", false, Some(num(7)), Some(num(8))), num(7));
}

#[test]
fn truthiness_of_each_kind() {
    assert!(evaluate_truthiness(&Node::Bool(true)));
    assert!(!evaluate_truthiness(&Node::Bool(false)));
    assert!(!evaluate_truthiness(&num(0)));
    assert!(evaluate_truthiness(&num(3)));
    assert!(evaluate_truthiness(&Node::Number(Num::NegInt(-1))));
    assert!(!evaluate_truthiness(&Node::Number(Num::Float("0.0".to_string()))));
    assert!(!evaluate_truthiness(&Node::Number(Num::Float("-0.0".to_string()))));
    assert!(evaluate_truthiness(&Node::Number(Num::Float("0.5".to_string()))));
    assert!(!evaluate_truthiness(&text("")));
    assert!(evaluate_truthiness(&text("false")));
    assert!(!evaluate_truthiness(&Node::Sequence(vec![])));
    assert!(evaluate_truthiness(&Node::Sequence(vec![Node::Null])));
    assert!(!evaluate_truthiness(&Node::Mapping(Mapping::new())));
    assert!(!evaluate_truthiness(&Node::Null));
    assert!(!evaluate_truthiness(&Node::Tagged(Tag::new("t").unwrap(), Box::new(Node::Null))));
    assert!(evaluate_truthiness(&Node::Tagged(Tag::new("t").unwrap(), Box::new(num(1)))));
    let mut m = Mapping::new();
    m.insert(text("k"), Node::Null);
    assert!(evaluate_truthiness(&Node::Mapping(m)));
}

#[test]
fn filter_calls_are_rewritten() {
    assert_eq!(
        convert_ansible_to_tera_syntax("{{ p | password_hash('sha512') }}"),
        "{{ p | password_hash(hash_type='sha512') }}"
    );
    assert_eq!(
        convert_ansible_to_tera_syntax("{{ p | password_hash(\"md5\") }}{{ q | password_hash('bcrypt') }}"),
        "{{ p | password_hash(hash_type=\"md5\") }}{{ q | password_hash(hash_type='bcrypt') }}"
    );
    assert_eq!(convert_ansible_to_tera_syntax("{{ p | upper }}"), "{{ p | upper }}");
    assert_eq!(
        convert_ansible_to_tera_syntax("{{ p | password_hash('other') }}"),
        "{{ p | password_hash('other') }}"
    );
}

#[test]
fn end_to_end_host_variables_render() {
    let mut inventory = Inventory::new();
    let mut host = Host::new("a.example.com");
    host.set_variable("var1", "x");
    inventory.add_host(host);
    let mut web = HostGroup::new("web");
    web.add_host("a.example.com");
    web.set_variable("var2", "y");
    inventory.add_group(web);
    inventory.apply_group_vars();

    let playbook = parse_playbook("- name: p\n  hosts: web\n  tasks:\n    - name: t\n      debug:\n        msg: \"{{ var1 }}-{{ var2 }}\"\n").unwrap();
    let play = &playbook.plays[0];
    let hosts = inventory.filter_hosts(&play.hosts);
    assert_eq!(hosts.len(), 1);
    let vars = play.host_vars(&hosts[0], &StrMap::new());
    let mut tera = Tera::default();
    let call = play.tasks[0].prepare(&hosts[0], &mut tera, &vars).unwrap();
    assert_eq!(call.args.get("msg"), Some(&text("x-y")));
    assert_eq!(call.module, "debug");
    assert!(!call.local);
}

#[test]
fn context_defines_each_variable() {
    let vars = vars_of(vec![
        ("a", num(1)),
        ("b", Node::Sequence(vec![text("x"), Node::Null])),
        ("c", Node::Number(Num::Float("2.5".to_string()))),
    ]);
    let context = create_tera_context(&vars);
    for name in ["a", "b", "c"] {
        assert!(context.contains_key(name));
    }
    assert!(!context.contains_key("d"));
    assert_eq!(context.get("a"), Some(&tera::Value::from(1u64)));
    assert_eq!(context.get("c"), Some(&tera::Value::from(2.5)));
    let mut tera = Tera::default();
    let sum = render_value("{{ a + c }}", &mut tera, &context, false).unwrap();
    assert_eq!(sum, Node::Number(Num::Float("3.5".to_string())));
}

#[test]
fn filter_call_outside_an_expression_is_left_alone() {
    let mut tera = Tera::default();
    let context = create_tera_context(&StrMap::new());
    for input in vec!["password_hash('sha512')", "x | password_hash(\"md5\")", "a { b } c"] {
        assert_eq!(convert_ansible_to_tera_syntax(input), input);
        assert_eq!(render_value(input, &mut tera, &context, false).unwrap(), text(input));
        assert_eq!(render_value(input, &mut tera, &context, true).unwrap(), text(input));
    }
    assert_eq!(
        convert_ansible_to_tera_syntax("{% if p %}password_hash('md5'){% endif %}"),
        "{% if p %}password_hash(hash_type='md5'){% endif %}"
    );
}

#[test]
fn comment_alone_is_read_by_the_evaluator() {
    let mut tera = Tera::default();
    let context = create_tera_context(&StrMap::new());
    let result = render_value("a{# gone #}b", &mut tera, &context, true).unwrap();
    assert_eq!(result, text("ab"));
}

#[test]
fn a_round_settles_changes_or_fails() {
    match next_round("same", Ok("same".to_string()), 4) {
        Round::Settled => {}
        other => panic!("expected a settled text, got {:?}", other),
    }
    match next_round("before", Ok("after".to_string()), 4) {
        Round::Changed(t) => assert_eq!(t, "after"),
        other => panic!("expected the next text, got {:?}", other),
    }
    match next_round("before", Ok(String::new()), 1) {
        Round::Changed(t) => assert_eq!(t, ""),
        other => panic!("expected the next text, got {:?}", other),
    }
    match next_round("before", Err("broken".to_string()), 7) {
        Round::Failed(depth, detail) => {
            assert_eq!(depth, 7);
            assert_eq!(detail, "broken");
        }
        other => panic!("expected a failure, got {:?}", other),
    }
}

#[test]
fn value_that_names_another_variable_resolves_fully() {
    let mut tera = Tera::default();
    let vars = vars_of(vec![("a", text("{{ b }}")), ("b", text("done"))]);
    let context = create_tera_context(&vars);
    let result = render_value("{{ a }}", &mut tera, &context, false).unwrap();
    assert_eq!(result, text("done"));
    let point = render_fixed_point("{{ a }}", &mut tera, &context).unwrap();
    assert_eq!(point.text, "done");
    assert!(point.settled);
    assert_eq!(point.rounds, 3);
}

#[test]
fn self_reference_gives_a_text_and_no_error() {
    let mut tera = Tera::default();
    let vars = vars_of(vec![("a", text("x{{ a }}"))]);
    let context = create_tera_context(&vars);
    let point = render_fixed_point("{{ a }}", &mut tera, &context).unwrap();
    assert_eq!(point.rounds, MAX_TEMPLATE_RECURSION);
    assert!(!point.settled);
    assert_eq!(point.text, "xxxxxxxxxx{{ a }}");
    let result = render_value("{{ a }}", &mut tera, &context, false);
    assert_eq!(result.unwrap(), text("xxxxxxxxxx{{ a }}"));
}

#[test]
fn failure_of_the_evaluator_carries_its_round() {
    let mut tera = Tera::default();
    let vars = vars_of(vec![("a", text("{{ nowhere }}"))]);
    let context = create_tera_context(&vars);
    let error = render_fixed_point("{{ a }}", &mut tera, &context).unwrap_err();
    assert_eq!(error.0, 2);
    let error = render_value("{{ a }}", &mut tera, &context, false).unwrap_err();
    assert_eq!(error.depth, 2);
    assert_eq!(error.template, "{{ a }}");
}

#[test]
fn tag_is_never_empty() {
    assert!(Tag::new("").is_none());
    assert_eq!(Tag::new("!Thing").unwrap().as_str(), "!Thing");
    assert_eq!(Tag::or_bare("").as_str(), "!");
    assert_eq!(Tag::or_bare("Thing").as_str(), "Thing");
    assert!(Tag::new("a").unwrap().same(&Tag::new("a").unwrap().clone()));
    assert!(!Tag::new("a").unwrap().same(&Tag::new("b").unwrap()));
}

#[test]
fn tagged_values_reach_the_evaluator() {
    let mut tera = Tera::default();
    let tagged = Node::Tagged(Tag::new("!Thing").unwrap(), Box::new(text("inside")));
    let vars = vars_of(vec![("t", tagged), ("plain", text("p"))]);
    let context = create_tera_context(&vars);
    let result = render_value("{{ plain }}", &mut tera, &context, false).unwrap();
    assert_eq!(result, text("p"));
}

#[test]
fn every_filter_call_in_an_expression_is_rewritten() {
    assert_eq!(
        convert_ansible_to_tera_syntax(
            "{{ a | password_hash('sha256') }} {{ b | password_hash('sha256') }}password_hash('sha256')"
        ),
        "{{ a | password_hash(hash_type='sha256') }} {{ b | password_hash(hash_type='sha256') }}password_hash(hash_type='sha256')"
    );
}
