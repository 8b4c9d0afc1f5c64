use tera::Tera;
use rustsible::inventory::Host;
use rustsible::modules::ModuleResult;
use rustsible::node::{Mapping, Node, Num};
use rustsible::playbook::args::{place_argument, preprocess_if_condition};
use rustsible::playbook::exec::{date_time_facts, with_date, TaskFailure, TaskStep};
use rustsible::playbook::outcome::{gate, ModuleOutcome};
use rustsible::playbook::parser::parse_playbook;
use rustsible::playbook::play::{register, register_value, Phase, PlayStep};
use rustsible::playbook::task::{Task, TaskResult};
use rustsible::playbook::templar::{RenderError, RenderFault};
use rustsible::playbook::{next_play, stops_after};
use rustsible::strmap::StrMap;

fn text(s: &str) -> Node {
    Node::String(s.to_string())
}

fn num(n: u64) -> Node {
    Node::Number(Num::PosInt(n))
}

fn task(module: &str) -> Task {
    Task {
        name: "t".to_string(),
        module: module.to_string(),
        args: Mapping::new(),
        is_become: false,
        become_user: "root".to_string(),
        register: None,
        when: None,
        notify: Vec::new(),
        ignore_errors: false,
        tags: Vec::new(),
        loop_items: None,
        loop_var_name: None,
        index_var_name: None,
    }
}

fn report(changed: bool, failed: bool, stdout: &str) -> ModuleResult {
    ModuleResult {
        stdout: stdout.to_string(),
        stderr: String::new(),
        changed,
        failed,
        msg: "done".to_string(),
    }
}

fn render_failure() -> RenderError {
    RenderError {
        fault: RenderFault::Other,
        variables: Vec::new(),
        template: String::new(),
        detail: String::new(),
        depth: 1,
    }
}

#[test]
fn false_condition_skips_without_running_anything() {
    let host = Host::new("h");
    let mut tera = Tera::default();
    let mut t = task("command");
    t.args.insert(text("_raw_params"), text("rm -rf /"));
    t.when = Some(text("1 > 2"));
    let vars = StrMap::new();
    let mut run = t.begin(&mut tera, &vars).unwrap();
    match t.advance(&mut run, &host, &mut tera, &vars).unwrap() {
        TaskStep::Done(result) => {
            assert!(result.skipped);
            assert!(!result.changed);
            assert!(!result.failed);
            assert_eq!(result.msg, "Skipped due to condition");
            assert_eq!(result.host, "h");
        }
        TaskStep::Call(_) => panic!("a skipped task must not be run"),
    }

    let skipped = gate("h", true, Some(false)).unwrap();
    assert!(skipped.skipped && !skipped.changed);
    assert_eq!(skipped.msg, "Skipped loop item due to condition");
    assert!(gate("h", false, Some(true)).is_none());
    assert!(gate("h", false, None).is_none());
}

#[test]
fn true_condition_hands_out_the_operation() {
    let host = Host::new("localhost");
    let mut tera = Tera::default();
    let mut t = task("command");
    t.args.insert(text("_raw_params"), text("echo {{ word }}"));
    t.when = Some(Node::Bool(true));
    let mut vars = StrMap::new();
    vars.insert("word".to_string(), text("hi"));
    let mut run = t.begin(&mut tera, &vars).unwrap();
    let call = match t.advance(&mut run, &host, &mut tera, &vars).unwrap() {
        TaskStep::Call(call) => call,
        TaskStep::Done(_) => panic!("expected an operation"),
    };
    assert!(call.local);
    assert_eq!(call.module, "command");
    assert_eq!(call.command(), "echo hi");
    assert_eq!(call.args.get("_host_type"), Some(&text("local")));

    t.record(
        &mut run,
        &host,
        true,
        ModuleOutcome::Command { exit_code: 0, stdout: "hi\n".to_string(), stderr: String::new() },
    )
    .unwrap();
    match t.advance(&mut run, &host, &mut tera, &vars).unwrap() {
        TaskStep::Done(result) => {
            assert!(result.changed);
            assert!(!result.failed);
            assert_eq!(result.msg, "Command executed successfully (exit code: 0)");
            assert_eq!(result.values.get("stdout"), Some(&text("hi\n")));
            assert!(result.values.get("stderr").is_none());
        }
        TaskStep::Call(_) => panic!("nothing is left to run"),
    }
}

#[test]
fn loop_runs_once_for_each_item_and_sums_up() {
    let host = Host::new("web1");
    let mut tera = Tera::default();
    let mut t = task("debug");
    t.args.insert(text("msg"), text("{{ item }}-{{ n }}"));
    t.loop_items = Some(text("{{ items_list }}"));
    t.index_var_name = Some("n".to_string());
    t.when = Some(text("item != 'skipme'"));
    let mut vars = StrMap::new();
    vars.insert(
        "items_list".to_string(),
        Node::Sequence(vec![text("apple"), text("skipme"), text("banana")]),
    );
    let mut run = t.begin(&mut tera, &vars).unwrap();
    let mut seen = Vec::new();
    let result = loop {
        match t.advance(&mut run, &host, &mut tera, &vars).unwrap() {
            TaskStep::Call(call) => {
                assert!(!call.local);
                seen.push(call.args.get("msg").unwrap().clone());
                let changed = seen.len() == 1;
                t.record(&mut run, &host, false, ModuleOutcome::Report(report(changed, false, "out")))
                    .unwrap();
            }
            TaskStep::Done(result) => break result,
        }
    };
    assert_eq!(seen, vec![text("apple-0"), text("banana-2")]);
    assert!(result.changed);
    assert!(!result.failed);
    assert!(!result.skipped);
    assert_eq!(result.msg, "changed=1 ok=2 iterations=3");
    assert_eq!(result.values.get("item_0.stdout"), Some(&text("out")));
    assert_eq!(result.values.get("item_2.stdout"), Some(&text("out")));
    assert!(result.values.get("item_1.stdout").is_none());
    assert_eq!(run.results.len(), 3);
    assert!(run.results[1].skipped);
}

#[test]
fn summary_of_executions() {
    let mut t = task("shell");
    let none = t.summarize("h", &Vec::new());
    assert_eq!(none.msg, "ok=0 iterations=0");
    assert!(!none.changed && !none.failed);

    let mut failed = TaskResult::new("h");
    failed.failed = true;
    let twelve: Vec<TaskResult> = (0..12).map(|_| TaskResult::new("h")).collect();
    assert_eq!(t.summarize("h", &twelve).msg, "ok=12 iterations=12");

    let results = vec![TaskResult::new("h"), failed];
    let summed = t.summarize("h", &results);
    assert!(summed.failed);
    assert_eq!(summed.msg, "ok=2 iterations=2");
    t.ignore_errors = true;
    assert!(!t.summarize("h", &results).failed);

    let single = t.conclude("h", false, ModuleOutcome::Report(report(true, true, "o"))).unwrap();
    let one = t.summarize("h", &vec![single]);
    assert_eq!(one.msg, "done");
    assert!(one.changed);
    assert!(!one.failed);
    assert_eq!(one.values.get("stdout"), Some(&text("o")));
}

#[test]
fn outcomes_of_operations() {
    let shell = task("shell");
    let command = task("command");
    assert_eq!(
        shell.process_command_result(0, String::new(), String::new()).msg,
        "Shell command executed with exit code: 0"
    );
    let bad = shell.process_command_result(-2, String::new(), "e".to_string());
    assert_eq!(bad.msg, "Shell command failed with exit code: -2");
    assert!(bad.failed && !bad.changed);
    assert_eq!(bad.stderr, "e");
    assert_eq!(
        command.process_command_result(127, String::new(), String::new()).msg,
        "Command failed with exit code: 127"
    );

    let refused = command.conclude("h", false, ModuleOutcome::ConnectFailed("timeout".to_string())).unwrap();
    assert!(refused.failed);
    assert_eq!(refused.msg, "Failed to connect to host: timeout");

    let unknown = task("teleport");
    let local = unknown.conclude("h", true, ModuleOutcome::Unknown).unwrap();
    assert_eq!(local.msg, "Module 'teleport' not implemented for local execution");
    assert_eq!(local.values.get("stderr"), Some(&text("Module teleport is only available with SSH")));
    assert!(!local.failed);
    let remote = unknown.conclude("h", false, ModuleOutcome::Unknown).unwrap();
    assert_eq!(remote.msg, "Unknown module: teleport");
    assert_eq!(remote.values.get("stderr"), Some(&text("Module teleport is not implemented")));

    assert_eq!(
        command.conclude("h", false, ModuleOutcome::Failed("boom".to_string())).unwrap_err(),
        "boom"
    );
}

#[test]
fn arguments_are_placed_by_their_rules() {
    let vars = {
        let mut v = StrMap::new();
        let mut app = Mapping::new();
        app.insert(text("version"), text("1.2"));
        v.insert("app".to_string(), Node::Mapping(app));
        v
    };
    let mut resolved = Mapping::new();
    place_argument("file", &text("mode"), "{{ m }}", Ok(text("{% x %}")), &vars, &mut resolved)
        .unwrap();
    assert_eq!(resolved.get("mode"), Some(&text("0644")));
    place_argument("file", &text("mode"), "{{ m }}", Ok(text("0700")), &vars, &mut resolved)
        .unwrap();
    assert_eq!(resolved.get("mode"), Some(&text("0700")));
    place_argument("copy", &text("dest"), "{{ d }}", Ok(text("{{ still }}")), &vars, &mut resolved)
        .unwrap();
    assert_eq!(resolved.get("dest"), Some(&text("{{ still }}")));

    let mut debug = Mapping::new();
    debug.insert(text("_var_value"), text("stale"));
    place_argument("debug", &text("var"), "app.version", Ok(text("app.version")), &vars, &mut debug)
        .unwrap();
    assert_eq!(debug.get("_var_value"), Some(&text("1.2")));
    place_argument("debug", &text("var"), "nope", Ok(text("nope")), &vars, &mut debug).unwrap();
    assert_eq!(debug.get("_var_value"), None);
    assert_eq!(debug.get("var"), Some(&text("nope")));

    let mut kept = Mapping::new();
    for (module, key) in vec![
        ("shell", "cmd"),
        ("user", "password"),
        ("user", "name"),
        ("copy", "content"),
        ("template", "content"),
    ] {
        let error = place_argument(module, &text(key), "{{ x }}", Err(render_failure()), &vars, &mut kept)
            .unwrap_err();
        assert_eq!(error.module, module);
        assert_eq!(error.key, text(key));
        assert_eq!(error.text, "{{ x }}");
        assert_eq!(error.cause.fault, RenderFault::Other);
    }
    assert!(kept.is_empty());
}

#[test]
fn inline_choice_is_rewritten() {
    assert_eq!(
        preprocess_if_condition("{{ '0700' if item.port < 1000 else '0755' }}"),
        "{% if item.port < 1000 %}'0700'{% else %}'0755'{% endif %}"
    );
    assert_eq!(preprocess_if_condition("0644"), "0644");
    assert_eq!(preprocess_if_condition("a if b else c"), "a if b else c");
    assert_eq!(preprocess_if_condition("{{ a else b if c }}"), "{{ a else b if c }}");
    assert_eq!(preprocess_if_condition("{{ a if else b }}"), "{{ a if else b }}");
    assert_eq!(
        preprocess_if_condition("  {{a if  b  else c}} "),
        "{% if b %}a{% else %}c{% endif %}"
    );

    let host = Host::new("h");
    let mut tera = Tera::default();
    let mut t = task("file");
    t.args.insert(text("mode"), text("{{ '0700' if port < 1000 else '0755' }}"));
    t.args.insert(text("path"), text("/srv/{{ port }}"));
    t.args.insert(text("recurse"), Node::Bool(true));
    let mut vars = StrMap::new();
    vars.insert("port".to_string(), num(80));
    let call = t.prepare(&host, &mut tera, &vars).unwrap();
    assert_eq!(call.args.get("mode"), Some(&text("0700")));
    assert_eq!(call.args.get("path"), Some(&text("/srv/80")));
    assert_eq!(call.args.get("recurse"), Some(&Node::Bool(true)));
    assert_eq!(call.args.get("_host_type"), None);
}

#[test]
fn date_facts_are_added_unless_given() {
    let facts = date_time_facts();
    let keys: Vec<Node> = facts.entries.iter().map(|e| e.0.clone()).collect();
    assert_eq!(
        keys,
        vec!["date", "time", "year", "month", "day", "hour", "minute", "second", "weekday", "weekday_short", "epoch", "iso8601"]
            .into_iter()
            .map(text)
            .collect::<Vec<Node>>()
    );
    match facts.get("year") {
        Some(Node::String(y)) => assert_eq!(y.len(), 4),
        other => panic!("unexpected year {:?}", other),
    }

    let mut vars = StrMap::new();
    vars.insert("x".to_string(), num(1));
    let dated = with_date(&vars);
    assert_eq!(dated.len(), 2);
    assert_eq!(dated.get("x"), Some(&num(1)));
    vars.insert("ansible_date_time".to_string(), text("mine"));
    let kept = with_date(&vars);
    assert_eq!(kept.get("ansible_date_time"), Some(&text("mine")));
    assert_eq!(kept.len(), 2);
}

#[test]
fn template_tasks_get_the_variables() {
    let host = Host::new("h");
    let mut tera = Tera::default();
    let mut t = task("template");
    t.args.insert(text("dest"), text("/etc/motd"));
    let mut given = Mapping::new();
    given.insert(text("a"), text("mine"));
    given.insert(text("b"), text("kept"));
    t.args.insert(text("vars"), Node::Mapping(given));
    let mut vars = StrMap::new();
    vars.insert("a".to_string(), text("theirs"));
    let call = t.prepare(&host, &mut tera, &vars).unwrap();
    match call.args.get("vars") {
        Some(Node::Mapping(m)) => {
            assert_eq!(m.get("a"), Some(&text("theirs")));
            assert_eq!(m.get("b"), Some(&text("kept")));
            assert!(m.contains_key("ansible_date_time"));
        }
        other => panic!("unexpected vars {:?}", other),
    }
}

#[test]
fn variable_precedence_layer_by_layer() {
    let playbook = parse_playbook(
        "- name: p\n  hosts: all\n  become: true\n  become_user: deploy\n  vars:\n    v: play\n    only_play: p\n    ansible_host: shadowed\n  tasks:\n    - name: t\n      shell: x\n    - name: u\n      shell: y\n      become: true\n      become_user: admin\n",
    )
    .unwrap();
    let play = &playbook.plays[0];
    let mut host = Host::new("h1");
    host.add_inherited_variable("v", "inherited");
    host.add_inherited_variable("only_inherited", "i");
    host.add_inherited_variable("only_play", "i");
    let none = StrMap::new();
    let vars = play.host_vars(&host, &none);
    assert_eq!(vars.get("v"), Some(&text("play")));
    assert_eq!(vars.get("only_inherited"), Some(&text("i")));
    assert_eq!(vars.get("only_play"), Some(&text("p")));

    host.set_variable("v", "explicit");
    host.set_variable("ansible_port", "2222");
    let vars = play.host_vars(&host, &none);
    assert_eq!(vars.get("v"), Some(&text("explicit")));
    assert_eq!(vars.get("ansible_host"), Some(&text("h1")));
    assert_eq!(vars.get("ansible_hostname"), Some(&text("h1")));
    assert_eq!(vars.get("inventory_hostname"), Some(&text("h1")));
    assert_eq!(vars.get("ansible_port"), Some(&num(2222)));

    let mut registered = StrMap::new();
    registered.insert("v".to_string(), text("registered"));
    registered.insert("inventory_hostname".to_string(), text("registered-name"));
    let vars = play.host_vars(&host, &registered);
    assert_eq!(vars.get("v"), Some(&text("registered")));
    assert_eq!(vars.get("inventory_hostname"), Some(&text("registered-name")));

    let mut looping = task("debug");
    looping.loop_var_name = Some("v".to_string());
    assert_eq!(looping.loop_vars(&vars, &text("from-loop"), 0).get("v"), Some(&text("from-loop")));

    let inherited = play.effective_task(&play.tasks[0]);
    assert!(inherited.is_become);
    assert_eq!(inherited.become_user, "deploy");
    let own = play.effective_task(&play.tasks[1]);
    assert!(own.is_become);
    assert_eq!(own.become_user, "admin");
}

#[test]
fn registered_outcome_is_kept_for_the_host() {
    let mut t = task("command");
    let result = t.conclude("h", false, ModuleOutcome::Report(report(true, false, "out"))).unwrap();
    let value = register_value(&result);
    assert_eq!(value.get("changed"), Some(&Node::Bool(true)));
    assert_eq!(value.get("failed"), Some(&Node::Bool(false)));
    assert_eq!(value.get("skipped"), Some(&Node::Bool(false)));
    assert_eq!(value.get("msg"), Some(&text("done")));
    assert_eq!(value.get("stdout"), Some(&text("out")));
    assert_eq!(register_value(&TaskResult::new("h")).get("msg"), None);

    let mut registered = StrMap::new();
    register(&t, &result, &mut registered);
    assert_eq!(registered.len(), 0);
    t.register = Some("out".to_string());
    register(&t, &result, &mut registered);
    match registered.get("out") {
        Some(Node::Mapping(m)) => assert_eq!(m.get("stdout"), Some(&text("out"))),
        other => panic!("unexpected {:?}", other),
    }
}

fn changed(host: &str) -> TaskResult {
    let mut r = TaskResult::new(host);
    r.changed = true;
    r
}

fn failed(host: &str) -> TaskResult {
    let mut r = TaskResult::new(host);
    r.failed = true;
    r
}

#[test]
fn handler_runs_once_for_each_host_however_often_notified() {
    let playbook = parse_playbook(
        "- name: p\n  hosts: all\n  tasks:\n    - name: one\n      shell: a\n      notify: restart\n    - name: two\n      shell: b\n      notify:\n        - restart\n        - unknown\n  handlers:\n    - name: never\n      shell: n\n    - name: restart\n      shell: r\n    - name: also never\n      shell: n\n",
    )
    .unwrap();
    let play = &playbook.plays[0];
    let hosts = vec![Host::new("h1"), Host::new("h2")];
    let mut run = play.start(hosts.len());
    let mut steps = Vec::new();
    loop {
        let step = play.next_step(&run);
        steps.push(step);
        match step {
            PlayStep::Task { task: _, host } => {
                let outcome = changed(&hosts[host].name);
                play.record_task(&mut run, &hosts[host], Some(&outcome));
            }
            PlayStep::Handler { handler: _, host: _ } => play.record_handler(&mut run),
            PlayStep::Finished => break,
        }
    }
    assert_eq!(
        steps,
        vec![
            PlayStep::Task { task: 0, host: 0 },
            PlayStep::Task { task: 0, host: 1 },
            PlayStep::Task { task: 1, host: 0 },
            PlayStep::Task { task: 1, host: 1 },
            PlayStep::Handler { handler: 1, host: 0 },
            PlayStep::Handler { handler: 1, host: 1 },
            PlayStep::Finished,
        ]
    );
    assert_eq!(run.notified.len(), 2);
    assert!(run.notified.contains("restart"));
    assert_eq!(run.changed_hosts.len(), 2);
    assert_eq!(run.failed_hosts.len(), 0);
    assert_eq!(run.ok, 4);
    assert!(run.failure.is_none());
}

#[test]
fn failed_task_ends_the_play_after_its_hosts() {
    let playbook = parse_playbook(
        "- name: p\n  hosts: all\n  tasks:\n    - name: tolerant\n      shell: a\n      ignore_errors: true\n      notify: h\n    - name: strict\n      shell: b\n    - name: unreached\n      shell: c\n  handlers:\n    - name: h\n      shell: r\n",
    )
    .unwrap();
    let play = &playbook.plays[0];
    let hosts = vec![Host::new("h1"), Host::new("h2"), Host::new("h3")];
    let mut run = play.start(3);

    play.record_task(&mut run, &hosts[0], Some(&failed("h1")));
    play.record_task(&mut run, &hosts[1], None);
    play.record_task(&mut run, &hosts[2], Some(&changed("h3")));
    assert_eq!(play.next_step(&run), PlayStep::Task { task: 1, host: 0 });
    assert_eq!(run.failed_hosts.len(), 2);
    assert!(run.notified.contains("h"));

    play.record_task(&mut run, &hosts[0], Some(&failed("h1")));
    assert_eq!(play.next_step(&run), PlayStep::Task { task: 1, host: 1 });
    let mut skipped = TaskResult::new("h2");
    skipped.skipped = true;
    play.record_task(&mut run, &hosts[1], Some(&skipped));
    play.record_task(&mut run, &hosts[2], Some(&TaskResult::new("h3")));
    assert_eq!(play.next_step(&run), PlayStep::Finished);
    assert_eq!(run.phase, Phase::Finished);
    let failure = run.failure.unwrap();
    assert_eq!(failure.task, 1);
    assert_eq!(failure.hosts, 1);
    assert_eq!(play.failure_text(&failure), "Task 'strict' failed on 1 hosts");
    assert_eq!(run.skipped, 1);
    assert_eq!(run.ok, 2);
}

#[test]
fn plays_without_tasks_or_hosts_are_over_at_once() {
    let playbook = parse_playbook("- name: empty\n  hosts: all\n- name: p\n  hosts: all\n  tasks:\n    - name: t\n      shell: a\n").unwrap();
    assert_eq!(playbook.plays[0].next_step(&playbook.plays[0].start(3)), PlayStep::Finished);
    assert_eq!(playbook.plays[1].next_step(&playbook.plays[1].start(0)), PlayStep::Finished);
    assert_eq!(
        playbook.plays[1].next_step(&playbook.plays[1].start(1)),
        PlayStep::Task { task: 0, host: 0 }
    );
}

#[test]
fn plays_without_hosts_are_passed_over() {
    let inventory = rustsible::inventory::parser::parse_inventory("[web]\na\n");
    let playbook = parse_playbook(
        "- name: none\n  hosts: db\n- name: some\n  hosts: web\n  fail_fast: true\n- name: last\n  hosts: nowhere\n",
    )
    .unwrap();
    let (index, hosts) = next_play(&playbook, &inventory, 0).unwrap();
    assert_eq!(index, 1);
    assert_eq!(hosts.len(), 1);
    assert_eq!(hosts[0].name, "a");
    assert!(next_play(&playbook, &inventory, 2).is_none());
    assert!(next_play(&playbook, &inventory, 7).is_none());
    assert!(stops_after(&playbook, true));
    assert!(!stops_after(&playbook, false));
}

#[test]
fn command_of_another_type_is_written_as_yaml() {
    let host = Host::new("h");
    let mut tera = Tera::default();
    let mut t = task("command");
    t.args.insert(text("_raw_params"), num(3));
    let call = t.prepare(&host, &mut tera, &StrMap::new()).unwrap();
    assert_eq!(call.command(), "3\n");

    let mut list = task("shell");
    list.args.insert(text("_raw_params"), Node::Sequence(vec![text("a"), text("b")]));
    let call = list.prepare(&host, &mut tera, &StrMap::new()).unwrap();
    assert_eq!(call.command(), "- a\n- b\n");

    let bare = task("command");
    let call = bare.prepare(&host, &mut tera, &StrMap::new()).unwrap();
    assert_eq!(call.command(), "null\n");
}

#[test]
fn argument_that_cannot_be_rendered_fails_the_task() {
    let host = Host::new("h1");
    let mut tera = Tera::default();
    let mut t = task("command");
    t.args.insert(text("_raw_params"), text("{{ missing | upper }}"));
    let vars = StrMap::new();
    let context = rustsible::engine::create_tera_context(&vars);
    let error = t.resolve_args(&mut tera, &context, &vars).unwrap_err();
    assert_eq!(error.module, "command");
    assert_eq!(error.key, text("_raw_params"));
    assert_eq!(error.text, "{{ missing | upper }}");
    assert_eq!(error.cause.fault, RenderFault::UndefinedWithFilter);
    assert!(t.prepare(&host, &mut tera, &vars).is_err());

    let mut run = t.begin(&mut tera, &vars).unwrap();
    match t.advance(&mut run, &host, &mut tera, &vars) {
        Err(TaskFailure::Argument(e)) => assert_eq!(e.text, "{{ missing | upper }}"),
        other => panic!("expected a failed argument, got {:?}", other),
    }
    assert_eq!(run.next, 0);

    let mut other = task("command");
    other.args.insert(text("first"), text("plain"));
    other.args.insert(text("second"), text("{{ nowhere }}"));
    other.args.insert(text("third"), text("{{ missing | upper }}"));
    let error = other.resolve_args(&mut tera, &context, &vars).unwrap_err();
    assert_eq!(error.key, text("second"));
    assert_eq!(error.text, "{{ nowhere }}");
    assert_eq!(error.cause.depth, 1);
}

#[test]
fn arguments_without_expressions_always_resolve() {
    let mut tera = Tera::default();
    let mut t = task("copy");
    t.args.insert(text("content"), text("password_hash('sha512')"));
    t.args.insert(text("mode"), num(420));
    t.args.insert(text("dest"), text("/tmp/x y"));
    let vars = StrMap::new();
    let context = rustsible::engine::create_tera_context(&vars);
    let resolved = t.resolve_args(&mut tera, &context, &vars).unwrap();
    assert_eq!(resolved.get("content"), Some(&text("password_hash('sha512')")));
    assert_eq!(resolved.get("mode"), Some(&num(420)));
    assert_eq!(resolved.get("dest"), Some(&text("/tmp/x y")));
}

#[test]
fn condition_false_gives_the_skipped_outcome() {
    let host = Host::new("h1");
    let mut tera = Tera::default();
    let mut t = task("command");
    t.args.insert(text("_raw_params"), text("{{ missing | upper }}"));
    t.when = Some(Node::Bool(false));
    let vars = StrMap::new();
    let mut run = t.begin(&mut tera, &vars).unwrap();
    match t.advance(&mut run, &host, &mut tera, &vars).unwrap() {
        TaskStep::Done(result) => {
            assert!(result.skipped);
            assert!(!result.changed);
            assert!(!result.failed);
            assert_eq!(result.host, "h1");
            assert!(result.values.is_empty());
        }
        TaskStep::Call(_) => panic!("a skipped task must not be run"),
    }
    assert_eq!(run.next, 1);
}

#[test]
fn loop_without_condition_hands_out_each_item_in_order() {
    let host = Host::new("web1");
    let mut tera = Tera::default();
    let mut t = task("debug");
    t.args.insert(text("msg"), text("{{ item }}/{{ i }}"));
    t.loop_items = Some(text("{{ items_list }}"));
    t.index_var_name = Some("i".to_string());
    let mut vars = StrMap::new();
    vars.insert("items_list".to_string(), Node::Sequence(vec![text("apple"), text("banana")]));
    let mut run = t.begin(&mut tera, &vars).unwrap();
    let mut seen = Vec::new();
    loop {
        match t.advance(&mut run, &host, &mut tera, &vars).unwrap() {
            TaskStep::Call(call) => {
                assert_eq!(run.next, seen.len());
                seen.push(call.args.get("msg").unwrap().clone());
                t.record(&mut run, &host, false, ModuleOutcome::Report(report(false, false, "")))
                    .unwrap();
            }
            TaskStep::Done(result) => {
                assert!(!result.skipped);
                break;
            }
        }
    }
    assert_eq!(seen, vec![text("apple/0"), text("banana/1")]);
}

#[test]
fn loop_with_a_condition_on_the_item_runs_only_where_it_holds() {
    let host = Host::new("web1");
    let mut tera = Tera::default();
    let mut t = task("debug");
    t.args.insert(text("msg"), num(1));
    t.loop_items = Some(Node::Sequence(vec![num(1), num(0), num(0), num(7), num(0)]));
    t.when = Some(text("item"));
    let vars = StrMap::new();
    let mut run = t.begin(&mut tera, &vars).unwrap();
    let mut ran = Vec::new();
    let result = loop {
        match t.advance(&mut run, &host, &mut tera, &vars).unwrap() {
            TaskStep::Call(_) => {
                ran.push(run.next);
                t.record(&mut run, &host, false, ModuleOutcome::Report(report(false, false, "")))
                    .unwrap();
            }
            TaskStep::Done(result) => break result,
        }
    };
    assert_eq!(ran, vec![0, 3]);
    assert_eq!(run.results.len(), 5);
    for j in vec![1, 2, 4] {
        assert!(run.results[j].skipped);
        assert!(!run.results[j].changed);
        assert!(!run.results[j].failed);
    }
    assert!(!result.changed);
    assert!(!result.failed);
}

#[test]
fn condition_that_is_a_text_may_fail_the_task() {
    let host = Host::new("h1");
    let mut tera = Tera::default();
    let mut t = task("command");
    t.when = Some(text("missing | upper"));
    let vars = StrMap::new();
    let mut run = t.begin(&mut tera, &vars).unwrap();
    match t.advance(&mut run, &host, &mut tera, &vars) {
        Err(TaskFailure::Condition(e)) => assert_eq!(e.fault, RenderFault::UndefinedWithFilter),
        other => panic!("expected a failed condition, got {:?}", other),
    }
}

#[test]
fn number_that_yaml_cannot_read_is_written_as_nothing() {
    let host = Host::new("h");
    let mut tera = Tera::default();
    let mut fraction = task("command");
    fraction.args.insert(text("_raw_params"), Node::Number(Num::Float("1.5".to_string())));
    let call = fraction.prepare(&host, &mut tera, &StrMap::new()).unwrap();
    assert_eq!(call.command(), "1.5\n");

    let mut broken = task("command");
    broken.args.insert(
        text("_raw_params"),
        Node::Sequence(vec![num(1), Node::Number(Num::Float("no number".to_string()))]),
    );
    let call = broken.prepare(&host, &mut tera, &StrMap::new()).unwrap();
    assert_eq!(call.command(), "");

    let mut vars = StrMap::new();
    vars.insert("good".to_string(), Node::Number(Num::Float("2.5".to_string())));
    vars.insert("bad".to_string(), Node::Number(Num::Float("no number".to_string())));
    let context = rustsible::engine::create_tera_context(&vars);
    assert!(context.contains_key("good"));
    assert!(!context.contains_key("bad"));
}
