use rustsible::modules::states::{
    get_state_past_tense, FileState, PackageState, ServiceState, StateError,
};
use rustsible::modules::ModuleResult;
use rustsible::testing::{
    create_test_host, get_host_ssh_password, get_host_ssh_private_key, get_host_ssh_sudo_password,
    get_host_ssh_user,
};

#[test]
fn test_module_result_default() {
    let result = ModuleResult::default();
    assert_eq!(result.stdout, "");
    assert_eq!(result.stderr, "");
    assert_eq!(result.changed, false);
    assert_eq!(result.msg, "");
}

#[test]
fn test_service_state_from_str() {
    assert_eq!(ServiceState::from_str("started").unwrap(), ServiceState::Started);
    assert_eq!(ServiceState::from_str("Stopped").unwrap(), ServiceState::Stopped);
    assert!(ServiceState::from_str("invalid").is_err());
}

#[test]
fn test_get_state_past_tense() {
    assert_eq!(get_state_past_tense(&ServiceState::Restarted), "restarted");
    assert_eq!(get_state_past_tense(&ServiceState::Reloaded), "reloaded");
}

#[test]
fn test_create_test_host() {
    let host = create_test_host("test", "example.com", 22, Some("user"), Some("pass"));

    assert_eq!(host.name, "test");
    assert_eq!(host.hostname, "example.com");
    assert_eq!(host.port, 22);
    assert_eq!(get_host_ssh_user(&host), Some("user".to_string()));
    assert_eq!(get_host_ssh_password(&host), Some("pass".to_string()));
}

#[test]
fn states_are_read_in_any_case() {
    assert_eq!(FileState::from_str("DIR").unwrap(), FileState::Directory);
    assert_eq!(FileState::from_str("directory").unwrap(), FileState::Directory);
    assert_eq!(FileState::from_str("File").unwrap(), FileState::File);
    assert_eq!(FileState::from_str("link").unwrap(), FileState::Link);
    assert_eq!(FileState::from_str("absent").unwrap(), FileState::Absent);
    assert_eq!(FileState::from_str("touch").unwrap(), FileState::Touch);
    assert_eq!(FileState::from_str("folder").unwrap_err(), StateError::InvalidFileState);

    assert_eq!(PackageState::from_str("Installed").unwrap(), PackageState::Present);
    assert_eq!(PackageState::from_str("present").unwrap(), PackageState::Present);
    assert_eq!(PackageState::from_str("removed").unwrap(), PackageState::Absent);
    assert_eq!(PackageState::from_str("LATEST").unwrap(), PackageState::Latest);
    assert_eq!(PackageState::from_str("newest").unwrap_err(), StateError::InvalidPackageState);

    assert_eq!(ServiceState::from_str("RESTARTED").unwrap(), ServiceState::Restarted);
    assert_eq!(ServiceState::from_str("reloaded").unwrap(), ServiceState::Reloaded);
    assert_eq!(ServiceState::from_str("").unwrap_err(), StateError::InvalidServiceState);
    assert_eq!(get_state_past_tense(&ServiceState::Started), "started");
    assert_eq!(get_state_past_tense(&ServiceState::Stopped), "stopped");
}

#[test]
fn test_host_credentials_fall_back() {
    let host = create_test_host("t", "h", 2200, None, None);
    assert_eq!(host.port, 2200);
    assert_eq!(get_host_ssh_user(&host), None);
    assert_eq!(get_host_ssh_password(&host), None);
    assert_eq!(get_host_ssh_private_key(&host), None);
    assert_eq!(get_host_ssh_sudo_password(&host), None);

    let mut host = host;
    host.set_variable("ansible_ssh_sudo_pass", "s2");
    assert_eq!(get_host_ssh_sudo_password(&host), Some("s2".to_string()));
    host.set_variable("ansible_sudo_pass", "s1");
    assert_eq!(get_host_ssh_sudo_password(&host), Some("s1".to_string()));
    host.set_variable("ansible_ssh_private_key_file", "/k");
    assert_eq!(get_host_ssh_private_key(&host), Some("/k".to_string()));
}

#[test]
fn shell_commands_are_quoted_for_sh() {
    assert_eq!(rustsible::modules::shell::ShellModule::wrap("ls -l"), "sh -c 'ls -l'");
    assert_eq!(rustsible::modules::shell::ShellModule::wrap("echo 'a'"), "sh -c 'echo '\\''a'\\'''");
    assert_eq!(rustsible::modules::shell::ShellModule::wrap("''"), "sh -c ''\\'''\\'''");
    assert_eq!(rustsible::modules::shell::ShellModule::wrap(""), "sh -c ''");
}

#[test]
fn numbers_are_written_in_hexadecimal() {
    assert_eq!(rustsible::text::hex_text(0), "0");
    assert_eq!(rustsible::text::hex_text(9), "9");
    assert_eq!(rustsible::text::hex_text(10), "a");
    assert_eq!(rustsible::text::hex_text(255), "ff");
    assert_eq!(rustsible::text::hex_text(4096), "1000");
    assert_eq!(rustsible::text::hex_text(u64::MAX), "ffffffffffffffff");
    assert_eq!(rustsible::text::hex_text(48879), format!("{:x}", 48879u64));
}

#[test]
fn test_process_line_modifications_present() {
    let mut content = "line1\nline2\nline3\n".to_string();
    let changed = rustsible::modules::lineinfile::process_line_modifications(
        &mut content,
        Some("new_line".to_string()),
        None,
        "present",
        None,
        None,
    )
    .unwrap();

    assert!(changed);
    assert!(content.contains("new_line"));
}

#[test]
fn test_process_line_modifications_absent() {
    let mut content = "line1\nline2\nline3\n".to_string();
    let changed = rustsible::modules::lineinfile::process_line_modifications(
        &mut content,
        Some("line2".to_string()),
        None,
        "absent",
        None,
        None,
    )
    .unwrap();

    assert!(changed);
    assert!(!content.contains("line2"));
}

#[test]
fn test_process_line_modifications_regexp() {
    let mut content = "config_option=old_value\nother_line\n".to_string();
    let changed = rustsible::modules::lineinfile::process_line_modifications(
        &mut content,
        Some("config_option=new_value".to_string()),
        Some("^config_option=".to_string()),
        "present",
        None,
        None,
    )
    .unwrap();

    assert!(changed);
    assert!(content.contains("config_option=new_value"));
    assert!(!content.contains("config_option=old_value"));
}

fn seen_to(
    content: &str,
    line: Option<&str>,
    regexp: Option<&str>,
    state: &str,
    after: Option<&str>,
    before: Option<&str>,
) -> Result<(String, bool), rustsible::modules::lineinfile::LineFault> {
    let mut text = content.to_string();
    let changed = rustsible::modules::lineinfile::process_line_modifications(
        &mut text,
        line.map(|s| s.to_string()),
        regexp.map(|s| s.to_string()),
        state,
        after.map(|s| s.to_string()),
        before.map(|s| s.to_string()),
    )?;
    Ok((text, changed))
}

#[test]
fn line_goes_where_it_is_told() {
    let text = "a\nb\nc\n";
    assert_eq!(seen_to(text, Some("x"), None, "present", None, None), Ok(("a\nb\nc\nx\n".to_string(), true)));
    assert_eq!(seen_to(text, Some("b"), None, "present", None, None), Ok((text.to_string(), false)));
    assert_eq!(
        seen_to(text, Some("x"), None, "present", Some("EOF"), Some("BOF")),
        Ok(("a\nb\nc\nx\n".to_string(), true))
    );
    assert_eq!(seen_to(text, Some("x"), None, "present", None, Some("BOF")), Ok(("x\na\nb\nc\n".to_string(), true)));
    assert_eq!(seen_to(text, Some("x"), None, "present", Some("^a"), None), Ok(("a\nx\nb\nc\n".to_string(), true)));
    assert_eq!(seen_to(text, Some("x"), None, "present", Some("^z"), None), Ok(("a\nb\nc\nx\n".to_string(), true)));
    assert_eq!(seen_to(text, Some("x"), None, "present", None, Some("^c")), Ok(("a\nb\nx\nc\n".to_string(), true)));
    assert_eq!(seen_to(text, Some("x"), None, "present", None, Some("^z")), Ok(("a\nb\nc\nx\n".to_string(), true)));
    assert_eq!(seen_to("", Some("x"), None, "present", None, None), Ok(("x\n".to_string(), true)));
    assert_eq!(seen_to("a\r\nb", Some("a"), None, "present", None, None), Ok(("a\nb\n".to_string(), false)));
}

#[test]
fn first_matching_line_is_replaced() {
    let text = "k=1\nk=2\nother\n";
    assert_eq!(seen_to(text, Some("k=9"), Some("^k="), "present", None, None), Ok(("k=9\nk=2\nother\n".to_string(), true)));
    assert_eq!(seen_to(text, Some("k=1"), Some("^k="), "present", None, None), Ok((text.to_string(), false)));
    assert_eq!(
        seen_to(text, Some("z=0"), Some("^z="), "present", None, Some("^other")),
        Ok(("k=1\nk=2\nz=0\nother\n".to_string(), true))
    );
}

#[test]
fn lines_are_kept_out() {
    let text = "k=1\nx\nk=2\nx\n";
    assert_eq!(seen_to(text, Some("x"), None, "absent", None, None), Ok(("k=1\nk=2\n".to_string(), true)));
    assert_eq!(seen_to(text, Some("y"), None, "absent", None, None), Ok((text.to_string(), false)));
    assert_eq!(seen_to(text, Some("x"), Some("^k="), "absent", None, None), Ok(("x\nx\n".to_string(), true)));
    assert_eq!(seen_to(text, None, Some("."), "absent", None, None), Ok((String::new(), true)));
}

#[test]
fn line_faults_leave_the_text_alone() {
    let text = "a\nb";
    let mut content = text.to_string();
    let fault = rustsible::modules::lineinfile::process_line_modifications(
        &mut content,
        None,
        None,
        "present",
        None,
        None,
    );
    assert_eq!(fault, Err(rustsible::modules::lineinfile::LineFault::MissingLine));
    assert_eq!(content, text);
    assert_eq!(
        seen_to(text, Some("x"), Some("("), "present", None, None),
        Err(rustsible::modules::lineinfile::LineFault::InvalidRegexp)
    );
    assert_eq!(
        seen_to("", Some("x"), Some("("), "absent", None, None),
        Err(rustsible::modules::lineinfile::LineFault::InvalidRegexp)
    );
    assert_eq!(
        seen_to(text, Some("x"), None, "present", Some("("), None),
        Err(rustsible::modules::lineinfile::LineFault::InvalidInsertAfter)
    );
    assert_eq!(
        seen_to(text, Some("x"), None, "present", None, Some("(")),
        Err(rustsible::modules::lineinfile::LineFault::InvalidInsertBefore)
    );
    assert_eq!(
        seen_to(text, None, None, "absent", None, None),
        Err(rustsible::modules::lineinfile::LineFault::NothingToRemove)
    );
    assert_eq!(
        seen_to(text, Some("x"), None, "gone", None, None),
        Err(rustsible::modules::lineinfile::LineFault::InvalidState)
    );
    assert_eq!(seen_to(text, Some("b"), None, "present", Some("("), None), Ok(("a\nb\n".to_string(), false)));
}

#[test]
fn lines_are_written_with_line_feeds() {
    assert_eq!(rustsible::modules::lineinfile::finish_lines(&vec![]), "");
    assert_eq!(rustsible::modules::lineinfile::finish_lines(&vec!["a".to_string()]), "a\n");
    assert_eq!(
        rustsible::modules::lineinfile::finish_lines(&vec!["a".to_string(), String::new()]),
        "a\n"
    );
    assert_eq!(
        rustsible::modules::lineinfile::finish_lines(&vec![String::new(), String::new(), "b".to_string()]),
        "\n\nb\n"
    );
    let mut lines = vec!["a".to_string(), "b".to_string()];
    rustsible::modules::lineinfile::insert_line(&mut lines, "x", &Some("b".to_string()), &None).unwrap();
    assert_eq!(lines, vec!["a".to_string(), "b".to_string(), "x".to_string()]);
}

#[test]
fn modules_report_what_a_command_came_to() {
    let ok = rustsible::modules::process_command_result(0, "out".to_string(), " warn ".to_string(), "Ran", "Failed")
        .unwrap();
    assert_eq!(ok.msg, "Ran (exit code: 0)");
    assert!(ok.changed);
    assert!(!ok.failed);
    assert_eq!(ok.stdout, "out");
    assert_eq!(ok.stderr, " warn ");
    assert_eq!(
        rustsible::modules::process_command_result(2, String::new(), "  \n".to_string(), "Ran", "Failed").unwrap_err(),
        "Failed (exit code: 2)"
    );
    assert_eq!(
        rustsible::modules::process_command_result(-1, String::new(), " no such file\n".to_string(), "Ran", "Failed")
            .unwrap_err(),
        "Failed (exit code: -1): no such file"
    );
}
