use local_stack_core::config::{ServiceConfig, StackConfig};
use local_stack_core::error::StackError;
use local_stack_core::supervisor::{
    HarnessProbe, LOG_TAIL_MAX_BYTES, LOG_TAIL_MAX_LINES, check_harness_package, combine_version_output,
    default_command_name, first_nonempty_line, harness_cli_args, harness_probe, harness_profile_args,
    harness_reports_version, is_harness_command, log_file_name, log_tail_start, managed_node_name, missing_log_tail,
    npx_args, ollama_reports_version, service_failure_entry, service_log_tail, stack_ready_message, stack_start_failure,
    stack_start_plan, stack_stop_plan, stop_failure, stopped_message, unload_all_message, validate_profile_name,
    service_snapshot, with_configured_paths, with_harness_release, with_profile_home,
    profile_package_name, profile_staging_name, stack_rollback_plan, package_identity, renamed_package_json,
};
use local_stack_core::types::{EnvironmentSnapshot, ServiceKind, ServiceState};

#[test]
fn accepts_safe_harness_profile_names() {
    for profile in ["local-agent-stack", "team_1", "profile.v2"] {
        validate_profile_name(profile).unwrap();
    }
}

#[test]
fn rejects_harness_profile_path_traversal() {
    for profile in ["", ".", "..", "../web", "folder/profile", "folder\\profile"] {
        assert!(validate_profile_name(profile).is_err());
    }
}

#[test]
fn builds_loopback_profile_launch_arguments() {
    let mut config = StackConfig::default();
    config.harness.url = "http://127.0.0.1:3456".into();
    let args = harness_profile_args(&config).unwrap();
    assert_eq!(
        args,
        ["--profile", "local-agent-stack", "--host", "127.0.0.1", "--port", "3456", "--no-open"]
    );
}

#[test]
fn prefixes_managed_harness_entrypoint_without_shell_composition() {
    let config = StackConfig {
        managed_harness_entrypoint: Some("C:\\App Data\\Harness\\lib\\bin.js".into()),
        ..StackConfig::default()
    };
    let args = harness_profile_args(&config).unwrap();
    assert_eq!(args.first(), config.managed_harness_entrypoint.as_ref());
    assert_eq!(args[1], "--profile");
    assert_eq!(args[2], "local-agent-stack");
}

#[test]
fn plans_stack_start_in_dependency_order_and_skips_online_services() {
    assert_eq!(stack_start_plan(false, false), [ServiceKind::Ollama, ServiceKind::Harness]);
    assert_eq!(stack_start_plan(false, true), [ServiceKind::Ollama]);
    assert_eq!(stack_start_plan(true, false), [ServiceKind::Harness]);
    assert!(stack_start_plan(true, true).is_empty());
}

#[test]
fn plans_stack_stop_in_reverse_order_and_ignores_external_services() {
    assert_eq!(stack_stop_plan(true, true), [ServiceKind::Harness, ServiceKind::Ollama]);
    assert_eq!(stack_stop_plan(true, false), [ServiceKind::Ollama]);
    assert_eq!(stack_stop_plan(false, true), [ServiceKind::Harness]);
    assert!(stack_stop_plan(false, false).is_empty());
}

fn config_message(error: StackError) -> String {
    match error {
        StackError::Config(message) => message,
        other => panic!("unexpected error {other:?}"),
    }
}

#[test]
fn profile_arguments_reject_urls_without_host_or_port() {
    let mut config = StackConfig::default();
    config.harness.url = "not a url".into();
    let message = config_message(harness_profile_args(&config).unwrap_err());
    assert!(message.starts_with("Harness URL is invalid: "));
    config.harness.url = "http://127.0.0.1".into();
    let args = harness_profile_args(&config).unwrap();
    assert_eq!(args[5], "80");
    config.harness_profile = "../escape".into();
    assert!(harness_profile_args(&config).is_ok());
}

#[test]
fn profile_names_are_bounded_and_plain() {
    assert!(validate_profile_name(&"a".repeat(64)).is_ok());
    assert!(validate_profile_name(&"a".repeat(65)).is_err());
    assert!(validate_profile_name("名前").is_err());
    let message = config_message(validate_profile_name("a b").unwrap_err());
    assert_eq!(message, "Harness profile must contain only letters, numbers, dots, dashes, or underscores");
}

#[test]
fn cli_arguments_and_launch_fallbacks() {
    let mut config = StackConfig::default();
    assert_eq!(harness_cli_args(&config, vec!["--version".into()]), ["--version"]);
    config.managed_harness_entrypoint = Some("/opt/h/lib/bin.js".into());
    assert_eq!(harness_cli_args(&config, vec!["--version".into()]), ["/opt/h/lib/bin.js", "--version"]);
    assert_eq!(npx_args(&vec!["--port".into(), "3000".into()]), ["--yes", "@deepseek-ai/dsh", "--port", "3000"]);
    assert_eq!(default_command_name(ServiceKind::Ollama), "ollama");
    assert_eq!(default_command_name(ServiceKind::Harness), "dsh");
    assert_eq!(managed_node_name(true), "node.exe");
    assert_eq!(managed_node_name(false), "node");
}

#[test]
fn recognises_the_harness_command_by_its_stem() {
    assert!(is_harness_command("/usr/local/bin/dsh"));
    assert!(is_harness_command("DSH.cmd"));
    assert!(is_harness_command("C:\\Users\\me\\AppData\\Roaming\\npm\\dsh.cmd"));
    assert!(!is_harness_command("C:\\Program Files\\nodejs\\node.exe"));
    assert!(!is_harness_command("/usr/bin/node"));
    assert!(!is_harness_command(""));
    assert_eq!(harness_probe(Some("/bin/dsh"), Some("/h/bin.js")), HarnessProbe::Managed);
    assert_eq!(harness_probe(Some("/bin/dsh"), None), HarnessProbe::Cli);
    assert_eq!(harness_probe(Some("/bin/node"), None), HarnessProbe::Skip);
    assert_eq!(harness_probe(None, None), HarnessProbe::Skip);
}

#[test]
fn reads_versions_from_command_output() {
    assert_eq!(first_nonempty_line("\n  \n dsh 0.1.1 \nmore"), Some("dsh 0.1.1".to_string()));
    assert_eq!(first_nonempty_line("  \n"), None);
    assert_eq!(combine_version_output("ollama version is 0.12.3", ""), "ollama version is 0.12.3");
    assert!(ollama_reports_version("ollama version is 0.12.3", "0.12.3"));
    assert!(!ollama_reports_version("ollama version is 0.12.3", "0.12.4"));
    assert!(harness_reports_version("v0.1.1", "0.1.1"));
    assert!(!harness_reports_version("0.1.2", "0.1.1"));
}

#[test]
fn checks_the_imported_harness_package() {
    assert!(check_harness_package(Some("@deepseek-ai/dsh"), Some("0.1.1"), "0.1.1", true).is_ok());
    let wrong = config_message(check_harness_package(Some("other"), Some("0.1.1"), "0.1.1", true).unwrap_err());
    assert_eq!(wrong, "the Harness import source is not the @deepseek-ai/dsh package");
    let old = config_message(check_harness_package(Some("@deepseek-ai/dsh"), None, "0.1.1", true).unwrap_err());
    assert_eq!(
        old,
        "installed Harness is unknown, but the tested release is 0.1.1; update the external Harness before importing it"
    );
    let missing = config_message(check_harness_package(Some("@deepseek-ai/dsh"), Some("0.1.1"), "0.1.1", false).unwrap_err());
    assert_eq!(missing, "the Harness import source is missing lib/bin.js");
}

#[test]
fn reads_only_the_bounded_tail_of_service_log_bytes() {
    let mut text = String::new();
    for index in 0..300 {
        text.push_str(&format!("line-{index:03}\n"));
    }
    let bytes = text.into_bytes();
    let size = bytes.len() as u64;
    assert_eq!(log_tail_start(size), 0);
    let tail = service_log_tail(ServiceKind::Ollama, bytes, size, 0);
    assert!(tail.exists);
    assert!(tail.truncated);
    assert_eq!(tail.line_count, LOG_TAIL_MAX_LINES);
    assert!(tail.content.starts_with("line-050"));
    assert!(tail.content.ends_with("line-299"));
    assert!(!tail.content.contains("line-049"));
}

#[test]
fn a_window_that_starts_mid_file_drops_its_partial_first_line() {
    assert_eq!(log_tail_start(LOG_TAIL_MAX_BYTES + 10), 10);
    let tail = service_log_tail(ServiceKind::Harness, b"tial\nfull line\nlast".to_vec(), LOG_TAIL_MAX_BYTES + 10, 10);
    assert_eq!(tail.content, "full line\nlast");
    assert_eq!(tail.line_count, 2);
    assert!(tail.truncated);
    assert_eq!(tail.source_bytes, LOG_TAIL_MAX_BYTES + 10);
}

#[test]
fn a_mid_file_window_without_a_newline_is_kept() {
    let tail = service_log_tail(ServiceKind::Ollama, b"one long line".to_vec(), LOG_TAIL_MAX_BYTES + 3, 3);
    assert_eq!(tail.content, "one long line");
    assert_eq!(tail.line_count, 1);
    assert!(tail.truncated);
}

#[test]
fn reports_missing_service_logs_as_empty() {
    let tail = missing_log_tail(ServiceKind::Harness);
    assert!(!tail.exists);
    assert!(tail.content.is_empty());
    assert_eq!(tail.line_count, 0);
    assert_eq!(tail.source_bytes, 0);
    assert_eq!(log_file_name(ServiceKind::Harness), "harness.log");
    assert_eq!(log_file_name(ServiceKind::Ollama), "ollama.log");
}

#[test]
fn stack_messages_name_the_services() {
    assert_eq!(
        stack_ready_message(&vec![ServiceKind::Ollama, ServiceKind::Harness], false),
        "Stack ready · started Ollama and Harness"
    );
    assert_eq!(
        stack_ready_message(&vec![ServiceKind::Harness], true),
        "Stack ready · started Harness · kept existing services online"
    );
    let failure = config_message(stack_start_failure(ServiceKind::Harness, "boom", &vec![]));
    assert_eq!(failure, "could not start Harness: boom; services started by this action were stopped");
    let failure = config_message(stack_start_failure(
        ServiceKind::Harness,
        "boom",
        &vec![service_failure_entry(ServiceKind::Ollama, "busy")],
    ));
    assert_eq!(failure, "could not start Harness: boom; rollback needs attention (Ollama: busy)");
    assert_eq!(
        stopped_message(&vec![ServiceKind::Harness, ServiceKind::Ollama]),
        "Stopped app-managed Harness and Ollama · external services were left alone"
    );
    let failure = config_message(stop_failure(&vec!["Ollama: a".to_string(), "Harness: b".to_string()]));
    assert_eq!(failure, "some app-managed services could not be stopped: Ollama: a, Harness: b");
    assert_eq!(unload_all_message(0), "No Ollama models are currently using GPU memory");
    assert_eq!(unload_all_message(1), "Released GPU memory used by 1 Ollama model");
    assert_eq!(unload_all_message(3), "Released GPU memory used by 3 Ollama models");
}

#[test]
fn service_snapshot_reports_state_and_ownership() {
    let managed = service_snapshot(ServiceKind::Ollama, true, "http://127.0.0.1:11434".to_string(), Some("0.5.1".to_string()), Some(42));
    assert_eq!(managed.state, ServiceState::Online);
    assert!(managed.managed);
    assert_eq!(managed.pid, Some(42));
    assert_eq!(managed.version.as_deref(), Some("0.5.1"));
    assert_eq!(managed.url, "http://127.0.0.1:11434");
    assert!(managed.message.is_none());
    let external = service_snapshot(ServiceKind::Harness, false, "http://127.0.0.1:8787".to_string(), None, None);
    assert_eq!(external.state, ServiceState::Offline);
    assert!(!external.managed);
    assert_eq!(external.pid, None);
}

#[test]
fn configured_commands_replace_discovered_paths() {
    let found = EnvironmentSnapshot {
        operating_system: "linux".to_string(),
        architecture: "x86_64".to_string(),
        node_path: Some("/usr/bin/node".to_string()),
        git_path: None,
        ollama_path: Some("/usr/bin/ollama".to_string()),
        harness_path: Some("/usr/bin/dsh".to_string()),
        gpus: Vec::new(),
    };
    let r = with_configured_paths(found, Some("/opt/ollama".to_string()), None);
    assert_eq!(r.ollama_path.as_deref(), Some("/opt/ollama"));
    assert_eq!(r.harness_path.as_deref(), Some("/usr/bin/dsh"));
    assert_eq!(r.node_path.as_deref(), Some("/usr/bin/node"));
    assert_eq!(r.operating_system, "linux");
}

#[test]
fn activating_a_harness_release_points_the_launch_at_it() {
    let config = StackConfig::default();
    let updated = with_harness_release(config, "/apps/harness/1.2.0/node".into(), "/apps/harness/1.2.0/package/lib/bin.js".into()).unwrap();
    assert_eq!(updated.harness.command.as_deref(), Some("/apps/harness/1.2.0/node"));
    assert_eq!(updated.managed_harness_entrypoint.as_deref(), Some("/apps/harness/1.2.0/package/lib/bin.js"));
    assert_eq!(
        updated.harness.args,
        ["/apps/harness/1.2.0/package/lib/bin.js", "--profile", "local-agent-stack", "--host", "127.0.0.1", "--port", "3000", "--no-open"]
    );
    assert_eq!(updated.ollama.url, StackConfig::default().ollama.url);
}

#[test]
fn harness_release_with_an_invalid_url_is_refused() {
    let config = StackConfig {
        harness: ServiceConfig { url: "not a url".into(), command: None, args: Vec::new() },
        ..StackConfig::default()
    };
    let error = with_harness_release(config, "/n".into(), "/e".into()).unwrap_err();
    assert!(error.message().starts_with("configuration error: Harness URL is invalid: "));
}

#[test]
fn preparing_a_profile_records_its_home() {
    let updated = with_profile_home(StackConfig::default(), "/home/user/.dsh".into()).unwrap();
    assert_eq!(updated.harness_home.as_deref(), Some("/home/user/.dsh"));
    assert_eq!(updated.harness.args, ["--profile", "local-agent-stack", "--host", "127.0.0.1", "--port", "3000", "--no-open"]);
}

#[test]
fn failed_stack_start_stops_started_services_newest_first() {
    assert_eq!(stack_rollback_plan(&vec![ServiceKind::Ollama, ServiceKind::Harness]), [ServiceKind::Harness, ServiceKind::Ollama]);
    assert!(stack_rollback_plan(&vec![]).is_empty());
}

#[test]
fn names_of_a_prepared_profile() {
    assert_eq!(profile_staging_name("local-agent-stack", 1700000000123), ".las-local-agent-stack-1700000000123");
    assert_eq!(profile_package_name("team_1"), "dsh-profile-team_1");
}

#[test]
fn reads_and_renames_package_manifests() {
    let (name, version) = package_identity(br#"{"name":"@deepseek-ai/dsh","version":"0.1.1","private":true}"#).unwrap();
    assert_eq!(name.as_deref(), Some("@deepseek-ai/dsh"));
    assert_eq!(version.as_deref(), Some("0.1.1"));
    let (name, version) = package_identity(br#"{"name":7}"#).unwrap();
    assert_eq!(name, None);
    assert_eq!(version, None);
    assert!(package_identity(b"{").is_err());

    let renamed = renamed_package_json(br#"{"version":"1.0.0","name":"web"}"#, "dsh-profile-x".to_string()).unwrap();
    assert_eq!(String::from_utf8(renamed).unwrap(), "{\n  \"name\": \"dsh-profile-x\",\n  \"version\": \"1.0.0\"\n}");
    let added = renamed_package_json(b"null", "p".to_string()).unwrap();
    assert_eq!(String::from_utf8(added).unwrap(), "{\n  \"name\": \"p\"\n}");
    assert!(renamed_package_json(b"[1]", "p".to_string()).is_err());
}
