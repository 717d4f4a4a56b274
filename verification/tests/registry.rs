use local_stack_core::error::StackError;
use local_stack_core::registry::{
    ManagedProcessRecord, REGISTRY_VERSION, RegistryState, command_line_matches, record_matches_process, recover_state,
};
use local_stack_core::types::ServiceKind;

fn record(kind: ServiceKind, pid: u32) -> ManagedProcessRecord {
    ManagedProcessRecord {
        kind,
        pid,
        started_at_unix: 100,
        executable: "/usr/bin/node".to_string(),
        args: vec!["dsh.js".to_string(), "--port".to_string(), "3000".to_string()],
        authenticated_url: None,
    }
}

#[test]
fn matches_the_expected_command_suffix() {
    let command: Vec<String> = ["node.exe", "dsh.js", "--port", "3000"].into_iter().map(String::from).collect();
    assert!(command_line_matches(&command, &vec!["dsh.js".into(), "--port".into(), "3000".into()], false));
    assert!(!command_line_matches(&command, &vec!["dsh.js".into(), "--port".into(), "3001".into()], false));
}

#[test]
fn command_comparison_follows_the_platform_case_rule() {
    let command: Vec<String> = ["Node.exe", "DSH.js"].into_iter().map(String::from).collect();
    assert!(command_line_matches(&command, &vec!["dsh.js".into()], true));
    assert!(!command_line_matches(&command, &vec!["dsh.js".into()], false));
    assert!(command_line_matches(&vec![], &vec!["dsh.js".into()], false));
    assert!(!command_line_matches(&vec!["dsh.js".to_string()], &vec!["dsh.js".into()], false));
}

#[test]
fn removes_only_the_selected_record() {
    let mut state = RegistryState::default();
    state.upsert(record(ServiceKind::Ollama, 41));
    state.upsert(record(ServiceKind::Harness, 42));
    let removed = state.remove(ServiceKind::Ollama).unwrap();
    assert_eq!(removed.pid, 41);
    assert!(state.get(ServiceKind::Ollama).is_none());
    assert_eq!(state.get(ServiceKind::Harness).map(|r| r.pid), Some(42));
    assert_eq!(state.records().len(), 1);
}

#[test]
fn keeps_the_authenticated_url_of_a_record() {
    let mut state = RegistryState::default();
    match state.set_authenticated_url(ServiceKind::Harness, Some("http://127.0.0.1:3000/?t=x".into())) {
        Err(StackError::Config(message)) => assert_eq!(message, "Harness process record disappeared during startup"),
        other => panic!("unexpected {other:?}"),
    }
    state.upsert(record(ServiceKind::Harness, 42));
    state.set_authenticated_url(ServiceKind::Harness, Some("http://127.0.0.1:3000/?t=x".into())).unwrap();
    assert_eq!(
        state.get(ServiceKind::Harness).unwrap().authenticated_url.as_deref(),
        Some("http://127.0.0.1:3000/?t=x")
    );
}

#[test]
fn recovers_the_backup_when_the_primary_is_corrupt() {
    let mut backup = RegistryState::default();
    backup.upsert(record(ServiceKind::Harness, 42));
    let recovered = recover_state(Some(Err("not json".into())), Some(Ok(backup))).unwrap();
    assert_eq!(recovered.get(ServiceKind::Harness).map(|r| r.pid), Some(42));

    let mut primary = RegistryState::default();
    primary.upsert(record(ServiceKind::Harness, 43));
    let recovered = recover_state(Some(Ok(primary)), None).unwrap();
    assert_eq!(recovered.get(ServiceKind::Harness).map(|r| r.pid), Some(43));

    let empty = recover_state(None, None).unwrap();
    assert_eq!(empty.version(), REGISTRY_VERSION);
    assert!(empty.records().is_empty());
    assert!(recover_state(Some(Err("bad".into())), None).is_err());

    let future = RegistryState::from_parts(7, None, None);
    match recover_state(Some(Ok(future)), None) {
        Err(StackError::Config(message)) => assert_eq!(message, "unsupported managed-process registry version 7"),
        other => panic!("unexpected {other:?}"),
    }
}

#[test]
fn identifies_a_process_by_start_time_executable_and_command() {
    let r = record(ServiceKind::Harness, 42);
    let command: Vec<String> = ["node", "dsh.js", "--port", "3000"].into_iter().map(String::from).collect();
    assert!(record_matches_process(&r, 100, true, &command, false));
    assert!(!record_matches_process(&r, 101, true, &command, false));
    assert!(!record_matches_process(&r, 100, false, &command, false));
}
