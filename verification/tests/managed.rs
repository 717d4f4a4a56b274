use local_stack_core::error::StackError;
use local_stack_core::managed::{
    ManagedRuntimeState, ManagedRuntimeStore, activate_release, new_release, release_id_for, rollback_release,
    portable_string_to_path, runtime_status, validate_relative_executable, validate_version,
};
use local_stack_core::paths::path_to_portable_string;
use local_stack_core::types::ServiceKind;

fn config_message(error: StackError) -> String {
    match error {
        StackError::Config(message) => message,
        other => panic!("unexpected error {other:?}"),
    }
}

#[test]
fn activation_keeps_one_release_to_roll_back_to() {
    let first = new_release("0.1.0", "bin/dsh", 1, 10);
    let second = new_release("0.2.0", "bin/dsh", 2, 20);
    assert_eq!(first.release_id, "0.1.0-1");
    let state = activate_release(ManagedRuntimeState::default(), first);
    let state = activate_release(state, second);
    let status = runtime_status(&state);
    assert!(status.installed);
    assert!(status.can_rollback);
    assert_eq!(status.current_version.as_deref(), Some("0.2.0"));
    assert_eq!(status.previous_version.as_deref(), Some("0.1.0"));

    let rolled = rollback_release(ServiceKind::Harness, state).unwrap();
    assert_eq!(rolled.current.as_ref().unwrap().version, "0.1.0");
    assert_eq!(rolled.previous.as_ref().unwrap().version, "0.2.0");
    let again = rollback_release(ServiceKind::Harness, rolled).unwrap();
    assert_eq!(again.current.as_ref().unwrap().version, "0.2.0");
    assert_eq!(again.previous.as_ref().unwrap().version, "0.1.0");
}

#[test]
fn rollback_needs_a_previous_release() {
    let message = config_message(rollback_release(ServiceKind::Ollama, ManagedRuntimeState::default()).unwrap_err());
    assert_eq!(message, "no previous Ollama release is available");
    let status = runtime_status(&ManagedRuntimeState::default());
    assert!(!status.installed);
    assert!(!status.can_rollback);
}

#[test]
fn release_paths_stay_inside_the_component() {
    let store = ManagedRuntimeStore::at("/data/runtimes".to_string());
    assert_eq!(store.component_dir(ServiceKind::Harness), "/data/runtimes/harness");
    assert_eq!(
        store.staging_directory(ServiceKind::Ollama, "0.33.2", 7).unwrap(),
        "/data/runtimes/ollama/staging/0.33.2-7"
    );
    assert!(store.staging_directory(ServiceKind::Ollama, "../0.1.0", 7).is_err());
    let state = activate_release(ManagedRuntimeState::default(), new_release("0.1.0", "bin/dsh", 3, 0));
    assert_eq!(
        store.current_executable_path(ServiceKind::Harness, &state).unwrap(),
        "/data/runtimes/harness/releases/0.1.0-3/bin/dsh"
    );
    assert!(store.current_executable_path(ServiceKind::Harness, &ManagedRuntimeState::default()).is_err());
}

#[test]
fn rejects_versions_and_executables_that_escape() {
    assert!(validate_version("0.1.0").is_ok());
    assert!(config_message(validate_version("outside").unwrap_err()).starts_with("invalid managed runtime version: "));
    assert!(validate_relative_executable("bin/dsh").is_ok());
    assert!(validate_relative_executable("..\\dsh").is_err());
    assert!(validate_relative_executable("C:dsh").is_err());
    assert!(validate_relative_executable("bin\\dsh").is_ok());
    assert!(validate_relative_executable("ab:c").is_ok());
    assert!(validate_relative_executable("C:\\x").is_err());
    assert!(validate_relative_executable("\\x").is_err());
    assert!(validate_relative_executable("\\\\srv\\s\\x").is_err());
    assert_eq!(
        config_message(validate_relative_executable("../dsh").unwrap_err()),
        "managed runtime executable path must stay inside its release"
    );
    assert!(validate_relative_executable("/abs/dsh").is_err());
    assert_eq!(release_id_for("0.2.0", 42), "0.2.0-42");
}

#[test]
fn portable_paths_read_back_to_the_same_path() {
    for path in ["bin/ollama.exe", "a//b/./c", "package/lib/bin.js", "dsh"] {
        let text = path_to_portable_string(path);
        assert_eq!(portable_string_to_path(&text), text);
    }
    assert_eq!(path_to_portable_string("a//b/./c"), "a/b/c");
}
