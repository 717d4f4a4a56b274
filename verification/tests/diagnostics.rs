use local_stack_core::config::StackConfig;
use local_stack_core::diagnostics::{executable_name, redacted_config};

#[test]
fn redacts_paths_and_arguments_from_configuration() {
    let mut config = StackConfig::default();
    config.harness.command = Some("C:\\Users\\person\\private\\dsh.cmd".into());
    config.harness.args = vec!["--token".into(), "very-secret".into()];
    config.harness_home = Some("C:\\Users\\person\\.dsh".into());
    let value = format!("{:?}", redacted_config(&config));
    assert!(value.contains("dsh.cmd"));
    assert!(!value.contains("person"));
    assert!(!value.contains("very-secret"));
    assert!(!value.contains("harness_home"));
}

#[test]
fn keeps_only_the_executable_name() {
    assert_eq!(executable_name(Some("/usr/local/bin/ollama")), Some("ollama".to_string()));
    assert_eq!(executable_name(Some("C:\\tools\\dsh.cmd\\")), Some("dsh.cmd".to_string()));
    assert_eq!(executable_name(Some("///")), Some("configured".to_string()));
    assert_eq!(executable_name(None), None);
    let mut config = StackConfig::default();
    config.harness.args = vec!["a".into(), "b".into(), "c".into()];
    let redacted = redacted_config(&config);
    assert_eq!(redacted.harness.argument_count, 3);
    assert_eq!(redacted.ollama.argument_count, 1);
    assert_eq!(redacted.harness.profile, "local-agent-stack");
}
