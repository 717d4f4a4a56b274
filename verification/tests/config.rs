use local_stack_core::config::{ConfigStore, StackConfig, validate};
use local_stack_core::error::StackError;

fn config_message(error: StackError) -> String {
    match error {
        StackError::Config(message) => message,
        other => panic!("unexpected error {other:?}"),
    }
}

#[test]
fn default_configuration_targets_loopback_services() {
    let config = StackConfig::default();
    assert_eq!(config.ollama.url, "http://127.0.0.1:11434");
    assert_eq!(config.ollama.args, ["serve"]);
    assert_eq!(config.harness.url, "http://127.0.0.1:3000");
    assert_eq!(config.harness.args, ["web", "--port", "3000"]);
    assert_eq!(config.harness_profile, "local-agent-stack");
    assert!(!config.setup_completed);
    assert!(config.trace.enabled);
    assert_eq!(config.trace.inference_slots, 1);
    assert_eq!(config.trace.gpu_sample_interval_ms, 2000);
    assert!(validate(&config).is_ok());
}

#[test]
fn rejects_non_loopback_control_target_values() {
    let mut config = StackConfig::default();
    config.harness.url = "https://example.com".into();
    assert_eq!(
        config_message(validate(&config).unwrap_err()),
        "Harness URL must use a loopback address in version 0.1"
    );
    let mut config = StackConfig::default();
    config.ollama.url = "http://localhost:11434".into();
    assert!(validate(&config).is_ok());
    config.ollama.url = "nonsense".into();
    assert!(config_message(validate(&config).unwrap_err()).starts_with("Ollama URL is invalid: "));
}

#[test]
fn accepts_the_ipv6_loopback_address() {
    let mut config = StackConfig::default();
    config.ollama.url = "http://[::1]:11434".into();
    config.harness.url = "http://[::1]:3000".into();
    assert!(validate(&config).is_ok());
}

#[test]
fn requires_a_visible_profile_name() {
    let mut config = StackConfig::default();
    config.harness_profile = "  \t".into();
    assert_eq!(config_message(validate(&config).unwrap_err()), "Harness profile cannot be empty");
    assert_eq!(ConfigStore::at("/tmp/stack.json".into()).path(), "/tmp/stack.json");
}
