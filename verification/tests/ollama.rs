use local_stack_core::ollama::{endpoint, normalize_base_url, validate_model_name};
use local_stack_core::types::{ActionResult, ServiceKind, parse_service};

#[test]
fn accepts_plain_model_names_only() {
    assert!(validate_model_name("qwen3:8b").is_ok());
    assert!(validate_model_name("   ").is_err());
    assert!(validate_model_name("bad\nname").is_err());
    assert!(validate_model_name(&"m".repeat(241)).is_err());
    assert!(validate_model_name(&"m".repeat(240)).is_ok());
}

#[test]
fn joins_api_paths_to_the_base_url() {
    assert_eq!(normalize_base_url("http://127.0.0.1:11434///"), "http://127.0.0.1:11434");
    assert_eq!(endpoint(&normalize_base_url("http://127.0.0.1:11434/"), "/api/tags"), "http://127.0.0.1:11434/api/tags");
}

#[test]
fn reads_service_names_from_the_interface() {
    assert_eq!(parse_service("ollama"), Ok(ServiceKind::Ollama));
    assert_eq!(parse_service("harness"), Ok(ServiceKind::Harness));
    assert_eq!(parse_service("Ollama"), Err("unknown service: Ollama".to_string()));
    for kind in [ServiceKind::Ollama, ServiceKind::Harness] {
        assert_eq!(parse_service(kind.dir_name()), Ok(kind));
    }
    assert_eq!(ServiceKind::Harness.name(), "Harness");
    let result = ActionResult::success("done".to_string());
    assert!(result.ok);
    assert_eq!(result.message, "done");
}
