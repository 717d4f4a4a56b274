use local_stack_core::compatibility::{CompatibilityState, assess_versions, embedded_manifest, parse_version, requirement_index};
use local_stack_core::types::ServiceKind;

#[test]
fn accepts_versions_inside_the_tested_range() {
    let report = assess_versions(Some("v0.33.2"), Some("0.1.1-rc.2")).unwrap();
    assert!(report.components.iter().all(|component| component.state == CompatibilityState::Compatible));
}

#[test]
fn distinguishes_old_new_and_unknown_versions() {
    let report = assess_versions(Some("0.11.0"), Some("dsh 0.2.0")).unwrap();
    assert_eq!(report.components[0].state, CompatibilityState::Outdated);
    assert_eq!(report.components[1].state, CompatibilityState::Untested);

    let unknown = assess_versions(None, Some("not-semver")).unwrap();
    assert!(unknown.components.iter().all(|component| component.state == CompatibilityState::Unknown));
}

#[test]
fn finds_the_version_word_in_command_output() {
    assert_eq!(parse_version("dsh 0.2.0"), Some("0.2.0".to_string()));
    assert_eq!(parse_version("ollama version is v0.12.3"), Some("0.12.3".to_string()));
    assert_eq!(parse_version("no version here"), None);
    assert_eq!(parse_version(""), None);
}

#[test]
fn reports_the_tested_ranges_of_the_embedded_manifest() {
    let manifest = embedded_manifest().unwrap();
    assert_eq!(manifest.components.len(), 2);
    let report = assess_versions(Some("1.0.0"), Some("0.0.9")).unwrap();
    assert_eq!(report.components[0].state, CompatibilityState::Untested);
    assert_eq!(report.components[1].state, CompatibilityState::Outdated);
    assert_eq!(report.components[0].recommended_version, "0.33.2");
    assert_eq!(report.components[1].recommended_version, "0.1.1");
    assert_eq!(report.manifest_updated_at, "2026-08-31");
}

#[test]
fn finds_the_requirement_of_each_runtime() {
    let manifest = embedded_manifest().unwrap();
    let harness = requirement_index(&manifest, ServiceKind::Harness).unwrap();
    assert_eq!(manifest.components[harness].kind, ServiceKind::Harness);
    let ollama = requirement_index(&manifest, ServiceKind::Ollama).unwrap();
    assert_eq!(manifest.components[ollama].kind, ServiceKind::Ollama);
    let mut empty = manifest.clone();
    empty.components.clear();
    assert_eq!(requirement_index(&empty, ServiceKind::Ollama), None);
}
