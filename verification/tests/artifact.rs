use local_stack_core::artifact::{
    DownloadCheck, ExtractionBudget, embedded_artifact, length_check, required_space, space_check, portable_relative_path, progress, validate_artifact,
};
use local_stack_core::error::StackError;
use local_stack_core::types::ServiceKind;

fn config_message(error: StackError) -> String {
    match error {
        StackError::Config(message) => message,
        other => panic!("unexpected error {other:?}"),
    }
}

#[test]
fn rejects_artifact_path_escape_and_untrusted_hosts() {
    let mut artifact = embedded_artifact(ServiceKind::Ollama, "windows", "x86_64").unwrap();
    artifact.executable_relative_path = "../ollama.exe".into();
    assert!(validate_artifact(&artifact).is_err());
    artifact.executable_relative_path = "ollama.exe".into();
    artifact.url = "https://example.com/ollama.zip".into();
    assert!(validate_artifact(&artifact).is_err());
}

#[test]
fn publishes_only_the_windows_ollama_archive() {
    let artifact = embedded_artifact(ServiceKind::Ollama, "windows", "x86_64").unwrap();
    assert!(validate_artifact(&artifact).is_ok());
    let message = config_message(embedded_artifact(ServiceKind::Harness, "linux", "aarch64").unwrap_err());
    assert_eq!(message, "no verified Harness runtime artifact is published for linux/aarch64");
}

#[test]
fn names_the_rule_an_artifact_breaks() {
    let base = embedded_artifact(ServiceKind::Ollama, "windows", "x86_64").unwrap();
    let mut artifact = base.clone();
    artifact.url = "http://github.com/ollama.zip".into();
    assert_eq!(
        config_message(validate_artifact(&artifact).unwrap_err()),
        "runtime artifacts must use an official github.com HTTPS URL"
    );
    let mut artifact = base.clone();
    artifact.url = "not a url".into();
    assert!(config_message(validate_artifact(&artifact).unwrap_err()).starts_with("runtime artifact URL is invalid: "));
    let mut artifact = base.clone();
    artifact.archive_format = "tar".into();
    assert_eq!(config_message(validate_artifact(&artifact).unwrap_err()), "unsupported runtime archive format: tar");
    let mut artifact = base.clone();
    artifact.sha256 = "xyz".into();
    assert_eq!(config_message(validate_artifact(&artifact).unwrap_err()), "runtime artifact SHA-256 is invalid");
    let mut artifact = base;
    artifact.executable_relative_path = "/abs/ollama.exe".into();
    assert!(validate_artifact(&artifact).is_ok());
    artifact.executable_relative_path = "bin/../ollama.exe".into();
    assert_eq!(
        config_message(validate_artifact(&artifact).unwrap_err()),
        "runtime artifact path must remain inside its release"
    );
}

#[test]
fn manifest_paths_become_relative_paths() {
    assert_eq!(portable_relative_path("bin/ollama.exe").unwrap(), "bin/ollama.exe");
    assert_eq!(portable_relative_path("/bin//ollama.exe").unwrap(), "bin/ollama.exe");
    assert!(portable_relative_path("bin/../../x").is_err());
    assert!(portable_relative_path("").is_err());
    assert!(portable_relative_path("..\\ollama.exe").is_err());
    assert!(portable_relative_path("C:\\ollama.exe").is_err());
    assert_eq!(portable_relative_path("bin\\ollama.exe").unwrap(), "bin\\ollama.exe");
}

#[test]
fn verifies_size_and_digest_of_a_download() {
    let mut check = DownloadCheck::new(3);
    assert_eq!(check.accept_chunk(b"ab").unwrap(), false);
    assert_eq!(check.completed(), 2);
    assert!(check.accept_chunk(b"cd").is_err());
    assert_eq!(check.accept_chunk(b"c").unwrap(), false);
    check.finish("BA7816BF8F01CFEA414140DE5DAE2223B00361A396177A9CB410FF61F20015AD").unwrap();

    let mut wrong = DownloadCheck::new(3);
    wrong.accept_chunk(b"abd").unwrap();
    let message = config_message(wrong.finish("ba7816bf8f01cfea414140de5dae2223b00361a396177a9cb410ff61f20015ad").unwrap_err());
    assert!(message.starts_with("runtime checksum mismatch: expected ba7816bf"));

    let short = DownloadCheck::new(5);
    assert_eq!(
        config_message(short.check_complete().unwrap_err()),
        "runtime download is incomplete: received 0 of 5 bytes"
    );
    let mut whole = DownloadCheck::new(2);
    whole.accept_chunk(b"ok").unwrap();
    whole.check_complete().unwrap();
    assert_eq!(
        config_message(short.finish("00").unwrap_err()),
        "runtime download is incomplete: received 0 of 5 bytes"
    );
}

#[test]
fn bounds_what_extraction_writes() {
    let mut budget = ExtractionBudget::new(10);
    budget.admit_entry("ollama.exe", true, None, 6).unwrap();
    assert!(budget.admit_entry("lib.dll", true, Some(0o100644), 5).is_err());
    budget.admit_entry("lib.dll", true, Some(0o100644), 4).unwrap();
    assert_eq!(
        config_message(budget.admit_entry("../evil", false, None, 0).unwrap_err()),
        "runtime ZIP entry escapes staging: ../evil"
    );
    assert_eq!(
        config_message(budget.admit_entry("link", true, Some(0o120777), 0).unwrap_err()),
        "runtime ZIP contains an unsupported symbolic link: link"
    );
}

#[test]
fn progress_reports_the_download_size() {
    let artifact = embedded_artifact(ServiceKind::Ollama, "windows", "x86_64").unwrap();
    let step = progress(&artifact, "downloading", 7, "Downloading");
    assert_eq!(step.kind, ServiceKind::Ollama);
    assert_eq!(step.stage, "downloading");
    assert_eq!(step.completed, 7);
    assert_eq!(step.total, artifact.download_size);
}

#[test]
fn checks_disk_space_and_announced_length() {
    let mut artifact = embedded_artifact(ServiceKind::Ollama, "windows", "x86_64").unwrap();
    artifact.download_size = 10;
    artifact.maximum_extracted_size = 20;
    assert_eq!(required_space(&artifact).unwrap(), 30);
    space_check(30, 30).unwrap();
    assert_eq!(
        config_message(space_check(29, 30).unwrap_err()),
        "managed runtime installation requires 30 free bytes, but only 29 are available"
    );
    artifact.maximum_extracted_size = u64::MAX;
    assert_eq!(config_message(required_space(&artifact).unwrap_err()), "runtime disk-space requirement overflowed");
    length_check(None, &artifact).unwrap();
    length_check(Some(10), &artifact).unwrap();
    assert_eq!(
        config_message(length_check(Some(11), &artifact).unwrap_err()),
        "runtime download size changed: manifest expects 10, server reports 11"
    );
}
