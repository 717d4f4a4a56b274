//! Shared value types of the control plane: services, snapshots, results.
use vstd::prelude::*;

use crate::compatibility::CompatibilityReport;
use crate::managed::ManagedRuntimeStatus;
use crate::text::{concat_strs, str_eq};

verus! {

/// The two runtimes that the stack supervises.
#[derive(Debug, Clone, Copy, PartialEq, Eq, Hash, Structural)]
pub enum ServiceKind {
    Ollama,
    Harness,
}

impl ServiceKind {
    /// Display name used in user-facing messages.
    pub open spec fn spec_name(self) -> Seq<char> {
        match self {
            ServiceKind::Ollama => "Ollama"@,
            ServiceKind::Harness => "Harness"@,
        }
    }

    /// Lower-case name used for directories and log files.
    pub open spec fn spec_dir_name(self) -> Seq<char> {
        match self {
            ServiceKind::Ollama => "ollama"@,
            ServiceKind::Harness => "harness"@,
        }
    }

    pub fn name(&self) -> (r: &'static str)
        ensures
            r@ == self.spec_name(),
    {
        match self {
            ServiceKind::Ollama => "Ollama",
            ServiceKind::Harness => "Harness",
        }
    }

    pub fn dir_name(&self) -> (r: &'static str)
        ensures
            r@ == self.spec_dir_name(),
    {
        match self {
            ServiceKind::Ollama => "ollama",
            ServiceKind::Harness => "harness",
        }
    }
}

pub open spec fn spec_parse_service(service: Seq<char>) -> Result<ServiceKind, Seq<char>> {
    if service == "ollama"@ {
        Ok(ServiceKind::Ollama)
    } else if service == "harness"@ {
        Ok(ServiceKind::Harness)
    } else {
        Err("unknown service: "@ + service)
    }
}

/// Maps a service name from the user interface to its kind.
pub fn parse_service(service: &str) -> (r: Result<ServiceKind, String>)
    ensures
        match r {
            Ok(kind) => spec_parse_service(service@) == Ok::<ServiceKind, Seq<char>>(kind),
            Err(message) => spec_parse_service(service@) == Err::<ServiceKind, Seq<char>>(
                message@,
            ),
        },
{
    if str_eq(service, "ollama") {
        Ok(ServiceKind::Ollama)
    } else if str_eq(service, "harness") {
        Ok(ServiceKind::Harness)
    } else {
        Err(concat_strs("unknown service: ", service))
    }
}

/// Every service name that the interface sends is read back to the kind it names.
pub proof fn law_parse_service_round_trip(kind: ServiceKind)
    ensures
        spec_parse_service(kind.spec_dir_name()) == Ok::<ServiceKind, Seq<char>>(kind),
{
    reveal_strlit("ollama");
    reveal_strlit("harness");
    assert("ollama"@.len() == 6);
    assert("harness"@.len() == 7);
    assert("ollama"@ != "harness"@);
}

#[derive(Debug, Clone, Copy, PartialEq, Eq, Structural)]
pub enum ServiceState {
    Online,
    Offline,
}

/// Outcome of a user-visible control action.
#[derive(Debug, Clone)]
pub struct ActionResult {
    pub ok: bool,
    pub message: String,
}

impl ActionResult {
    pub fn success(message: String) -> (r: ActionResult)
        ensures
            r.ok,
            r.message@ == message@,
    {
        ActionResult { ok: true, message }
    }
}

#[derive(Debug, Clone)]
pub struct ServiceSnapshot {
    pub kind: ServiceKind,
    pub state: ServiceState,
    pub url: String,
    pub version: Option<String>,
    pub managed: bool,
    pub pid: Option<u32>,
    pub message: Option<String>,
    pub launch_url: Option<String>,
}

#[derive(Debug, Clone)]
pub struct GpuSnapshot {
    pub name: String,
    pub driver_version: String,
    pub memory_total_mib: u64,
    pub memory_used_mib: u64,
    pub memory_free_mib: u64,
}

#[derive(Debug, Clone)]
pub struct EnvironmentSnapshot {
    pub operating_system: String,
    pub architecture: String,
    pub node_path: Option<String>,
    pub git_path: Option<String>,
    pub ollama_path: Option<String>,
    pub harness_path: Option<String>,
    pub gpus: Vec<GpuSnapshot>,
}

#[derive(Debug, Clone)]
pub struct InstalledModel {
    pub name: String,
    pub size: u64,
    pub parameter_size: Option<String>,
    pub quantization_level: Option<String>,
}

#[derive(Debug, Clone)]
pub struct RunningModel {
    pub name: String,
    pub model: String,
    pub size: u64,
    pub size_vram: u64,
    pub expires_at: Option<String>,
}

#[derive(Debug, Clone)]
pub struct StackSnapshot {
    pub ollama: ServiceSnapshot,
    pub harness: ServiceSnapshot,
    pub installed_models: Vec<InstalledModel>,
    pub running_models: Vec<RunningModel>,
    pub environment: EnvironmentSnapshot,
    pub compatibility: CompatibilityReport,
    pub managed_ollama: ManagedRuntimeStatus,
    pub managed_harness: ManagedRuntimeStatus,
    pub config_path: String,
}

/// Bounded tail of a service log.
#[derive(Debug, Clone)]
pub struct ServiceLogTail {
    pub kind: ServiceKind,
    pub content: String,
    pub source_bytes: u64,
    pub line_count: usize,
    pub truncated: bool,
    pub exists: bool,
}

} // verus!
