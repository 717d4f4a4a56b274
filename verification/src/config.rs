//! Stack configuration, its defaults, and the rules a saved configuration obeys.
use vstd::prelude::*;

use crate::error::{StackError, config_error, config_error_str, is_config_error};
use crate::text::{all_ws, concat3, concat_strs, lemma_trim_empty_iff_all_ws, opt_view, str_eq, str_to_chars, string_views, trim, trim_chars};
use crate::url::{parse_url, url_parse_result};

verus! {

#[derive(Debug, Clone)]
pub struct ServiceConfig {
    pub url: String,
    pub command: Option<String>,
    pub args: Vec<String>,
}

/// Settings of the trace recorder.
#[derive(Debug, Clone)]
pub struct TraceConfig {
    pub enabled: bool,
    pub session_root: Option<String>,
    pub inference_slots: usize,
    pub gpu_sample_interval_ms: u64,
}

#[derive(Debug, Clone)]
pub struct StackConfig {
    pub ollama: ServiceConfig,
    pub harness: ServiceConfig,
    pub harness_profile: String,
    pub harness_home: Option<String>,
    pub managed_harness_node: Option<String>,
    pub managed_harness_source: Option<String>,
    pub managed_harness_entrypoint: Option<String>,
    pub setup_completed: bool,
    pub trace: TraceConfig,
}

impl Default for TraceConfig {
    fn default() -> (r: TraceConfig)
        ensures
            r.enabled,
            r.session_root is None,
            r.inference_slots == 1,
            r.gpu_sample_interval_ms == 2000,
    {
        TraceConfig { enabled: true, session_root: None, inference_slots: 1, gpu_sample_interval_ms: 2000 }
    }
}

pub open spec fn default_ollama_url() -> Seq<char> {
    "http://127.0.0.1:11434"@
}

pub open spec fn default_harness_url() -> Seq<char> {
    "http://127.0.0.1:3000"@
}

pub open spec fn default_profile() -> Seq<char> {
    "local-agent-stack"@
}

fn strings1(a: &str) -> (r: Vec<String>)
    ensures
        string_views(r@) == seq![a@],
{
    let mut v: Vec<String> = Vec::new();
    v.push(String::from_str(a));
    assert(string_views(v@) =~= seq![a@]);
    v
}

fn strings3(a: &str, b: &str, c: &str) -> (r: Vec<String>)
    ensures
        string_views(r@) == seq![a@, b@, c@],
{
    let mut v: Vec<String> = Vec::new();
    v.push(String::from_str(a));
    v.push(String::from_str(b));
    v.push(String::from_str(c));
    assert(string_views(v@) =~= seq![a@, b@, c@]);
    v
}

impl Default for StackConfig {
    fn default() -> (r: StackConfig)
        ensures
            r.ollama.url@ == default_ollama_url(),
            r.ollama.command is None,
            string_views(r.ollama.args@) == seq!["serve"@],
            r.harness.url@ == default_harness_url(),
            r.harness.command is None,
            string_views(r.harness.args@) == seq!["web"@, "--port"@, "3000"@],
            r.harness_profile@ == default_profile(),
            r.harness_home is None,
            r.managed_harness_node is None,
            r.managed_harness_source is None,
            r.managed_harness_entrypoint is None,
            !r.setup_completed,
            r.trace.enabled,
            r.trace.session_root is None,
            r.trace.inference_slots == 1,
    {
        StackConfig {
            ollama: ServiceConfig {
                url: String::from_str("http://127.0.0.1:11434"),
                command: None,
                args: strings1("serve"),
            },
            harness: ServiceConfig {
                url: String::from_str("http://127.0.0.1:3000"),
                command: None,
                args: strings3("web", "--port", "3000"),
            },
            harness_profile: String::from_str("local-agent-stack"),
            harness_home: None,
            managed_harness_node: None,
            managed_harness_source: None,
            managed_harness_entrypoint: None,
            setup_completed: false,
            trace: TraceConfig::default(),
        }
    }
}

/// Host texts that name this machine; the URL parser writes the IPv6
/// loopback address in brackets.
pub open spec fn is_loopback_host(host: Option<Seq<char>>) -> bool {
    host == Some("127.0.0.1"@) || host == Some("localhost"@) || host == Some("::1"@) || host == Some(
        "[::1]"@,
    )
}

/// The complaint about one control URL, if any.
pub open spec fn url_problem(name: Seq<char>, url: Seq<char>) -> Option<Seq<char>> {
    match url_parse_result(url) {
        Err(e) => Some(name + " URL is invalid: "@ + e),
        Ok(parts) => if is_loopback_host(parts.1) {
            None
        } else {
            Some(name + " URL must use a loopback address in version 0.1"@)
        },
    }
}

/// The first rule that a configuration breaks, in the order they are checked.
pub open spec fn config_problem(config: StackConfig) -> Option<Seq<char>> {
    match url_problem("Ollama"@, config.ollama.url@) {
        Some(m) => Some(m),
        None => match url_problem("Harness"@, config.harness.url@) {
            Some(m) => Some(m),
            None => if trim(config.harness_profile@).len() == 0 {
                Some("Harness profile cannot be empty"@)
            } else {
                None
            },
        },
    }
}

fn host_is_loopback(host: &Option<String>) -> (r: bool)
    ensures
        r == is_loopback_host(opt_view(*host)),
{
    match host {
        Some(h) => str_eq(h.as_str(), "127.0.0.1") || str_eq(h.as_str(), "localhost") || str_eq(
            h.as_str(),
            "::1",
        ) || str_eq(h.as_str(), "[::1]"),
        None => false,
    }
}

fn check_url(name: &str, url: &str) -> (r: Result<(), StackError>)
    ensures
        match r {
            Ok(()) => url_problem(name@, url@) is None,
            Err(e) => url_problem(name@, url@) matches Some(m) && is_config_error(e, m),
        },
{
    match parse_url(url) {
        Err(error) => Err(config_error(concat3(name, " URL is invalid: ", error.as_str()))),
        Ok(parsed) => {
            if host_is_loopback(&parsed.host) {
                Ok(())
            } else {
                Err(config_error(concat_strs(name, " URL must use a loopback address in version 0.1")))
            }
        },
    }
}

/// Checks that both control URLs point at this machine and that a Harness
/// profile is named.
pub fn validate(config: &StackConfig) -> (r: Result<(), StackError>)
    ensures
        match r {
            Ok(()) => config_problem(*config) is None,
            Err(e) => config_problem(*config) matches Some(m) && is_config_error(e, m),
        },
{
    match check_url("Ollama", config.ollama.url.as_str()) {
        Err(e) => return Err(e),
        Ok(()) => {},
    }
    match check_url("Harness", config.harness.url.as_str()) {
        Err(e) => return Err(e),
        Ok(()) => {},
    }
    let profile = str_to_chars(config.harness_profile.as_str());
    let trimmed = trim_chars(&profile);
    if trimmed.len() == 0 {
        return Err(config_error_str("Harness profile cannot be empty"));
    }
    Ok(())
}

/// A configuration that passes validation controls only loopback
/// endpoints and names a profile with at least one visible character.
pub proof fn law_valid_config_is_local(config: StackConfig)
    requires
        config_problem(config) is None,
    ensures
        url_parse_result(config.ollama.url@) matches Ok(p) && is_loopback_host(p.1),
        url_parse_result(config.harness.url@) matches Ok(p) && is_loopback_host(p.1),
        !all_ws(config.harness_profile@),
{
    lemma_trim_empty_iff_all_ws(config.harness_profile@);
}

/// Validation law: a configuration is valid exactly when both control URLs
/// parse with a loopback host and the Harness profile has a visible
/// character.
pub proof fn law_config_valid_iff_local(config: StackConfig)
    ensures
        (config_problem(config) is None) <==> (
        (url_parse_result(config.ollama.url@) matches Ok(p) && is_loopback_host(p.1))
            && (url_parse_result(config.harness.url@) matches Ok(q) && is_loopback_host(q.1))
            && !all_ws(config.harness_profile@)),
{
    lemma_trim_empty_iff_all_ws(config.harness_profile@);
}

/// Where the configuration file lives.
#[derive(Debug, Clone)]
pub struct ConfigStore {
    path: String,
}

impl ConfigStore {
    pub closed spec fn spec_path(&self) -> Seq<char> {
        self.path@
    }

    pub fn at(path: String) -> (r: Self)
        ensures
            r.spec_path() == path@,
    {
        ConfigStore { path }
    }

    pub fn path(&self) -> (r: &str)
        ensures
            r@ == self.spec_path(),
    {
        self.path.as_str()
    }
}

} // verus!
