//! Redaction of configuration and snapshots before a diagnostic export.
use vstd::prelude::*;

use crate::config::StackConfig;
use crate::text::{chars_to_string, opt_view, slice_chars, str_to_chars};
use crate::types::StackSnapshot;

verus! {

pub open spec fn is_sep(c: char) -> bool {
    c == '/' || c == '\\'
}

/// Number of trailing characters that are (`want == true`) or are not
/// separators.
pub open spec fn trail_count(s: Seq<char>, want: bool) -> nat
    decreases s.len(),
{
    if s.len() > 0 && is_sep(s.last()) == want {
        1 + trail_count(s.drop_last(), want)
    } else {
        0
    }
}

/// The last non-empty piece between `/` and `\` separators, or
/// `configured` when there is none.
pub open spec fn exe_name(s: Seq<char>) -> Seq<char> {
    let t = s.subrange(0, s.len() - trail_count(s, true));
    if t.len() == 0 {
        "configured"@
    } else {
        t.subrange(t.len() - trail_count(t, false), t.len() as int)
    }
}

pub open spec fn opt_exe_name(value: Option<Seq<char>>) -> Option<Seq<char>> {
    match value {
        Some(v) => Some(exe_name(v)),
        None => None,
    }
}

proof fn lemma_trail_count(s: Seq<char>, want: bool)
    ensures
        trail_count(s, want) <= s.len(),
        forall|i: int| s.len() - trail_count(s, want) <= i < s.len() ==> is_sep(#[trigger] s[i]) == want,
        trail_count(s, want) < s.len() ==> is_sep(s[s.len() - trail_count(s, want) - 1]) != want,
    decreases s.len(),
{
    if s.len() > 0 && is_sep(s.last()) == want {
        lemma_trail_count(s.drop_last(), want);
        assert forall|i: int| s.len() - trail_count(s, want) <= i < s.len() implies is_sep(
            #[trigger] s[i],
        ) == want by {
            if i < s.len() - 1 {
                assert(s[i] == s.drop_last()[i]);
            }
        }
        if trail_count(s, want) < s.len() {
            assert(s[s.len() - trail_count(s, want) - 1] == s.drop_last()[s.len() - trail_count(
                s,
                want,
            ) - 1]);
        }
    }
}

fn count_trailing(s: &Vec<char>, to: usize, want: bool) -> (r: usize)
    requires
        to <= s.len(),
    ensures
        r <= to,
        r == to - trail_count(s@.subrange(0, to as int), want),
{
    let mut j = to;
    while j > 0 && ((s[j - 1] == '/' || s[j - 1] == '\\') == want)
        invariant
            j <= to <= s.len(),
            trail_count(s@.subrange(0, to as int), want) == (to - j) + trail_count(
                s@.subrange(0, j as int),
                want,
            ),
        decreases j,
    {
        assert(s@.subrange(0, j as int).drop_last() =~= s@.subrange(0, j - 1));
        j = j - 1;
    }
    j
}

fn executable_name_of(value: &str) -> (r: String)
    ensures
        r@ == exe_name(value@),
{
    let s = str_to_chars(value);
    assert(s@.subrange(0, s.len() as int) =~= s@);
    let end = count_trailing(&s, s.len(), true);
    if end == 0 {
        return String::from_str("configured");
    }
    let start = count_trailing(&s, end, false);
    assert(s@.subrange(0, end as int).subrange(start as int, end as int) =~= s@.subrange(
        start as int,
        end as int,
    ));
    let piece = slice_chars(&s, start, end);
    chars_to_string(&piece)
}

/// Reduces a configured path to the executable's file name.
pub fn executable_name(value: Option<&str>) -> (r: Option<String>)
    ensures
        opt_view(r) == match value {
            Some(v) => Some(exe_name(v@)),
            None => None::<Seq<char>>,
        },
{
    match value {
        Some(v) => Some(executable_name_of(v)),
        None => None,
    }
}

/// The name kept of a path holds no directory separator and is not empty.
pub proof fn law_executable_name_hides_directories(s: Seq<char>)
    ensures
        exe_name(s).len() > 0,
        forall|i: int| 0 <= i < exe_name(s).len() ==> !is_sep(#[trigger] exe_name(s)[i]),
{
    reveal_strlit("configured");
    lemma_trail_count(s, true);
    let t = s.subrange(0, s.len() - trail_count(s, true));
    if t.len() > 0 {
        lemma_trail_count(t, false);
        assert(!is_sep(t.last()));
        assert(trail_count(t, false) >= 1);
        assert forall|i: int| 0 <= i < exe_name(s).len() implies !is_sep(#[trigger] exe_name(s)[i]) by {
            assert(exe_name(s)[i] == t[t.len() - trail_count(t, false) + i]);
        }
    } else {
        assert forall|i: int| 0 <= i < exe_name(s).len() implies !is_sep(#[trigger] exe_name(s)[i]) by {
            assert("configured"@[i] == exe_name(s)[i]);
        }
    }
}

#[derive(Debug, Clone)]
pub struct RedactedService {
    pub url: String,
    pub executable: Option<String>,
    pub argument_count: usize,
}

#[derive(Debug, Clone)]
pub struct RedactedHarness {
    pub url: String,
    pub executable: Option<String>,
    pub argument_count: usize,
    pub profile: String,
    pub managed_node_executable: Option<String>,
    pub managed_source_configured: bool,
    pub managed_entrypoint_configured: bool,
}

/// The part of the configuration that a diagnostic report may contain.
#[derive(Debug, Clone)]
pub struct RedactedConfig {
    pub ollama: RedactedService,
    pub harness: RedactedHarness,
    pub setup_completed: bool,
}

pub open spec fn opt_string_exe(o: Option<String>) -> Option<Seq<char>> {
    opt_exe_name(opt_view(o))
}

fn exe_of(o: &Option<String>) -> (r: Option<String>)
    ensures
        opt_view(r) == opt_string_exe(*o),
{
    match o {
        Some(s) => executable_name(Some(s.as_str())),
        None => None,
    }
}

pub fn redacted_config(config: &StackConfig) -> (r: RedactedConfig)
    ensures
        r.ollama.url@ == config.ollama.url@,
        opt_view(r.ollama.executable) == opt_string_exe(config.ollama.command),
        r.ollama.argument_count == config.ollama.args@.len(),
        r.harness.url@ == config.harness.url@,
        opt_view(r.harness.executable) == opt_string_exe(config.harness.command),
        r.harness.argument_count == config.harness.args@.len(),
        r.harness.profile@ == config.harness_profile@,
        opt_view(r.harness.managed_node_executable) == opt_string_exe(config.managed_harness_node),
        r.harness.managed_source_configured == config.managed_harness_source is Some,
        r.harness.managed_entrypoint_configured == config.managed_harness_entrypoint is Some,
        r.setup_completed == config.setup_completed,
{
    RedactedConfig {
        ollama: RedactedService {
            url: config.ollama.url.clone(),
            executable: exe_of(&config.ollama.command),
            argument_count: config.ollama.args.len(),
        },
        harness: RedactedHarness {
            url: config.harness.url.clone(),
            executable: exe_of(&config.harness.command),
            argument_count: config.harness.args.len(),
            profile: config.harness_profile.clone(),
            managed_node_executable: exe_of(&config.managed_harness_node),
            managed_source_configured: config.managed_harness_source.is_some(),
            managed_entrypoint_configured: config.managed_harness_entrypoint.is_some(),
        },
        setup_completed: config.setup_completed,
    }
}

/// Removes paths, launch URLs and free-form messages from a snapshot.
pub fn redact_snapshot(snapshot: &mut StackSnapshot)
    ensures
        final(snapshot).config_path@ == "[redacted]"@,
        final(snapshot).ollama.message is None,
        final(snapshot).harness.message is None,
        final(snapshot).ollama.launch_url is None,
        final(snapshot).harness.launch_url is None,
        opt_view(final(snapshot).environment.node_path) == opt_string_exe(
            old(snapshot).environment.node_path,
        ),
        opt_view(final(snapshot).environment.git_path) == opt_string_exe(
            old(snapshot).environment.git_path,
        ),
        opt_view(final(snapshot).environment.ollama_path) == opt_string_exe(
            old(snapshot).environment.ollama_path,
        ),
        opt_view(final(snapshot).environment.harness_path) == opt_string_exe(
            old(snapshot).environment.harness_path,
        ),
        final(snapshot).ollama.kind == old(snapshot).ollama.kind,
        final(snapshot).ollama.state == old(snapshot).ollama.state,
        final(snapshot).ollama.version == old(snapshot).ollama.version,
        final(snapshot).ollama.pid == old(snapshot).ollama.pid,
        final(snapshot).harness.kind == old(snapshot).harness.kind,
        final(snapshot).harness.state == old(snapshot).harness.state,
        final(snapshot).harness.version == old(snapshot).harness.version,
        final(snapshot).harness.pid == old(snapshot).harness.pid,
        final(snapshot).environment.gpus == old(snapshot).environment.gpus,
        final(snapshot).installed_models == old(snapshot).installed_models,
        final(snapshot).running_models == old(snapshot).running_models,
        final(snapshot).ollama.url == old(snapshot).ollama.url,
        final(snapshot).ollama.managed == old(snapshot).ollama.managed,
        final(snapshot).harness.url == old(snapshot).harness.url,
        final(snapshot).harness.managed == old(snapshot).harness.managed,
        final(snapshot).environment.operating_system == old(snapshot).environment.operating_system,
        final(snapshot).environment.architecture == old(snapshot).environment.architecture,
        final(snapshot).compatibility == old(snapshot).compatibility,
        final(snapshot).managed_ollama == old(snapshot).managed_ollama,
        final(snapshot).managed_harness == old(snapshot).managed_harness,
{
    snapshot.config_path = String::from_str("[redacted]");
    snapshot.ollama.message = None;
    snapshot.harness.message = None;
    snapshot.ollama.launch_url = None;
    snapshot.harness.launch_url = None;
    snapshot.environment.node_path = exe_of(&snapshot.environment.node_path);
    snapshot.environment.git_path = exe_of(&snapshot.environment.git_path);
    snapshot.environment.ollama_path = exe_of(&snapshot.environment.ollama_path);
    snapshot.environment.harness_path = exe_of(&snapshot.environment.harness_path);
}

} // verus!
