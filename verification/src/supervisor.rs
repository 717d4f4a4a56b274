//! Decisions of the stack supervisor: start and stop plans, Harness profile
//! rules and launch arguments, version probes, log tails and messages.
use vstd::prelude::*;
use vstd::utf8::{decode_utf8, encode_utf8, valid_utf8};

use crate::compatibility::{opt_str_view, strip_v, strip_v_chars};
use crate::config::{ServiceConfig, StackConfig};
use crate::error::{StackError, config_error, config_error_str, is_config_error};
use crate::paths::{slashed, slashed_chars, file_extension, join_path, path_extension, push_path, Comp, components, dot, dotdot, file_stem, path_file_stem, seg_comps, starts_with_root};
use crate::text::{append_chars, append_str, chars_eq, chars_to_string, clone_string, concat3, concat4, concat_strs, contains, contains_chars, decimal, eq_ignore_ascii_case, eq_ignore_ascii_case_chars, join, join_chars, lines, lines_of, opt_view, split_char, str_eq, str_to_chars, string_views, trim, trim_chars, u64_string, views};
use crate::types::{EnvironmentSnapshot, ServiceKind, ServiceLogTail, ServiceSnapshot, ServiceState};
use crate::url::{parse_url, url_parse_result};
use crate::json::{JsonV, JsonValue, is_json_error, json_parse_bytes_result, json_pretty, json_pretty_result, json_view, parse_json_bytes, set_string_member, spec_string_at, string_at, strs, with_member};

verus! {

// ----- stack plans -----
pub open spec fn spec_start_plan(ollama_online: bool, harness_online: bool) -> Seq<ServiceKind> {
    let first = if ollama_online {
        Seq::<ServiceKind>::empty()
    } else {
        seq![ServiceKind::Ollama]
    };
    if harness_online {
        first
    } else {
        first.push(ServiceKind::Harness)
    }
}

pub open spec fn spec_stop_plan(ollama_managed: bool, harness_managed: bool) -> Seq<ServiceKind> {
    let first = if harness_managed {
        seq![ServiceKind::Harness]
    } else {
        Seq::<ServiceKind>::empty()
    };
    if ollama_managed {
        first.push(ServiceKind::Ollama)
    } else {
        first
    }
}

/// Services to start, dependencies first: Ollama before Harness, and
/// services already online are skipped.
pub fn stack_start_plan(ollama_online: bool, harness_online: bool) -> (r: Vec<ServiceKind>)
    ensures
        r@ == spec_start_plan(ollama_online, harness_online),
{
    let mut plan: Vec<ServiceKind> = Vec::new();
    if !ollama_online {
        plan.push(ServiceKind::Ollama);
    }
    if !harness_online {
        plan.push(ServiceKind::Harness);
    }
    assert(plan@ =~= spec_start_plan(ollama_online, harness_online));
    plan
}

/// Services to stop, in reverse dependency order; only app-managed ones.
pub fn stack_stop_plan(ollama_managed: bool, harness_managed: bool) -> (r: Vec<ServiceKind>)
    ensures
        r@ == spec_stop_plan(ollama_managed, harness_managed),
{
    let mut plan: Vec<ServiceKind> = Vec::new();
    if harness_managed {
        plan.push(ServiceKind::Harness);
    }
    if ollama_managed {
        plan.push(ServiceKind::Ollama);
    }
    assert(plan@ =~= spec_stop_plan(ollama_managed, harness_managed));
    plan
}

/// The start plan holds exactly the offline services, each once, and
/// starts Ollama before Harness.
pub proof fn law_start_plan_order(ollama_online: bool, harness_online: bool)
    ensures
        spec_start_plan(ollama_online, harness_online).contains(ServiceKind::Ollama) == !ollama_online,
        spec_start_plan(ollama_online, harness_online).contains(ServiceKind::Harness) == !harness_online,
        spec_start_plan(ollama_online, harness_online).no_duplicates(),
        !ollama_online && !harness_online ==> spec_start_plan(ollama_online, harness_online)
            == seq![ServiceKind::Ollama, ServiceKind::Harness],
{
    let p = spec_start_plan(ollama_online, harness_online);
    if !ollama_online {
        assert(p[0] == ServiceKind::Ollama);
    }
    if !harness_online {
        assert(p[p.len() - 1] == ServiceKind::Harness);
    }
}

/// The stop plan holds exactly the app-managed services and is the start
/// plan of those services reversed.
pub proof fn law_stop_plan_reverses_start(ollama_managed: bool, harness_managed: bool)
    ensures
        spec_stop_plan(ollama_managed, harness_managed).contains(ServiceKind::Ollama) == ollama_managed,
        spec_stop_plan(ollama_managed, harness_managed).contains(ServiceKind::Harness)
            == harness_managed,
        spec_stop_plan(ollama_managed, harness_managed) == spec_start_plan(
            !ollama_managed,
            !harness_managed,
        ).reverse(),
{
    let p = spec_stop_plan(ollama_managed, harness_managed);
    if ollama_managed {
        assert(p[p.len() - 1] == ServiceKind::Ollama);
    }
    if harness_managed {
        assert(p[0] == ServiceKind::Harness);
    }
    assert(p =~= spec_start_plan(!ollama_managed, !harness_managed).reverse());
}

// ----- Harness profiles -----
pub open spec fn profile_char_ok(c: char) -> bool {
    ('a' <= c && c <= 'z') || ('A' <= c && c <= 'Z') || ('0' <= c && c <= '9') || c == '-' || c
        == '_' || c == '.'
}

/// A profile name that is a plain directory name: 1 to 64 bytes of ASCII
/// letters, digits, `-`, `_` and `.`, and neither `.` nor `..`.
pub open spec fn profile_name_valid(profile: Seq<char>) -> bool {
    &&& profile.len() > 0
    &&& encode_utf8(profile).len() <= 64
    &&& forall|i: int| 0 <= i < profile.len() ==> profile_char_ok(#[trigger] profile[i])
    &&& profile != dot()
    &&& profile != dotdot()
}

pub open spec fn profile_message() -> Seq<char> {
    "Harness profile must contain only letters, numbers, dots, dashes, or underscores"@
}

pub fn validate_profile_name(profile: &str) -> (r: Result<(), StackError>)
    ensures
        match r {
            Ok(()) => profile_name_valid(profile@),
            Err(e) => !profile_name_valid(profile@) && is_config_error(e, profile_message()),
        },
{
    let chars = str_to_chars(profile);
    let mut valid = chars.len() > 0 && profile.as_bytes().len() <= 64;
    let mut i: usize = 0;
    while i < chars.len()
        invariant
            chars@ == profile@,
            i <= chars.len(),
            valid == (profile@.len() > 0 && encode_utf8(profile@).len() <= 64 && forall|j: int|
                0 <= j < i ==> profile_char_ok(#[trigger] profile@[j])),
        decreases chars.len() - i,
    {
        let c = chars[i];
        let ok = ('a' <= c && c <= 'z') || ('A' <= c && c <= 'Z') || ('0' <= c && c <= '9') || c
            == '-' || c == '_' || c == '.';
        proof {
            if !ok {
                assert(!profile_char_ok(profile@[i as int]));
            }
        }
        valid = valid && ok;
        i = i + 1;
    }
    let is_dot = chars.len() == 1 && chars[0] == '.';
    let is_dotdot = chars.len() == 2 && chars[0] == '.' && chars[1] == '.';
    proof {
        if profile@ == dot() {
            assert(is_dot);
        }
        if profile@ == dotdot() {
            assert(is_dotdot);
        }
        if is_dot {
            assert(profile@ =~= dot());
        }
        if is_dotdot {
            assert(profile@ =~= dotdot());
        }
    }
    if valid && !is_dot && !is_dotdot {
        Ok(())
    } else {
        Err(config_error_str("Harness profile must contain only letters, numbers, dots, dashes, or underscores"))
    }
}

proof fn lemma_split_without_sep(s: Seq<char>, sep: char)
    requires
        forall|i: int| 0 <= i < s.len() ==> s[i] != sep,
    ensures
        split_char(s, sep) == seq![s],
    decreases s.len(),
{
    if s.len() > 0 {
        lemma_split_without_sep(s.drop_last(), sep);
        assert(s.drop_last().push(s.last()) =~= s);
        assert(split_char(s, sep) =~= seq![s]);
    } else {
        assert(split_char(s, sep) =~= seq![Seq::<char>::empty()]);
        assert(s =~= Seq::<char>::empty());
    }
}

/// A valid profile name is a single normal path component, so the profile
/// directory stays inside the Harness `profiles` directory.
pub proof fn law_valid_profile_is_one_component(profile: Seq<char>)
    requires
        profile_name_valid(profile),
    ensures
        components(profile) == seq![Comp::Normal(profile)],
{
    assert forall|i: int| 0 <= i < profile.len() implies profile[i] != '/' by {
        assert(profile_char_ok(profile[i]));
    }
    lemma_split_without_sep(profile, '/');
    assert(profile_char_ok(profile[0]));
    assert(seq![profile].drop_last() =~= Seq::<Seq<char>>::empty());
    assert(seq![profile].last() == profile);
    assert(profile != dot() && profile != dotdot() && profile.len() > 0);
    assert(seg_comps(seq![profile].drop_last()) =~= Seq::<Comp>::empty());
    assert(seg_comps(seq![profile]) =~= seq![Comp::Normal(profile)]);
    assert(!starts_with_root(profile));
    assert(split_char(profile, '/')[0] == profile);
    assert(components(profile) =~= seq![Comp::Normal(profile)]);
}

// ----- launch arguments -----
pub open spec fn cli_args(entrypoint: Option<Seq<char>>, args: Seq<Seq<char>>) -> Seq<Seq<char>> {
    match entrypoint {
        Some(e) => seq![e] + args,
        None => args,
    }
}

/// Arguments for the Harness CLI: a managed installation runs its
/// entrypoint script first, as a separate argument.
pub fn harness_cli_args(config: &StackConfig, args: Vec<String>) -> (r: Vec<String>)
    ensures
        string_views(r@) == cli_args(opt_view(config.managed_harness_entrypoint), string_views(args@)),
{
    match &config.managed_harness_entrypoint {
        Some(entrypoint) => {
            let mut out: Vec<String> = Vec::new();
            out.push(clone_string(entrypoint));
            let mut i: usize = 0;
            while i < args.len()
                invariant
                    i <= args.len(),
                    string_views(out@) == seq![entrypoint@] + string_views(args@).take(i as int),
                decreases args.len() - i,
            {
                let c = clone_string(&args[i]);
                let ghost before = out@;
                out.push(c);
                assert(out@ =~= before.push(c));
                assert(string_views(out@) =~= string_views(before).push(c@));
                assert(string_views(args@).take(i + 1) =~= string_views(args@).take(i as int).push(
                    args@[i as int]@,
                ));
                assert(string_views(out@) =~= seq![entrypoint@] + string_views(args@).take(i + 1));
                i = i + 1;
            }
            assert(string_views(args@).take(args.len() as int) =~= string_views(args@));
            out
        },
        None => args,
    }
}

pub open spec fn profile_launch_args(profile: Seq<char>, host: Seq<char>, port: u16) -> Seq<Seq<char>> {
    seq![
        "--profile"@,
        profile,
        "--host"@,
        host,
        "--port"@,
        decimal(port as nat),
        "--no-open"@,
    ]
}

pub open spec fn spec_profile_args(config: StackConfig) -> Result<Seq<Seq<char>>, Seq<char>> {
    match url_parse_result(config.harness.url@) {
        Err(e) => Err("Harness URL is invalid: "@ + e),
        Ok(p) => match p.1 {
            None => Err("Harness URL has no host"@),
            Some(host) => match p.2 {
                None => Err("Harness URL has no port"@),
                Some(port) => Ok(
                    cli_args(
                        opt_view(config.managed_harness_entrypoint),
                        profile_launch_args(config.harness_profile@, host, port),
                    ),
                ),
            },
        },
    }
}

/// Arguments that run `dsh web` for the managed profile on the configured
/// loopback address without opening a browser.
pub fn harness_profile_args(config: &StackConfig) -> (r: Result<Vec<String>, StackError>)
    ensures
        match r {
            Ok(args) => spec_profile_args(*config) == Ok::<Seq<Seq<char>>, Seq<char>>(
                string_views(args@),
            ),
            Err(e) => spec_profile_args(*config) matches Err(m) && is_config_error(e, m),
        },
{
    let url = match parse_url(config.harness.url.as_str()) {
        Err(error) => {
            return Err(config_error(concat_strs("Harness URL is invalid: ", error.as_str())));
        },
        Ok(u) => u,
    };
    let host = match &url.host {
        None => {
            return Err(config_error_str("Harness URL has no host"));
        },
        Some(h) => h,
    };
    let port = match url.port {
        None => {
            return Err(config_error_str("Harness URL has no port"));
        },
        Some(p) => p,
    };
    let mut args: Vec<String> = Vec::new();
    args.push(String::from_str("--profile"));
    args.push(clone_string(&config.harness_profile));
    args.push(String::from_str("--host"));
    args.push(clone_string(host));
    args.push(String::from_str("--port"));
    args.push(u64_string(port as u64));
    args.push(String::from_str("--no-open"));
    assert(string_views(args@) =~= profile_launch_args(config.harness_profile@, host@, port));
    Ok(harness_cli_args(config, args))
}

/// The configuration that runs a managed Harness release: its executable as
/// the Harness command and its package entrypoint.
pub open spec fn harness_release_config(c: StackConfig, executable: String, entrypoint: String) -> StackConfig {
    StackConfig {
        harness: ServiceConfig { command: Some(executable), ..c.harness },
        managed_harness_entrypoint: Some(entrypoint),
        ..c
    }
}

/// The configuration with the given Harness home.
pub open spec fn profile_home_config(c: StackConfig, home: String) -> StackConfig {
    StackConfig { harness_home: Some(home), ..c }
}

/// The configuration `c` with launch arguments `args` for Harness.
pub open spec fn with_harness_args(c: StackConfig, args: Vec<String>) -> StackConfig {
    StackConfig { harness: ServiceConfig { args, ..c.harness }, ..c }
}

/// What `harness_profile_args` makes of `u`: `u` with those arguments, or
/// the configuration error it reports.
pub open spec fn relaunched(u: StackConfig, r: Result<StackConfig, StackError>) -> bool {
    match r {
        Ok(n) => n == with_harness_args(u, n.harness.args)
            && spec_profile_args(u) == Ok::<Seq<Seq<char>>, Seq<char>>(string_views(n.harness.args@)),
        Err(e) => spec_profile_args(u) matches Err(m) && is_config_error(e, m),
    }
}

fn relaunch(config: StackConfig) -> (r: Result<StackConfig, StackError>)
    ensures
        relaunched(config, r),
{
    let args = match harness_profile_args(&config) {
        Ok(args) => args,
        Err(error) => {
            return Err(error);
        },
    };
    let mut config = config;
    config.harness.args = args;
    Ok(config)
}

/// Points the configuration at an activated or restored managed Harness
/// release and recomputes the Harness launch arguments for the managed
/// profile.
pub fn with_harness_release(config: StackConfig, executable: String, entrypoint: String) -> (r: Result<
    StackConfig,
    StackError,
>)
    ensures
        relaunched(harness_release_config(config, executable, entrypoint), r),
{
    let mut config = config;
    config.harness.command = Some(executable);
    config.managed_harness_entrypoint = Some(entrypoint);
    relaunch(config)
}

/// Records the Harness home of a prepared profile and recomputes the Harness
/// launch arguments for it.
pub fn with_profile_home(config: StackConfig, home: String) -> (r: Result<StackConfig, StackError>)
    ensures
        relaunched(profile_home_config(config, home), r),
{
    let mut config = config;
    config.harness_home = Some(home);
    relaunch(config)
}

/// `npx --yes @deepseek-ai/dsh ...`, the fallback when no `dsh` is installed.
pub fn npx_args(args: &Vec<String>) -> (r: Vec<String>)
    ensures
        string_views(r@) == seq!["--yes"@, "@deepseek-ai/dsh"@] + string_views(args@),
{
    let mut out: Vec<String> = Vec::new();
    out.push(String::from_str("--yes"));
    out.push(String::from_str("@deepseek-ai/dsh"));
    let mut i: usize = 0;
    while i < args.len()
        invariant
            i <= args.len(),
            string_views(out@) == seq!["--yes"@, "@deepseek-ai/dsh"@] + string_views(args@).take(
                i as int,
            ),
        decreases args.len() - i,
    {
        let c = clone_string(&args[i]);
        let ghost before = out@;
        out.push(c);
        assert(out@ =~= before.push(c));
        assert(string_views(out@) =~= string_views(before).push(c@));
        assert(string_views(args@).take(i + 1) =~= string_views(args@).take(i as int).push(
            args@[i as int]@,
        ));
        assert(string_views(out@) =~= seq!["--yes"@, "@deepseek-ai/dsh"@] + string_views(
            args@,
        ).take(i + 1));
        i = i + 1;
    }
    assert(string_views(args@).take(args.len() as int) =~= string_views(args@));
    out
}

/// The command looked up on `PATH` for a service.
pub fn default_command_name(kind: ServiceKind) -> (r: &'static str)
    ensures
        r@ == match kind {
            ServiceKind::Ollama => "ollama"@,
            ServiceKind::Harness => "dsh"@,
        },
{
    match kind {
        ServiceKind::Ollama => "ollama",
        ServiceKind::Harness => "dsh",
    }
}

/// The file name of the Node executable copied into a managed Harness release.
pub fn managed_node_name(windows: bool) -> (r: &'static str)
    ensures
        r@ == if windows {
            "node.exe"@
        } else {
            "node"@
        },
{
    if windows {
        "node.exe"
    } else {
        "node"
    }
}

/// A configured command is the Harness CLI when its file stem is `dsh`.
/// Whether a command names the `dsh` CLI: its file stem, with either
/// separator, is `dsh` in any case.
pub open spec fn harness_command(value: Seq<char>) -> bool {
    match file_stem(slashed(value)) {
        Some(stem) => eq_ignore_ascii_case(stem, "dsh"@),
        None => false,
    }
}

pub fn is_harness_command(value: &str) -> (r: bool)
    ensures
        r == harness_command(value@),
{
    let chars = slashed_chars(&str_to_chars(value));
    match path_file_stem(&chars) {
        Some(stem) => {
            let dsh = str_to_chars("dsh");
            eq_ignore_ascii_case_chars(&stem, &dsh)
        },
        None => false,
    }
}

// ----- version probes -----
/// The first line of the output that is not blank, trimmed.
pub open spec fn first_line_in(ls: Seq<Seq<char>>) -> Option<Seq<char>>
    decreases ls.len(),
{
    if ls.len() == 0 {
        None
    } else if trim(ls[0]).len() > 0 {
        Some(trim(ls[0]))
    } else {
        first_line_in(ls.drop_first())
    }
}

pub fn first_nonempty_line(text: &str) -> (r: Option<String>)
    ensures
        opt_view(r) == first_line_in(lines(text@)),
{
    let chars = str_to_chars(text);
    let ls = lines_of(&chars);
    let ghost lv = views(ls@);
    let mut i: usize = 0;
    assert(lv.subrange(0, lv.len() as int) =~= lv);
    while i < ls.len()
        invariant
            i <= ls.len(),
            lv == views(ls@),
            lv == lines(text@),
            first_line_in(lv) == first_line_in(lv.subrange(i as int, lv.len() as int)),
        decreases ls.len() - i,
    {
        let t = trim_chars(&ls[i]);
        assert(lv.subrange(i as int, lv.len() as int)[0] == ls@[i as int]@);
        if t.len() > 0 {
            return Some(chars_to_string(&t));
        }
        assert(lv.subrange(i as int, lv.len() as int).drop_first() =~= lv.subrange(
            i + 1,
            lv.len() as int,
        ));
        i = i + 1;
    }
    None
}

/// What `ollama --version` printed, over both output streams.
pub open spec fn ollama_version_text(stdout: Seq<char>, stderr: Seq<char>) -> Seq<char> {
    trim(trim(stdout) + seq![' '] + trim(stderr))
}

pub fn combine_version_output(stdout: &str, stderr: &str) -> (r: String)
    ensures
        r@ == ollama_version_text(stdout@, stderr@),
{
    let a = trim_chars(&str_to_chars(stdout));
    let b = trim_chars(&str_to_chars(stderr));
    let ghost av = a@;
    let mut both = a;
    both.push(' ');
    assert(both@ =~= av + seq![' ']);
    append_chars(&mut both, &b);
    assert(both@ =~= trim(stdout@) + seq![' '] + trim(stderr@));
    let t = trim_chars(&both);
    chars_to_string(&t)
}

/// The staged Ollama reports the expected version when its output contains it.
pub fn ollama_reports_version(detected: &str, version: &str) -> (r: bool)
    ensures
        r == contains(detected@, version@),
{
    contains_chars(&str_to_chars(detected), &str_to_chars(version))
}

/// The staged Harness reports the expected version, with or without `v`.
pub fn harness_reports_version(detected: &str, version: &str) -> (r: bool)
    ensures
        r == (strip_v(detected@) == version@),
{
    let d = strip_v_chars(&str_to_chars(detected));
    chars_eq(&d, &str_to_chars(version))
}

/// The outcome of checking an import source's `package.json`.
pub open spec fn package_problem(
    name: Option<Seq<char>>,
    version: Option<Seq<char>>,
    expected: Seq<char>,
    has_entrypoint: bool,
) -> Option<Seq<char>> {
    if name != Some("@deepseek-ai/dsh"@) {
        Some("the Harness import source is not the @deepseek-ai/dsh package"@)
    } else if version != Some(expected) {
        Some(
            "installed Harness is "@ + match version {
                Some(v) => v,
                None => "unknown"@,
            } + ", but the tested release is "@ + expected
                + "; update the external Harness before importing it"@,
        )
    } else if !has_entrypoint {
        Some("the Harness import source is missing lib/bin.js"@)
    } else {
        None
    }
}

pub fn check_harness_package(
    name: Option<&str>,
    version: Option<&str>,
    expected: &str,
    has_entrypoint: bool,
) -> (r: Result<(), StackError>)
    ensures
        match r {
            Ok(()) => package_problem(opt_str_view(name), opt_str_view(version), expected@, has_entrypoint) is None,
            Err(e) => package_problem(opt_str_view(name), opt_str_view(version), expected@, has_entrypoint) matches Some(m)
                && is_config_error(e, m),
        },
{
    let right_name = match name {
        Some(n) => str_eq(n, "@deepseek-ai/dsh"),
        None => false,
    };
    if !right_name {
        return Err(config_error_str("the Harness import source is not the @deepseek-ai/dsh package"));
    }
    let right_version = match version {
        Some(v) => str_eq(v, expected),
        None => false,
    };
    if !right_version {
        let shown = match version {
            Some(v) => v,
            None => "unknown",
        };
        let mut m = str_to_chars("installed Harness is ");
        append_str(&mut m, shown);
        append_str(&mut m, ", but the tested release is ");
        append_str(&mut m, expected);
        append_str(&mut m, "; update the external Harness before importing it");
        return Err(config_error(chars_to_string(&m)));
    }
    if !has_entrypoint {
        return Err(config_error_str("the Harness import source is missing lib/bin.js"));
    }
    Ok(())
}

// ----- service logs -----
pub const LOG_TAIL_MAX_BYTES: u64 = 262144;

pub const LOG_TAIL_MAX_LINES: usize = 250;

/// Where reading the tail of a log of `source_bytes` bytes starts.
pub fn log_tail_start(source_bytes: u64) -> (r: u64)
    ensures
        r == tail_start(source_bytes),
        r == if source_bytes > LOG_TAIL_MAX_BYTES {
            source_bytes - LOG_TAIL_MAX_BYTES
        } else {
            0
        },
{
    source_bytes.saturating_sub(LOG_TAIL_MAX_BYTES)
}

/// What `String::from_utf8_lossy` makes of some bytes.
pub uninterp spec fn utf8_lossy(bytes: Seq<u8>) -> Seq<char>;

/// `String::from_utf8_lossy`; on valid UTF-8 it decodes exactly.
#[verifier::external_body]
pub fn decode_lossy(bytes: &[u8]) -> (r: String)
    ensures
        r@ == utf8_lossy(bytes@),
        valid_utf8(bytes@) ==> r@ == decode_utf8(bytes@),
{
    String::from_utf8_lossy(bytes).into_owned()
}

/// Bytes after the first newline; everything before it may be a partial line.
pub open spec fn after_first_newline(bytes: Seq<u8>) -> Seq<u8>
    decreases bytes.len(),
{
    if bytes.len() == 0 {
        bytes
    } else if bytes[0] == 10 {
        bytes.drop_first()
    } else {
        after_first_newline(bytes.drop_first())
    }
}

/// A window that starts inside the file drops its first, partial line; a
/// window without any newline is kept whole.
pub open spec fn window_bytes(bytes: Seq<u8>, start: u64) -> Seq<u8> {
    if start > 0 && bytes.contains(10u8) {
        after_first_newline(bytes)
    } else {
        bytes
    }
}

pub open spec fn last_lines(ls: Seq<Seq<char>>) -> Seq<Seq<char>> {
    if ls.len() > LOG_TAIL_MAX_LINES {
        ls.subrange(ls.len() - LOG_TAIL_MAX_LINES, ls.len() as int)
    } else {
        ls
    }
}

/// The tail of a log: whole lines only, at most `LOG_TAIL_MAX_LINES` of them.
pub open spec fn tail_lines(bytes: Seq<u8>, start: u64) -> Seq<Seq<char>> {
    last_lines(lines(utf8_lossy(window_bytes(bytes, start))))
}

fn skip_first_line(bytes: &Vec<u8>) -> (r: Vec<u8>)
    ensures
        r@ == (if bytes@.contains(10u8) {
            after_first_newline(bytes@)
        } else {
            bytes@
        }),
{
    let mut i: usize = 0;
    assert(bytes@.subrange(0, bytes.len() as int) =~= bytes@);
    while i < bytes.len() && bytes[i] != 10
        invariant
            i <= bytes.len(),
            forall|j: int| 0 <= j < i ==> bytes@[j] != 10u8,
            after_first_newline(bytes@) == after_first_newline(
                bytes@.subrange(i as int, bytes.len() as int),
            ),
        decreases bytes.len() - i,
    {
        assert(bytes@.subrange(i as int, bytes.len() as int).drop_first() =~= bytes@.subrange(
            i + 1,
            bytes.len() as int,
        ));
        i = i + 1;
    }
    let mut out: Vec<u8> = Vec::new();
    if i < bytes.len() {
        let mut k = i + 1;
        assert(bytes@.subrange(i as int, bytes.len() as int).drop_first() =~= bytes@.subrange(
            i + 1,
            bytes.len() as int,
        ));
        while k < bytes.len()
            invariant
                i < bytes.len(),
                i + 1 <= k <= bytes.len(),
                out@ == bytes@.subrange(i + 1, k as int),
            decreases bytes.len() - k,
        {
            out.push(bytes[k]);
            assert(out@ =~= bytes@.subrange(i + 1, k + 1));
            k = k + 1;
        }
        assert(bytes@.contains(10u8)) by {
            assert(bytes@[i as int] == 10u8);
        }
    } else {
        assert(!bytes@.contains(10u8));
        let mut k: usize = 0;
        while k < bytes.len()
            invariant
                k <= bytes.len(),
                out@ == bytes@.subrange(0, k as int),
            decreases bytes.len() - k,
        {
            out.push(bytes[k]);
            assert(out@ =~= bytes@.subrange(0, k + 1));
            k = k + 1;
        }
        assert(out@ =~= bytes@);
    }
    out
}

/// Where the tail of a log of `n` bytes is read from.
pub open spec fn tail_start(n: u64) -> u64 {
    if n > LOG_TAIL_MAX_BYTES {
        (n - LOG_TAIL_MAX_BYTES) as u64
    } else {
        0
    }
}

/// Log tail law: a log is cut exactly when it is longer than
/// `LOG_TAIL_MAX_BYTES`; the tail holds at most `LOG_TAIL_MAX_LINES` lines;
/// and a log within the byte limit shows its last lines whole.
pub proof fn law_log_tail(bytes: Seq<u8>, n: u64)
    ensures
        (tail_start(n) > 0) <==> n > LOG_TAIL_MAX_BYTES,
        tail_lines(bytes, tail_start(n)).len() <= LOG_TAIL_MAX_LINES,
        n <= LOG_TAIL_MAX_BYTES ==> tail_lines(bytes, tail_start(n)) == last_lines(lines(utf8_lossy(bytes))),
{
}


/// The tail of a service log read from byte `start` of a `source_bytes`
/// byte file; `bytes` are the bytes read from there.
pub fn service_log_tail(kind: ServiceKind, bytes: Vec<u8>, source_bytes: u64, start: u64) -> (r:
    ServiceLogTail)
    ensures
        r.kind == kind,
        r.exists,
        r.source_bytes == source_bytes,
        r.content@ == join(tail_lines(bytes@, start), seq!['\n']),
        r.line_count == tail_lines(bytes@, start).len(),
        r.line_count <= LOG_TAIL_MAX_LINES,
        r.truncated == (start > 0 || lines(utf8_lossy(window_bytes(bytes@, start))).len()
            > LOG_TAIL_MAX_LINES),
{
    let window = if start > 0 {
        skip_first_line(&bytes)
    } else {
        bytes
    };
    let text = decode_lossy(window.as_slice());
    let chars = str_to_chars(text.as_str());
    let all = lines_of(&chars);
    let mut truncated = start > 0;
    let mut from: usize = 0;
    if all.len() > LOG_TAIL_MAX_LINES {
        from = all.len() - LOG_TAIL_MAX_LINES;
        truncated = true;
    }
    let mut kept: Vec<Vec<char>> = Vec::new();
    let mut i = from;
    let ghost lv = views(all@);
    while i < all.len()
        invariant
            from <= i <= all.len(),
            lv == views(all@),
            views(kept@) == lv.subrange(from as int, i as int),
        decreases all.len() - i,
    {
        let line = all[i].clone();
        let ghost before = views(kept@);
        kept.push(line);
        assert(views(kept@) =~= before.push(line@));
        assert(views(kept@) =~= lv.subrange(from as int, i + 1));
        i = i + 1;
    }
    assert(views(kept@) =~= last_lines(lv));
    let mut sep: Vec<char> = Vec::new();
    sep.push('\n');
    assert(sep@ =~= seq!['\n']);
    let content = join_chars(&kept, &sep);
    ServiceLogTail {
        kind,
        content: chars_to_string(&content),
        source_bytes,
        line_count: kept.len(),
        truncated,
        exists: true,
    }
}

/// The tail reported for a log file that does not exist.
pub fn missing_log_tail(kind: ServiceKind) -> (r: ServiceLogTail)
    ensures
        r.kind == kind,
        !r.exists,
        !r.truncated,
        r.line_count == 0,
        r.source_bytes == 0,
        r.content@.len() == 0,
{
    ServiceLogTail {
        kind,
        content: String::new(),
        source_bytes: 0,
        line_count: 0,
        truncated: false,
        exists: false,
    }
}

/// The log file of a service inside the configuration's `logs` directory.
pub fn log_file_name(kind: ServiceKind) -> (r: String)
    ensures
        r@ == kind.spec_dir_name() + ".log"@,
{
    concat_strs(kind.dir_name(), ".log")
}

// ----- messages -----
pub open spec fn kind_names(kinds: Seq<ServiceKind>) -> Seq<Seq<char>> {
    kinds.map_values(|k: ServiceKind| k.spec_name())
}

fn names_joined(kinds: &Vec<ServiceKind>) -> (r: Vec<char>)
    ensures
        r@ == join(kind_names(kinds@), " and "@),
{
    let mut names: Vec<Vec<char>> = Vec::new();
    let mut i: usize = 0;
    while i < kinds.len()
        invariant
            i <= kinds.len(),
            views(names@) == kind_names(kinds@).take(i as int),
        decreases kinds.len() - i,
    {
        let n = str_to_chars(kinds[i].name());
        let ghost before = views(names@);
        names.push(n);
        assert(views(names@) =~= before.push(n@));
        assert(views(names@) =~= kind_names(kinds@).take(i + 1));
        i = i + 1;
    }
    assert(kind_names(kinds@).take(kinds.len() as int) =~= kind_names(kinds@));
    join_chars(&names, &str_to_chars(" and "))
}

/// The result message of a successful stack start.
pub fn stack_ready_message(started: &Vec<ServiceKind>, kept_online: bool) -> (r: String)
    ensures
        r@ == "Stack ready · started "@ + join(kind_names(started@), " and "@) + if kept_online {
            " · kept existing services online"@
        } else {
            Seq::<char>::empty()
        },
{
    let mut m = str_to_chars("Stack ready · started ");
    append_chars(&mut m, &names_joined(started));
    if kept_online {
        append_str(&mut m, " · kept existing services online");
    }
    chars_to_string(&m)
}

/// The error of a failed stack start, after the services that this action
/// started were stopped again (or not).
pub fn stack_start_failure(kind: ServiceKind, error: &str, rollback_failures: &Vec<String>) -> (r:
    StackError)
    ensures
        is_config_error(
            r,
            "could not start "@ + kind.spec_name() + ": "@ + error@ + "; "@ + if rollback_failures@.len()
                == 0 {
                "services started by this action were stopped"@
            } else {
                "rollback needs attention ("@ + join(string_views(rollback_failures@), ", "@)
                    + ")"@
            },
        ),
{
    let mut m = str_to_chars("could not start ");
    append_str(&mut m, kind.name());
    append_str(&mut m, ": ");
    append_str(&mut m, error);
    append_str(&mut m, "; ");
    let ghost prefix = m@;
    let mut tail = if rollback_failures.len() == 0 {
        str_to_chars("services started by this action were stopped")
    } else {
        let mut t = str_to_chars("rollback needs attention (");
        append_chars(&mut t, &join_strings(rollback_failures, ", "));
        append_str(&mut t, ")");
        t
    };
    append_chars(&mut m, &tail);
    assert(m@ =~= prefix + tail@);
    config_error(chars_to_string(&m))
}

pub fn join_strings(parts: &Vec<String>, sep: &str) -> (r: Vec<char>)
    ensures
        r@ == join(string_views(parts@), sep@),
{
    let mut cs: Vec<Vec<char>> = Vec::new();
    let mut i: usize = 0;
    while i < parts.len()
        invariant
            i <= parts.len(),
            views(cs@) == string_views(parts@).take(i as int),
        decreases parts.len() - i,
    {
        let c = str_to_chars(parts[i].as_str());
        let ghost before = views(cs@);
        cs.push(c);
        assert(views(cs@) =~= before.push(c@));
        assert(views(cs@) =~= string_views(parts@).take(i + 1));
        i = i + 1;
    }
    assert(string_views(parts@).take(parts.len() as int) =~= string_views(parts@));
    join_chars(&cs, &str_to_chars(sep))
}

/// The entry listed for one service that could not be stopped.
pub fn service_failure_entry(kind: ServiceKind, error: &str) -> (r: String)
    ensures
        r@ == kind.spec_name() + ": "@ + error@,
{
    concat3(kind.name(), ": ", error)
}

/// The result message of stopping the app-managed services.
pub fn stopped_message(stopped: &Vec<ServiceKind>) -> (r: String)
    ensures
        r@ == "Stopped app-managed "@ + join(kind_names(stopped@), " and "@)
            + " · external services were left alone"@,
{
    let mut m = str_to_chars("Stopped app-managed ");
    append_chars(&mut m, &names_joined(stopped));
    append_str(&mut m, " · external services were left alone");
    chars_to_string(&m)
}

/// The error when some app-managed services could not be stopped.
pub fn stop_failure(failures: &Vec<String>) -> (r: StackError)
    ensures
        is_config_error(
            r,
            "some app-managed services could not be stopped: "@ + join(
                string_views(failures@),
                ", "@,
            ),
        ),
{
    let mut m = str_to_chars("some app-managed services could not be stopped: ");
    append_chars(&mut m, &join_strings(failures, ", "));
    config_error(chars_to_string(&m))
}

/// The result message of releasing GPU memory of every loaded model.
pub fn unload_all_message(count: usize) -> (r: String)
    ensures
        r@ == if count == 0 {
            "No Ollama models are currently using GPU memory"@
        } else if count == 1 {
            "Released GPU memory used by 1 Ollama model"@
        } else {
            "Released GPU memory used by "@ + decimal(count as nat) + " Ollama models"@
        },
{
    if count == 0 {
        String::from_str("No Ollama models are currently using GPU memory")
    } else if count == 1 {
        String::from_str("Released GPU memory used by 1 Ollama model")
    } else {
        let digits = u64_string(count as u64);
        concat3("Released GPU memory used by ", digits.as_str(), " Ollama models")
    }
}

/// The snapshot of one service: online when its health probe answered, and
/// managed, with the process id, when the app launched it.
pub fn service_snapshot(
    kind: ServiceKind,
    online: bool,
    url: String,
    version: Option<String>,
    managed_pid: Option<u32>,
) -> (r: ServiceSnapshot)
    ensures
        r.kind == kind,
        r.state == (if online { ServiceState::Online } else { ServiceState::Offline }),
        r.url == url,
        r.version == version,
        r.managed == managed_pid.is_some(),
        r.pid == managed_pid,
        r.message.is_none(),
        r.launch_url.is_none(),
{
    ServiceSnapshot {
        kind,
        state: if online { ServiceState::Online } else { ServiceState::Offline },
        url,
        version,
        managed: managed_pid.is_some(),
        pid: managed_pid,
        message: None,
        launch_url: None,
    }
}

/// The environment report with the configured service commands in place of
/// the executables found on the search path; a service without a configured
/// command keeps what was found.
pub fn with_configured_paths(
    environment: EnvironmentSnapshot,
    ollama_command: Option<String>,
    harness_command: Option<String>,
) -> (r: EnvironmentSnapshot)
    ensures
        r.ollama_path == (if ollama_command.is_some() { ollama_command } else { environment.ollama_path }),
        r.harness_path == (if harness_command.is_some() { harness_command } else { environment.harness_path }),
        r.operating_system == environment.operating_system,
        r.architecture == environment.architecture,
        r.node_path == environment.node_path,
        r.git_path == environment.git_path,
        r.gpus == environment.gpus,
{
    let mut environment = environment;
    if ollama_command.is_some() {
        environment.ollama_path = ollama_command;
    }
    if harness_command.is_some() {
        environment.harness_path = harness_command;
    }
    environment
}

/// The services to stop when starting the stack fails: those already
/// started, most recent first.
pub fn stack_rollback_plan(started: &Vec<ServiceKind>) -> (r: Vec<ServiceKind>)
    ensures
        r@ == started@.reverse(),
{
    let mut out: Vec<ServiceKind> = Vec::new();
    let mut i: usize = started.len();
    while i > 0
        invariant
            i <= started.len(),
            out@ == started@.subrange(i as int, started.len() as int).reverse(),
        decreases i,
    {
        i = i - 1;
        out.push(started[i]);
        assert(out@ =~= started@.subrange(i as int, started.len() as int).reverse());
    }
    assert(started@.subrange(0, started.len() as int) =~= started@);
    out
}

/// The name of the temporary sibling in which a new profile is prepared.
pub fn profile_staging_name(profile: &str, nonce: u64) -> (r: String)
    ensures
        r@ == ".las-"@ + profile@ + "-"@ + decimal(nonce as nat),
{
    let digits = u64_string(nonce);
    concat4(".las-", profile, "-", digits.as_str())
}

/// The package name written into a prepared profile's `package.json`.
pub fn profile_package_name(profile: &str) -> (r: String)
    ensures
        r@ == "dsh-profile-"@ + profile@,
{
    concat_strs("dsh-profile-", profile)
}

/// Which version probe a snapshot runs for Harness.
#[derive(Debug, Clone, Copy, PartialEq, Eq, Structural)]
pub enum HarnessProbe {
    /// Run the managed entrypoint with the managed Node executable.
    Managed,
    /// Run the configured `dsh` CLI with `--version`.
    Cli,
    /// Do not probe.
    Skip,
}

pub fn harness_probe(harness_path: Option<&str>, entrypoint: Option<&str>) -> (r: HarnessProbe)
    ensures
        r == match (opt_str_view(harness_path), opt_str_view(entrypoint)) {
            (Some(_), Some(_)) => HarnessProbe::Managed,
            (Some(c), None) => if harness_command(c) {
                HarnessProbe::Cli
            } else {
                HarnessProbe::Skip
            },
            _ => HarnessProbe::Skip,
        },
{
    match (harness_path, entrypoint) {
        (Some(_), Some(_)) => HarnessProbe::Managed,
        (Some(command), None) => if is_harness_command(command) {
            HarnessProbe::Cli
        } else {
            HarnessProbe::Skip
        },
        _ => HarnessProbe::Skip,
    }
}

// ----- launching -----
pub open spec fn ext_is(ext: Option<Seq<char>>, e: Seq<char>) -> bool {
    match ext {
        Some(x) => eq_ignore_ascii_case(x, e),
        None => eq_ignore_ascii_case(Seq::empty(), e),
    }
}

/// How a program is started. On Windows a `.cmd` or `.bat` script runs
/// through `cmd.exe /d /s /c` and a `.ps1` script through PowerShell with
/// its execution policy bypassed; anything else runs directly.
pub open spec fn spec_launch_program(
    executable: Seq<char>,
    args: Seq<Seq<char>>,
    windows: bool,
) -> (Seq<char>, Seq<Seq<char>>) {
    let ext = file_extension(executable);
    if windows && (ext_is(ext, "cmd"@) || ext_is(ext, "bat"@)) {
        ("cmd.exe"@, seq!["/d"@, "/s"@, "/c"@, executable] + args)
    } else if windows && ext_is(ext, "ps1"@) {
        (
            "powershell.exe"@,
            seq!["-NoProfile"@, "-ExecutionPolicy"@, "Bypass"@, "-File"@, executable] + args,
        )
    } else {
        (executable, args)
    }
}

fn strings_then(prefix: Vec<String>, args: &Vec<String>) -> (r: Vec<String>)
    ensures
        string_views(r@) == string_views(prefix@) + string_views(args@),
{
    let mut out = prefix;
    let ghost start = string_views(out@);
    let mut i: usize = 0;
    while i < args.len()
        invariant
            i <= args.len(),
            string_views(out@) == start + string_views(args@).take(i as int),
        decreases args.len() - i,
    {
        let ghost before = out@;
        out.push(clone_string(&args[i]));
        assert(string_views(out@) =~= string_views(before).push(args@[i as int]@));
        assert(string_views(args@).take(i + 1) =~= string_views(args@).take(i as int).push(args@[i as int]@));
        i = i + 1;
    }
    assert(string_views(args@).take(args.len() as int) =~= string_views(args@));
    out
}

pub open spec fn opt_chars(o: Option<Vec<char>>) -> Option<Seq<char>> {
    match o {
        Some(v) => Some(v@),
        None => None,
    }
}

fn ext_matches(ext: &Option<Vec<char>>, e: &str) -> (r: bool)
    ensures
        r == ext_is(opt_chars(*ext), e@),
{
    let target = str_to_chars(e);
    match ext {
        Some(v) => eq_ignore_ascii_case_chars(v, &target),
        None => eq_ignore_ascii_case_chars(&Vec::new(), &target),
    }
}

pub fn launch_program(executable: &str, args: &Vec<String>, windows: bool) -> (r: (String, Vec<String>))
    ensures
        (r.0@, string_views(r.1@)) == spec_launch_program(executable@, string_views(args@), windows),
{
    let ext = path_extension(&str_to_chars(executable));
    assert(opt_chars(ext) == file_extension(executable@));
    if windows && (ext_matches(&ext, "cmd") || ext_matches(&ext, "bat")) {
        let mut prefix: Vec<String> = Vec::new();
        prefix.push(String::from_str("/d"));
        prefix.push(String::from_str("/s"));
        prefix.push(String::from_str("/c"));
        prefix.push(String::from_str(executable));
        assert(string_views(prefix@) =~= seq!["/d"@, "/s"@, "/c"@, executable@]);
        (String::from_str("cmd.exe"), strings_then(prefix, args))
    } else if windows && ext_matches(&ext, "ps1") {
        let mut prefix: Vec<String> = Vec::new();
        prefix.push(String::from_str("-NoProfile"));
        prefix.push(String::from_str("-ExecutionPolicy"));
        prefix.push(String::from_str("Bypass"));
        prefix.push(String::from_str("-File"));
        prefix.push(String::from_str(executable));
        assert(string_views(prefix@) =~= seq!["-NoProfile"@, "-ExecutionPolicy"@, "Bypass"@, "-File"@, executable@]);
        (String::from_str("powershell.exe"), strings_then(prefix, args))
    } else {
        (String::from_str(executable), strings_then(Vec::new(), args))
    }
}

pub open spec fn not_blank(o: Option<&str>) -> Option<Seq<char>> {
    match o {
        Some(v) => if trim(v@).len() > 0 {
            Some(v@)
        } else {
            None
        },
        None => None,
    }
}

fn not_blank_exec(o: Option<&str>) -> (r: Option<&str>)
    ensures
        opt_str_view(r) == not_blank(o),
{
    match o {
        Some(v) => if trim_chars(&str_to_chars(v)).len() > 0 {
            Some(v)
        } else {
            None
        },
        None => None,
    }
}

/// Where Harness keeps its profiles: the configured home when it is not
/// blank, else `DSH_HOME`, else `.dsh` in the user's home directory when
/// that directory exists.
pub open spec fn spec_harness_home(
    configured: Option<Seq<char>>,
    env_home: Option<Seq<char>>,
    user_home: Option<Seq<char>>,
    default_is_dir: bool,
) -> Result<Seq<char>, Seq<char>> {
    match configured {
        Some(c) => Ok(c),
        None => match env_home {
            Some(e) => Ok(e),
            None => match user_home {
                None => Err("the user home directory is unavailable"@),
                Some(h) => if default_is_dir {
                    Ok(push_path(h, ".dsh"@))
                } else {
                    Err("Harness home was not detected; set it in Settings"@)
                },
            },
        },
    }
}

/// `default_is_dir` tells whether `.dsh` below `user_home` is a directory.
pub fn harness_home(
    configured: Option<&str>,
    env_home: Option<&str>,
    user_home: Option<&str>,
    default_is_dir: bool,
) -> (r: Result<String, StackError>)
    ensures
        match r {
            Ok(p) => spec_harness_home(not_blank(configured), opt_str_view(env_home), opt_str_view(user_home), default_is_dir)
                == Ok::<Seq<char>, Seq<char>>(p@),
            Err(e) => spec_harness_home(not_blank(configured), opt_str_view(env_home), opt_str_view(user_home), default_is_dir) matches Err(m)
                && is_config_error(e, m),
        },
{
    match not_blank_exec(configured) {
        Some(c) => Ok(String::from_str(c)),
        None => match env_home {
            Some(e) => Ok(String::from_str(e)),
            None => match user_home {
                None => Err(config_error_str("the user home directory is unavailable")),
                Some(h) => if default_is_dir {
                    Ok(join_path(h, ".dsh"))
                } else {
                    Err(config_error_str("Harness home was not detected; set it in Settings"))
                },
            },
        },
    }
}

/// The program and arguments that start a service. A configured command
/// that is not blank is used when it is a file, else as found on the
/// search path; without one, the default command on the search path, then
/// for Harness `npx @deepseek-ai/dsh`, then for Ollama its per-user Windows
/// installation. The `*_found` arguments are what those lookups found.
pub open spec fn spec_launch(
    kind: ServiceKind,
    configured: Option<Seq<char>>,
    configured_is_file: bool,
    configured_found: Option<Seq<char>>,
    default_found: Option<Seq<char>>,
    npx_found: Option<Seq<char>>,
    local_ollama: Option<Seq<char>>,
    args: Seq<Seq<char>>,
) -> Option<(Seq<char>, Seq<Seq<char>>)> {
    match configured {
        Some(c) => if configured_is_file {
            Some((c, args))
        } else {
            match configured_found {
                Some(p) => Some((p, args)),
                None => None,
            }
        },
        None => match default_found {
            Some(p) => Some((p, args)),
            None => match (kind, npx_found, local_ollama) {
                (ServiceKind::Harness, Some(p), _) => Some((p, seq!["--yes"@, "@deepseek-ai/dsh"@] + args)),
                (ServiceKind::Ollama, _, Some(p)) => Some((p, args)),
                _ => None,
            },
        },
    }
}

pub fn resolve_launch(
    kind: ServiceKind,
    configured: Option<&str>,
    configured_is_file: bool,
    configured_found: Option<&str>,
    default_found: Option<&str>,
    npx_found: Option<&str>,
    local_ollama: Option<&str>,
    args: &Vec<String>,
) -> (r: Result<(String, Vec<String>), StackError>)
    ensures
        match r {
            Ok(l) => spec_launch(kind, not_blank(configured), configured_is_file, opt_str_view(configured_found),
                opt_str_view(default_found), opt_str_view(npx_found), opt_str_view(local_ollama), string_views(args@))
                == Some((l.0@, string_views(l.1@))),
            Err(e) => spec_launch(kind, not_blank(configured), configured_is_file, opt_str_view(configured_found),
                opt_str_view(default_found), opt_str_view(npx_found), opt_str_view(local_ollama), string_views(args@))
                is None && e == (StackError::CommandNotFound { service: e->service }) && e->service@ == kind.spec_name(),
        },
{
    let not_found = StackError::CommandNotFound { service: String::from_str(kind.name()) };
    match not_blank_exec(configured) {
        Some(c) => if configured_is_file {
            Ok((String::from_str(c), strings_then(Vec::new(), args)))
        } else {
            match configured_found {
                Some(p) => Ok((String::from_str(p), strings_then(Vec::new(), args))),
                None => Err(not_found),
            }
        },
        None => match default_found {
            Some(p) => Ok((String::from_str(p), strings_then(Vec::new(), args))),
            None => match (kind, npx_found, local_ollama) {
                (ServiceKind::Harness, Some(p), _) => Ok((String::from_str(p), npx_args(args))),
                (ServiceKind::Ollama, _, Some(p)) => Ok((String::from_str(p), strings_then(Vec::new(), args))),
                _ => Err(not_found),
            },
        },
    }
}


/// The `name` and `version` strings of a `package.json`, or its JSON error.
pub fn package_identity(bytes: &[u8]) -> (r: Result<(Option<String>, Option<String>), StackError>)
    ensures
        match json_parse_bytes_result(bytes@) {
            Err(_) => r is Err && is_json_error(r->Err_0, json_parse_bytes_result(bytes@)),
            Ok(jv) => r matches Ok((name, version)) && exists|v: JsonValue|
                json_view(v) == jv && opt_view(name) == spec_string_at(v, seq!["name"@])
                    && opt_view(version) == spec_string_at(v, seq!["version"@]),
        },
{
    match parse_json_bytes(bytes) {
        Err(e) => Err(StackError::Json(e)),
        Ok(value) => {
            let p_name: &[&str] = &["name"];
            let p_version: &[&str] = &["version"];
            assert(strs(p_name@) =~= seq!["name"@]);
            assert(strs(p_version@) =~= seq!["version"@]);
            let name = string_at(&value, p_name);
            let version = string_at(&value, p_version);
            Ok((name, version))
        },
    }
}

pub open spec fn not_object_message() -> Seq<char> {
    "the profile package.json is not a JSON object"@
}

/// A `package.json` with its `name` set to `name`, pretty-printed; the JSON
/// error of the input or of the printing, or a configuration error when the
/// document is neither an object nor `null`.
pub fn renamed_package_json(bytes: &[u8], name: String) -> (r: Result<Vec<u8>, StackError>)
    ensures
        match json_parse_bytes_result(bytes@) {
            Err(_) => r is Err && is_json_error(r->Err_0, json_parse_bytes_result(bytes@)),
            Ok(jv) => match with_member(jv, "name"@, JsonV::Str(name@)) {
                None => r matches Err(e) && is_config_error(e, not_object_message()),
                Some(nv) => match json_pretty_result(nv) {
                    Ok(b) => r matches Ok(x) && x@ == b,
                    Err(m) => r matches Err(e) && e == StackError::Json(e->Json_0) && (e->Json_0)@ == m,
                },
            },
        },
{
    let value = match parse_json_bytes(bytes) {
        Err(e) => {
            return Err(StackError::Json(e));
        },
        Ok(v) => v,
    };
    let renamed = match set_string_member(value, "name", name) {
        None => {
            return Err(config_error_str("the profile package.json is not a JSON object"));
        },
        Some(v) => v,
    };
    match json_pretty(&renamed) {
        Ok(b) => Ok(b),
        Err(e) => Err(StackError::Json(e)),
    }
}

} // verus!
