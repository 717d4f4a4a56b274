//! Version compatibility between the control plane and the runtimes it manages.
use vstd::prelude::*;

use crate::error::StackError;
use crate::text::{chars_to_string, concat_strs, opt_view, slice_chars, split_whitespace, str_to_chars, views, words};
use crate::types::ServiceKind;

verus! {

/// What `semver::Version::parse` reports for a text: `None` when it parses,
/// otherwise the text of the parse error.
pub uninterp spec fn semver_parse_error(s: Seq<char>) -> Option<Seq<char>>;

/// Whether the version that the first text parses to has lower precedence
/// than the version of the second (`Version`'s `<`); it speaks of texts that
/// both parse.
pub uninterp spec fn semver_lt(a: Seq<char>, b: Seq<char>) -> bool;

pub open spec fn semver_valid(s: Seq<char>) -> bool {
    semver_parse_error(s) is None
}

/// Both texts are versions and the first is lower; a text that is not a
/// version is never lower nor higher.
pub open spec fn version_lt(a: Seq<char>, b: Seq<char>) -> bool {
    semver_valid(a) && semver_valid(b) && semver_lt(a, b)
}

/// Calls `semver::Version::parse` and keeps only whether it failed and the
/// error's text. The grammar of versions is not restated here.
#[verifier::external_body]
pub fn semver_check(s: &str) -> (r: Option<String>)
    ensures
        opt_view(r) == semver_parse_error(s@),
{
    match semver::Version::parse(s) {
        Ok(_) => None,
        Err(error) => Some(error.to_string()),
    }
}

/// Parses both texts with `semver::Version::parse` and compares the two
/// versions with `<`; when either text does not parse the answer is `false`.
#[verifier::external_body]
pub fn semver_less(a: &str, b: &str) -> (r: bool)
    ensures
        semver_valid(a@) && semver_valid(b@) ==> r == semver_lt(a@, b@),
        !(semver_valid(a@) && semver_valid(b@)) ==> !r,
{
    match (semver::Version::parse(a), semver::Version::parse(b)) {
        (Ok(x), Ok(y)) => x < y,
        _ => false,
    }
}

/// A tested version range for one runtime. Versions are kept as the
/// semantic-version texts of the manifest.
#[derive(Debug, Clone)]
pub struct ComponentRequirement {
    pub kind: ServiceKind,
    pub display_name: String,
    pub minimum_version: String,
    pub maximum_version_exclusive: String,
    pub recommended_version: String,
    pub source: String,
}

#[derive(Debug, Clone)]
pub struct CompatibilityManifest {
    pub schema_version: u32,
    pub updated_at: String,
    pub components: Vec<ComponentRequirement>,
}

/// The position of the first requirement of the manifest for `kind`.
pub fn requirement_index(manifest: &CompatibilityManifest, kind: ServiceKind) -> (r: Option<usize>)
    ensures
        match r {
            Some(i) => i < manifest.components@.len() && manifest.components@[i as int].kind == kind
                && forall|j: int| 0 <= j < i ==> #[trigger] manifest.components@[j].kind != kind,
            None => forall|j: int| 0 <= j < manifest.components@.len() ==> #[trigger] manifest.components@[j].kind != kind,
        },
{
    let mut i: usize = 0;
    while i < manifest.components.len()
        invariant
            i <= manifest.components@.len(),
            forall|j: int| 0 <= j < i ==> #[trigger] manifest.components@[j].kind != kind,
        decreases manifest.components.len() - i,
    {
        if manifest.components[i].kind == kind {
            return Some(i);
        }
        i = i + 1;
    }
    None
}

#[derive(Debug, Clone, Copy, PartialEq, Eq, Structural)]
pub enum CompatibilityState {
    Compatible,
    Outdated,
    Untested,
    Unknown,
}

#[derive(Debug, Clone)]
pub struct ComponentCompatibility {
    pub kind: ServiceKind,
    pub display_name: String,
    pub detected_version: Option<String>,
    pub recommended_version: String,
    pub state: CompatibilityState,
    pub message: String,
    pub source: String,
}

#[derive(Debug, Clone)]
pub struct CompatibilityReport {
    pub manifest_updated_at: String,
    pub components: Vec<ComponentCompatibility>,
}

// ----- the embedded manifest -----
pub open spec fn manifest_updated_at() -> Seq<char> {
    "2026-08-31"@
}

pub open spec fn ollama_minimum() -> Seq<char> {
    "0.12.0"@
}

pub open spec fn ollama_maximum() -> Seq<char> {
    "1.0.0"@
}

pub open spec fn ollama_recommended() -> Seq<char> {
    "0.33.2"@
}

pub open spec fn harness_minimum() -> Seq<char> {
    "0.1.0"@
}

pub open spec fn harness_maximum() -> Seq<char> {
    "0.2.0"@
}

pub open spec fn harness_recommended() -> Seq<char> {
    "0.1.1"@
}

pub open spec fn ollama_source() -> Seq<char> {
    "https://github.com/ollama/ollama/releases"@
}

pub open spec fn harness_source() -> Seq<char> {
    "https://www.npmjs.com/package/@deepseek-ai/dsh"@
}

pub open spec fn requirement_is(
    r: ComponentRequirement,
    kind: ServiceKind,
    min: Seq<char>,
    max: Seq<char>,
    recommended: Seq<char>,
    source: Seq<char>,
) -> bool {
    &&& r.kind == kind
    &&& r.display_name@ == kind.spec_name()
    &&& r.minimum_version@ == min
    &&& r.maximum_version_exclusive@ == max
    &&& r.recommended_version@ == recommended
    &&& r.source@ == source
}

/// `c` assesses `detected` against the range `[min, max)` of runtime `kind`.
pub open spec fn assessed_against(
    c: ComponentCompatibility,
    kind: ServiceKind,
    min: Seq<char>,
    max: Seq<char>,
    recommended: Seq<char>,
    source: Seq<char>,
    detected: Option<Seq<char>>,
) -> bool {
    &&& c.kind == kind
    &&& c.display_name@ == kind.spec_name()
    &&& opt_view(c.detected_version) == detected
    &&& c.recommended_version@ == recommended
    &&& c.state == assess_state(min, max, detected)
    &&& c.message@ == assess_message(min, max, detected)
    &&& c.source@ == source
}

/// The manifest of tested runtime versions that ships with the library:
/// Ollama first, then Harness.
pub open spec fn is_embedded_manifest(m: CompatibilityManifest) -> bool {
    &&& m.schema_version == 1
    &&& m.updated_at@ == manifest_updated_at()
    &&& m.components@.len() == 2
    &&& requirement_is(
        m.components@[0],
        ServiceKind::Ollama,
        ollama_minimum(),
        ollama_maximum(),
        ollama_recommended(),
        ollama_source(),
    )
    &&& requirement_is(
        m.components@[1],
        ServiceKind::Harness,
        harness_minimum(),
        harness_maximum(),
        harness_recommended(),
        harness_source(),
    )
}

pub fn embedded_manifest() -> (r: Result<CompatibilityManifest, StackError>)
    ensures
        r matches Ok(m) && is_embedded_manifest(m),
{
    let mut components: Vec<ComponentRequirement> = Vec::new();
    components.push(
        ComponentRequirement {
            kind: ServiceKind::Ollama,
            display_name: String::from_str("Ollama"),
            minimum_version: String::from_str("0.12.0"),
            maximum_version_exclusive: String::from_str("1.0.0"),
            recommended_version: String::from_str("0.33.2"),
            source: String::from_str("https://github.com/ollama/ollama/releases"),
        },
    );
    components.push(
        ComponentRequirement {
            kind: ServiceKind::Harness,
            display_name: String::from_str("Harness"),
            minimum_version: String::from_str("0.1.0"),
            maximum_version_exclusive: String::from_str("0.2.0"),
            recommended_version: String::from_str("0.1.1"),
            source: String::from_str("https://www.npmjs.com/package/@deepseek-ai/dsh"),
        },
    );
    Ok(
        CompatibilityManifest {
            schema_version: 1,
            updated_at: String::from_str("2026-08-31"),
            components,
        },
    )
}

// ----- version detection -----
/// `trim_start_matches('v')`.
pub open spec fn strip_v(s: Seq<char>) -> Seq<char>
    decreases s.len(),
{
    if s.len() > 0 && s[0] == 'v' {
        strip_v(s.drop_first())
    } else {
        s
    }
}

pub fn strip_v_chars(s: &Vec<char>) -> (r: Vec<char>)
    ensures
        r@ == strip_v(s@),
{
    let mut i: usize = 0;
    assert(s@.subrange(0, s.len() as int) =~= s@);
    while i < s.len() && s[i] == 'v'
        invariant
            i <= s.len(),
            strip_v(s@) == strip_v(s@.subrange(i as int, s.len() as int)),
        decreases s.len() - i,
    {
        assert(s@.subrange(i as int, s.len() as int).drop_first() =~= s@.subrange(
            i + 1,
            s.len() as int,
        ));
        i = i + 1;
    }
    slice_chars(s, i, s.len())
}

/// The first whitespace-separated word that, without its leading `v`s, is a
/// semantic version.
pub open spec fn first_version(ws: Seq<Seq<char>>) -> Option<Seq<char>>
    decreases ws.len(),
{
    if ws.len() == 0 {
        None
    } else if semver_valid(strip_v(ws[0])) {
        Some(strip_v(ws[0]))
    } else {
        first_version(ws.drop_first())
    }
}

pub open spec fn spec_parse_version(value: Seq<char>) -> Option<Seq<char>> {
    first_version(words(value))
}

/// Finds the version in a `--version` style output such as `dsh 0.2.0`.
pub fn parse_version(value: &str) -> (r: Option<String>)
    ensures
        opt_view(r) == spec_parse_version(value@),
{
    let chars = str_to_chars(value);
    let ws = split_whitespace(&chars);
    let ghost wv = views(ws@);
    let mut i: usize = 0;
    assert(wv.subrange(0, wv.len() as int) =~= wv);
    while i < ws.len()
        invariant
            i <= ws.len(),
            wv == views(ws@),
            wv == words(value@),
            first_version(wv) == first_version(wv.subrange(i as int, wv.len() as int)),
        decreases ws.len() - i,
    {
        let candidate = strip_v_chars(&ws[i]);
        let text = chars_to_string(&candidate);
        assert(wv.subrange(i as int, wv.len() as int)[0] == ws@[i as int]@);
        if semver_check(text.as_str()).is_none() {
            return Some(text);
        }
        assert(wv.subrange(i as int, wv.len() as int).drop_first() =~= wv.subrange(
            i + 1,
            wv.len() as int,
        ));
        i = i + 1;
    }
    None
}

// ----- assessment -----
pub open spec fn detected_semver(detected: Option<Seq<char>>) -> Option<Seq<char>> {
    match detected {
        Some(text) => spec_parse_version(text),
        None => None,
    }
}

pub open spec fn assess_state(
    min: Seq<char>,
    max: Seq<char>,
    detected: Option<Seq<char>>,
) -> CompatibilityState {
    match detected_semver(detected) {
        Some(v) => if version_lt(v, min) {
            CompatibilityState::Outdated
        } else if !version_lt(v, max) {
            CompatibilityState::Untested
        } else {
            CompatibilityState::Compatible
        },
        None => CompatibilityState::Unknown,
    }
}

pub open spec fn assess_message(
    min: Seq<char>,
    max: Seq<char>,
    detected: Option<Seq<char>>,
) -> Seq<char> {
    match assess_state(min, max, detected) {
        CompatibilityState::Outdated => "Upgrade required; tested versions start at "@ + min,
        CompatibilityState::Untested => "Newer than the tested range ending before "@ + max,
        CompatibilityState::Compatible => "Within the tested compatibility range"@,
        CompatibilityState::Unknown => "Version unavailable; runtime may be offline or not installed"@,
    }
}

/// `c` is the assessment of `detected` against requirement `r`.
pub open spec fn assessed(
    c: ComponentCompatibility,
    r: ComponentRequirement,
    detected: Option<Seq<char>>,
) -> bool {
    let min = r.minimum_version@;
    let max = r.maximum_version_exclusive@;
    &&& c.kind == r.kind
    &&& c.display_name@ == r.display_name@
    &&& opt_view(c.detected_version) == detected
    &&& c.recommended_version@ == r.recommended_version@
    &&& c.state == assess_state(min, max, detected)
    &&& c.message@ == assess_message(min, max, detected)
    &&& c.source@ == r.source@
}

pub open spec fn opt_str_view(o: Option<&str>) -> Option<Seq<char>> {
    match o {
        Some(s) => Some(s@),
        None => None,
    }
}

pub fn assess_component(requirement: &ComponentRequirement, detected_version: Option<&str>) -> (r:
    ComponentCompatibility)
    ensures
        assessed(r, *requirement, opt_str_view(detected_version)),
{
    let parsed = match detected_version {
        Some(text) => parse_version(text),
        None => None,
    };
    let (state, message) = match parsed {
        Some(version) => {
            if semver_less(version.as_str(), requirement.minimum_version.as_str()) {
                (
                    CompatibilityState::Outdated,
                    concat_strs(
                        "Upgrade required; tested versions start at ",
                        requirement.minimum_version.as_str(),
                    ),
                )
            } else if !semver_less(
                version.as_str(),
                requirement.maximum_version_exclusive.as_str(),
            ) {
                (
                    CompatibilityState::Untested,
                    concat_strs(
                        "Newer than the tested range ending before ",
                        requirement.maximum_version_exclusive.as_str(),
                    ),
                )
            } else {
                (
                    CompatibilityState::Compatible,
                    String::from_str("Within the tested compatibility range"),
                )
            }
        },
        None => (
            CompatibilityState::Unknown,
            String::from_str("Version unavailable; runtime may be offline or not installed"),
        ),
    };
    let detected = match detected_version {
        Some(text) => Some(String::from_str(text)),
        None => None,
    };
    ComponentCompatibility {
        kind: requirement.kind,
        display_name: requirement.display_name.clone(),
        detected_version: detected,
        recommended_version: requirement.recommended_version.clone(),
        state,
        message,
        source: requirement.source.clone(),
    }
}

pub open spec fn detected_for(
    kind: ServiceKind,
    ollama: Option<Seq<char>>,
    harness: Option<Seq<char>>,
) -> Option<Seq<char>> {
    match kind {
        ServiceKind::Ollama => ollama,
        ServiceKind::Harness => harness,
    }
}

/// Assesses the detected runtime versions against the embedded manifest:
/// one entry per manifest component, in manifest order.
pub fn assess_versions(ollama_version: Option<&str>, harness_version: Option<&str>) -> (r: Result<
    CompatibilityReport,
    StackError,
>)
    ensures
        r matches Ok(report) && {
            &&& report.manifest_updated_at@ == manifest_updated_at()
            &&& report.components@.len() == 2
            &&& assessed_against(
                report.components@[0],
                ServiceKind::Ollama,
                ollama_minimum(),
                ollama_maximum(),
                ollama_recommended(),
                ollama_source(),
                opt_str_view(ollama_version),
            )
            &&& assessed_against(
                report.components@[1],
                ServiceKind::Harness,
                harness_minimum(),
                harness_maximum(),
                harness_recommended(),
                harness_source(),
                opt_str_view(harness_version),
            )
        },
{
    let manifest = match embedded_manifest() {
        Ok(m) => m,
        Err(e) => return Err(e),
    };
    let mut components: Vec<ComponentCompatibility> = Vec::new();
    let mut i: usize = 0;
    while i < manifest.components.len()
        invariant
            is_embedded_manifest(manifest),
            i <= manifest.components.len(),
            components@.len() == i,
            forall|j: int|
                0 <= j < i ==> assessed(
                    #[trigger] components@[j],
                    manifest.components@[j],
                    detected_for(
                        manifest.components@[j].kind,
                        opt_str_view(ollama_version),
                        opt_str_view(harness_version),
                    ),
                ),
        decreases manifest.components.len() - i,
    {
        let requirement = &manifest.components[i];
        let detected = match requirement.kind {
            ServiceKind::Ollama => ollama_version,
            ServiceKind::Harness => harness_version,
        };
        components.push(assess_component(requirement, detected));
        i = i + 1;
    }
    Ok(CompatibilityReport { manifest_updated_at: manifest.updated_at, components })
}

} // verus!
