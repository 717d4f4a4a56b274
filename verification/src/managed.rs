//! App-owned, side-by-side runtime releases with one-step rollback.
use vstd::prelude::*;

use crate::artifact::manifest_path;
use crate::paths::{collect_path, is_single_path_component, join_path, path_stays_inside, path_to_portable_string, portable, push_path, single_component, stays_inside};
use crate::text::{append_chars, chars_to_string, concat3, concat_strs, contains, decimal, opt_view, split_on_char, str_to_chars, u64_chars};
use crate::compatibility::{semver_check, semver_parse_error, semver_valid};
use crate::error::{StackError, config_error, config_error_str, is_config_error};
use crate::types::ServiceKind;

verus! {

#[derive(Debug, Clone)]
pub struct ManagedRuntimeRelease {
    pub release_id: String,
    pub version: String,
    pub executable_relative_path: String,
    pub activated_at_unix: u64,
}

/// The release pointer of one runtime: the active release and the one
/// that a rollback returns to.
#[derive(Debug, Clone)]
pub struct ManagedRuntimeState {
    pub current: Option<ManagedRuntimeRelease>,
    pub previous: Option<ManagedRuntimeRelease>,
}

impl Default for ManagedRuntimeState {
    fn default() -> (r: ManagedRuntimeState)
        ensures
            r.current is None,
            r.previous is None,
    {
        ManagedRuntimeState { current: None, previous: None }
    }
}

#[derive(Debug, Clone)]
pub struct ManagedRuntimeStatus {
    pub installed: bool,
    pub current_version: Option<String>,
    pub previous_version: Option<String>,
    pub can_rollback: bool,
}

pub open spec fn release_version(r: Option<ManagedRuntimeRelease>) -> Option<Seq<char>> {
    match r {
        Some(release) => Some(release.version@),
        None => None,
    }
}

/// What the status of a runtime reports about its release pointer.
pub open spec fn status_matches(status: ManagedRuntimeStatus, state: ManagedRuntimeState) -> bool {
    &&& status.installed == state.current is Some
    &&& opt_view(status.current_version) == release_version(state.current)
    &&& opt_view(status.previous_version) == release_version(state.previous)
    &&& status.can_rollback == state.previous is Some
}

fn version_of(r: &Option<ManagedRuntimeRelease>) -> (v: Option<String>)
    ensures
        opt_view(v) == release_version(*r),
{
    match r {
        Some(release) => Some(release.version.clone()),
        None => None,
    }
}

pub fn runtime_status(state: &ManagedRuntimeState) -> (r: ManagedRuntimeStatus)
    ensures
        status_matches(r, *state),
{
    ManagedRuntimeStatus {
        installed: state.current.is_some(),
        current_version: version_of(&state.current),
        previous_version: version_of(&state.previous),
        can_rollback: state.previous.is_some(),
    }
}

/// Activation makes the new release current and keeps the old current one
/// for rollback.
pub open spec fn spec_activate(
    state: ManagedRuntimeState,
    release: ManagedRuntimeRelease,
) -> ManagedRuntimeState {
    ManagedRuntimeState { current: Some(release), previous: state.current }
}

pub fn activate_release(state: ManagedRuntimeState, release: ManagedRuntimeRelease) -> (r:
    ManagedRuntimeState)
    ensures
        r == spec_activate(state, release),
{
    ManagedRuntimeState { current: Some(release), previous: state.current }
}

/// Rollback exchanges the current and the previous release; it needs a
/// previous release.
pub open spec fn spec_rollback(state: ManagedRuntimeState) -> Option<ManagedRuntimeState> {
    match state.previous {
        Some(p) => Some(ManagedRuntimeState { current: Some(p), previous: state.current }),
        None => None,
    }
}

pub open spec fn no_previous_message(kind: ServiceKind) -> Seq<char> {
    "no previous "@ + kind.spec_name() + " release is available"@
}

pub fn rollback_release(kind: ServiceKind, state: ManagedRuntimeState) -> (r: Result<
    ManagedRuntimeState,
    StackError,
>)
    ensures
        match r {
            Ok(s) => spec_rollback(state) == Some(s),
            Err(e) => spec_rollback(state) is None && is_config_error(e, no_previous_message(kind)),
        },
{
    match state.previous {
        Some(p) => Ok(ManagedRuntimeState { current: Some(p), previous: state.current }),
        None => Err(config_error(concat3("no previous ", kind.name(), " release is available"))),
    }
}

/// Rolling back twice returns to the state before the first rollback.
pub proof fn law_rollback_twice_restores(state: ManagedRuntimeState)
    requires
        state.previous is Some,
        state.current is Some,
    ensures
        spec_rollback(state) matches Some(s) && spec_rollback(s) == Some(state),
{
}

/// After an activation the status reports the new version as current and
/// the formerly current version as the rollback target.
pub proof fn law_activation_keeps_previous(
    state: ManagedRuntimeState,
    release: ManagedRuntimeRelease,
    status: ManagedRuntimeStatus,
)
    requires
        status_matches(status, spec_activate(state, release)),
    ensures
        status.installed,
        opt_view(status.current_version) == Some(release.version@),
        opt_view(status.previous_version) == release_version(state.current),
        status.can_rollback == state.current is Some,
{
}

/// A rollback right after activating over an installed release returns
/// the formerly current release, and keeps the new one as the target of the
/// next rollback.
pub proof fn law_rollback_undoes_activation(
    state: ManagedRuntimeState,
    release: ManagedRuntimeRelease,
)
    requires
        state.current is Some,
    ensures
        spec_rollback(spec_activate(state, release)) == Some(
            ManagedRuntimeState { current: state.current, previous: Some(release) },
        ),
{
}

/// Storage of the managed runtimes below one root directory.
#[derive(Debug, Clone)]
pub struct ManagedRuntimeStore {
    root: String,
}

impl ManagedRuntimeStore {
    pub closed spec fn spec_root(&self) -> Seq<char> {
        self.root@
    }

    pub fn at(root: String) -> (r: Self)
        ensures
            r.spec_root() == root@,
    {
        ManagedRuntimeStore { root }
    }

    pub fn root(&self) -> (r: &str)
        ensures
            r@ == self.spec_root(),
    {
        self.root.as_str()
    }

    pub open spec fn spec_component_dir(&self, kind: ServiceKind) -> Seq<char> {
        push_path(self.spec_root(), kind.spec_dir_name())
    }

    /// The directory that holds one runtime's state, staging and releases.
    pub fn component_dir(&self, kind: ServiceKind) -> (r: String)
        ensures
            r@ == self.spec_component_dir(kind),
    {
        join_path(self.root.as_str(), kind.dir_name())
    }

    pub open spec fn spec_staging_dir(&self, kind: ServiceKind, version: Seq<char>, nonce: u64) -> Seq<char> {
        push_path(
            push_path(self.spec_component_dir(kind), "staging"@),
            version + seq!['-'] + decimal(nonce as nat),
        )
    }

    /// The unique staging directory of one installation transaction.
    pub fn staging_directory(&self, kind: ServiceKind, version: &str, nonce: u64) -> (r: Result<
        String,
        StackError,
    >)
        ensures
            match r {
                Ok(p) => semver_valid(version@) && p@ == self.spec_staging_dir(kind, version@, nonce),
                Err(e) => !semver_valid(version@) && is_config_error(e, version_error_message(version@)),
            },
    {
        match validate_version(version) {
            Err(e) => Err(e),
            Ok(()) => {
                let staging_root = join_path(self.component_dir(kind).as_str(), "staging");
                let id = release_id_for(version, nonce);
                Ok(join_path(staging_root.as_str(), id.as_str()))
            },
        }
    }

    pub open spec fn spec_release_dir(&self, kind: ServiceKind, release_id: Seq<char>) -> Seq<char> {
        push_path(push_path(self.spec_component_dir(kind), "releases"@), release_id)
    }

    /// Where the executable of the active release lies, after checking that
    /// the recorded release identifier and relative path cannot leave the
    /// release directory.
    pub fn current_executable_path(&self, kind: ServiceKind, state: &ManagedRuntimeState) -> (r:
        Result<String, StackError>)
        ensures
            match r {
                Ok(p) => state.current matches Some(release) && single_component(
                    release.release_id@,
                ) && stays_inside(manifest_path(release.executable_relative_path@)) && p@ == push_path(
                    self.spec_release_dir(kind, release.release_id@),
                    manifest_path(release.executable_relative_path@),
                ),
                Err(e) => match state.current {
                    None => is_config_error(
                        e,
                        "no managed "@ + kind.spec_name() + " release is active"@,
                    ),
                    Some(release) => if !single_component(release.release_id@) {
                        is_config_error(
                            e,
                            "managed runtime state contains an invalid release identifier"@,
                        )
                    } else {
                        !stays_inside(manifest_path(release.executable_relative_path@)) && is_config_error(
                            e,
                            inside_release_message(),
                        )
                    },
                },
            },
    {
        let release = match &state.current {
            Some(r) => r,
            None => {
                return Err(config_error(concat3("no managed ", kind.name(), " release is active")));
            },
        };
        if !is_single_path_component(release.release_id.as_str()) {
            return Err(
                config_error_str("managed runtime state contains an invalid release identifier"),
            );
        }
        let relative = portable_string_to_path(release.executable_relative_path.as_str());
        match validate_relative_executable(relative.as_str()) {
            Err(e) => return Err(e),
            Ok(()) => {},
        }
        let releases = join_path(self.component_dir(kind).as_str(), "releases");
        let dir = join_path(releases.as_str(), release.release_id.as_str());
        Ok(join_path(dir.as_str(), relative.as_str()))
    }
}

pub open spec fn version_error_message(version: Seq<char>) -> Seq<char> {
    "invalid managed runtime version: "@ + semver_parse_error(version)->Some_0
}

pub fn validate_version(version: &str) -> (r: Result<(), StackError>)
    ensures
        match r {
            Ok(()) => semver_valid(version@),
            Err(e) => !semver_valid(version@) && is_config_error(e, version_error_message(version@)),
        },
{
    match semver_check(version) {
        None => Ok(()),
        Some(error) => Err(config_error(concat_strs("invalid managed runtime version: ", error.as_str()))),
    }
}

pub open spec fn inside_release_message() -> Seq<char> {
    "managed runtime executable path must stay inside its release"@
}

pub fn validate_relative_executable(path: &str) -> (r: Result<(), StackError>)
    ensures
        match r {
            Ok(()) => stays_inside(path@),
            Err(e) => !stays_inside(path@) && is_config_error(e, inside_release_message()),
        },
{
    let chars = str_to_chars(path);
    if path_stays_inside(&chars) {
        Ok(())
    } else {
        Err(config_error_str("managed runtime executable path must stay inside its release"))
    }
}

/// The path that a portable `/`-separated text names: its pieces pushed in
/// order (an empty piece adds a separator, a leading `/` is dropped).
pub fn portable_string_to_path(value: &str) -> (r: String)
    ensures
        r@ == manifest_path(value@),
{
    let chars = str_to_chars(value);
    let pieces = split_on_char(&chars, '/');
    let path = collect_path(&pieces);
    chars_to_string(&path)
}

/// `{version}-{nonce}`, the name of a staging directory and of a release.
pub fn release_id_for(version: &str, nonce: u64) -> (r: String)
    ensures
        r@ == version@ + seq!['-'] + decimal(nonce as nat),
{
    let mut v = str_to_chars(version);
    v.push('-');
    let digits = u64_chars(nonce);
    append_chars(&mut v, &digits);
    chars_to_string(&v)
}

/// The release record written when a staged runtime is activated.
pub fn new_release(version: &str, executable_relative_path: &str, nonce: u64, activated_at_unix: u64) -> (r:
    ManagedRuntimeRelease)
    ensures
        r.release_id@ == version@ + seq!['-'] + decimal(nonce as nat),
        r.version@ == version@,
        r.executable_relative_path@ == portable(executable_relative_path@),
        r.activated_at_unix == activated_at_unix,
{
    ManagedRuntimeRelease {
        release_id: release_id_for(version, nonce),
        version: String::from_str(version),
        executable_relative_path: path_to_portable_string(executable_relative_path),
        activated_at_unix,
    }
}

} // verus!
