//! Identity records of the processes that the stack launched, one per service.
use vstd::prelude::*;

use crate::error::{StackError, config_error, is_config_error};
use crate::text::{chars_eq, clone_opt_string, clone_string, clone_strings, concat_strs, decimal, eq_ignore_ascii_case, eq_ignore_ascii_case_chars, opt_view, str_to_chars, string_views, u64_string};
use crate::types::ServiceKind;

verus! {

pub const REGISTRY_VERSION: u32 = 1;

#[derive(Debug, Clone)]
pub struct ManagedProcessRecord {
    pub kind: ServiceKind,
    pub pid: u32,
    pub started_at_unix: u64,
    pub executable: String,
    pub args: Vec<String>,
    pub authenticated_url: Option<String>,
}

/// The values of a record.
pub type RecordView = (ServiceKind, u32, u64, Seq<char>, Seq<Seq<char>>, Option<Seq<char>>);

impl ManagedProcessRecord {
    pub open spec fn view(&self) -> RecordView {
        (
            self.kind,
            self.pid,
            self.started_at_unix,
            self.executable@,
            string_views(self.args@),
            opt_view(self.authenticated_url),
        )
    }

    pub fn duplicate(&self) -> (r: ManagedProcessRecord)
        ensures
            r@ == self@,
    {
        ManagedProcessRecord {
            kind: self.kind,
            pid: self.pid,
            started_at_unix: self.started_at_unix,
            executable: clone_string(&self.executable),
            args: clone_strings(&self.args),
            authenticated_url: clone_opt_string(&self.authenticated_url),
        }
    }
}

pub open spec fn opt_record_view(r: Option<ManagedProcessRecord>) -> Option<RecordView> {
    match r {
        Some(x) => Some(x@),
        None => None,
    }
}

/// The persisted registry: a format version and at most one record per service.
#[derive(Debug, Clone)]
pub struct RegistryState {
    version: u32,
    ollama: Option<ManagedProcessRecord>,
    harness: Option<ManagedProcessRecord>,
}

impl Default for RegistryState {
    fn default() -> (r: RegistryState)
        ensures
            r.spec_version() == REGISTRY_VERSION,
            forall|k: ServiceKind| r.slot(k) is None,
    {
        RegistryState { version: REGISTRY_VERSION, ollama: None, harness: None }
    }
}

impl RegistryState {
    /// The registry format version of the state.
    pub closed spec fn spec_version(&self) -> u32 {
        self.version
    }

    pub fn version(&self) -> (r: u32)
        ensures
            r == self.spec_version(),
    {
        self.version
    }

    /// The record kept for a service.
    pub closed spec fn slot(&self, kind: ServiceKind) -> Option<RecordView> {
        match kind {
            ServiceKind::Ollama => opt_record_view(self.ollama),
            ServiceKind::Harness => opt_record_view(self.harness),
        }
    }

    /// A state read back from storage with the given version and records.
    pub fn from_parts(
        version: u32,
        ollama: Option<ManagedProcessRecord>,
        harness: Option<ManagedProcessRecord>,
    ) -> (r: RegistryState)
        requires
            ollama matches Some(o) ==> o.kind == ServiceKind::Ollama,
            harness matches Some(h) ==> h.kind == ServiceKind::Harness,
        ensures
            r.spec_version() == version,
            r.slot(ServiceKind::Ollama) == opt_record_view(ollama),
            r.slot(ServiceKind::Harness) == opt_record_view(harness),
    {
        RegistryState { version, ollama, harness }
    }

    pub fn get(&self, kind: ServiceKind) -> (r: Option<ManagedProcessRecord>)
        ensures
            opt_record_view(r) == self.slot(kind),
    {
        let slot = match kind {
            ServiceKind::Ollama => &self.ollama,
            ServiceKind::Harness => &self.harness,
        };
        match slot {
            Some(record) => Some(record.duplicate()),
            None => None,
        }
    }

    /// All records, Ollama first.
    pub fn records(&self) -> (r: Vec<ManagedProcessRecord>)
        ensures
            r@.map_values(|x: ManagedProcessRecord| x@) == match (
                self.slot(ServiceKind::Ollama),
                self.slot(ServiceKind::Harness),
            ) {
                (Some(o), Some(h)) => seq![o, h],
                (Some(o), None) => seq![o],
                (None, Some(h)) => seq![h],
                (None, None) => Seq::<RecordView>::empty(),
            },
    {
        let mut out: Vec<ManagedProcessRecord> = Vec::new();
        match &self.ollama {
            Some(r) => out.push(r.duplicate()),
            None => {},
        }
        match &self.harness {
            Some(r) => out.push(r.duplicate()),
            None => {},
        }
        assert(out@.map_values(|x: ManagedProcessRecord| x@) =~= match (
            self.slot(ServiceKind::Ollama),
            self.slot(ServiceKind::Harness),
        ) {
            (Some(o), Some(h)) => seq![o, h],
            (Some(o), None) => seq![o],
            (None, Some(h)) => seq![h],
            (None, None) => Seq::<RecordView>::empty(),
        });
        out
    }

    /// Stores the record under its service, replacing an earlier one.
    pub fn upsert(&mut self, record: ManagedProcessRecord)
        ensures
            final(self).spec_version() == old(self).spec_version(),
            final(self).slot(record.kind) == Some(record@),
            forall|k: ServiceKind| k != record.kind ==> final(self).slot(k) == old(self).slot(k),
    {
        match record.kind {
            ServiceKind::Ollama => self.ollama = Some(record),
            ServiceKind::Harness => self.harness = Some(record),
        }
    }

    /// Removes and returns the record of one service.
    pub fn remove(&mut self, kind: ServiceKind) -> (r: Option<ManagedProcessRecord>)
        ensures
            opt_record_view(r) == old(self).slot(kind),
            final(self).spec_version() == old(self).spec_version(),
            final(self).slot(kind) is None,
            forall|k: ServiceKind| k != kind ==> final(self).slot(k) == old(self).slot(k),
    {
        match kind {
            ServiceKind::Ollama => self.ollama.take(),
            ServiceKind::Harness => self.harness.take(),
        }
    }

    /// Records the authenticated launch URL of a running service.
    pub fn set_authenticated_url(&mut self, kind: ServiceKind, authenticated_url: Option<String>) -> (r:
        Result<(), StackError>)
        ensures
            final(self).spec_version() == old(self).spec_version(),
            match r {
                Ok(()) => old(self).slot(kind) matches Some(v) && final(self).slot(kind) == Some(
                    (v.0, v.1, v.2, v.3, v.4, opt_view(authenticated_url)),
                ),
                Err(e) => old(self).slot(kind) is None && is_config_error(
                    e,
                    kind.spec_name() + " process record disappeared during startup"@,
                ) && final(self).slot(kind) == old(self).slot(kind),
            },
            forall|k: ServiceKind| k != kind ==> final(self).slot(k) == old(self).slot(k),
    {
        let slot = match kind {
            ServiceKind::Ollama => &mut self.ollama,
            ServiceKind::Harness => &mut self.harness,
        };
        match slot {
            Some(record) => {
                record.authenticated_url = authenticated_url;
                Ok(())
            },
            None => Err(
                config_error(
                    concat_strs(kind.name(), " process record disappeared during startup"),
                ),
            ),
        }
    }
}

/// Removing one service's record leaves the other service's record as it was.
pub proof fn law_remove_only_selected(
    before: RegistryState,
    after: RegistryState,
    kind: ServiceKind,
    other: ServiceKind,
)
    requires
        after.slot(kind) is None,
        forall|k: ServiceKind| k != kind ==> after.slot(k) == before.slot(k),
        other != kind,
    ensures
        after.slot(other) == before.slot(other),
{
}

pub open spec fn version_message(version: u32) -> Seq<char> {
    "unsupported managed-process registry version "@ + decimal(version as nat)
}

fn check_version(state: RegistryState) -> (r: Result<RegistryState, StackError>)
    ensures
        match r {
            Ok(s) => s == state && state.spec_version() == REGISTRY_VERSION,
            Err(e) => state.spec_version() != REGISTRY_VERSION && is_config_error(
                e,
                version_message(state.spec_version()),
            ),
        },
{
    if state.version != REGISTRY_VERSION {
        let digits = u64_string(state.version as u64);
        return Err(
            config_error(
                concat_strs("unsupported managed-process registry version ", digits.as_str()),
            ),
        );
    }
    Ok(state)
}

/// How one registry file read: missing, unreadable as a registry (with the
/// parser's message), or a state.
pub type StoredRegistry = Option<Result<RegistryState, String>>;

/// Which stored state is used: the primary file, else its backup; when the
/// primary does not parse but a backup does, the backup is used; a state of
/// another format version is refused.
pub open spec fn recovered(primary: StoredRegistry, backup: StoredRegistry) -> Option<RegistryState> {
    match primary {
        Some(Ok(s)) => Some(s),
        Some(Err(_)) => match backup {
            Some(Ok(b)) => Some(b),
            _ => None,
        },
        None => match backup {
            Some(Ok(b)) => Some(b),
            _ => None,
        },
    }
}

pub fn recover_state(primary: StoredRegistry, backup: StoredRegistry) -> (r: Result<
    RegistryState,
    StackError,
>)
    ensures
        match r {
            Ok(s) => (recovered(primary, backup) == Some(s) && s.spec_version() == REGISTRY_VERSION) || (
            primary is None && backup is None && s.spec_version() == REGISTRY_VERSION && forall|
                k: ServiceKind,
            | s.slot(k) is None),
            Err(e) => match recovered(primary, backup) {
                Some(s) => s.spec_version() != REGISTRY_VERSION && is_config_error(
                    e,
                    version_message(s.spec_version()),
                ),
                None => !(primary is None && backup is None) && e is Json,
            },
        },
{
    match primary {
        Some(Ok(state)) => check_version(state),
        Some(Err(primary_error)) => match backup {
            Some(Ok(state)) => check_version(state),
            _ => Err(StackError::Json(primary_error)),
        },
        None => match backup {
            None => Ok(RegistryState::default()),
            Some(Ok(state)) => check_version(state),
            Some(Err(error)) => Err(StackError::Json(error)),
        },
    }
}

/// A corrupt primary file falls back to the last valid backup.
pub proof fn law_recovers_backup_when_primary_is_corrupt(message: String, backup: RegistryState)
    ensures
        recovered(Some(Err(message)), Some(Ok(backup))) == Some(backup),
{
}

pub open spec fn values_match(a: Seq<char>, b: Seq<char>, ignore_case: bool) -> bool {
    if ignore_case {
        eq_ignore_ascii_case(a, b)
    } else {
        a == b
    }
}

/// The expected arguments end the observed command line. An empty command
/// line (not readable) is accepted.
pub open spec fn command_matches(command: Seq<Seq<char>>, expected: Seq<Seq<char>>, ignore_case: bool) -> bool {
    if command.len() == 0 {
        true
    } else if command.len() < expected.len() + 1 {
        false
    } else {
        forall|i: int|
            0 <= i < expected.len() ==> values_match(
                #[trigger] command[command.len() - expected.len() + i],
                expected[i],
                ignore_case,
            )
    }
}

pub fn command_line_matches(command: &Vec<String>, expected_args: &Vec<String>, ignore_case: bool) -> (r:
    bool)
    ensures
        r == command_matches(string_views(command@), string_views(expected_args@), ignore_case),
{
    if command.len() == 0 {
        return true;
    }
    if command.len() - 1 < expected_args.len() {
        return false;
    }
    let offset = command.len() - expected_args.len();
    let mut i: usize = 0;
    while i < expected_args.len()
        invariant
            offset == command.len() - expected_args.len(),
            i <= expected_args.len(),
            forall|j: int|
                0 <= j < i ==> values_match(
                    #[trigger] string_views(command@)[offset + j],
                    string_views(expected_args@)[j],
                    ignore_case,
                ),
        decreases expected_args.len() - i,
    {
        let a = str_to_chars(command[offset + i].as_str());
        let b = str_to_chars(expected_args[i].as_str());
        let same = if ignore_case {
            eq_ignore_ascii_case_chars(&a, &b)
        } else {
            chars_eq(&a, &b)
        };
        if !same {
            assert(!values_match(
                string_views(command@)[offset + i],
                string_views(expected_args@)[i as int],
                ignore_case,
            ));
            return false;
        }
        i = i + 1;
    }
    true
}

/// Command-line law: a readable command line matches, case-sensitively,
/// exactly when it is longer than the expected arguments and ends with
/// them; a case-sensitive match is also a match ignoring case; and putting
/// more arguments in front of a matching command line keeps it matching.
pub proof fn law_command_line_ends_with_expected(
    command: Seq<Seq<char>>,
    expected: Seq<Seq<char>>,
    front: Seq<Seq<char>>,
)
    ensures
        command.len() > 0 ==> (command_matches(command, expected, false) <==> (command.len() > expected.len()
            && command.subrange(command.len() - expected.len(), command.len() as int) == expected)),
        command_matches(command, expected, false) ==> command_matches(command, expected, true),
        command.len() > 0 && command_matches(command, expected, false) ==> command_matches(
            front + command,
            expected,
            false,
        ),
{
    let n = command.len();
    let m = expected.len();
    if n > 0 && n > m {
        let tail = command.subrange(n - m, n as int);
        if command_matches(command, expected, false) {
            assert forall|i: int| 0 <= i < m implies tail[i] == expected[i] by {
                assert(values_match(command[n - m + i], expected[i], false));
            }
            assert(tail =~= expected);
        }
        if tail == expected {
            assert forall|i: int| 0 <= i < m implies values_match(
                #[trigger] command[n - m + i],
                expected[i],
                false,
            ) by {
                assert(tail[i] == command[n - m + i]);
            }
        }
    }
    if command_matches(command, expected, false) && n > 0 {
        assert forall|i: int| 0 <= i < m implies values_match(#[trigger] command[n - m + i], expected[i], true) by {
            assert(values_match(command[n - m + i], expected[i], false));
            assert(command[n - m + i] == expected[i]);
        }
        let fc = front + command;
        assert forall|i: int| 0 <= i < m implies values_match(#[trigger] fc[fc.len() - m + i], expected[i], false) by {
            assert(fc[fc.len() - m + i] == command[n - m + i]);
            assert(values_match(command[n - m + i], expected[i], false));
        }
    }
}

/// A recorded process is still the one that was launched when the live
/// process has the same start time, executable and command line.
pub open spec fn identity_matches(
    record: RecordView,
    start_time: u64,
    executable_matches: bool,
    command: Seq<Seq<char>>,
    ignore_case: bool,
) -> bool {
    start_time == record.2 && executable_matches && command_matches(command, record.4, ignore_case)
}

pub fn record_matches_process(
    record: &ManagedProcessRecord,
    start_time: u64,
    executable_matches: bool,
    command: &Vec<String>,
    ignore_case: bool,
) -> (r: bool)
    ensures
        r == identity_matches(
            record@,
            start_time,
            executable_matches,
            string_views(command@),
            ignore_case,
        ),
{
    start_time == record.started_at_unix && executable_matches && command_line_matches(
        command,
        &record.args,
        ignore_case,
    )
}

} // verus!
