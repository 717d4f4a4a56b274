//! Trace replay data: sessions, branches, logical events, edges, slot
//! leases, telemetry; session headers, projections and lineage.
use vstd::prelude::*;

use crate::error::{StackError, config_error, is_config_error};
use crate::json::{JsonV, is_json_error, json_parse_bytes_result, json_parse_result, json_view, parse_json_bytes, parse_json_text, JsonMember, JsonValue, TraceRecord, short_id, spec_short_id, spec_string_at, spec_u64_at, string_at, strs, u64_at, walk, walk_get, walk_members};
use crate::sort::{KeyView, SortKey, key_view, key_views, reversed, stable_sort, stably_sorted};
use crate::paths::{join_path, push_path};
use crate::text::{chars_eq, chars_to_string, clone_opt_string, clone_string, concat_strs, contains, opt_view, str_eq, str_to_chars, trim, trim_chars, views};
use crate::types::{GpuSnapshot, RunningModel};

verus! {

#[derive(Debug, Clone)]
pub struct TraceSessionSummary {
    pub id: String,
    pub title: String,
    pub cwd: String,
    pub preset: Option<String>,
    pub model: Option<String>,
    pub created_at: u64,
    pub updated_at: u64,
    pub event_count: usize,
    pub branch_count: usize,
    pub status: String,
}

#[derive(Debug, Clone)]
pub struct TraceBranch {
    pub id: String,
    pub parent_id: Option<String>,
    pub label: String,
    pub role: String,
    pub context_id: String,
    pub forked: bool,
    pub created_at: u64,
    pub removed_at: Option<u64>,
    pub status: String,
}

/// One logical operation of the replay with every raw record folded into
/// it. `context_usage` holds the input tokens and the context window from
/// which the interface computes the context percentage; `raw_index` is the
/// position of the record that opened the operation.
#[derive(Debug)]
pub struct TraceEvent {
    pub id: String,
    pub index: usize,
    pub time: u64,
    pub sequence: Option<u64>,
    pub branch_id: String,
    pub event_type: String,
    pub label: String,
    pub message: String,
    pub turn: Option<u64>,
    pub step: Option<u64>,
    pub context_tokens: Option<u64>,
    pub context_window: Option<u64>,
    pub context_usage: Option<(u64, u64)>,
    pub output_tokens: Option<u64>,
    pub stream_chunks: usize,
    pub raw_event_count: usize,
    pub folded_event_types: Vec<String>,
    pub raw_records: Vec<TraceRecord>,
    pub raw_index: usize,
}

#[derive(Debug, Clone)]
pub struct TraceEdge {
    pub from: String,
    pub to: String,
    pub kind: String,
    pub label: String,
}

#[derive(Debug, Clone)]
pub struct TraceLease {
    pub id: String,
    pub slot: usize,
    pub branch_id: String,
    pub request_event_id: String,
    pub response_event_id: Option<String>,
    pub requested_at: u64,
    pub started_at: u64,
    pub ended_at: u64,
    pub context_tokens: Option<u64>,
    pub context_window: Option<u64>,
    pub context_usage: Option<(u64, u64)>,
    pub model: Option<String>,
    pub source: String,
}

#[derive(Debug, Clone)]
pub struct TraceTelemetrySample {
    pub time: u64,
    pub gpu: Option<GpuSnapshot>,
    pub running_models: Vec<RunningModel>,
}

#[derive(Debug)]
pub struct TraceReplay {
    pub session: TraceSessionSummary,
    pub source: String,
    pub max_slots: usize,
    pub start_time: u64,
    pub end_time: u64,
    pub branches: Vec<TraceBranch>,
    pub events: Vec<TraceEvent>,
    pub edges: Vec<TraceEdge>,
    pub leases: Vec<TraceLease>,
    pub telemetry: Vec<TraceTelemetrySample>,
}

/// The first line of a session file.
#[derive(Debug, Clone)]
pub struct ArtifactHeader {
    pub id: String,
    pub created_at: u64,
    pub cwd: String,
    pub parent_session: Option<String>,
    pub preset: Option<String>,
    pub path: String,
    pub updated_at: u64,
}

/// What Harness's projection cache says of a session.
#[derive(Debug, Clone)]
pub struct Projection {
    pub title: Option<String>,
    pub label: Option<String>,
    pub mode: Option<String>,
    pub model: Option<String>,
    pub context_window: Option<u64>,
    pub context_tokens: Option<u64>,
    pub event_count: usize,
    pub settled: bool,
}

impl Default for Projection {
    fn default() -> (r: Projection)
        ensures
            r.title is None,
            r.label is None,
            r.mode is None,
            r.model is None,
            r.context_window is None,
            r.context_tokens is None,
            r.event_count == 0,
            !r.settled,
    {
        Projection {
            title: None,
            label: None,
            mode: None,
            model: None,
            context_window: None,
            context_tokens: None,
            event_count: 0,
            settled: false,
        }
    }
}

/// One session file: header, projection and records.
#[derive(Debug)]
pub struct RawSession {
    pub header: ArtifactHeader,
    pub projection: Projection,
    pub records: Vec<TraceRecord>,
}

/// Where traces are read from, and the recorder's settings.
#[derive(Debug, Clone)]
pub struct TraceStore {
    sessions_root: String,
    projection_root: String,
    telemetry_root: String,
    inference_slots: usize,
    enabled: bool,
}

impl TraceStore {
    pub closed spec fn spec_sessions_root(&self) -> Seq<char> {
        self.sessions_root@
    }

    pub closed spec fn spec_projection_root(&self) -> Seq<char> {
        self.projection_root@
    }

    pub closed spec fn spec_telemetry_root(&self) -> Seq<char> {
        self.telemetry_root@
    }

    pub closed spec fn spec_slots(&self) -> usize {
        self.inference_slots
    }

    pub closed spec fn spec_enabled(&self) -> bool {
        self.enabled
    }

    /// A store; the number of inference slots is clamped to 1..=16.
    pub fn new(
        sessions_root: String,
        projection_root: String,
        telemetry_root: String,
        inference_slots: usize,
        enabled: bool,
    ) -> (r: Self)
        ensures
            r.spec_sessions_root() == sessions_root@,
            r.spec_projection_root() == projection_root@,
            r.spec_telemetry_root() == telemetry_root@,
            r.spec_slots() == if inference_slots < 1 {
                1
            } else if inference_slots > 16 {
                16
            } else {
                inference_slots
            },
            r.spec_enabled() == enabled,
    {
        let slots = if inference_slots < 1 {
            1
        } else if inference_slots > 16 {
            16
        } else {
            inference_slots
        };
        TraceStore { sessions_root, projection_root, telemetry_root, inference_slots: slots, enabled }
    }

    /// The store of a machine: sessions under the configured root when it is
    /// not blank, else under `.dsh/sessions` in the home directory;
    /// projections under `.dsh/storages/session_projcache/sessions` there;
    /// telemetry under `traces/telemetry` in the application data directory.
    pub fn with_dirs(
        enabled: bool,
        configured_session_root: Option<&str>,
        home: &str,
        data_dir: &str,
        inference_slots: usize,
    ) -> (r: Self)
        ensures
            r.spec_sessions_root() == match configured_session_root {
                Some(c) => if trim(c@).len() > 0 {
                    c@
                } else {
                    push_path(home@, ".dsh/sessions"@)
                },
                None => push_path(home@, ".dsh/sessions"@),
            },
            r.spec_projection_root() == push_path(home@, ".dsh/storages/session_projcache/sessions"@),
            r.spec_telemetry_root() == push_path(data_dir@, "traces/telemetry"@),
            r.spec_slots() == if inference_slots < 1 {
                1
            } else if inference_slots > 16 {
                16
            } else {
                inference_slots
            },
            r.spec_enabled() == enabled,
    {
        let sessions_root = match configured_session_root {
            Some(c) => if trim_chars(&str_to_chars(c)).len() > 0 {
                String::from_str(c)
            } else {
                join_path(home, ".dsh/sessions")
            },
            None => join_path(home, ".dsh/sessions"),
        };
        TraceStore::new(
            sessions_root,
            join_path(home, ".dsh/storages/session_projcache/sessions"),
            join_path(data_dir, "traces/telemetry"),
            inference_slots,
            enabled,
        )
    }

    pub fn sessions_root(&self) -> (r: &str)
        ensures
            r@ == self.spec_sessions_root(),
    {
        self.sessions_root.as_str()
    }

    pub fn projection_root(&self) -> (r: &str)
        ensures
            r@ == self.spec_projection_root(),
    {
        self.projection_root.as_str()
    }

    pub fn telemetry_root(&self) -> (r: &str)
        ensures
            r@ == self.spec_telemetry_root(),
    {
        self.telemetry_root.as_str()
    }

    pub fn inference_slots(&self) -> (r: usize)
        ensures
            r == self.spec_slots(),
    {
        self.inference_slots
    }

    pub fn enabled(&self) -> (r: bool)
        ensures
            r == self.spec_enabled(),
    {
        self.enabled
    }
}

// ----- headers and projections -----
pub open spec fn spec_header(first: JsonValue, path: Seq<char>, updated_at: u64) -> Result<
    (Seq<char>, u64, Seq<char>, Option<Seq<char>>, Option<Seq<char>>),
    Seq<char>,
> {
    match spec_string_at(first, seq!["id"@]) {
        None => Err(path + " has no session id"@),
        Some(id) => Ok(
            (
                id,
                match spec_u64_at(first, seq!["createdAt"@]) {
                    Some(t) => t,
                    None => updated_at,
                },
                match spec_string_at(first, seq!["cwd"@]) {
                    Some(c) => c,
                    None => Seq::empty(),
                },
                spec_string_at(first, seq!["parentSession"@]),
                spec_string_at(first, seq!["agentPreset"@]),
            ),
        ),
    }
}

/// The header of a session from its first record, its path, and the file's
/// modification time.
pub fn header_from_record(first: &JsonValue, path: &str, updated_at: u64) -> (r: Result<
    ArtifactHeader,
    StackError,
>)
    ensures
        match r {
            Ok(h) => spec_header(*first, path@, updated_at) == Ok::<
                (Seq<char>, u64, Seq<char>, Option<Seq<char>>, Option<Seq<char>>),
                Seq<char>,
            >((h.id@, h.created_at, h.cwd@, opt_view(h.parent_session), opt_view(h.preset)))
                && h.path@ == path@ && h.updated_at == updated_at,
            Err(e) => spec_header(*first, path@, updated_at) matches Err(m) && is_config_error(e, m),
        },
{
    let p_id: &[&str] = &["id"];
    let p_created: &[&str] = &["createdAt"];
    let p_cwd: &[&str] = &["cwd"];
    let p_parent: &[&str] = &["parentSession"];
    let p_preset: &[&str] = &["agentPreset"];
    assert(p_id@ =~= seq!["id"]);
    assert(p_created@ =~= seq!["createdAt"]);
    assert(p_cwd@ =~= seq!["cwd"]);
    assert(p_parent@ =~= seq!["parentSession"]);
    assert(p_preset@ =~= seq!["agentPreset"]);
    assert(strs(p_id@) =~= seq!["id"@]);
    assert(strs(p_created@) =~= seq!["createdAt"@]);
    assert(strs(p_cwd@) =~= seq!["cwd"@]);
    assert(strs(p_parent@) =~= seq!["parentSession"@]);
    assert(strs(p_preset@) =~= seq!["agentPreset"@]);
    let id = match string_at(first, p_id) {
        Some(id) => id,
        None => {
            return Err(config_error(concat_strs(path, " has no session id")));
        },
    };
    let created_at = match u64_at(first, p_created) {
        Some(t) => t,
        None => updated_at,
    };
    let cwd = match string_at(first, p_cwd) {
        Some(c) => c,
        None => String::new(),
    };
    Ok(
        ArtifactHeader {
            id,
            created_at,
            cwd,
            parent_session: string_at(first, p_parent),
            preset: string_at(first, p_preset),
            path: String::from_str(path),
            updated_at,
        },
    )
}

pub open spec fn row_seqs(ms: Seq<JsonMember>) -> Option<u64>
    decreases ms.len(),
{
    if ms.len() == 0 {
        None
    } else {
        let rest = row_seqs(ms.drop_last());
        match spec_u64_at(ms.last().value, seq!["seq"@]) {
            Some(s) => match rest {
                Some(m) => Some(if s > m {
                    s
                } else {
                    m
                }),
                None => Some(s),
            },
            None => rest,
        }
    }
}

/// One more than the largest row sequence number of the projection.
pub open spec fn projection_event_count(rows: JsonValue) -> int {
    match rows {
        JsonValue::Object(ms) => match row_seqs(ms@) {
            Some(m) => m + 1,
            None => 0,
        },
        _ => 0,
    }
}

pub open spec fn projection_rows(value: JsonValue) -> JsonValue {
    match walk_get(value, seq!["record"@, "rows"@]) {
        Some(r) => r,
        None => JsonValue::Null,
    }
}

pub open spec fn projection_matches(p: Projection, value: JsonValue) -> bool {
    let rows = projection_rows(value);
    &&& opt_view(p.title) == spec_string_at(rows, seq!["title"@, "val"@])
    &&& opt_view(p.label) == spec_string_at(rows, seq!["subagent"@, "val"@, "identity"@, "label"@])
    &&& opt_view(p.mode) == spec_string_at(rows, seq!["subagent"@, "val"@, "identity"@, "mode"@])
    &&& opt_view(p.model) == spec_string_at(
        rows,
        seq!["modelSelection"@, "val"@, "lastUsed"@, "model"@],
    )
    &&& p.context_window == spec_u64_at(rows, seq!["contextPressure"@, "val"@, "contextWindow"@])
    &&& p.context_tokens == spec_u64_at(rows, seq!["contextPressure"@, "val"@, "pressureTokens"@])
    &&& p.settled == (match spec_u64_at(rows, seq!["subagentTiming"@, "val"@, "settledMs"@]) {
        Some(v) => v > 0,
        None => false,
    })
    &&& (projection_event_count(rows) <= usize::MAX ==> p.event_count == projection_event_count(rows))
    &&& (projection_event_count(rows) > usize::MAX ==> p.event_count == usize::MAX)
}

fn max_row_seq(ms: &Vec<JsonMember>) -> (r: Option<u64>)
    ensures
        r == row_seqs(ms@),
{
    let mut best: Option<u64> = None;
    let mut i: usize = 0;
    let p_seq: &[&str] = &["seq"];
    assert(p_seq@ =~= seq!["seq"]);
    assert(ms@.take(0) =~= Seq::<JsonMember>::empty());
    while i < ms.len()
        invariant
            i <= ms.len(),
            p_seq@ == seq!["seq"],
            best == row_seqs(ms@.take(i as int)),
        decreases ms.len() - i,
    {
        assert(ms@.take(i + 1).drop_last() =~= ms@.take(i as int));
        assert(ms@.take(i + 1).last() == ms@[i as int]);
        assert(strs(p_seq@) =~= seq!["seq"@]);
        match u64_at(&ms[i].value, p_seq) {
            Some(s) => {
                best = match best {
                    Some(m) => Some(if s > m {
                        s
                    } else {
                        m
                    }),
                    None => Some(s),
                };
            },
            None => {},
        }
        i = i + 1;
    }
    assert(ms@.take(ms.len() as int) =~= ms@);
    best
}

/// Reads a projection-cache document.
pub fn projection_from(value: &JsonValue) -> (r: Projection)
    ensures
        projection_matches(r, *value),
{
    let p_rows: &[&str] = &["record", "rows"];
    assert(p_rows@ =~= seq!["record", "rows"]);
    assert(strs(p_rows@) =~= seq!["record"@, "rows"@]);
    let null = JsonValue::Null;
    let rows = match walk_members(value, p_rows) {
        Some(r) => r,
        None => &null,
    };
    let event_count: usize = match rows {
        JsonValue::Object(ms) => match max_row_seq(ms) {
            Some(m) => if m as u128 >= usize::MAX as u128 {
                usize::MAX
            } else {
                (m as usize) + 1
            },
            None => 0,
        },
        _ => 0,
    };
    let p_title: &[&str] = &["title", "val"];
    let p_label: &[&str] = &["subagent", "val", "identity", "label"];
    let p_mode: &[&str] = &["subagent", "val", "identity", "mode"];
    let p_model: &[&str] = &["modelSelection", "val", "lastUsed", "model"];
    let p_window: &[&str] = &["contextPressure", "val", "contextWindow"];
    let p_tokens: &[&str] = &["contextPressure", "val", "pressureTokens"];
    let p_settled: &[&str] = &["subagentTiming", "val", "settledMs"];
    assert(strs(p_title@) =~= seq!["title"@, "val"@]);
    assert(strs(p_label@) =~= seq!["subagent"@, "val"@, "identity"@, "label"@]);
    assert(strs(p_mode@) =~= seq!["subagent"@, "val"@, "identity"@, "mode"@]);
    assert(strs(p_model@) =~= seq!["modelSelection"@, "val"@, "lastUsed"@, "model"@]);
    assert(strs(p_window@) =~= seq!["contextPressure"@, "val"@, "contextWindow"@]);
    assert(strs(p_tokens@) =~= seq!["contextPressure"@, "val"@, "pressureTokens"@]);
    assert(strs(p_settled@) =~= seq!["subagentTiming"@, "val"@, "settledMs"@]);
    let settled = match u64_at(rows, p_settled) {
        Some(v) => v > 0,
        None => false,
    };
    Projection {
        title: string_at(rows, p_title),
        label: string_at(rows, p_label),
        mode: string_at(rows, p_mode),
        model: string_at(rows, p_model),
        context_window: u64_at(rows, p_window),
        context_tokens: u64_at(rows, p_tokens),
        event_count,
        settled,
    }
}

// ----- lineage -----
pub open spec fn find_header(hs: Seq<ArtifactHeader>, id: Seq<char>) -> Option<ArtifactHeader>
    decreases hs.len(),
{
    if hs.len() == 0 {
        None
    } else if hs[0].id@ == id {
        Some(hs[0])
    } else {
        find_header(hs.drop_first(), id)
    }
}

pub fn find_header_index(hs: &Vec<ArtifactHeader>, id: &str) -> (r: Option<usize>)
    ensures
        match r {
            Some(i) => i < hs.len() && find_header(hs@, id@) == Some(hs@[i as int]),
            None => find_header(hs@, id@) is None,
        },
{
    let mut i: usize = 0;
    assert(hs@.subrange(0, hs.len() as int) =~= hs@);
    while i < hs.len()
        invariant
            i <= hs.len(),
            find_header(hs@, id@) == find_header(hs@.subrange(i as int, hs.len() as int), id@),
        decreases hs.len() - i,
    {
        assert(hs@.subrange(i as int, hs.len() as int)[0] == hs@[i as int]);
        if str_eq(hs[i].id.as_str(), id) {
            return Some(i);
        }
        assert(hs@.subrange(i as int, hs.len() as int).drop_first() =~= hs@.subrange(
            i + 1,
            hs.len() as int,
        ));
        i = i + 1;
    }
    None
}

pub open spec fn parent_of(hs: Seq<ArtifactHeader>, id: Seq<char>) -> Option<Seq<char>> {
    match find_header(hs, id) {
        Some(h) => opt_view(h.parent_session),
        None => None,
    }
}

/// Following parent links from `current`, `root` is reached before a
/// session repeats. `fuel` bounds the walk; the walk visits distinct
/// identifiers only, so `headers.len() + 2` steps always suffice.
pub open spec fn reaches(
    hs: Seq<ArtifactHeader>,
    current: Option<Seq<char>>,
    root: Seq<char>,
    seen: Seq<Seq<char>>,
    fuel: nat,
) -> bool
    decreases fuel,
{
    if fuel == 0 {
        false
    } else {
        match current {
            None => false,
            Some(id) => if id == root {
                true
            } else if seen.contains(id) {
                false
            } else {
                reaches(hs, parent_of(hs, id), root, seen.push(id), (fuel - 1) as nat)
            },
        }
    }
}

pub open spec fn lineage_fuel(n: nat) -> nat {
    if n < usize::MAX - 2 {
        n + 2
    } else {
        usize::MAX as nat
    }
}

pub open spec fn spec_descends_from(c: ArtifactHeader, root: Seq<char>, hs: Seq<ArtifactHeader>) -> bool {
    reaches(hs, opt_view(c.parent_session), root, Seq::empty(), lineage_fuel(hs.len()))
}

fn seen_contains(seen: &Vec<Vec<char>>, id: &Vec<char>) -> (r: bool)
    ensures
        r == views(seen@).contains(id@),
{
    let mut i: usize = 0;
    while i < seen.len()
        invariant
            i <= seen.len(),
            forall|j: int| 0 <= j < i ==> seen@[j]@ != id@,
        decreases seen.len() - i,
    {
        if chars_eq(&seen[i], id) {
            assert(views(seen@)[i as int] == id@);
            return true;
        }
        i = i + 1;
    }
    assert(!views(seen@).contains(id@)) by {
        assert forall|j: int| 0 <= j < views(seen@).len() implies views(seen@)[j] != id@ by {
            assert(views(seen@)[j] == seen@[j]@);
        }
    }
    false
}

fn parent_id_of(hs: &Vec<ArtifactHeader>, id: &Vec<char>) -> (r: Option<Vec<char>>)
    ensures
        match r {
            Some(p) => parent_of(hs@, id@) == Some(p@),
            None => parent_of(hs@, id@) is None,
        },
{
    let text = chars_to_string(id);
    match find_header_index(hs, text.as_str()) {
        Some(i) => match &hs[i].parent_session {
            Some(p) => Some(str_to_chars(p.as_str())),
            None => None,
        },
        None => None,
    }
}

/// Whether a session descends from `root_id` through its parent links.
pub fn descends_from(candidate: &ArtifactHeader, root_id: &str, headers: &Vec<ArtifactHeader>) -> (r:
    bool)
    ensures
        r == spec_descends_from(*candidate, root_id@, headers@),
{
    let root = str_to_chars(root_id);
    let mut current: Option<Vec<char>> = match &candidate.parent_session {
        Some(p) => Some(str_to_chars(p.as_str())),
        None => None,
    };
    let mut seen: Vec<Vec<char>> = Vec::new();
    let mut fuel: usize = if headers.len() < usize::MAX - 2 {
        headers.len() + 2
    } else {
        usize::MAX
    };
    assert(views(seen@) =~= Seq::<Seq<char>>::empty());
    assert(fuel as nat == lineage_fuel(headers@.len()));
    loop
        invariant
            root@ == root_id@,
            spec_descends_from(*candidate, root_id@, headers@) == reaches(
                headers@,
                match current {
                    Some(c) => Some(c@),
                    None => None,
                },
                root@,
                views(seen@),
                fuel as nat,
            ),
        decreases fuel,
    {
        if fuel == 0 {
            return false;
        }
        assert(fuel as nat - 1 == (fuel - 1) as nat);
        let id = match current {
            None => {
                return false;
            },
            Some(id) => id,
        };
        if chars_eq(&id, &root) {
            return true;
        }
        if seen_contains(&seen, &id) {
            return false;
        }
        let next = parent_id_of(headers, &id);
        let ghost before = views(seen@);
        seen.push(id);
        assert(views(seen@) =~= before.push(seen@.last()@));
        current = next;
        fuel = fuel - 1;
    }
}

/// The session reached by following parent links while they lead to
/// known, not yet visited sessions.
pub open spec fn ancestor(
    hs: Seq<ArtifactHeader>,
    current: ArtifactHeader,
    seen: Seq<Seq<char>>,
    fuel: nat,
) -> Seq<char>
    decreases fuel,
{
    if fuel == 0 {
        current.id@
    } else {
        match opt_view(current.parent_session) {
            None => current.id@,
            Some(p) => if seen.contains(p) {
                current.id@
            } else {
                match find_header(hs, p) {
                    None => current.id@,
                    Some(h) => ancestor(hs, h, seen.push(p), (fuel - 1) as nat),
                }
            },
        }
    }
}

pub open spec fn spec_root_ancestor(h: ArtifactHeader, hs: Seq<ArtifactHeader>) -> Seq<char> {
    ancestor(hs, h, Seq::empty(), lineage_fuel(hs.len()))
}

/// The root session of a session's lineage.
pub fn root_ancestor(header: &ArtifactHeader, headers: &Vec<ArtifactHeader>) -> (r: String)
    ensures
        r@ == spec_root_ancestor(*header, headers@),
{
    let mut current: &ArtifactHeader = header;
    let mut seen: Vec<Vec<char>> = Vec::new();
    let mut fuel: usize = if headers.len() < usize::MAX - 2 {
        headers.len() + 2
    } else {
        usize::MAX
    };
    assert(views(seen@) =~= Seq::<Seq<char>>::empty());
    assert(fuel as nat == lineage_fuel(headers@.len()));
    loop
        invariant
            spec_root_ancestor(*header, headers@) == ancestor(
                headers@,
                *current,
                views(seen@),
                fuel as nat,
            ),
        decreases fuel,
    {
        if fuel == 0 {
            return current.id.clone();
        }
        assert(fuel as nat - 1 == (fuel - 1) as nat);
        let parent = match &current.parent_session {
            None => {
                return current.id.clone();
            },
            Some(p) => p,
        };
        let pc = str_to_chars(parent.as_str());
        if seen_contains(&seen, &pc) {
            return current.id.clone();
        }
        match find_header_index(headers, parent.as_str()) {
            None => {
                return current.id.clone();
            },
            Some(i) => {
                let ghost before = views(seen@);
                seen.push(pc);
                assert(views(seen@) =~= before.push(parent@));
                current = &headers[i];
            },
        }
        fuel = fuel - 1;
    }
}

/// Summary of a session. It is live while its file changed less than 15
/// seconds before `now`.
pub open spec fn summary_matches(
    s: TraceSessionSummary,
    header: ArtifactHeader,
    projection: Projection,
    branch_count: usize,
    now: u64,
) -> bool {
    &&& s.id@ == header.id@
    &&& s.title@ == match projection.title {
        Some(t) => t@,
        None => crate::json::spec_short_id(header.id@),
    }
    &&& s.cwd@ == header.cwd@
    &&& opt_view(s.preset) == opt_view(header.preset)
    &&& opt_view(s.model) == opt_view(projection.model)
    &&& s.created_at == header.created_at
    &&& s.updated_at == header.updated_at
    &&& s.event_count == projection.event_count
    &&& s.branch_count == branch_count
    &&& s.status@ == if (if now >= header.updated_at {
        now - header.updated_at
    } else {
        0
    }) < 15000 {
        "live"@
    } else {
        "recorded"@
    }
}

pub fn summary_for(header: &ArtifactHeader, projection: &Projection, branch_count: usize, now: u64) -> (r:
    TraceSessionSummary)
    ensures
        summary_matches(r, *header, *projection, branch_count, now),
{
    let title = match &projection.title {
        Some(t) => clone_string(t),
        None => short_id(header.id.as_str()),
    };
    let live = now.saturating_sub(header.updated_at) < 15000;
    TraceSessionSummary {
        id: clone_string(&header.id),
        title,
        cwd: clone_string(&header.cwd),
        preset: clone_opt_string(&header.preset),
        model: clone_opt_string(&projection.model),
        created_at: header.created_at,
        updated_at: header.updated_at,
        event_count: projection.event_count,
        branch_count,
        status: if live {
            String::from_str("live")
        } else {
            String::from_str("recorded")
        },
    }
}

// ----- telemetry -----
/// The day-partitioned telemetry files that may hold samples of a window
/// (five seconds of slack on each side).
pub fn telemetry_days(start: u64, end: u64) -> (r: (u64, u64))
    ensures
        r.0 == (if start >= 5000 {
            start - 5000
        } else {
            0
        }) / 86400000,
        r.1 == (if end <= u64::MAX - 5000 {
            end + 5000
        } else {
            u64::MAX as int
        }) / 86400000,
{
    (start.saturating_sub(5000) / 86400000, end.saturating_add(5000) / 86400000)
}

pub open spec fn in_window(t: u64, start: u64, end: u64) -> bool {
    (if start >= 5000 {
        start - 5000
    } else {
        0
    }) <= t && t <= (if end <= u64::MAX - 5000 {
        end + 5000
    } else {
        u64::MAX as int
    })
}

pub open spec fn window_samples(s: Seq<TraceTelemetrySample>, start: u64, end: u64) -> Seq<TraceTelemetrySample>
    decreases s.len(),
{
    if s.len() == 0 {
        Seq::empty()
    } else {
        let prev = window_samples(s.drop_last(), start, end);
        if in_window(s.last().time, start, end) {
            prev.push(s.last())
        } else {
            prev
        }
    }
}

pub open spec fn time_keys(s: Seq<TraceTelemetrySample>) -> Seq<KeyView> {
    s.map_values(|x: TraceTelemetrySample| (x.time, None::<u64>, Seq::<char>::empty()))
}

/// The samples of a replay window, ordered by time.
pub fn telemetry_in_window(samples: Vec<TraceTelemetrySample>, start: u64, end: u64) -> (r: Vec<
    TraceTelemetrySample,
>)
    ensures
        r@ == stably_sorted(
            window_samples(samples@, start, end),
            time_keys(window_samples(samples@, start, end)),
        ),
{
    let low = start.saturating_sub(5000);
    let high = end.saturating_add(5000);
    let ghost all = samples@;
    let mut kept: Vec<TraceTelemetrySample> = Vec::new();
    let mut keys: Vec<SortKey> = Vec::new();
    let mut rest = samples;
    let mut reversed: Vec<TraceTelemetrySample> = Vec::new();
    while rest.len() > 0
        invariant
            rest@ + reversed@.reverse() == all,
        decreases rest.len(),
    {
        let ghost r0 = rest@;
        let ghost v0 = reversed@;
        let x = rest.pop().unwrap();
        reversed.push(x);
        assert(rest@ + reversed@.reverse() =~= all) by {
            assert(reversed@.reverse() =~= seq![x] + v0.reverse());
            assert(r0 =~= rest@.push(x));
        }
    }
    assert(reversed@.reverse() =~= all);
    let ghost rv = reversed@;
    let total = reversed.len();
    let mut i: usize = 0;
    assert(all.take(0) =~= Seq::<TraceTelemetrySample>::empty());
    while reversed.len() > 0
        invariant
            rv.reverse() == all,
            reversed@ == rv.take(rv.len() - i),
            i <= rv.len(),
            all.len() == rv.len(),
            rv.len() == total,
            kept@ == window_samples(all.take(i as int), start, end),
            key_views(keys@) == time_keys(kept@),
            low == (if start >= 5000 {
                start - 5000
            } else {
                0
            }),
            high == (if end <= u64::MAX - 5000 {
                end + 5000
            } else {
                u64::MAX as int
            }),
        decreases reversed.len(),
    {
        let x = reversed.pop().unwrap();
        assert(x == all[i as int]);
        assert(all.take(i + 1).drop_last() =~= all.take(i as int));
        let t = x.time;
        if low <= t && t <= high {
            let ghost kb = keys@;
            let ghost pb = kept@;
            let k = SortKey { primary: t, secondary: None, tertiary: Vec::new() };
            assert(key_view(k) == (t, None::<u64>, Seq::<char>::empty()));
            keys.push(k);
            kept.push(x);
            assert(key_views(keys@) =~= key_views(kb).push(key_view(k)));
            assert(time_keys(kept@) =~= time_keys(pb).push((t, None::<u64>, Seq::<char>::empty())));
            assert(key_views(keys@) =~= time_keys(kept@));
        }
        i = i + 1;
        assert(reversed@ =~= rv.take(rv.len() - i));
    }
    assert(all.take(i as int) =~= all);
    let ghost window = kept@;
    let r = stable_sort(kept, &keys);
    r
}


/// The header of a session file from its first line: the JSON error of the
/// line, or what `header_from_record` makes of its value.
pub fn header_from_line(line: &str, path: &str, updated_at: u64) -> (r: Result<ArtifactHeader, StackError>)
    ensures
        match json_parse_result(line@) {
            Err(_) => is_json_error(r->Err_0, json_parse_result(line@)) && r is Err,
            Ok(jv) => exists|v: JsonValue|
                json_view(v) == jv && match r {
                    Ok(h) => spec_header(v, path@, updated_at) == Ok::<
                        (Seq<char>, u64, Seq<char>, Option<Seq<char>>, Option<Seq<char>>),
                        Seq<char>,
                    >((h.id@, h.created_at, h.cwd@, opt_view(h.parent_session), opt_view(h.preset)))
                        && h.path@ == path@ && h.updated_at == updated_at,
                    Err(e) => spec_header(v, path@, updated_at) matches Err(m) && is_config_error(e, m),
                },
        },
{
    match parse_json_text(line) {
        Err(e) => Err(StackError::Json(e)),
        Ok(value) => header_from_record(&value, path, updated_at),
    }
}

/// The projection of a session from the bytes of its projection file: the
/// JSON error, or what `projection_from` makes of the value.
pub fn projection_from_bytes(bytes: &[u8]) -> (r: Result<Projection, StackError>)
    ensures
        match json_parse_bytes_result(bytes@) {
            Err(_) => r is Err && is_json_error(r->Err_0, json_parse_bytes_result(bytes@)),
            Ok(jv) => r matches Ok(p) && exists|v: JsonValue| json_view(v) == jv && projection_matches(p, v),
        },
{
    match parse_json_bytes(bytes) {
        Err(e) => Err(StackError::Json(e)),
        Ok(value) => Ok(projection_from(&value)),
    }
}

} // verus!
