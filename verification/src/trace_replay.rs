//! Reconstruction of a replay from the session files of one root session and
//! its descendants.
use vstd::prelude::*;

use crate::error::{StackError, config_error, config_error_str, is_config_error};
use crate::text::{clone_opt_string, clone_string, concat3, opt_view, str_eq, str_to_chars};
use crate::trace_branches::{BranchV, apply_workflow_parentage, branch_for, branch_view, branch_views, created_keys, joined, law_workflow_branches, lemma_row_index, member_rows, parentage, row_index, spec_branch_for, workflow_branches, workflow_rows, workflow_rows_ok};
use crate::trace_edges::{build_edges, edge_views, spec_edges};
use crate::trace_events::{EventV, data_string, event_view, events_view, norm_context, norm_scan, record_type};
use crate::json::TraceRecord;
use crate::trace_fold::{all_wf, compacted, event_wf, latest, lemma_compacted_wf, lemma_norm_scan_wf, normalize_session};
use crate::trace_model::{ArtifactHeader, Projection, RawSession, TraceBranch, TraceEvent, TraceReplay, TraceSessionSummary, TraceStore, TraceTelemetrySample, ancestor, descends_from, find_header, find_header_index, root_ancestor, spec_descends_from, spec_root_ancestor, summary_for, summary_matches, telemetry_in_window, time_keys, window_samples};
use crate::trace_slots::{build_leases, index_ints, lease_views, lemma_ints_sorted, spec_leases};
use crate::sort::{KeyView, SortKey, key_lt, key_view, key_views, law_stable_order_is_sorted_and_stable, lemma_sorted_order_perm, reversed, stable_order, stable_sort, stably_sorted};

verus! {

/// The first session with the given id.
pub open spec fn find_session(sessions: Seq<RawSession>, id: Seq<char>) -> Option<RawSession>
    decreases sessions.len(),
{
    if sessions.len() == 0 {
        None
    } else if sessions[0].header.id@ == id {
        Some(sessions[0])
    } else {
        find_session(sessions.drop_first(), id)
    }
}

pub open spec fn initial_branches(sessions: Seq<RawSession>, root: Seq<char>) -> Seq<BranchV> {
    sessions.map_values(|s: RawSession| spec_branch_for(s.header, s.projection, root))
}

pub open spec fn workflow_list(sessions: Seq<RawSession>, root: Seq<char>) -> Seq<BranchV> {
    let rows = workflow_rows(sessions, initial_branches(sessions, root));
    stably_sorted(rows, created_keys(rows))
}

/// The branches of a replay: one per session, with workflow membership
/// applied, then one per workflow run.
pub open spec fn replay_branches(sessions: Seq<RawSession>, root: Seq<char>) -> Seq<BranchV> {
    parentage(sessions, initial_branches(sessions, root), workflow_list(sessions, root))
        + workflow_list(sessions, root)
}

/// The logical operations of every session, session by session.
pub open spec fn session_events(sessions: Seq<RawSession>, bs: Seq<BranchV>) -> Seq<EventV>
    decreases sessions.len(),
{
    if sessions.len() == 0 {
        Seq::empty()
    } else {
        let s = sessions.last();
        session_events(sessions.drop_last(), bs) + compacted(
            norm_scan(norm_context(s.header, s.projection, s.records@, bs), s.records@).1,
        )
    }
}

pub open spec fn event_keys(es: Seq<EventV>) -> Seq<KeyView> {
    es.map_values(|e: EventV| (e.time, e.sequence, e.branch_id))
}

pub open spec fn with_index(e: EventV, i: int) -> EventV {
    EventV {
        id: e.id,
        index: i as usize,
        time: e.time,
        sequence: e.sequence,
        branch_id: e.branch_id,
        event_type: e.event_type,
        label: e.label,
        message: e.message,
        turn: e.turn,
        step: e.step,
        context_tokens: e.context_tokens,
        context_window: e.context_window,
        context_usage: e.context_usage,
        output_tokens: e.output_tokens,
        stream_chunks: e.stream_chunks,
        raw_event_count: e.raw_event_count,
        folded: e.folded,
        records: e.records,
        raw_index: e.raw_index,
    }
}

/// The events of a replay: ordered by time, then sequence number (absent
/// first), then branch id; each numbered by its position.
pub open spec fn replay_events(sessions: Seq<RawSession>, root: Seq<char>) -> Seq<EventV> {
    let es = session_events(sessions, replay_branches(sessions, root));
    let sorted = stably_sorted(es, event_keys(es));
    Seq::new(sorted.len(), |i: int| with_index(sorted[i], i))
}

proof fn lemma_branch_count_concat(a: Seq<BranchV>, b: Seq<BranchV>)
    ensures
        session_branch_count(a + b) == session_branch_count(a) + session_branch_count(b),
    decreases b.len(),
{
    if b.len() == 0 {
        assert(a + b =~= a);
    } else {
        lemma_branch_count_concat(a, b.drop_last());
        assert((a + b).drop_last() =~= a + b.drop_last());
        assert((a + b).last() == b.last());
    }
}

proof fn lemma_branch_count_roles(a: Seq<BranchV>)
    ensures
        (forall|k: int| 0 <= k < a.len() ==> (#[trigger] a[k]).role != "workflow"@) ==> session_branch_count(a) == a.len(),
        (forall|k: int| 0 <= k < a.len() ==> (#[trigger] a[k]).role == "workflow"@) ==> session_branch_count(a) == 0,
    decreases a.len(),
{
    if a.len() > 0 {
        let d = a.drop_last();
        lemma_branch_count_roles(d);
        if forall|k: int| 0 <= k < a.len() ==> (#[trigger] a[k]).role != "workflow"@ {
            assert forall|k: int| 0 <= k < d.len() implies (#[trigger] d[k]).role != "workflow"@ by {
                assert(d[k] == a[k]);
            }
            assert(a[a.len() - 1].role != "workflow"@);
        }
        if forall|k: int| 0 <= k < a.len() ==> (#[trigger] a[k]).role == "workflow"@ {
            assert forall|k: int| 0 <= k < d.len() implies (#[trigger] d[k]).role == "workflow"@ by {
                assert(d[k] == a[k]);
            }
            assert(a[a.len() - 1].role == "workflow"@);
        }
    }
}

proof fn lemma_member_rows_roles(bs: Seq<BranchV>, ws: Seq<BranchV>, session: Seq<char>, rs: Seq<TraceRecord>)
    ensures
        member_rows(bs, ws, session, rs).len() == bs.len(),
        forall|k: int| 0 <= k < bs.len() ==> (#[trigger] member_rows(bs, ws, session, rs)[k]).role == bs[k].role,
    decreases rs.len(),
{
    if rs.len() > 0 {
        lemma_member_rows_roles(bs, ws, session, rs.drop_last());
        let prev = member_rows(bs, ws, session, rs.drop_last());
        let r = rs.last();
        if record_type(r) == Some("tool-workflow/agent-start"@) {
            match (data_string(r.value, "childId"@), data_string(r.value, "runId"@)) {
                (Some(child), Some(run)) => {
                    lemma_row_index(prev, child);
                },
                _ => {},
            }
        }
    }
}

proof fn lemma_parentage_roles(sessions: Seq<RawSession>, bs: Seq<BranchV>, ws: Seq<BranchV>)
    ensures
        parentage(sessions, bs, ws).len() == bs.len(),
        forall|k: int| 0 <= k < bs.len() ==> (#[trigger] parentage(sessions, bs, ws)[k]).role == bs[k].role,
    decreases sessions.len(),
{
    if sessions.len() > 0 {
        lemma_parentage_roles(sessions.drop_last(), bs, ws);
        let s = sessions.last();
        let prev = parentage(sessions.drop_last(), bs, ws);
        lemma_member_rows_roles(prev, ws, s.header.id@, s.records@);
    }
}

/// Branch law: a replay has one session branch per session read (the root
/// and every descendant); all other branches are workflow runs.
pub proof fn law_one_session_branch_per_session(sessions: Seq<RawSession>, root: Seq<char>)
    ensures
        session_branch_count(replay_branches(sessions, root)) == sessions.len(),
{
    let init = initial_branches(sessions, root);
    let ws = workflow_list(sessions, root);
    let ps = parentage(sessions, init, ws);
    reveal_strlit("workflow");
    reveal_strlit("supervisor");
    reveal_strlit("subagent");
    assert("supervisor"@[0] != "workflow"@[0]);
    assert("subagent"@[0] != "workflow"@[0]);
    lemma_parentage_roles(sessions, init, ws);
    assert forall|k: int| 0 <= k < ps.len() implies (#[trigger] ps[k]).role != "workflow"@ by {
        assert(ps[k].role == init[k].role);
        assert(init[k] == spec_branch_for(sessions[k].header, sessions[k].projection, root));
    }
    law_workflow_branches(sessions, init);
    assert(workflow_rows_ok(ws));
    lemma_branch_count_roles(ps);
    lemma_branch_count_roles(ws);
    lemma_branch_count_concat(ps, ws);
}

/// The order key of a replay event: time, sequence number, branch id.
pub open spec fn event_order_key(e: EventV) -> KeyView {
    (e.time, e.sequence, e.branch_id)
}

/// Replay ordering: the events of a replay are those of its sessions, each
/// numbered by its position, in non-decreasing order of time, then
/// sequence number (absent first), then branch id.
pub proof fn law_replay_events_are_ordered_and_numbered(sessions: Seq<RawSession>, root: Seq<char>)
    ensures
        replay_events(sessions, root).len() == session_events(sessions, replay_branches(sessions, root)).len(),
        forall|i: int|
            0 <= i < replay_events(sessions, root).len() && i <= usize::MAX ==> #[trigger] replay_events(
                sessions,
                root,
            )[i].index == i,
        forall|i: int, j: int|
            0 <= i < j < replay_events(sessions, root).len() ==> !key_lt(
                event_order_key(#[trigger] replay_events(sessions, root)[j]),
                event_order_key(#[trigger] replay_events(sessions, root)[i]),
            ),
{
    let es = session_events(sessions, replay_branches(sessions, root));
    let keys = event_keys(es);
    let o = stable_order(keys);
    let sorted = stably_sorted(es, keys);
    let r = replay_events(sessions, root);
    lemma_sorted_order_perm(keys, keys.len());
    law_stable_order_is_sorted_and_stable(keys);
    assert(sorted.len() == es.len());
    assert forall|i: int| 0 <= i < r.len() && i <= usize::MAX implies #[trigger] r[i].index == i by {
        assert(r[i] == with_index(sorted[i], i));
    }
    assert forall|i: int, j: int| 0 <= i < j < r.len() implies !key_lt(
        event_order_key(#[trigger] r[j]),
        event_order_key(#[trigger] r[i]),
    ) by {
        assert(r[i] == with_index(sorted[i], i));
        assert(r[j] == with_index(sorted[j], j));
        assert(0 <= o[i] < es.len());
        assert(0 <= o[j] < es.len());
        assert(sorted[i] == es[o[i]]);
        assert(sorted[j] == es[o[j]]);
        assert(keys[o[i]] == event_order_key(es[o[i]]));
        assert(keys[o[j]] == event_order_key(es[o[j]]));
        assert(!key_lt(keys[o[j]], keys[o[i]]));
    }
}

pub open spec fn session_branch_count(bs: Seq<BranchV>) -> nat
    decreases bs.len(),
{
    if bs.len() == 0 {
        0
    } else {
        session_branch_count(bs.drop_last()) + if bs.last().role != "workflow"@ {
            1nat
        } else {
            0
        }
    }
}

pub open spec fn replay_start(es: Seq<EventV>, root: RawSession) -> u64 {
    if es.len() > 0 {
        es[0].time
    } else {
        root.header.created_at
    }
}

pub open spec fn replay_end(es: Seq<EventV>, root: RawSession) -> u64 {
    if es.len() > 0 {
        es.last().time
    } else {
        root.header.updated_at
    }
}

/// A replay reconstructed from the sessions of a root, with the recorder's
/// slot count, the telemetry samples read for it, and the current time.
pub open spec fn replay_matches(
    r: TraceReplay,
    sessions: Seq<RawSession>,
    root: RawSession,
    slots: usize,
    telemetry: Seq<TraceTelemetrySample>,
    now: u64,
) -> bool {
    let bs = replay_branches(sessions, root.header.id@);
    let es = replay_events(sessions, root.header.id@);
    let start = replay_start(es, root);
    let end = replay_end(es, root);
    &&& branch_views(r.branches@) == bs
    &&& events_view(r.events@) == es
    &&& edge_views(r.edges@) == spec_edges(bs, es)
    &&& lease_views(r.leases@) == spec_leases(es, slots)
    &&& r.start_time == start
    &&& r.end_time == end
    &&& r.max_slots == slots
    &&& r.source@ == root.header.path@
    &&& r.telemetry@ == stably_sorted(
        window_samples(telemetry, start, end),
        time_keys(window_samples(telemetry, start, end)),
    )
    &&& session_branch_count(bs) <= usize::MAX
    &&& summary_matches(
        r.session,
        root.header,
        root.projection,
        session_branch_count(bs) as usize,
        now,
    )
}

/// The replay with the telemetry samples of its window, ordered by time.
/// A replay reconstructed without samples (`replay_matches` over none)
/// becomes the replay of these samples (`law_telemetry_completes_replay`).
pub fn with_telemetry(replay: TraceReplay, samples: Vec<TraceTelemetrySample>) -> (r: TraceReplay)
    ensures
        r.telemetry@ == stably_sorted(
            window_samples(samples@, replay.start_time, replay.end_time),
            time_keys(window_samples(samples@, replay.start_time, replay.end_time)),
        ),
        r.session == replay.session,
        r.source == replay.source,
        r.max_slots == replay.max_slots,
        r.start_time == replay.start_time,
        r.end_time == replay.end_time,
        r.branches == replay.branches,
        r.events == replay.events,
        r.edges == replay.edges,
        r.leases == replay.leases,
{
    let mut replay = replay;
    let start = replay.start_time;
    let end = replay.end_time;
    replay.telemetry = telemetry_in_window(samples, start, end);
    replay
}

/// Telemetry law: replacing the telemetry of a reconstructed replay by the
/// window of other samples gives the replay of those samples, and the
/// telemetry of a replay is ordered by time.
pub proof fn law_telemetry_completes_replay(
    rep: TraceReplay,
    r: TraceReplay,
    sessions: Seq<RawSession>,
    root: RawSession,
    slots: usize,
    before: Seq<TraceTelemetrySample>,
    samples: Seq<TraceTelemetrySample>,
    now: u64,
)
    requires
        replay_matches(rep, sessions, root, slots, before, now),
        r.telemetry@ == stably_sorted(
            window_samples(samples, rep.start_time, rep.end_time),
            time_keys(window_samples(samples, rep.start_time, rep.end_time)),
        ),
        r.session == rep.session,
        r.source == rep.source,
        r.max_slots == rep.max_slots,
        r.start_time == rep.start_time,
        r.end_time == rep.end_time,
        r.branches == rep.branches,
        r.events == rep.events,
        r.edges == rep.edges,
        r.leases == rep.leases,
    ensures
        replay_matches(r, sessions, root, slots, samples, now),
        forall|i: int, j: int| 0 <= i < j < r.telemetry@.len() ==> (#[trigger] r.telemetry@[i]).time <= (#[trigger] r.telemetry@[j]).time,
{
    let w = window_samples(samples, rep.start_time, rep.end_time);
    let keys = time_keys(w);
    let o = stable_order(keys);
    lemma_sorted_order_perm(keys, keys.len());
    law_stable_order_is_sorted_and_stable(keys);
    assert forall|i: int, j: int| 0 <= i < j < r.telemetry@.len() implies (#[trigger] r.telemetry@[i]).time <= (#[trigger] r.telemetry@[j]).time by {
        assert(r.telemetry@[i] == w[o[i]]);
        assert(r.telemetry@[j] == w[o[j]]);
        assert(keys[o[i]] == (w[o[i]].time, None::<u64>, Seq::<char>::empty()));
        assert(keys[o[j]] == (w[o[j]].time, None::<u64>, Seq::<char>::empty()));
        assert(!key_lt(keys[o[j]], keys[o[i]]));
    }
}

fn find_session_index(sessions: &Vec<RawSession>, id: &str) -> (r: Option<usize>)
    ensures
        match r {
            Some(i) => i < sessions.len() && find_session(sessions@, id@) == Some(sessions@[i as int]),
            None => find_session(sessions@, id@) is None,
        },
{
    let mut i: usize = 0;
    assert(sessions@.subrange(0, sessions.len() as int) =~= sessions@);
    while i < sessions.len()
        invariant
            i <= sessions.len(),
            find_session(sessions@, id@) == find_session(
                sessions@.subrange(i as int, sessions.len() as int),
                id@,
            ),
        decreases sessions.len() - i,
    {
        let ghost rest = sessions@.subrange(i as int, sessions.len() as int);
        assert(rest[0] == sessions@[i as int]);
        if str_eq(sessions[i].header.id.as_str(), id) {
            return Some(i);
        }
        assert(rest.drop_first() =~= sessions@.subrange(i + 1, sessions.len() as int));
        i = i + 1;
    }
    None
}

fn clone_header(h: &ArtifactHeader) -> (r: ArtifactHeader)
    ensures
        r.id@ == h.id@,
        r.created_at == h.created_at,
        r.cwd@ == h.cwd@,
        opt_view(r.parent_session) == opt_view(h.parent_session),
        opt_view(r.preset) == opt_view(h.preset),
        r.path@ == h.path@,
        r.updated_at == h.updated_at,
{
    ArtifactHeader {
        id: clone_string(&h.id),
        created_at: h.created_at,
        cwd: clone_string(&h.cwd),
        parent_session: clone_opt_string(&h.parent_session),
        preset: clone_opt_string(&h.preset),
        path: clone_string(&h.path),
        updated_at: h.updated_at,
    }
}

fn clone_projection(p: &Projection) -> (r: Projection)
    ensures
        opt_view(r.title) == opt_view(p.title),
        opt_view(r.label) == opt_view(p.label),
        opt_view(r.mode) == opt_view(p.mode),
        opt_view(r.model) == opt_view(p.model),
        r.context_window == p.context_window,
        r.context_tokens == p.context_tokens,
        r.event_count == p.event_count,
        r.settled == p.settled,
{
    Projection {
        title: clone_opt_string(&p.title),
        label: clone_opt_string(&p.label),
        mode: clone_opt_string(&p.mode),
        model: clone_opt_string(&p.model),
        context_window: p.context_window,
        context_tokens: p.context_tokens,
        event_count: p.event_count,
        settled: p.settled,
    }
}

proof fn lemma_find_session(sessions: Seq<RawSession>, id: Seq<char>)
    ensures
        match find_session(sessions, id) {
            Some(s) => s.header.id@ == id,
            None => true,
        },
    decreases sessions.len(),
{
    if sessions.len() > 0 && sessions[0].header.id@ != id {
        lemma_find_session(sessions.drop_first(), id);
    }
}

proof fn lemma_sorted_events(items: Seq<TraceEvent>, keys: Seq<KeyView>)
    requires
        items.len() == keys.len(),
        all_wf(events_view(items)),
    ensures
        events_view(stably_sorted(items, keys)) == stably_sorted(events_view(items), keys),
        all_wf(events_view(stably_sorted(items, keys))),
        stably_sorted(items, keys).len() == items.len(),
{
    lemma_sorted_order_perm(keys, keys.len());
    let o = stable_order(keys);
    assert(events_view(stably_sorted(items, keys)) =~= stably_sorted(events_view(items), keys));
    assert forall|i: int| 0 <= i < stably_sorted(items, keys).len() implies event_wf(
        #[trigger] events_view(stably_sorted(items, keys))[i],
    ) by {
        assert(0 <= o[i] < items.len());
        assert(events_view(items)[o[i]] == event_view(items[o[i]]));
    }
}

proof fn lemma_session_events_wf(sessions: Seq<RawSession>, bs: Seq<BranchV>)
    ensures
        all_wf(session_events(sessions, bs)),
    decreases sessions.len(),
{
    if sessions.len() > 0 {
        lemma_session_events_wf(sessions.drop_last(), bs);
        let s = sessions.last();
        let c = norm_context(s.header, s.projection, s.records@, bs);
        let raw = norm_scan(c, s.records@).1;
        lemma_norm_scan_wf(c, s.records@);
        lemma_compacted_wf(raw);
        let a = session_events(sessions.drop_last(), bs);
        let b = compacted(raw);
        assert forall|i: int| 0 <= i < (a + b).len() implies event_wf(#[trigger] (a + b)[i]) by {
            if i < a.len() {
                assert((a + b)[i] == a[i]);
            } else {
                assert((a + b)[i] == b[i - a.len()]);
            }
        }
    }
}

fn replay_branches_exec(sessions: &Vec<RawSession>, root_id: &str) -> (r: Vec<TraceBranch>)
    ensures
        branch_views(r@) == replay_branches(sessions@, root_id@),
{
    let ghost sess = sessions@;
    let mut branches: Vec<TraceBranch> = Vec::new();
    let mut i: usize = 0;
    while i < sessions.len()
        invariant
            i <= sessions.len(),
            sess == sessions@,
            branch_views(branches@) == initial_branches(sess, root_id@).take(i as int),
        decreases sessions.len() - i,
    {
        let b = branch_for(&sessions[i].header, &sessions[i].projection, root_id);
        let ghost before = branch_views(branches@);
        branches.push(b);
        assert(branch_views(branches@) =~= before.push(branch_view(b)));
        assert(initial_branches(sess, root_id@).take(i + 1) =~= initial_branches(sess, root_id@).take(
            i as int,
        ).push(spec_branch_for(sess[i as int].header, sess[i as int].projection, root_id@)));
        i = i + 1;
    }
    assert(initial_branches(sess, root_id@).take(sessions.len() as int) =~= initial_branches(
        sess,
        root_id@,
    ));
    let mut workflows = workflow_branches(sessions, &branches);
    apply_workflow_parentage(sessions, &mut branches, &workflows);
    let ghost wv = branch_views(workflows@);
    let ghost pv = branch_views(branches@);
    branches.append(&mut workflows);
    assert(branch_views(branches@) =~= pv + wv);
    branches
}

fn collect_events(sessions: Vec<RawSession>, branches: &Vec<TraceBranch>) -> (r: Vec<TraceEvent>)
    ensures
        events_view(r@) == session_events(sessions@, branch_views(branches@)),
        all_wf(events_view(r@)),
{
    let ghost sess = sessions@;
    let ghost bv = branch_views(branches@);
    let n = sessions.len();
    let mut rest = reversed(sessions);
    let mut events: Vec<TraceEvent> = Vec::new();
    let mut k: usize = 0;
    assert(sess.take(0) =~= Seq::<RawSession>::empty());
    assert(events_view(events@) =~= Seq::<EventV>::empty());
    while k < n
        invariant
            k <= n,
            n == sess.len(),
            rest@.len() == n - k,
            forall|j: int| 0 <= j < rest@.len() ==> #[trigger] rest@[j] == sess[n - 1 - j],
            bv == branch_views(branches@),
            events_view(events@) == session_events(sess.take(k as int), bv),
        decreases n - k,
    {
        let s = rest.pop().unwrap();
        assert(s == sess[k as int]);
        assert(sess.take(k + 1).drop_last() =~= sess.take(k as int));
        assert(sess.take(k + 1).last() == s);
        let RawSession { header, projection, records } = s;
        let mut evs = normalize_session(records, &header, &projection, branches);
        let ghost before = events_view(events@);
        let ghost added = events_view(evs@);
        events.append(&mut evs);
        assert(events_view(events@) =~= before + added);
        k = k + 1;
    }
    assert(sess.take(n as int) =~= sess);
    proof {
        lemma_session_events_wf(sess, bv);
    }
    events
}

fn order_events(events: Vec<TraceEvent>) -> (r: Vec<TraceEvent>)
    requires
        all_wf(events_view(events@)),
    ensures
        events_view(r@) == ({
            let es = events_view(events@);
            let sorted = stably_sorted(es, event_keys(es));
            Seq::new(sorted.len(), |i: int| with_index(sorted[i], i))
        }),
        all_wf(events_view(r@)),
{
    let ghost ev = events_view(events@);
    let mut keys: Vec<SortKey> = Vec::new();
    let mut j: usize = 0;
    while j < events.len()
        invariant
            j <= events.len(),
            ev == events_view(events@),
            key_views(keys@) == event_keys(ev).take(j as int),
        decreases events.len() - j,
    {
        let e = &events[j];
        let k = SortKey { primary: e.time, secondary: e.sequence, tertiary: str_to_chars(e.branch_id.as_str()) };
        let ghost kb = key_views(keys@);
        keys.push(k);
        assert(key_views(keys@) =~= kb.push(key_view(k)));
        assert(event_keys(ev).take(j + 1) =~= event_keys(ev).take(j as int).push(
            (e.time, e.sequence, e.branch_id@),
        ));
        j = j + 1;
    }
    assert(event_keys(ev).take(events.len() as int) =~= event_keys(ev));
    let ghost items = events@;
    let sorted = stable_sort(events, &keys);
    proof {
        lemma_sorted_events(items, key_views(keys@));
    }
    let ghost sv = events_view(sorted@);
    let m = sorted.len();
    let mut pending = reversed(sorted);
    let mut ordered: Vec<TraceEvent> = Vec::new();
    let mut q: usize = 0;
    assert(events_view(ordered@) =~= Seq::new(0nat, |i: int| with_index(sv[i], i)));
    while q < m
        invariant
            q <= m,
            m == sv.len(),
            all_wf(sv),
            pending@.len() == m - q,
            forall|j: int| 0 <= j < pending@.len() ==> event_view(#[trigger] pending@[j]) == sv[m - 1 - j],
            events_view(ordered@) == Seq::new(q as nat, |i: int| with_index(sv[i], i)),
            all_wf(events_view(ordered@)),
        decreases m - q,
    {
        let mut e = pending.pop().unwrap();
        assert(event_view(e) == sv[q as int]);
        e.index = q;
        assert(event_view(e) == with_index(sv[q as int], q as int));
        let ghost before = events_view(ordered@);
        assert(event_wf(sv[q as int]));
        ordered.push(e);
        assert(events_view(ordered@) =~= before.push(with_index(sv[q as int], q as int)));
        assert(events_view(ordered@) =~= Seq::new((q + 1) as nat, |i: int| with_index(sv[i], i)));
        assert(all_wf(events_view(ordered@))) by {
            assert forall|i: int| 0 <= i < events_view(ordered@).len() implies event_wf(
                #[trigger] events_view(ordered@)[i],
            ) by {
                if i < q {
                    assert(events_view(ordered@)[i] == before[i]);
                }
            }
        }
        q = q + 1;
    }
    ordered
}

fn session_branch_count_exec(branches: &Vec<TraceBranch>) -> (r: usize)
    ensures
        r == session_branch_count(branch_views(branches@)),
{
    let ghost bv = branch_views(branches@);
    let mut count: usize = 0;
    let mut b: usize = 0;
    assert(bv.take(0) =~= Seq::<BranchV>::empty());
    while b < branches.len()
        invariant
            b <= branches.len(),
            bv == branch_views(branches@),
            count == session_branch_count(bv.take(b as int)),
            count <= b,
        decreases branches.len() - b,
    {
        assert(bv.take(b + 1).drop_last() =~= bv.take(b as int));
        assert(bv.take(b + 1).last() == branch_view(branches@[b as int]));
        if !str_eq(branches[b].role.as_str(), "workflow") {
            count = count + 1;
        }
        b = b + 1;
    }
    assert(bv.take(branches.len() as int) =~= bv);
    count
}

/// Rebuilds the replay of `root_id` from its session files (`replay_matches`),
/// with the recorder's slot count, the telemetry samples read for its window
/// and the current time. Fails when the root session is not among them.
pub fn reconstruct(
    store: &TraceStore,
    root_id: &str,
    sessions: Vec<RawSession>,
    telemetry: Vec<TraceTelemetrySample>,
    now: u64,
) -> (r: Result<TraceReplay, StackError>)
    ensures
        match r {
            Ok(rep) => match find_session(sessions@, root_id@) {
                Some(root) => replay_matches(rep, sessions@, root, store.spec_slots(), telemetry@, now),
                None => false,
            },
            Err(e) => find_session(sessions@, root_id@) is None && is_config_error(
                e,
                "trace root session disappeared during reconstruction"@,
            ),
        },
{
    let ghost sess = sessions@;
    let ri = match find_session_index(&sessions, root_id) {
        Some(i) => i,
        None => {
            return Err(config_error_str("trace root session disappeared during reconstruction"));
        },
    };
    proof {
        lemma_find_session(sess, root_id@);
    }
    let root_header = clone_header(&sessions[ri].header);
    let root_projection = clone_projection(&sessions[ri].projection);
    let branches = replay_branches_exec(&sessions, root_id);
    let events = collect_events(sessions, &branches);
    let ordered = order_events(events);
    let edges = build_edges(&branches, &ordered);
    let leases = build_leases(&ordered, store.inference_slots());
    let start_time = if ordered.len() > 0 {
        ordered[0].time
    } else {
        root_header.created_at
    };
    let end_time = if ordered.len() > 0 {
        ordered[ordered.len() - 1].time
    } else {
        root_header.updated_at
    };
    let samples = telemetry_in_window(telemetry, start_time, end_time);
    let count = session_branch_count_exec(&branches);
    let session = summary_for(&root_header, &root_projection, count, now);
    let source = clone_string(&root_header.path);
    Ok(
        TraceReplay {
            session,
            source,
            max_slots: store.inference_slots(),
            start_time,
            end_time,
            branches,
            events: ordered,
            edges,
            leases,
            telemetry: samples,
        },
    )
}

// ----- the session list and the sessions of a replay -----
/// The number of sessions that descend from a root.
pub open spec fn descendant_count(hs: Seq<ArtifactHeader>, candidates: Seq<ArtifactHeader>, root: Seq<char>) -> nat
    decreases candidates.len(),
{
    if candidates.len() == 0 {
        0
    } else {
        descendant_count(hs, candidates.drop_last(), root) + if spec_descends_from(
            candidates.last(),
            root,
            hs,
        ) {
            1nat
        } else {
            0
        }
    }
}

/// The positions of the sessions without a parent.
pub open spec fn root_positions(hs: Seq<ArtifactHeader>) -> Seq<int>
    decreases hs.len(),
{
    if hs.len() == 0 {
        Seq::empty()
    } else if hs.last().parent_session is None {
        root_positions(hs.drop_last()).push(hs.len() - 1)
    } else {
        root_positions(hs.drop_last())
    }
}

/// Sorting by this key orders summaries from the latest update down.
pub open spec fn recency_keys(hs: Seq<ArtifactHeader>, ps: Seq<int>) -> Seq<KeyView> {
    ps.map_values(|p: int| ((u64::MAX - hs[p].updated_at) as u64, None::<u64>, Seq::<char>::empty()))
}

/// What the session list says of each root: its summary, counting every
/// descendant (at least one branch), latest update first.
pub open spec fn summaries_match(
    r: Seq<TraceSessionSummary>,
    hs: Seq<ArtifactHeader>,
    projections: Seq<Projection>,
    now: u64,
) -> bool {
    let order = stably_sorted(root_positions(hs), recency_keys(hs, root_positions(hs)));
    &&& r.len() == order.len()
    &&& forall|i: int|
        #![trigger r[i]]
        0 <= i < r.len() ==> {
            let p = order[i];
            let n = descendant_count(hs, hs, hs[p].id@);
            summary_matches(
                r[i],
                hs[p],
                projections[p],
                (if n >= 1 {
                    n
                } else {
                    1
                }) as usize,
                now,
            )
        }
}

proof fn lemma_descendant_count_bound(hs: Seq<ArtifactHeader>, cs: Seq<ArtifactHeader>, root: Seq<char>)
    ensures
        descendant_count(hs, cs, root) <= cs.len(),
    decreases cs.len(),
{
    if cs.len() > 0 {
        lemma_descendant_count_bound(hs, cs.drop_last(), root);
    }
}

fn descendant_count_exec(headers: &Vec<ArtifactHeader>, root: &str) -> (r: usize)
    ensures
        r == descendant_count(headers@, headers@, root@),
{
    let mut n: usize = 0;
    let mut i: usize = 0;
    assert(headers@.take(0) =~= Seq::<ArtifactHeader>::empty());
    while i < headers.len()
        invariant
            i <= headers.len(),
            n == descendant_count(headers@, headers@.take(i as int), root@),
            n <= i,
        decreases headers.len() - i,
    {
        assert(headers@.take(i + 1).drop_last() =~= headers@.take(i as int));
        assert(headers@.take(i + 1).last() == headers@[i as int]);
        if descends_from(&headers[i], root, headers) {
            n = n + 1;
        }
        i = i + 1;
    }
    assert(headers@.take(headers.len() as int) =~= headers@);
    n
}

proof fn lemma_root_positions(hs: Seq<ArtifactHeader>)
    ensures
        forall|k: int| 0 <= k < root_positions(hs).len() ==> 0 <= #[trigger] root_positions(hs)[k] < hs.len(),
    decreases hs.len(),
{
    if hs.len() > 0 {
        lemma_root_positions(hs.drop_last());
        let p = root_positions(hs.drop_last());
        assert forall|k: int| 0 <= k < root_positions(hs).len() implies 0 <= #[trigger] root_positions(
            hs,
        )[k] < hs.len() by {
            if k < p.len() {
                assert(root_positions(hs)[k] == p[k]);
            }
        }
    }
}

/// The summaries of the root sessions (`summaries_match`). `projections`
/// holds what the projection cache says of each header's session.
pub fn session_summaries(headers: &Vec<ArtifactHeader>, projections: &Vec<Projection>, now: u64) -> (r: Vec<
    TraceSessionSummary,
>)
    requires
        projections@.len() == headers@.len(),
    ensures
        summaries_match(r@, headers@, projections@, now),
{
    let ghost hs = headers@;
    let mut positions: Vec<usize> = Vec::new();
    let mut keys: Vec<SortKey> = Vec::new();
    let mut i: usize = 0;
    assert(hs.take(0) =~= Seq::<ArtifactHeader>::empty());
    while i < headers.len()
        invariant
            i <= headers.len(),
            hs == headers@,
            index_ints(positions@) == root_positions(hs.take(i as int)),
            key_views(keys@) == recency_keys(hs, root_positions(hs.take(i as int))),
            forall|k: int| 0 <= k < positions@.len() ==> (#[trigger] positions@[k]) < i,
        decreases headers.len() - i,
    {
        assert(hs.take(i + 1).drop_last() =~= hs.take(i as int));
        assert(hs.take(i + 1).last() == hs[i as int]);
        if headers[i].parent_session.is_none() {
            let ghost pb = positions@;
            let ghost kb = keys@;
            positions.push(i);
            let k = SortKey { primary: u64::MAX - headers[i].updated_at, secondary: None, tertiary: Vec::new() };
            keys.push(k);
            assert(index_ints(positions@) =~= index_ints(pb).push(
                i as int,
            ));
            assert(key_views(keys@) =~= key_views(kb).push(key_view(k)));
            assert(recency_keys(hs, root_positions(hs.take(i + 1))) =~= recency_keys(
                hs,
                root_positions(hs.take(i as int)),
            ).push(((u64::MAX - hs[i as int].updated_at) as u64, None::<u64>, Seq::<char>::empty())));
        }
        i = i + 1;
    }
    assert(hs.take(headers.len() as int) =~= hs);
    let ghost items = positions@;
    let order = stable_sort(positions, &keys);
    proof {
        lemma_ints_sorted(items, key_views(keys@));
        lemma_root_positions(hs);
        lemma_sorted_order_perm(key_views(keys@), key_views(keys@).len());
    }
    let ghost ord = stably_sorted(root_positions(hs), recency_keys(hs, root_positions(hs)));
    assert(index_ints(order@) == ord);
    let mut out: Vec<TraceSessionSummary> = Vec::new();
    let mut j: usize = 0;
    while j < order.len()
        invariant
            j <= order.len(),
            hs == headers@,
            projections@.len() == hs.len(),
            index_ints(order@) == ord,
            forall|k: int| 0 <= k < order@.len() ==> (#[trigger] order@[k]) < hs.len(),
            out@.len() == j,
            forall|t: int|
                #![trigger out@[t]]
                0 <= t < j ==> {
                    let p = ord[t];
                    let n = descendant_count(hs, hs, hs[p].id@);
                    summary_matches(
                        out@[t],
                        hs[p],
                        projections@[p],
                        (if n >= 1 {
                            n
                        } else {
                            1
                        }) as usize,
                        now,
                    )
                },
        decreases order.len() - j,
    {
        let p = order[j];
        assert(ord[j as int] == p as int);
        let h = &headers[p];
        let count = descendant_count_exec(headers, h.id.as_str());
        let count = if count >= 1 {
            count
        } else {
            1
        };
        let summary = summary_for(h, &projections[p], count, now);
        out.push(summary);
        j = j + 1;
    }
    out
}

/// The sessions of the replay that shows a session: its root ancestor and
/// every session that descends from that root, as positions in order.
pub open spec fn replay_selection(hs: Seq<ArtifactHeader>, root: Seq<char>) -> Seq<int> {
    replay_selection_upto(hs, root, hs.len() as int)
}

pub open spec fn selection_matches(
    r: Result<(String, Vec<usize>), StackError>,
    hs: Seq<ArtifactHeader>,
    session_id: Seq<char>,
) -> bool {
    match find_header(hs, session_id) {
        None => r is Err && is_config_error(
            r->Err_0,
            "Harness session "@ + session_id + " was not found"@,
        ),
        Some(h) => r is Ok && r->Ok_0.0@ == spec_root_ancestor(h, hs) && index_ints(r->Ok_0.1@) == replay_selection(hs, spec_root_ancestor(h, hs)),
    }
}

/// Chooses the sessions to reconstruct for `session_id`: the root of its
/// lineage and every descendant of that root, as positions in `headers`.
pub fn select_replay_sessions(headers: &Vec<ArtifactHeader>, session_id: &str) -> (r: Result<
    (String, Vec<usize>),
    StackError,
>)
    ensures
        selection_matches(r, headers@, session_id@),
{
    let i = match find_header_index(headers, session_id) {
        Some(i) => i,
        None => {
            return Err(config_error(concat3("Harness session ", session_id, " was not found")));
        },
    };
    let root = root_ancestor(&headers[i], headers);
    let mut selected: Vec<usize> = Vec::new();
    let mut k: usize = 0;
    let ghost hs = headers@;
    assert(hs.take(0) =~= Seq::<ArtifactHeader>::empty());
    while k < headers.len()
        invariant
            k <= headers.len(),
            hs == headers@,
            index_ints(selected@) == replay_selection_upto(hs, root@, k as int),
            root@ == spec_root_ancestor(hs[i as int], hs),
            find_header(hs, session_id@) == Some(hs[i as int]),
        decreases headers.len() - k,
    {
        let h = &headers[k];
        let ghost sb = selected@;
        if str_eq(h.id.as_str(), root.as_str()) || descends_from(h, root.as_str(), headers) {
            selected.push(k);
            assert(index_ints(selected@) =~= index_ints(sb).push(
                k as int,
            ));
        }
        k = k + 1;
    }
    Ok((root, selected))
}

/// The selection among the first `k` headers, each judged against all of them.
pub open spec fn replay_selection_upto(hs: Seq<ArtifactHeader>, root: Seq<char>, k: int) -> Seq<int>
    decreases k,
{
    if k <= 0 {
        Seq::empty()
    } else {
        let prev = replay_selection_upto(hs, root, k - 1);
        let h = hs[k - 1];
        if h.id@ == root || spec_descends_from(h, root, hs) {
            prev.push(k - 1)
        } else {
            prev
        }
    }
}

} // verus!
