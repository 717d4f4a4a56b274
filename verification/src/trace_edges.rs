//! The edges of a replay: the order of events on each branch, sub-agent
//! spawns and forks, workflow membership, and reports back to a parent.
use vstd::prelude::*;

use crate::json::TraceRecord;
use crate::text::{append_chars, append_str, clone_opt_string, clone_string, contains, contains_chars, join, join_chars, opt_view, str_eq, str_to_chars, string_views, views};
use crate::trace_branches::{BranchV, branch_view, branch_views, data_opt, row_index, row_index_exec};
use crate::trace_events::{EventV, data_string, event_view, events_view, or_text, raw_record};
use crate::trace_fold::{first_of_type, has_type, opt_record, record_of_type};
use crate::trace_model::{TraceBranch, TraceEdge, TraceEvent};
use crate::sort::reversed;

verus! {

/// The values of an edge.
pub struct EdgeV {
    pub from: Seq<char>,
    pub to: Seq<char>,
    pub kind: Seq<char>,
    pub label: Seq<char>,
}

pub open spec fn edge_view(e: TraceEdge) -> EdgeV {
    EdgeV { from: e.from@, to: e.to@, kind: e.kind@, label: e.label@ }
}

pub open spec fn edge_views(es: Seq<TraceEdge>) -> Seq<EdgeV> {
    es.map_values(|e: TraceEdge| edge_view(e))
}

pub open spec fn edge(from: Seq<char>, to: Seq<char>, kind: Seq<char>, label: Seq<char>) -> EdgeV {
    EdgeV { from, to, kind, label }
}

// ----- events of a branch -----
/// The branches that have events, in the order their first event comes.
pub open spec fn branch_order(es: Seq<EventV>) -> Seq<Seq<char>>
    decreases es.len(),
{
    if es.len() == 0 {
        Seq::empty()
    } else {
        let o = branch_order(es.drop_last());
        if o.contains(es.last().branch_id) {
            o
        } else {
            o.push(es.last().branch_id)
        }
    }
}

/// The ids of a branch's events, in order.
pub open spec fn ids_on(es: Seq<EventV>, b: Seq<char>) -> Seq<Seq<char>>
    decreases es.len(),
{
    if es.len() == 0 {
        Seq::empty()
    } else if es.last().branch_id == b {
        ids_on(es.drop_last(), b).push(es.last().id)
    } else {
        ids_on(es.drop_last(), b)
    }
}

pub open spec fn first_on(es: Seq<EventV>, b: Seq<char>) -> Option<Seq<char>> {
    if ids_on(es, b).len() > 0 {
        Some(ids_on(es, b)[0])
    } else {
        None
    }
}

pub open spec fn last_on(es: Seq<EventV>, b: Seq<char>) -> Option<Seq<char>> {
    if ids_on(es, b).len() > 0 {
        Some(ids_on(es, b).last())
    } else {
        None
    }
}

/// One edge from each event of a branch to the next.
pub open spec fn chain_edges(ids: Seq<Seq<char>>) -> Seq<EdgeV>
    decreases ids.len(),
{
    if ids.len() < 2 {
        Seq::empty()
    } else {
        chain_edges(ids.drop_last()).push(edge(ids[ids.len() - 2], ids.last(), "same"@, Seq::empty()))
    }
}

pub open spec fn same_edges(es: Seq<EventV>, order: Seq<Seq<char>>) -> Seq<EdgeV>
    decreases order.len(),
{
    if order.len() == 0 {
        Seq::empty()
    } else {
        same_edges(es, order.drop_last()) + chain_edges(ids_on(es, order.last()))
    }
}

// ----- spawns and forks -----
/// The compact JSON text of an event's records, as one array.
pub open spec fn records_json(rs: Seq<TraceRecord>) -> Seq<char> {
    "["@ + join(rs.map_values(|r: TraceRecord| r.text@), ","@) + "]"@
}

pub open spec fn call_forks(call: TraceRecord) -> bool {
    match data_string(call.value, "name"@) {
        Some(n) => contains(n, "fork"@),
        None => false,
    }
}

/// A tool execution whose records name a sub-agent spawned or forked it.
pub open spec fn spawn_for(e: EventV, call: TraceRecord, bs: Seq<BranchV>, es: Seq<EventV>) -> Seq<EdgeV>
    decreases bs.len(),
{
    if bs.len() == 0 {
        Seq::empty()
    } else {
        let prev = spawn_for(e, call, bs.drop_last(), es);
        let b = bs.last();
        if b.role == "subagent"@ && contains(records_json(e.records), b.id) && first_on(es, b.id) is Some {
            let kind = if b.forked || call_forks(call) {
                "fork"@
            } else {
                "spawn"@
            };
            prev.push(edge(e.id, first_on(es, b.id)->0, kind, kind))
        } else {
            prev
        }
    }
}

pub open spec fn spawn_edges(evs: Seq<EventV>, es: Seq<EventV>, bs: Seq<BranchV>) -> Seq<EdgeV>
    decreases evs.len(),
{
    if evs.len() == 0 {
        Seq::empty()
    } else {
        let prev = spawn_edges(evs.drop_last(), es, bs);
        let e = evs.last();
        if e.event_type == "tool/execution"@ {
            match first_of_type(e.records, "tool/call"@) {
                Some(call) => prev + spawn_for(e, call, bs, es),
                None => prev,
            }
        } else {
            prev
        }
    }
}

// ----- workflow and report edges -----
pub open spec fn branch_first(bs: Seq<BranchV>, id: Seq<char>) -> Option<BranchV> {
    match row_index(bs, id) {
        Some(k) => Some(bs[k as int]),
        None => None,
    }
}

pub open spec fn parent_of_branch(bs: Seq<BranchV>, id: Seq<char>) -> Option<Seq<char>> {
    match branch_first(bs, id) {
        Some(b) => b.parent_id,
        None => None,
    }
}

/// The last event of a branch at or before a time.
pub open spec fn last_before(es: Seq<EventV>, b: Seq<char>, t: u64) -> Option<Seq<char>>
    decreases es.len(),
{
    if es.len() == 0 {
        None
    } else if es.last().branch_id == b && es.last().time <= t {
        Some(es.last().id)
    } else {
        last_before(es.drop_last(), b, t)
    }
}

/// The first event of a branch at or after a time.
pub open spec fn first_after(es: Seq<EventV>, b: Seq<char>, t: u64) -> Option<Seq<char>>
    decreases es.len(),
{
    if es.len() == 0 {
        None
    } else if es[0].branch_id == b && es[0].time >= t {
        Some(es[0].id)
    } else {
        first_after(es.drop_first(), b, t)
    }
}

/// A `data` member of the record that opened an event; an event without
/// that record has none.
pub open spec fn opening_data(e: EventV, key: Seq<char>) -> Option<Seq<char>> {
    if e.raw_index < e.records.len() {
        data_string(raw_record(e).value, key)
    } else {
        None
    }
}

pub open spec fn report_call(e: EventV) -> Option<TraceRecord> {
    if e.event_type == "tool/execution"@ {
        match first_of_type(e.records, "tool/call"@) {
            Some(call) => if data_string(call.value, "name"@) == Some("report"@) {
                Some(call)
            } else {
                None
            },
            None => None,
        }
    } else {
        None
    }
}

/// The workflow, membership and report edge an event makes, if any.
pub open spec fn lifecycle_edge(e: EventV, es: Seq<EventV>, bs: Seq<BranchV>) -> Option<EdgeV> {
    if e.event_type == "tool-workflow/run-start"@ {
        match parent_of_branch(bs, e.branch_id) {
            Some(p) => match last_before(es, p, e.time) {
                Some(from) => Some(edge(from, e.id, "workflow"@, "workflow"@)),
                None => None,
            },
            None => None,
        }
    } else if e.event_type == "tool-workflow/agent-start"@ {
        match opening_data(e, "childId"@) {
            Some(child) => match first_on(es, child) {
                Some(to) => Some(edge(e.id, to, "workflow"@, "member"@)),
                None => None,
            },
            None => None,
        }
    } else if e.event_type == "tool-workflow/agent-end"@ {
        match opening_data(e, "childId"@) {
            Some(child) => match last_on(es, child) {
                Some(from) => Some(edge(from, e.id, "report"@, "report"@)),
                None => None,
            },
            None => None,
        }
    } else {
        match report_call(e) {
            Some(call) => {
                let kind = if contains(
                    or_text(data_string(call.value, "arguments"@), Seq::empty()),
                    "consultation"@,
                ) {
                    "consultation"@
                } else {
                    "report"@
                };
                match parent_of_branch(bs, e.branch_id) {
                    Some(p) => match first_after(es, p, e.time) {
                        Some(to) => Some(edge(e.id, to, kind, kind)),
                        None => None,
                    },
                    None => None,
                }
            },
            None => None,
        }
    }
}

pub open spec fn lifecycle_edges(evs: Seq<EventV>, es: Seq<EventV>, bs: Seq<BranchV>) -> Seq<EdgeV>
    decreases evs.len(),
{
    if evs.len() == 0 {
        Seq::empty()
    } else {
        let prev = lifecycle_edges(evs.drop_last(), es, bs);
        match lifecycle_edge(evs.last(), es, bs) {
            Some(x) => prev.push(x),
            None => prev,
        }
    }
}

// ----- duplicates -----
pub open spec fn same_link(a: EdgeV, b: EdgeV) -> bool {
    a.from == b.from && a.to == b.to && a.kind == b.kind
}

pub open spec fn has_link(es: Seq<EdgeV>, x: EdgeV) -> bool {
    exists|i: int| 0 <= i < es.len() && same_link(#[trigger] es[i], x)
}

/// The edges with each link (from, to, kind) kept once, where it first comes.
pub open spec fn distinct_links(es: Seq<EdgeV>) -> Seq<EdgeV>
    decreases es.len(),
{
    if es.len() == 0 {
        Seq::empty()
    } else {
        let d = distinct_links(es.drop_last());
        if has_link(d, es.last()) {
            d
        } else {
            d.push(es.last())
        }
    }
}

/// All edges of a replay.
pub open spec fn spec_edges(bs: Seq<BranchV>, es: Seq<EventV>) -> Seq<EdgeV> {
    distinct_links(
        same_edges(es, branch_order(es)) + spawn_edges(es, es, bs) + lifecycle_edges(es, es, bs),
    )
}

// ----- properties of the edges -----
pub open spec fn has_id(es: Seq<EventV>, id: Seq<char>) -> bool {
    exists|i: int| 0 <= i < es.len() && (#[trigger] es[i]).id == id
}

pub open spec fn edge_kind_ok(k: Seq<char>) -> bool {
    k == "same"@ || k == "spawn"@ || k == "fork"@ || k == "workflow"@ || k == "report"@ || k
        == "consultation"@
}

/// Two events of one branch, the first before the second.
pub open spec fn in_branch_order(es: Seq<EventV>, from: Seq<char>, to: Seq<char>) -> bool {
    exists|i: int, j: int|
        0 <= i < j < es.len() && (#[trigger] es[i]).id == from && (#[trigger] es[j]).id == to
            && es[i].branch_id == es[j].branch_id
}

/// An edge joins two events of the replay, has one of the known kinds,
/// and a `same` edge follows one branch forward.
pub open spec fn edge_ok(es: Seq<EventV>, x: EdgeV) -> bool {
    &&& has_id(es, x.from)
    &&& has_id(es, x.to)
    &&& edge_kind_ok(x.kind)
    &&& (x.kind == "same"@ ==> in_branch_order(es, x.from, x.to))
}

pub open spec fn edges_ok(es: Seq<EventV>, xs: Seq<EdgeV>) -> bool {
    forall|k: int| 0 <= k < xs.len() ==> edge_ok(es, #[trigger] xs[k])
}

proof fn lemma_edges_ok_concat(es: Seq<EventV>, a: Seq<EdgeV>, b: Seq<EdgeV>)
    requires
        edges_ok(es, a),
        edges_ok(es, b),
    ensures
        edges_ok(es, a + b),
{
    assert forall|k: int| 0 <= k < (a + b).len() implies edge_ok(es, #[trigger] (a + b)[k]) by {
        if k < a.len() {
            assert((a + b)[k] == a[k]);
        } else {
            assert((a + b)[k] == b[k - a.len()]);
        }
    }
}

proof fn lemma_ids_on(es: Seq<EventV>, b: Seq<char>)
    ensures
        forall|k: int|
            0 <= k < ids_on(es, b).len() ==> exists|i: int|
                0 <= i < es.len() && (#[trigger] es[i]).id == #[trigger] ids_on(es, b)[k] && es[i].branch_id == b,
        forall|k: int|
            0 <= k && k + 1 < ids_on(es, b).len() ==> in_branch_order(
                es,
                #[trigger] ids_on(es, b)[k],
                ids_on(es, b)[k + 1],
            ),
    decreases es.len(),
{
    if es.len() > 0 {
        let d = es.drop_last();
        lemma_ids_on(d, b);
        let ids = ids_on(es, b);
        let pids = ids_on(d, b);
        let n = es.len() - 1;
        assert forall|k: int| 0 <= k < ids.len() implies exists|i: int|
            0 <= i < es.len() && (#[trigger] es[i]).id == #[trigger] ids[k] && es[i].branch_id == b by {
            if k < pids.len() {
                assert(ids[k] == pids[k]);
                let i = choose|i: int| 0 <= i < d.len() && (#[trigger] d[i]).id == pids[k] && d[i].branch_id == b;
                assert(es[i] == d[i]);
            } else {
                assert(ids[k] == es[n].id);
            }
        }
        assert forall|k: int| 0 <= k && k + 1 < ids.len() implies in_branch_order(
            es,
            #[trigger] ids[k],
            ids[k + 1],
        ) by {
            if k + 1 < pids.len() {
                assert(ids[k] == pids[k]);
                assert(ids[k + 1] == pids[k + 1]);
                assert(in_branch_order(d, pids[k], pids[k + 1]));
                let (i, j) = choose|i: int, j: int|
                    0 <= i < j < d.len() && (#[trigger] d[i]).id == pids[k] && (#[trigger] d[j]).id == pids[k + 1]
                        && d[i].branch_id == d[j].branch_id;
                assert(es[i] == d[i] && es[j] == d[j]);
            } else {
                assert(ids[k] == pids[k]);
                assert(ids[k + 1] == es[n].id);
                let i = choose|i: int| 0 <= i < d.len() && (#[trigger] d[i]).id == pids[k] && d[i].branch_id == b;
                assert(es[i] == d[i]);
                assert(es[n].branch_id == b);
            }
        }
    }
}

proof fn lemma_chain_edges(es: Seq<EventV>, b: Seq<char>, ids: Seq<Seq<char>>)
    requires
        ids.len() <= ids_on(es, b).len(),
        ids == ids_on(es, b).take(ids.len() as int),
    ensures
        edges_ok(es, chain_edges(ids)),
    decreases ids.len(),
{
    lemma_ids_on(es, b);
    if ids.len() >= 2 {
        let full = ids_on(es, b);
        assert(ids.drop_last() =~= full.take(ids.len() - 1));
        lemma_chain_edges(es, b, ids.drop_last());
        let k = ids.len() - 2;
        assert(ids[k] == full[k]);
        assert(ids.last() == full[k + 1]);
        assert(in_branch_order(es, full[k], full[k + 1]));
        assert(exists|i: int| 0 <= i < es.len() && (#[trigger] es[i]).id == full[k] && es[i].branch_id == b);
        assert(exists|i: int| 0 <= i < es.len() && (#[trigger] es[i]).id == full[k + 1] && es[i].branch_id == b);
        let x = edge(ids[k], ids.last(), "same"@, Seq::empty());
        assert(edge_ok(es, x));
        let prev = chain_edges(ids.drop_last());
        assert forall|t: int| 0 <= t < prev.push(x).len() implies edge_ok(es, #[trigger] prev.push(x)[t]) by {
            if t < prev.len() {
                assert(prev.push(x)[t] == prev[t]);
            }
        }
    }
}

proof fn lemma_same_edges(es: Seq<EventV>, order: Seq<Seq<char>>)
    ensures
        edges_ok(es, same_edges(es, order)),
    decreases order.len(),
{
    if order.len() > 0 {
        lemma_same_edges(es, order.drop_last());
        let ids = ids_on(es, order.last());
        assert(ids == ids.take(ids.len() as int));
        lemma_chain_edges(es, order.last(), ids);
        lemma_edges_ok_concat(es, same_edges(es, order.drop_last()), chain_edges(ids));
    }
}

proof fn lemma_first_last_on(es: Seq<EventV>, b: Seq<char>)
    ensures
        first_on(es, b) matches Some(id) ==> has_id(es, id),
        last_on(es, b) matches Some(id) ==> has_id(es, id),
{
    lemma_ids_on(es, b);
    let ids = ids_on(es, b);
    if ids.len() > 0 {
        assert(exists|i: int| 0 <= i < es.len() && (#[trigger] es[i]).id == ids[0] && es[i].branch_id == b);
        assert(ids.last() == ids[ids.len() - 1]);
        assert(exists|i: int| 0 <= i < es.len() && (#[trigger] es[i]).id == ids[ids.len() - 1] && es[i].branch_id == b);
    }
}

proof fn lemma_last_before(es: Seq<EventV>, b: Seq<char>, t: u64)
    ensures
        last_before(es, b, t) matches Some(id) ==> has_id(es, id),
    decreases es.len(),
{
    if es.len() > 0 {
        let d = es.drop_last();
        lemma_last_before(d, b, t);
        if es.last().branch_id == b && es.last().time <= t {
            assert(es[es.len() - 1].id == es.last().id);
        } else {
            match last_before(d, b, t) {
                Some(id) => {
                    let i = choose|i: int| 0 <= i < d.len() && (#[trigger] d[i]).id == id;
                    assert(es[i] == d[i]);
                },
                None => {},
            }
        }
    }
}

proof fn lemma_first_after(es: Seq<EventV>, b: Seq<char>, t: u64)
    ensures
        first_after(es, b, t) matches Some(id) ==> has_id(es, id),
    decreases es.len(),
{
    if es.len() > 0 {
        let d = es.drop_first();
        lemma_first_after(d, b, t);
        if es[0].branch_id == b && es[0].time >= t {
        } else {
            match first_after(d, b, t) {
                Some(id) => {
                    let i = choose|i: int| 0 <= i < d.len() && (#[trigger] d[i]).id == id;
                    assert(es[i + 1] == d[i]);
                },
                None => {},
            }
        }
    }
}

proof fn lemma_kinds_differ()
    ensures
        "fork"@ != "same"@,
        "spawn"@ != "same"@,
        "workflow"@ != "same"@,
        "report"@ != "same"@,
        "consultation"@ != "same"@,
{
    reveal_strlit("same");
    reveal_strlit("fork");
    reveal_strlit("spawn");
    reveal_strlit("workflow");
    reveal_strlit("report");
    reveal_strlit("consultation");
    assert("fork"@[0] != "same"@[0]);
    assert("spawn"@[1] != "same"@[1]);
    assert("workflow"@[0] != "same"@[0]);
    assert("report"@[0] != "same"@[0]);
    assert("consultation"@[0] != "same"@[0]);
}

proof fn lemma_spawn_for(e: EventV, call: TraceRecord, bs: Seq<BranchV>, es: Seq<EventV>)
    requires
        has_id(es, e.id),
    ensures
        edges_ok(es, spawn_for(e, call, bs, es)),
    decreases bs.len(),
{
    if bs.len() > 0 {
        lemma_spawn_for(e, call, bs.drop_last(), es);
        let b = bs.last();
        lemma_first_last_on(es, b.id);
        let prev = spawn_for(e, call, bs.drop_last(), es);
        if b.role == "subagent"@ && contains(records_json(e.records), b.id) && first_on(es, b.id) is Some {
            let kind = if b.forked || call_forks(call) {
                "fork"@
            } else {
                "spawn"@
            };
            let x = edge(e.id, first_on(es, b.id)->0, kind, kind);
            lemma_kinds_differ();
            assert(edge_ok(es, x));
            assert forall|t: int| 0 <= t < prev.push(x).len() implies edge_ok(es, #[trigger] prev.push(x)[t]) by {
                if t < prev.len() {
                    assert(prev.push(x)[t] == prev[t]);
                }
            }
        }
    }
}

proof fn lemma_spawn_edges(evs: Seq<EventV>, es: Seq<EventV>, bs: Seq<BranchV>)
    requires
        forall|k: int| 0 <= k < evs.len() ==> has_id(es, (#[trigger] evs[k]).id),
    ensures
        edges_ok(es, spawn_edges(evs, es, bs)),
    decreases evs.len(),
{
    if evs.len() > 0 {
        let d = evs.drop_last();
        assert forall|k: int| 0 <= k < d.len() implies has_id(es, (#[trigger] d[k]).id) by {
            assert(d[k] == evs[k]);
        }
        lemma_spawn_edges(d, es, bs);
        let e = evs.last();
        assert(has_id(es, evs[evs.len() - 1].id));
        if e.event_type == "tool/execution"@ {
            match first_of_type(e.records, "tool/call"@) {
                Some(call) => {
                    lemma_spawn_for(e, call, bs, es);
                    lemma_edges_ok_concat(es, spawn_edges(d, es, bs), spawn_for(e, call, bs, es));
                },
                None => {},
            }
        }
    }
}

proof fn lemma_lifecycle_edge(e: EventV, es: Seq<EventV>, bs: Seq<BranchV>)
    requires
        has_id(es, e.id),
    ensures
        lifecycle_edge(e, es, bs) matches Some(x) ==> edge_ok(es, x),
{
    lemma_kinds_differ();
    match parent_of_branch(bs, e.branch_id) {
        Some(p) => {
            lemma_last_before(es, p, e.time);
            lemma_first_after(es, p, e.time);
        },
        None => {},
    }
    match opening_data(e, "childId"@) {
        Some(child) => lemma_first_last_on(es, child),
        None => {},
    }
}

proof fn lemma_lifecycle_edges(evs: Seq<EventV>, es: Seq<EventV>, bs: Seq<BranchV>)
    requires
        forall|k: int| 0 <= k < evs.len() ==> has_id(es, (#[trigger] evs[k]).id),
    ensures
        edges_ok(es, lifecycle_edges(evs, es, bs)),
    decreases evs.len(),
{
    if evs.len() > 0 {
        let d = evs.drop_last();
        assert forall|k: int| 0 <= k < d.len() implies has_id(es, (#[trigger] d[k]).id) by {
            assert(d[k] == evs[k]);
        }
        lemma_lifecycle_edges(d, es, bs);
        let e = evs.last();
        assert(has_id(es, evs[evs.len() - 1].id));
        lemma_lifecycle_edge(e, es, bs);
        let prev = lifecycle_edges(d, es, bs);
        match lifecycle_edge(e, es, bs) {
            Some(x) => {
                assert forall|t: int| 0 <= t < prev.push(x).len() implies edge_ok(es, #[trigger] prev.push(x)[t]) by {
                    if t < prev.len() {
                        assert(prev.push(x)[t] == prev[t]);
                    }
                }
            },
            None => {},
        }
    }
}

proof fn lemma_distinct_links(es: Seq<EventV>, xs: Seq<EdgeV>)
    requires
        edges_ok(es, xs),
    ensures
        edges_ok(es, distinct_links(xs)),
        forall|a: int, b: int|
            0 <= a < b < distinct_links(xs).len() ==> !same_link(
                #[trigger] distinct_links(xs)[a],
                #[trigger] distinct_links(xs)[b],
            ),
    decreases xs.len(),
{
    if xs.len() > 0 {
        let d0 = xs.drop_last();
        assert forall|k: int| 0 <= k < d0.len() implies edge_ok(es, #[trigger] d0[k]) by {
            assert(d0[k] == xs[k]);
        }
        lemma_distinct_links(es, d0);
        let d = distinct_links(d0);
        let x = xs.last();
        assert(edge_ok(es, xs[xs.len() - 1]));
        if !has_link(d, x) {
            let r = d.push(x);
            assert forall|k: int| 0 <= k < r.len() implies edge_ok(es, #[trigger] r[k]) by {
                if k < d.len() {
                    assert(r[k] == d[k]);
                }
            }
            assert forall|a: int, b: int| 0 <= a < b < r.len() implies !same_link(#[trigger] r[a], #[trigger] r[b]) by {
                assert(r[a] == d[a]);
                if b == d.len() {
                    assert(r[b] == x);
                    if same_link(d[a], x) {
                        assert(has_link(d, x));
                    }
                } else {
                    assert(r[b] == d[b]);
                }
            }
        }
    }
}

proof fn lemma_lifecycle_member(evs: Seq<EventV>, es: Seq<EventV>, bs: Seq<BranchV>, i: int)
    requires
        0 <= i < evs.len(),
        lifecycle_edge(evs[i], es, bs) is Some,
    ensures
        exists|k: int| 0 <= k < lifecycle_edges(evs, es, bs).len() && lifecycle_edges(evs, es, bs)[k] == lifecycle_edge(evs[i], es, bs)->0,
    decreases evs.len(),
{
    let prev = lifecycle_edges(evs.drop_last(), es, bs);
    if i == evs.len() - 1 {
        assert(evs[i] == evs.last());
        assert(lifecycle_edges(evs, es, bs) == prev.push(lifecycle_edge(evs[i], es, bs)->0));
        assert(lifecycle_edges(evs, es, bs)[prev.len() as int] == lifecycle_edge(evs[i], es, bs)->0);
    } else {
        assert(evs.drop_last()[i] == evs[i]);
        lemma_lifecycle_member(evs.drop_last(), es, bs, i);
        let k = choose|k: int| 0 <= k < prev.len() && prev[k] == lifecycle_edge(evs[i], es, bs)->0;
        match lifecycle_edge(evs.last(), es, bs) {
            Some(x) => {
                assert(lifecycle_edges(evs, es, bs) == prev.push(x));
                assert(prev.push(x)[k] == prev[k]);
                assert(lifecycle_edges(evs, es, bs)[k] == lifecycle_edge(evs[i], es, bs)->0);
            },
            None => {
                assert(lifecycle_edges(evs, es, bs) == prev);
                assert(lifecycle_edges(evs, es, bs)[k] == lifecycle_edge(evs[i], es, bs)->0);
            },
        }
    }
}

proof fn lemma_distinct_links_cover(xs: Seq<EdgeV>)
    ensures
        forall|k: int| 0 <= k < xs.len() ==> has_link(distinct_links(xs), #[trigger] xs[k]),
    decreases xs.len(),
{
    if xs.len() > 0 {
        let d0 = xs.drop_last();
        lemma_distinct_links_cover(d0);
        let d = distinct_links(d0);
        let x = xs.last();
        let r = distinct_links(xs);
        assert forall|k: int| 0 <= k < xs.len() implies has_link(r, #[trigger] xs[k]) by {
            if k < d0.len() {
                assert(xs[k] == d0[k]);
                assert(has_link(d, d0[k]));
                let q = choose|q: int| 0 <= q < d.len() && same_link(#[trigger] d[q], d0[k]);
                if !has_link(d, x) {
                    assert(r[q] == d[q]);
                }
            } else {
                assert(xs[k] == x);
                if !has_link(d, x) {
                    assert(r[d.len() as int] == x);
                    assert(same_link(r[d.len() as int], x));
                }
            }
        }
    }
}

/// The kind of the edge that a `report` tool call makes: `consultation`
/// when its arguments mention a consultation, `report` otherwise.
pub open spec fn report_kind(call: TraceRecord) -> Seq<char> {
    if contains(or_text(data_string(call.value, "arguments"@), Seq::empty()), "consultation"@) {
        "consultation"@
    } else {
        "report"@
    }
}

/// Report law: a sub-agent's call of the `report` tool links its tool
/// execution to the next event of the parent branch at or after it, with
/// kind `consultation` when the call's arguments mention a consultation and
/// `report` otherwise.
pub proof fn law_report_reaches_parent(bs: Seq<BranchV>, es: Seq<EventV>, i: int, call: TraceRecord, parent: Seq<char>, to: Seq<char>)
    requires
        0 <= i < es.len(),
        es[i].event_type == "tool/execution"@,
        first_of_type(es[i].records, "tool/call"@) == Some(call),
        data_string(call.value, "name"@) == Some("report"@),
        parent_of_branch(bs, es[i].branch_id) == Some(parent),
        first_after(es, parent, es[i].time) == Some(to),
    ensures
        has_link(spec_edges(bs, es), edge(es[i].id, to, report_kind(call), report_kind(call))),
        report_kind(call) == "consultation"@ <==> contains(
            or_text(data_string(call.value, "arguments"@), Seq::empty()),
            "consultation"@,
        ),
{
    reveal_strlit("tool/execution");
    reveal_strlit("tool-workflow/run-start");
    reveal_strlit("tool-workflow/agent-start");
    reveal_strlit("tool-workflow/agent-end");
    reveal_strlit("consultation");
    reveal_strlit("report");
    assert("tool/execution"@.len() != "tool-workflow/run-start"@.len());
    assert("tool/execution"@.len() != "tool-workflow/agent-start"@.len());
    assert("tool/execution"@.len() != "tool-workflow/agent-end"@.len());
    assert("consultation"@.len() != "report"@.len());
    let e = es[i];
    let x = edge(e.id, to, report_kind(call), report_kind(call));
    assert(report_call(e) == Some(call));
    assert(lifecycle_edge(e, es, bs) == Some(x));
    lemma_lifecycle_member(es, es, bs, i);
    let a = same_edges(es, branch_order(es));
    let b = spawn_edges(es, es, bs);
    let c = lifecycle_edges(es, es, bs);
    let k = choose|k: int| 0 <= k < c.len() && c[k] == x;
    let all = a + b + c;
    assert(all[a.len() + b.len() + k] == x);
    lemma_distinct_links_cover(all);
    assert(has_link(distinct_links(all), all[a.len() + b.len() + k]));
}

/// Edge law: every edge of a replay goes from one of its events to one of
/// its events, has one of the kinds `same`, `spawn`, `fork`, `workflow`,
/// `report` or `consultation`, and no two edges share their ends and kind;
/// a `same` edge goes forward between two events of one branch.
pub proof fn law_edges_join_events_once(bs: Seq<BranchV>, es: Seq<EventV>)
    ensures
        edges_ok(es, spec_edges(bs, es)),
        forall|a: int, b: int|
            0 <= a < b < spec_edges(bs, es).len() ==> !same_link(
                #[trigger] spec_edges(bs, es)[a],
                #[trigger] spec_edges(bs, es)[b],
            ),
{
    assert forall|k: int| 0 <= k < es.len() implies has_id(es, (#[trigger] es[k]).id) by {
        assert(es[k].id == es[k].id);
    }
    lemma_same_edges(es, branch_order(es));
    lemma_spawn_edges(es, es, bs);
    lemma_lifecycle_edges(es, es, bs);
    let a = same_edges(es, branch_order(es));
    let b = spawn_edges(es, es, bs);
    let c = lifecycle_edges(es, es, bs);
    lemma_edges_ok_concat(es, a, b);
    lemma_edges_ok_concat(es, a + b, c);
    lemma_distinct_links(es, a + b + c);
}

// ----- executable edges -----
fn branch_order_exec(events: &Vec<TraceEvent>) -> (r: Vec<String>)
    ensures
        string_views(r@) == branch_order(events_view(events@)),
{
    let ghost es = events_view(events@);
    let mut out: Vec<String> = Vec::new();
    let mut i: usize = 0;
    assert(es.take(0) =~= Seq::<EventV>::empty());
    while i < events.len()
        invariant
            i <= events.len(),
            es == events_view(events@),
            string_views(out@) == branch_order(es.take(i as int)),
        decreases events.len() - i,
    {
        let e = &events[i];
        assert(es.take(i + 1).drop_last() =~= es.take(i as int));
        assert(es.take(i + 1).last() == event_view(*e));
        if !has_type(&out, e.branch_id.as_str()) {
            let ghost before = out@;
            out.push(clone_string(&e.branch_id));
            assert(string_views(out@) =~= string_views(before).push(e.branch_id@));
        }
        i = i + 1;
    }
    assert(es.take(events.len() as int) =~= es);
    out
}

fn ids_on_exec(events: &Vec<TraceEvent>, b: &str) -> (r: Vec<String>)
    ensures
        string_views(r@) == ids_on(events_view(events@), b@),
{
    let ghost es = events_view(events@);
    let mut out: Vec<String> = Vec::new();
    let mut i: usize = 0;
    assert(es.take(0) =~= Seq::<EventV>::empty());
    while i < events.len()
        invariant
            i <= events.len(),
            es == events_view(events@),
            string_views(out@) == ids_on(es.take(i as int), b@),
        decreases events.len() - i,
    {
        let e = &events[i];
        assert(es.take(i + 1).drop_last() =~= es.take(i as int));
        assert(es.take(i + 1).last() == event_view(*e));
        if str_eq(e.branch_id.as_str(), b) {
            let ghost before = out@;
            out.push(clone_string(&e.id));
            assert(string_views(out@) =~= string_views(before).push(e.id@));
        }
        i = i + 1;
    }
    assert(es.take(events.len() as int) =~= es);
    out
}

fn first_on_exec(events: &Vec<TraceEvent>, b: &str) -> (r: Option<String>)
    ensures
        opt_view(r) == first_on(events_view(events@), b@),
{
    let ids = ids_on_exec(events, b);
    if ids.len() > 0 {
        Some(clone_string(&ids[0]))
    } else {
        None
    }
}

fn last_on_exec(events: &Vec<TraceEvent>, b: &str) -> (r: Option<String>)
    ensures
        opt_view(r) == last_on(events_view(events@), b@),
{
    let ids = ids_on_exec(events, b);
    if ids.len() > 0 {
        Some(clone_string(&ids[ids.len() - 1]))
    } else {
        None
    }
}

fn new_edge(from: &str, to: &str, kind: &str, label: &str) -> (r: TraceEdge)
    ensures
        edge_view(r) == edge(from@, to@, kind@, label@),
{
    TraceEdge {
        from: String::from_str(from),
        to: String::from_str(to),
        kind: String::from_str(kind),
        label: String::from_str(label),
    }
}

fn push_edge(out: &mut Vec<TraceEdge>, e: TraceEdge)
    ensures
        edge_views(final(out)@) == edge_views(old(out)@).push(edge_view(e)),
{
    let ghost before = out@;
    out.push(e);
    assert(edge_views(out@) =~= edge_views(before).push(edge_view(e)));
}

fn chain_edges_exec(ids: &Vec<String>, out: &mut Vec<TraceEdge>)
    ensures
        edge_views(final(out)@) == edge_views(old(out)@) + chain_edges(string_views(ids@)),
{
    let ghost start = edge_views(out@);
    let ghost iv = string_views(ids@);
    let mut i: usize = 1;
    assert(chain_edges(iv.take(0)) =~= Seq::<EdgeV>::empty());
    if ids.len() == 0 {
        assert(iv =~= iv.take(0));
        assert(edge_views(out@) =~= start + chain_edges(iv));
        return;
    }
    assert(chain_edges(iv.take(1)) =~= Seq::<EdgeV>::empty());
    assert(edge_views(out@) =~= start + chain_edges(iv.take(1)));
    while i < ids.len()
        invariant
            1 <= i <= ids.len(),
            iv == string_views(ids@),
            edge_views(out@) == start + chain_edges(iv.take(i as int)),
        decreases ids.len() - i,
    {
        let ghost t = iv.take(i + 1);
        assert(t.drop_last() =~= iv.take(i as int));
        assert(t[t.len() - 2] == ids@[i - 1]@);
        assert(t.last() == ids@[i as int]@);
        let ghost before = edge_views(out@);
        push_edge(out, new_edge(ids[i - 1].as_str(), ids[i].as_str(), "same", ""));
        proof {
            reveal_strlit("");
            assert(""@ =~= Seq::<char>::empty());
        }
        assert(edge_views(out@) =~= start + chain_edges(t));
        i = i + 1;
    }
    assert(iv.take(ids.len() as int) =~= iv);
}

fn records_json_exec(rs: &Vec<TraceRecord>) -> (r: Vec<char>)
    ensures
        r@ == records_json(rs@),
{
    let mut parts: Vec<Vec<char>> = Vec::new();
    let mut i: usize = 0;
    let ghost texts = rs@.map_values(|r: TraceRecord| r.text@);
    while i < rs.len()
        invariant
            i <= rs.len(),
            texts == rs@.map_values(|r: TraceRecord| r.text@),
            views(parts@) == texts.take(i as int),
        decreases rs.len() - i,
    {
        let ghost before = views(parts@);
        let t = str_to_chars(rs[i].text.as_str());
        parts.push(t);
        assert(views(parts@) =~= before.push(t@));
        assert(texts.take(i + 1) =~= texts.take(i as int).push(rs@[i as int].text@));
        i = i + 1;
    }
    assert(texts.take(rs.len() as int) =~= texts);
    let comma = str_to_chars(",");
    let mut out = str_to_chars("[");
    append_chars(&mut out, &join_chars(&parts, &comma));
    append_str(&mut out, "]");
    out
}

fn spawn_for_exec(
    e: &TraceEvent,
    call: &TraceRecord,
    bs: &Vec<TraceBranch>,
    events: &Vec<TraceEvent>,
    out: &mut Vec<TraceEdge>,
)
    ensures
        edge_views(final(out)@) == edge_views(old(out)@) + spawn_for(
            event_view(*e),
            *call,
            branch_views(bs@),
            events_view(events@),
        ),
{
    let ghost start = edge_views(out@);
    let ghost bv = branch_views(bs@);
    let ghost ev = event_view(*e);
    let text = records_json_exec(&e.raw_records);
    let forks_by_name = match data_opt(call, "name") {
        Some(n) => contains_chars(&str_to_chars(n.as_str()), &str_to_chars("fork")),
        None => false,
    };
    assert(forks_by_name == call_forks(*call));
    let mut i: usize = 0;
    assert(bv.take(0) =~= Seq::<BranchV>::empty());
    assert(edge_views(out@) =~= start + Seq::<EdgeV>::empty());
    while i < bs.len()
        invariant
            i <= bs.len(),
            bv == branch_views(bs@),
            ev == event_view(*e),
            text@ == records_json(ev.records),
            forks_by_name == call_forks(*call),
            edge_views(out@) == start + spawn_for(ev, *call, bv.take(i as int), events_view(events@)),
        decreases bs.len() - i,
    {
        let b = &bs[i];
        assert(bv.take(i + 1).drop_last() =~= bv.take(i as int));
        assert(bv.take(i + 1).last() == branch_view(*b));
        let ghost before = edge_views(out@);
        if str_eq(b.role.as_str(), "subagent") && contains_chars(&text, &str_to_chars(b.id.as_str())) {
            match first_on_exec(events, b.id.as_str()) {
                Some(first) => {
                    let kind = if b.forked || forks_by_name {
                        "fork"
                    } else {
                        "spawn"
                    };
                    push_edge(out, new_edge(e.id.as_str(), first.as_str(), kind, kind));
                    assert(edge_views(out@) =~= start + spawn_for(ev, *call, bv.take(i + 1), events_view(events@)));
                },
                None => {},
            }
        }
        i = i + 1;
    }
    assert(bv.take(bs.len() as int) =~= bv);
}

fn last_before_exec(events: &Vec<TraceEvent>, b: &str, t: u64) -> (r: Option<String>)
    ensures
        opt_view(r) == last_before(events_view(events@), b@, t),
{
    let ghost es = events_view(events@);
    let mut j = events.len();
    assert(es.take(j as int) =~= es);
    while j > 0
        invariant
            j <= events.len(),
            es == events_view(events@),
            last_before(es, b@, t) == last_before(es.take(j as int), b@, t),
        decreases j,
    {
        let c = &events[j - 1];
        assert(es.take(j as int).last() == event_view(*c));
        if str_eq(c.branch_id.as_str(), b) && c.time <= t {
            return Some(clone_string(&c.id));
        }
        assert(es.take(j as int).drop_last() =~= es.take(j - 1));
        j = j - 1;
    }
    None
}

fn first_after_exec(events: &Vec<TraceEvent>, b: &str, t: u64) -> (r: Option<String>)
    ensures
        opt_view(r) == first_after(events_view(events@), b@, t),
{
    let ghost es = events_view(events@);
    let mut i: usize = 0;
    assert(es.subrange(0, es.len() as int) =~= es);
    while i < events.len()
        invariant
            i <= events.len(),
            es == events_view(events@),
            first_after(es, b@, t) == first_after(es.subrange(i as int, es.len() as int), b@, t),
        decreases events.len() - i,
    {
        let c = &events[i];
        let ghost rest = es.subrange(i as int, es.len() as int);
        assert(rest[0] == event_view(*c));
        if str_eq(c.branch_id.as_str(), b) && c.time >= t {
            return Some(clone_string(&c.id));
        }
        assert(rest.drop_first() =~= es.subrange(i + 1, es.len() as int));
        i = i + 1;
    }
    assert(es.subrange(i as int, es.len() as int) =~= Seq::<EventV>::empty());
    None
}

fn parent_of_branch_exec(bs: &Vec<TraceBranch>, id: &str) -> (r: Option<String>)
    ensures
        opt_view(r) == parent_of_branch(branch_views(bs@), id@),
{
    match row_index_exec(bs, id) {
        Some(k) => clone_opt_string(&bs[k].parent_id),
        None => None,
    }
}

fn opening_data_exec(e: &TraceEvent, key: &str) -> (r: Option<String>)
    ensures
        opt_view(r) == opening_data(event_view(*e), key@),
{
    if e.raw_index < e.raw_records.len() {
        data_opt(&e.raw_records[e.raw_index], key)
    } else {
        None
    }
}

fn lifecycle_edge_exec(e: &TraceEvent, events: &Vec<TraceEvent>, bs: &Vec<TraceBranch>) -> (r: Option<TraceEdge>)
    ensures
        match r {
            Some(x) => lifecycle_edge(event_view(*e), events_view(events@), branch_views(bs@)) == Some(
                edge_view(x),
            ),
            None => lifecycle_edge(event_view(*e), events_view(events@), branch_views(bs@)) is None,
        },
{
    let t = e.event_type.as_str();
    if str_eq(t, "tool-workflow/run-start") {
        match parent_of_branch_exec(bs, e.branch_id.as_str()) {
            Some(p) => match last_before_exec(events, p.as_str(), e.time) {
                Some(from) => Some(new_edge(from.as_str(), e.id.as_str(), "workflow", "workflow")),
                None => None,
            },
            None => None,
        }
    } else if str_eq(t, "tool-workflow/agent-start") {
        match opening_data_exec(e, "childId") {
            Some(child) => match first_on_exec(events, child.as_str()) {
                Some(to) => Some(new_edge(e.id.as_str(), to.as_str(), "workflow", "member")),
                None => None,
            },
            None => None,
        }
    } else if str_eq(t, "tool-workflow/agent-end") {
        match opening_data_exec(e, "childId") {
            Some(child) => match last_on_exec(events, child.as_str()) {
                Some(from) => Some(new_edge(from.as_str(), e.id.as_str(), "report", "report")),
                None => None,
            },
            None => None,
        }
    } else {
        let call = if str_eq(t, "tool/execution") {
            match record_of_type(&e.raw_records, "tool/call") {
                Some(c) => match data_opt(c, "name") {
                    Some(n) => if str_eq(n.as_str(), "report") {
                        Some(c)
                    } else {
                        None
                    },
                    None => None,
                },
                None => None,
            }
        } else {
            None
        };
        assert(opt_record(call) == report_call(event_view(*e)));
        match call {
            Some(c) => {
                let arguments = match data_opt(c, "arguments") {
                    Some(a) => a,
                    None => String::new(),
                };
                let consultation = contains_chars(
                    &str_to_chars(arguments.as_str()),
                    &str_to_chars("consultation"),
                );
                let kind = if consultation {
                    "consultation"
                } else {
                    "report"
                };
                match parent_of_branch_exec(bs, e.branch_id.as_str()) {
                    Some(p) => match first_after_exec(events, p.as_str(), e.time) {
                        Some(to) => Some(new_edge(e.id.as_str(), to.as_str(), kind, kind)),
                        None => None,
                    },
                    None => None,
                }
            },
            None => None,
        }
    }
}

fn link_seen(kept: &Vec<TraceEdge>, x: &TraceEdge) -> (r: bool)
    ensures
        r == has_link(edge_views(kept@), edge_view(*x)),
{
    let ghost kv = edge_views(kept@);
    let mut i: usize = 0;
    while i < kept.len()
        invariant
            i <= kept.len(),
            kv == edge_views(kept@),
            forall|k: int| 0 <= k < i ==> !same_link(#[trigger] kv[k], edge_view(*x)),
        decreases kept.len() - i,
    {
        let k = &kept[i];
        if str_eq(k.from.as_str(), x.from.as_str()) && str_eq(k.to.as_str(), x.to.as_str()) && str_eq(
            k.kind.as_str(),
            x.kind.as_str(),
        ) {
            assert(same_link(kv[i as int], edge_view(*x)));
            return true;
        }
        i = i + 1;
    }
    false
}

fn distinct_links_exec(edges: Vec<TraceEdge>) -> (r: Vec<TraceEdge>)
    ensures
        edge_views(r@) == distinct_links(edge_views(edges@)),
{
    let ghost all = edge_views(edges@);
    let n = edges.len();
    let mut rest = reversed(edges);
    let mut kept: Vec<TraceEdge> = Vec::new();
    let mut i: usize = 0;
    assert(all.take(0) =~= Seq::<EdgeV>::empty());
    assert(edge_views(kept@) =~= Seq::<EdgeV>::empty());
    while i < n
        invariant
            n == all.len(),
            i <= n,
            rest@.len() == n - i,
            forall|k: int| 0 <= k < rest@.len() ==> edge_view(#[trigger] rest@[k]) == all[n - 1 - k],
            edge_views(kept@) == distinct_links(all.take(i as int)),
        decreases n - i,
    {
        let x = rest.pop().unwrap();
        assert(edge_view(x) == all[i as int]);
        assert(all.take(i + 1).drop_last() =~= all.take(i as int));
        assert(all.take(i + 1).last() == all[i as int]);
        if !link_seen(&kept, &x) {
            push_edge(&mut kept, x);
        }
        i = i + 1;
    }
    assert(all.take(n as int) =~= all);
    kept
}

/// The edges of a replay (`spec_edges`).
pub fn build_edges(branches: &Vec<TraceBranch>, events: &Vec<TraceEvent>) -> (r: Vec<TraceEdge>)
    ensures
        edge_views(r@) == spec_edges(branch_views(branches@), events_view(events@)),
{
    let ghost es = events_view(events@);
    let ghost bv = branch_views(branches@);
    let mut out: Vec<TraceEdge> = Vec::new();
    let order = branch_order_exec(events);
    let ghost ov = string_views(order@);
    let mut i: usize = 0;
    assert(edge_views(out@) =~= same_edges(es, ov.take(0)));
    while i < order.len()
        invariant
            i <= order.len(),
            es == events_view(events@),
            ov == string_views(order@),
            edge_views(out@) == same_edges(es, ov.take(i as int)),
        decreases order.len() - i,
    {
        assert(ov.take(i + 1).drop_last() =~= ov.take(i as int));
        assert(ov.take(i + 1).last() == order@[i as int]@);
        let ids = ids_on_exec(events, order[i].as_str());
        chain_edges_exec(&ids, &mut out);
        i = i + 1;
    }
    assert(ov.take(order.len() as int) =~= ov);
    let ghost same = edge_views(out@);
    let mut j: usize = 0;
    assert(es.take(0) =~= Seq::<EventV>::empty());
    assert(edge_views(out@) =~= same + spawn_edges(es.take(0), es, bv));
    while j < events.len()
        invariant
            j <= events.len(),
            es == events_view(events@),
            bv == branch_views(branches@),
            edge_views(out@) == same + spawn_edges(es.take(j as int), es, bv),
        decreases events.len() - j,
    {
        let e = &events[j];
        assert(es.take(j + 1).drop_last() =~= es.take(j as int));
        assert(es.take(j + 1).last() == event_view(*e));
        let ghost before = edge_views(out@);
        if str_eq(e.event_type.as_str(), "tool/execution") {
            match record_of_type(&e.raw_records, "tool/call") {
                Some(call) => {
                    spawn_for_exec(e, call, branches, events, &mut out);
                },
                None => {},
            }
        }
        assert(edge_views(out@) =~= same + spawn_edges(es.take(j + 1), es, bv));
        j = j + 1;
    }
    assert(es.take(events.len() as int) =~= es);
    let ghost spawned = edge_views(out@);
    let mut k: usize = 0;
    assert(edge_views(out@) =~= spawned + lifecycle_edges(es.take(0), es, bv));
    while k < events.len()
        invariant
            k <= events.len(),
            es == events_view(events@),
            bv == branch_views(branches@),
            edge_views(out@) == spawned + lifecycle_edges(es.take(k as int), es, bv),
        decreases events.len() - k,
    {
        let e = &events[k];
        assert(es.take(k + 1).drop_last() =~= es.take(k as int));
        assert(es.take(k + 1).last() == event_view(*e));
        let ghost before = edge_views(out@);
        match lifecycle_edge_exec(e, events, branches) {
            Some(x) => {
                push_edge(&mut out, x);
            },
            None => {},
        }
        assert(edge_views(out@) =~= spawned + lifecycle_edges(es.take(k + 1), es, bv));
        k = k + 1;
    }
    assert(edge_views(out@) =~= same_edges(es, branch_order(es)) + spawn_edges(es, es, bv)
        + lifecycle_edges(es, es, bv));
    distinct_links_exec(out)
}

} // verus!
