//! Folding a session's raw events into logical operations: a user turn, a
//! model execution, a tool execution. Every raw record lands in exactly one
//! logical operation (see `law_compaction_keeps_every_record`).
use vstd::prelude::*;
use vstd::multiset::Multiset;

use crate::json::{TraceRecord, compact_chars, compact_text, message_text, spec_compact_text, spec_message_text, spec_string_at, string_at, string_at_is, strs};
use crate::text::{append_chars, append_str, chars_to_string, clone_string, concat_strs, contains, decimal, join, join_chars, opt_view, str_eq, str_to_chars, string_views, u64_chars, views};
use crate::trace_branches::{branch_views, joined};
use crate::trace_model::{ArtifactHeader, Projection, TraceBranch, TraceEvent};
use crate::sort::reversed;
use crate::trace_events::{EventV, NormContext, advance, event_label, event_message, event_view, events_view, header_message, header_message_exec, is_stream_record, is_stream_type, norm_context, norm_scan, raw_event, raw_events, raw_record, record_type, spec_event_label, spec_event_message, stream_record, stream_type};

verus! {

/// A raw event is well formed when it counts its records and its opening
/// record is one of them.
pub open spec fn event_wf(e: EventV) -> bool {
    &&& e.raw_event_count == e.records.len()
    &&& e.raw_index < e.records.len()
}

pub open spec fn all_wf(es: Seq<EventV>) -> bool {
    forall|i: int| 0 <= i < es.len() ==> event_wf(#[trigger] es[i])
}

/// Records that only annotate the operation around them.
pub open spec fn is_fold_only(t: Seq<char>) -> bool {
    t == "permission/preset"@ || t == "sandbox/mode"@ || t == "approval/policy"@ || t
        == "agent/inbox/spliced"@ || t == "turn/start"@ || t == "step/start"@ || t == "step/end"@
        || t == "turn/end"@ || t == "session/title"@ || t == "session/title-llm-request"@ || t
        == "session/end-seed"@ || t == "subagent/descriptor"@
}

/// Lifecycle records that close the operation before them.
pub open spec fn is_trailing(t: Seq<char>) -> bool {
    t == "step/end"@ || t == "turn/end"@ || t == "session/end-seed"@
}

/// The logical operation a raw record type belongs to.
pub open spec fn logical_type(t: Seq<char>) -> Seq<char> {
    if t == "user/message"@ {
        "turn/input"@
    } else if t == "request/header"@ || t == "request/context"@ || t == "assistant/message"@
        || is_stream_type(t) {
        "model/execution"@
    } else if t == "tool/call"@ {
        "tool/execution"@
    } else {
        t
    }
}

/// Types added in order, each once.
pub open spec fn add_types(acc: Seq<Seq<char>>, ts: Seq<Seq<char>>) -> Seq<Seq<char>>
    decreases ts.len(),
{
    if ts.len() == 0 {
        acc
    } else {
        let a = add_types(acc, ts.drop_last());
        if a.contains(ts.last()) {
            a
        } else {
            a.push(ts.last())
        }
    }
}

/// Runs of equal neighbours collapsed to one (`Vec::dedup`).
pub open spec fn dedup(s: Seq<Seq<char>>) -> Seq<Seq<char>>
    decreases s.len(),
{
    if s.len() == 0 {
        s
    } else {
        let d = dedup(s.drop_last());
        if d.len() > 0 && d.last() == s.last() {
            d
        } else {
            d.push(s.last())
        }
    }
}

pub open spec fn all_records(ps: Seq<EventV>) -> Seq<TraceRecord>
    decreases ps.len(),
{
    if ps.len() == 0 {
        Seq::empty()
    } else {
        all_records(ps.drop_last()) + ps.last().records
    }
}

pub open spec fn raw_total(ps: Seq<EventV>) -> nat
    decreases ps.len(),
{
    if ps.len() == 0 {
        0
    } else {
        raw_total(ps.drop_last()) + ps.last().raw_event_count
    }
}

pub open spec fn pending_types(ps: Seq<EventV>) -> Seq<Seq<char>>
    decreases ps.len(),
{
    if ps.len() == 0 {
        Seq::empty()
    } else {
        add_types(pending_types(ps.drop_last()), ps.last().folded)
    }
}

/// The event with the given records, types and count, the opening record
/// moved to `raw_index`.
pub open spec fn with_records(
    e: EventV,
    records: Seq<TraceRecord>,
    folded: Seq<Seq<char>>,
    count: nat,
    raw_index: nat,
) -> EventV {
    EventV {
        id: e.id,
        index: e.index,
        time: e.time,
        sequence: e.sequence,
        branch_id: e.branch_id,
        event_type: e.event_type,
        label: e.label,
        message: e.message,
        turn: e.turn,
        step: e.step,
        context_tokens: e.context_tokens,
        context_window: e.context_window,
        context_usage: e.context_usage,
        output_tokens: e.output_tokens,
        stream_chunks: e.stream_chunks,
        raw_event_count: count,
        folded,
        records,
        raw_index,
    }
}

/// The records waiting before an operation go in front of its own.
pub open spec fn pend(target: EventV, pending: Seq<EventV>) -> EventV {
    if pending.len() == 0 {
        target
    } else {
        with_records(
            target,
            all_records(pending) + target.records,
            dedup(pending_types(pending) + target.folded),
            target.raw_event_count + raw_total(pending),
            target.raw_index + all_records(pending).len(),
        )
    }
}

pub open spec fn latest(a: Option<u64>, b: Option<u64>) -> Option<u64> {
    if b is Some {
        b
    } else {
        a
    }
}

pub open spec fn latest_usage(a: Option<(u64, u64)>, b: Option<(u64, u64)>) -> Option<(u64, u64)> {
    if b is Some {
        b
    } else {
        a
    }
}

/// A later raw event folded into an operation: its records go behind, and
/// the usage it reports replaces the operation's.
pub open spec fn fold_into(target: EventV, inc: EventV) -> EventV {
    EventV {
        id: target.id,
        index: target.index,
        time: target.time,
        sequence: target.sequence,
        branch_id: target.branch_id,
        event_type: target.event_type,
        label: target.label,
        message: target.message,
        turn: target.turn,
        step: target.step,
        context_tokens: latest(target.context_tokens, inc.context_tokens),
        context_window: latest(target.context_window, inc.context_window),
        context_usage: latest_usage(target.context_usage, inc.context_usage),
        output_tokens: latest(target.output_tokens, inc.output_tokens),
        stream_chunks: target.stream_chunks,
        raw_event_count: target.raw_event_count + inc.raw_event_count,
        folded: add_types(target.folded, inc.folded),
        records: target.records + inc.records,
        raw_index: target.raw_index,
    }
}

pub open spec fn with_text(e: EventV, chunks: nat, label: Seq<char>, message: Seq<char>) -> EventV {
    EventV {
        id: e.id,
        index: e.index,
        time: e.time,
        sequence: e.sequence,
        branch_id: e.branch_id,
        event_type: e.event_type,
        label,
        message,
        turn: e.turn,
        step: e.step,
        context_tokens: e.context_tokens,
        context_window: e.context_window,
        context_usage: e.context_usage,
        output_tokens: e.output_tokens,
        stream_chunks: chunks,
        raw_event_count: e.raw_event_count,
        folded: e.folded,
        records: e.records,
        raw_index: e.raw_index,
    }
}

pub open spec fn stream_count(rs: Seq<TraceRecord>) -> nat
    decreases rs.len(),
{
    if rs.len() == 0 {
        0
    } else {
        stream_count(rs.drop_last()) + if is_stream_record(rs.last()) {
            1nat
        } else {
            0
        }
    }
}

pub open spec fn is_user_message(r: TraceRecord) -> bool {
    record_type(r) == Some("user/message"@)
}

pub open spec fn user_message_count(rs: Seq<TraceRecord>) -> nat
    decreases rs.len(),
{
    if rs.len() == 0 {
        0
    } else {
        user_message_count(rs.drop_last()) + if is_user_message(rs.last()) {
            1nat
        } else {
            0
        }
    }
}

/// The texts of the messages that a person typed.
pub open spec fn human_texts(rs: Seq<TraceRecord>) -> Seq<Seq<char>>
    decreases rs.len(),
{
    if rs.len() == 0 {
        Seq::empty()
    } else {
        let h = human_texts(rs.drop_last());
        let r = rs.last();
        if is_user_message(r) && spec_string_at(r.value, seq!["data"@, "source"@, "kind"@]) == Some(
            "user"@,
        ) {
            match spec_message_text(r.value) {
                Some(t) => h.push(t),
                None => h,
            }
        } else {
            h
        }
    }
}

pub open spec fn first_of_type(rs: Seq<TraceRecord>, t: Seq<char>) -> Option<TraceRecord>
    decreases rs.len(),
{
    if rs.len() == 0 {
        None
    } else if record_type(rs[0]) == Some(t) {
        Some(rs[0])
    } else {
        first_of_type(rs.drop_first(), t)
    }
}

pub open spec fn turn_message(rs: Seq<TraceRecord>) -> Seq<char> {
    let human = human_texts(rs);
    let messages = user_message_count(rs);
    let injected: nat = if messages > human.len() {
        (messages - human.len()) as nat
    } else {
        0
    };
    let text = if human.len() == 0 {
        "Injected model context"@
    } else {
        spec_compact_text(join(human, seq!['\n']), 240)
    };
    if injected > 0 {
        text + " · "@ + decimal(injected) + " injected context record(s) folded"@
    } else {
        text
    }
}

pub open spec fn model_label(request: Option<TraceRecord>) -> Seq<char> {
    match request {
        Some(q) => match spec_string_at(q.value, seq!["data"@, "header"@, "config"@, "model"@]) {
            Some(m) => "Model execution · "@ + m,
            None => "Model execution"@,
        },
        None => "Model execution"@,
    }
}

pub open spec fn model_message(request: Option<TraceRecord>, response: Option<TraceRecord>) -> Seq<char> {
    let reply = match response {
        Some(a) => spec_message_text(a.value),
        None => None,
    };
    match reply {
        Some(t) => spec_compact_text(t, 240),
        None => match request {
            Some(q) => header_message(q.value),
            None => "Model inference lifecycle recorded"@,
        },
    }
}

/// An operation's stream count, label and message, read again from all of
/// its records.
pub open spec fn refreshed(e: EventV) -> EventV {
    let chunks = stream_count(e.records);
    let rs = e.records;
    if e.event_type == "turn/input"@ {
        with_text(e, chunks, "User input"@, turn_message(rs))
    } else if e.event_type == "model/execution"@ {
        let request = first_of_type(rs, "request/header"@);
        let response = first_of_type(rs, "assistant/message"@);
        with_text(e, chunks, model_label(request), model_message(request, response))
    } else if e.event_type == "tool/execution"@ {
        match first_of_type(rs, "tool/call"@) {
            Some(call) => with_text(
                e,
                chunks,
                spec_event_label("tool/call"@, call.value),
                spec_event_message("tool/call"@, call, "tool"@),
            ),
            None => with_text(e, chunks, e.label, e.message),
        }
    } else {
        with_text(e, chunks, e.label, e.message)
    }
}

/// The fold so far: the operations, the annotations waiting for the next
/// one, and the position of the tool execution of each call id.
pub struct FoldState {
    pub logical: Seq<EventV>,
    pub pending: Seq<EventV>,
    pub tools: Seq<(Seq<char>, nat)>,
}

/// The last operation of a type with the given turn and step.
pub open spec fn last_match(ls: Seq<EventV>, t: Seq<char>, turn: Option<u64>, step: Option<u64>) -> Option<nat>
    decreases ls.len(),
{
    if ls.len() == 0 {
        None
    } else if ls.last().event_type == t && ls.last().turn == turn && ls.last().step == step {
        Some((ls.len() - 1) as nat)
    } else {
        last_match(ls.drop_last(), t, turn, step)
    }
}

/// The position recorded last for a call id.
pub open spec fn tool_position(tools: Seq<(Seq<char>, nat)>, call: Seq<char>) -> Option<nat>
    decreases tools.len(),
{
    if tools.len() == 0 {
        None
    } else if tools.last().0 == call {
        Some(tools.last().1)
    } else {
        tool_position(tools.drop_last(), call)
    }
}

/// The call id that a tool result answers.
pub open spec fn result_call(e: EventV) -> Option<Seq<char>> {
    spec_string_at(raw_record(e).value, seq!["data"@, "message"@, "source"@, "callId"@])
}

/// The call id of a tool call.
pub open spec fn call_id(e: EventV) -> Option<Seq<char>> {
    spec_string_at(raw_record(e).value, seq!["data"@, "callId"@])
}

pub open spec fn retyped(e: EventV, t: Seq<char>) -> EventV {
    EventV {
        id: e.id,
        index: e.index,
        time: e.time,
        sequence: e.sequence,
        branch_id: e.branch_id,
        event_type: t,
        label: e.label,
        message: e.message,
        turn: e.turn,
        step: e.step,
        context_tokens: e.context_tokens,
        context_window: e.context_window,
        context_usage: e.context_usage,
        output_tokens: e.output_tokens,
        stream_chunks: e.stream_chunks,
        raw_event_count: e.raw_event_count,
        folded: e.folded,
        records: e.records,
        raw_index: e.raw_index,
    }
}

/// The operation that a raw event joins, if it joins one.
pub open spec fn fold_target(s: FoldState, e: EventV) -> Option<nat> {
    let lt = logical_type(e.event_type);
    if lt == "turn/input"@ || lt == "model/execution"@ {
        last_match(s.logical, lt, e.turn, e.step)
    } else if e.event_type == "tool/result"@ {
        match result_call(e) {
            Some(call) => tool_position(s.tools, call),
            None => None,
        }
    } else {
        None
    }
}

/// One raw event taken into the fold.
pub open spec fn compact_step(s: FoldState, e: EventV) -> FoldState {
    if is_fold_only(e.event_type) {
        if is_trailing(e.event_type) && s.logical.len() > 0 {
            FoldState {
                logical: s.logical.update(
                    s.logical.len() - 1,
                    fold_into(s.logical.last(), e),
                ),
                pending: s.pending,
                tools: s.tools,
            }
        } else {
            FoldState { logical: s.logical, pending: s.pending.push(e), tools: s.tools }
        }
    } else {
        match fold_target(s, e) {
            Some(p) => FoldState {
                logical: s.logical.update(
                    p as int,
                    refreshed(fold_into(pend(s.logical[p as int], s.pending), e)),
                ),
                pending: Seq::empty(),
                tools: s.tools,
            },
            None => {
                let lt = logical_type(e.event_type);
                let n = refreshed(pend(retyped(e, lt), s.pending));
                let tools = if lt == "tool/execution"@ {
                    match call_id(e) {
                        Some(c) => s.tools.push((c, s.logical.len())),
                        None => s.tools,
                    }
                } else {
                    s.tools
                };
                FoldState { logical: s.logical.push(n), pending: Seq::empty(), tools }
            },
        }
    }
}

pub open spec fn compact_scan(es: Seq<EventV>) -> FoldState
    decreases es.len(),
{
    if es.len() == 0 {
        FoldState { logical: Seq::empty(), pending: Seq::empty(), tools: Seq::empty() }
    } else {
        compact_step(compact_scan(es.drop_last()), es.last())
    }
}

/// The annotations still waiting at the end join the last operation; a
/// session made only of annotations keeps them in one event, the last of
/// them with the earlier ones folded in.
pub open spec fn compact_finish(s: FoldState) -> Seq<EventV> {
    if s.logical.len() > 0 {
        s.logical.update(s.logical.len() - 1, refreshed(pend(s.logical.last(), s.pending)))
    } else if s.pending.len() > 0 {
        seq![refreshed(pend(s.pending.last(), s.pending.drop_last()))]
    } else {
        s.logical
    }
}

pub open spec fn compacted(es: Seq<EventV>) -> Seq<EventV> {
    compact_finish(compact_scan(es))
}

// ----- executable fold -----
pub fn has_type(v: &Vec<String>, t: &str) -> (r: bool)
    ensures
        r == string_views(v@).contains(t@),
{
    let mut i: usize = 0;
    while i < v.len()
        invariant
            i <= v.len(),
            forall|k: int| 0 <= k < i ==> string_views(v@)[k] != t@,
        decreases v.len() - i,
    {
        if str_eq(v[i].as_str(), t) {
            assert(string_views(v@)[i as int] == t@);
            return true;
        }
        i = i + 1;
    }
    false
}

fn add_types_exec(acc: &mut Vec<String>, ts: &Vec<String>)
    ensures
        string_views(final(acc)@) == add_types(string_views(old(acc)@), string_views(ts@)),
{
    let ghost start = string_views(acc@);
    let mut i: usize = 0;
    assert(string_views(ts@).take(0) =~= Seq::<Seq<char>>::empty());
    while i < ts.len()
        invariant
            i <= ts.len(),
            string_views(acc@) == add_types(start, string_views(ts@).take(i as int)),
        decreases ts.len() - i,
    {
        let ghost tv = string_views(ts@).take(i + 1);
        assert(tv.drop_last() =~= string_views(ts@).take(i as int));
        assert(tv.last() == ts@[i as int]@);
        if !has_type(acc, ts[i].as_str()) {
            let ghost before = acc@;
            acc.push(clone_string(&ts[i]));
            assert(string_views(acc@) =~= string_views(before).push(ts@[i as int]@));
        }
        i = i + 1;
    }
    assert(string_views(ts@).take(ts.len() as int) =~= string_views(ts@));
}

fn dedup_exec(v: &Vec<String>) -> (r: Vec<String>)
    ensures
        string_views(r@) == dedup(string_views(v@)),
{
    let mut out: Vec<String> = Vec::new();
    let mut i: usize = 0;
    assert(string_views(v@).take(0) =~= Seq::<Seq<char>>::empty());
    while i < v.len()
        invariant
            i <= v.len(),
            string_views(out@) == dedup(string_views(v@).take(i as int)),
        decreases v.len() - i,
    {
        let ghost sv = string_views(v@).take(i + 1);
        assert(sv.drop_last() =~= string_views(v@).take(i as int));
        assert(sv.last() == v@[i as int]@);
        let keep = if out.len() == 0 {
            true
        } else {
            !str_eq(out[out.len() - 1].as_str(), v[i].as_str())
        };
        if keep {
            let ghost before = out@;
            out.push(clone_string(&v[i]));
            assert(string_views(out@) =~= string_views(before).push(v@[i as int]@));
        }
        i = i + 1;
    }
    assert(string_views(v@).take(v.len() as int) =~= string_views(v@));
    out
}

proof fn lemma_raw_total(ps: Seq<EventV>)
    requires
        all_wf(ps),
    ensures
        raw_total(ps) == all_records(ps).len(),
    decreases ps.len(),
{
    if ps.len() > 0 {
        assert(event_wf(ps[ps.len() - 1]));
        lemma_raw_total(ps.drop_last());
    }
}

proof fn lemma_string_views_add(a: Seq<String>, b: Seq<String>)
    ensures
        string_views(a + b) == string_views(a) + string_views(b),
{
    assert(string_views(a + b) =~= string_views(a) + string_views(b));
}

/// The annotations waiting before an operation join it in front of its own
/// records (`pend`).
pub fn append_pending(target: &mut TraceEvent, pending: &mut Vec<TraceEvent>)
    requires
        event_wf(event_view(*old(target))),
        all_wf(events_view(old(pending)@)),
    ensures
        event_view(*final(target)) == pend(event_view(*old(target)), events_view(old(pending)@)),
        event_wf(event_view(*final(target))),
        final(pending)@.len() == 0,
{
    if pending.len() == 0 {
        return;
    }
    let ghost ps = events_view(pending@);
    let mut taken: Vec<TraceEvent> = Vec::new();
    taken.append(pending);
    assert(events_view(taken@) == ps);
    let n = taken.len();
    let mut rest = reversed(taken);
    let mut records: Vec<TraceRecord> = Vec::new();
    let mut types: Vec<String> = Vec::new();
    let mut count: usize = 0;
    let mut i: usize = 0;
    assert(ps.take(0) =~= Seq::<EventV>::empty());
    while i < n
        invariant
            n == ps.len(),
            i <= n,
            all_wf(ps),
            rest@.len() == n - i,
            forall|k: int| 0 <= k < rest@.len() ==> event_view(#[trigger] rest@[k]) == ps[n - 1 - k],
            records@ == all_records(ps.take(i as int)),
            string_views(types@) == pending_types(ps.take(i as int)),
            count == raw_total(ps.take(i as int)),
            count == records@.len(),
            pending@.len() == 0,
        decreases n - i,
    {
        let mut ev = rest.pop().unwrap();
        assert(event_view(ev) == ps[i as int]);
        assert(event_wf(ps[i as int]));
        let ghost pt = ps.take(i + 1);
        assert(pt.drop_last() =~= ps.take(i as int));
        assert(pt.last() == ps[i as int]);
        let ghost before = records@;
        records.append(&mut ev.raw_records);
        assert(ev.raw_event_count == ps[i as int].records.len());
        count = records.len();
        add_types_exec(&mut types, &ev.folded_event_types);
        i = i + 1;
    }
    assert(ps.take(n as int) =~= ps);
    proof {
        lemma_raw_total(ps);
    }
    let front = records.len();
    records.append(&mut target.raw_records);
    target.raw_records = records;
    let ghost tfold = target.folded_event_types@;
    types.append(&mut target.folded_event_types);
    proof {
        lemma_string_views_add(types@.take(types@.len() - tfold.len()), tfold);
    }
    let ghost joined = types@;
    assert(string_views(joined) =~= pending_types(ps) + string_views(tfold));
    target.folded_event_types = dedup_exec(&types);
    target.raw_event_count = target.raw_records.len();
    target.raw_index = target.raw_index + front;
}

/// A later raw event joins an operation (`fold_into`).
pub fn append_folded_event(target: &mut TraceEvent, incoming: TraceEvent)
    requires
        event_wf(event_view(*old(target))),
        event_wf(event_view(incoming)),
    ensures
        event_view(*final(target)) == fold_into(event_view(*old(target)), event_view(incoming)),
        event_wf(event_view(*final(target))),
{
    let mut incoming = incoming;
    let ghost inc = event_view(incoming);
    target.raw_records.append(&mut incoming.raw_records);
    target.raw_event_count = target.raw_records.len();
    add_types_exec(&mut target.folded_event_types, &incoming.folded_event_types);
    if incoming.context_tokens.is_some() {
        target.context_tokens = incoming.context_tokens;
    }
    if incoming.context_window.is_some() {
        target.context_window = incoming.context_window;
    }
    if incoming.context_usage.is_some() {
        target.context_usage = incoming.context_usage;
    }
    if incoming.output_tokens.is_some() {
        target.output_tokens = incoming.output_tokens;
    }
}

fn is_type(r: &TraceRecord, t: &str) -> (b: bool)
    ensures
        b == (record_type(*r) == Some(t@)),
{
    let p: &[&str] = &["type"];
    assert(strs(p@) =~= seq!["type"@]);
    string_at_is(&r.value, p, t)
}

fn stream_count_exec(rs: &Vec<TraceRecord>) -> (n: usize)
    ensures
        n == stream_count(rs@),
{
    let mut n: usize = 0;
    let mut i: usize = 0;
    assert(rs@.take(0) =~= Seq::<TraceRecord>::empty());
    while i < rs.len()
        invariant
            i <= rs.len(),
            n == stream_count(rs@.take(i as int)),
            n <= i,
        decreases rs.len() - i,
    {
        assert(rs@.take(i + 1).drop_last() =~= rs@.take(i as int));
        assert(rs@.take(i + 1).last() == rs@[i as int]);
        if stream_record(&rs[i]) {
            n = n + 1;
        }
        i = i + 1;
    }
    assert(rs@.take(rs.len() as int) =~= rs@);
    n
}

pub fn record_of_type<'a>(rs: &'a Vec<TraceRecord>, t: &str) -> (r: Option<&'a TraceRecord>)
    ensures
        match r {
            Some(x) => first_of_type(rs@, t@) == Some(*x),
            None => first_of_type(rs@, t@) is None,
        },
{
    let mut i: usize = 0;
    assert(rs@.subrange(0, rs.len() as int) =~= rs@);
    while i < rs.len()
        invariant
            i <= rs.len(),
            first_of_type(rs@, t@) == first_of_type(rs@.subrange(i as int, rs.len() as int), t@),
        decreases rs.len() - i,
    {
        let ghost rest = rs@.subrange(i as int, rs.len() as int);
        assert(rest[0] == rs@[i as int]);
        if is_type(&rs[i], t) {
            return Some(&rs[i]);
        }
        assert(rest.drop_first() =~= rs@.subrange(i + 1, rs.len() as int));
        i = i + 1;
    }
    None
}

fn turn_message_exec(rs: &Vec<TraceRecord>) -> (m: String)
    ensures
        m@ == turn_message(rs@),
{
    let mut human: Vec<Vec<char>> = Vec::new();
    let mut messages: usize = 0;
    let mut i: usize = 0;
    let p_kind: &[&str] = &["data", "source", "kind"];
    assert(strs(p_kind@) =~= seq!["data"@, "source"@, "kind"@]);
    assert(rs@.take(0) =~= Seq::<TraceRecord>::empty());
    while i < rs.len()
        invariant
            i <= rs.len(),
            strs(p_kind@) == seq!["data"@, "source"@, "kind"@],
            views(human@) == human_texts(rs@.take(i as int)),
            messages == user_message_count(rs@.take(i as int)),
            messages <= i,
        decreases rs.len() - i,
    {
        let r = &rs[i];
        assert(rs@.take(i + 1).drop_last() =~= rs@.take(i as int));
        assert(rs@.take(i + 1).last() == *r);
        if is_type(r, "user/message") {
            messages = messages + 1;
            if string_at_is(&r.value, p_kind, "user") {
                match message_text(&r.value) {
                    Some(t) => {
                        let ghost before = views(human@);
                        let tc = str_to_chars(t.as_str());
                        human.push(tc);
                        assert(views(human@) =~= before.push(tc@));
                    },
                    None => {},
                }
            }
        }
        i = i + 1;
    }
    assert(rs@.take(rs.len() as int) =~= rs@);
    let injected: usize = if messages > human.len() {
        messages - human.len()
    } else {
        0
    };
    let text = if human.len() == 0 {
        str_to_chars("Injected model context")
    } else {
        let mut nl: Vec<char> = Vec::new();
        nl.push('\n');
        assert(nl@ =~= seq!['\n']);
        let joined = join_chars(&human, &nl);
        compact_chars(&joined, 240)
    };
    if injected > 0 {
        let mut out = text;
        append_str(&mut out, " · ");
        append_chars(&mut out, &u64_chars(injected as u64));
        append_str(&mut out, " injected context record(s) folded");
        chars_to_string(&out)
    } else {
        chars_to_string(&text)
    }
}

pub open spec fn opt_record(o: Option<&TraceRecord>) -> Option<TraceRecord> {
    match o {
        Some(r) => Some(*r),
        None => None,
    }
}

fn model_label_exec(request: Option<&TraceRecord>) -> (l: String)
    ensures
        l@ == model_label(opt_record(request)),
{
    match request {
        Some(q) => {
            let p: &[&str] = &["data", "header", "config", "model"];
            assert(strs(p@) =~= seq!["data"@, "header"@, "config"@, "model"@]);
            match string_at(&q.value, p) {
                Some(m) => concat_strs("Model execution · ", m.as_str()),
                None => String::from_str("Model execution"),
            }
        },
        None => String::from_str("Model execution"),
    }
}

fn model_message_exec(request: Option<&TraceRecord>, response: Option<&TraceRecord>) -> (m: String)
    ensures
        m@ == model_message(opt_record(request), opt_record(response)),
{
    let reply = match response {
        Some(a) => message_text(&a.value),
        None => None,
    };
    assert(opt_view(reply) == match response {
        Some(a) => spec_message_text(a.value),
        None => None,
    });
    match reply {
        Some(t) => compact_text(t.as_str(), 240),
        None => match request {
            Some(q) => header_message_exec(&q.value),
            None => String::from_str("Model inference lifecycle recorded"),
        },
    }
}

/// An operation's stream count, label and message read again from its
/// records (`refreshed`).
pub fn refresh_logical_event(e: &mut TraceEvent)
    ensures
        event_view(*final(e)) == refreshed(event_view(*old(e))),
        event_wf(event_view(*old(e))) ==> event_wf(event_view(*final(e))),
{
    let chunks = stream_count_exec(&e.raw_records);
    if str_eq(e.event_type.as_str(), "turn/input") {
        let message = turn_message_exec(&e.raw_records);
        e.label = String::from_str("User input");
        e.message = message;
    } else if str_eq(e.event_type.as_str(), "model/execution") {
        let request = record_of_type(&e.raw_records, "request/header");
        let response = record_of_type(&e.raw_records, "assistant/message");
        let label = model_label_exec(request);
        let message = model_message_exec(request, response);
        e.label = label;
        e.message = message;
    } else if str_eq(e.event_type.as_str(), "tool/execution") {
        match record_of_type(&e.raw_records, "tool/call") {
            Some(call) => {
                let label = event_label("tool/call", &call.value);
                let message = event_message("tool/call", call, "tool");
                e.label = label;
                e.message = message;
            },
            None => {},
        }
    }
    e.stream_chunks = chunks;
}

fn fold_only_exec(t: &str) -> (r: bool)
    ensures
        r == is_fold_only(t@),
{
    str_eq(t, "permission/preset") || str_eq(t, "sandbox/mode") || str_eq(t, "approval/policy")
        || str_eq(t, "agent/inbox/spliced") || str_eq(t, "turn/start") || str_eq(t, "step/start")
        || str_eq(t, "step/end") || str_eq(t, "turn/end") || str_eq(t, "session/title") || str_eq(
        t,
        "session/title-llm-request",
    ) || str_eq(t, "session/end-seed") || str_eq(t, "subagent/descriptor")
}

fn trailing_exec(t: &str) -> (r: bool)
    ensures
        r == is_trailing(t@),
{
    str_eq(t, "step/end") || str_eq(t, "turn/end") || str_eq(t, "session/end-seed")
}

fn logical_type_exec(t: &str) -> (r: String)
    ensures
        r@ == logical_type(t@),
{
    if str_eq(t, "user/message") {
        String::from_str("turn/input")
    } else if str_eq(t, "request/header") || str_eq(t, "request/context") || str_eq(
        t,
        "assistant/message",
    ) || stream_type(t) {
        String::from_str("model/execution")
    } else if str_eq(t, "tool/call") {
        String::from_str("tool/execution")
    } else {
        String::from_str(t)
    }
}

fn opt_eq(a: Option<u64>, b: Option<u64>) -> (r: bool)
    ensures
        r == (a == b),
{
    match (a, b) {
        (Some(x), Some(y)) => x == y,
        (None, None) => true,
        _ => false,
    }
}

fn last_match_exec(ls: &Vec<TraceEvent>, t: &str, turn: Option<u64>, step: Option<u64>) -> (r: Option<usize>)
    ensures
        match r {
            Some(p) => last_match(events_view(ls@), t@, turn, step) == Some(p as nat),
            None => last_match(events_view(ls@), t@, turn, step) is None,
        },
{
    let mut j = ls.len();
    assert(events_view(ls@).take(j as int) =~= events_view(ls@));
    while j > 0
        invariant
            j <= ls.len(),
            last_match(events_view(ls@), t@, turn, step) == last_match(events_view(ls@).take(j as int), t@, turn, step),
        decreases j,
    {
        let c = &ls[j - 1];
        assert(events_view(ls@).take(j as int).last() == event_view(*c));
        if str_eq(c.event_type.as_str(), t) && opt_eq(c.turn, turn) && opt_eq(c.step, step) {
            return Some(j - 1);
        }
        assert(events_view(ls@).take(j as int).drop_last() =~= events_view(ls@).take(j - 1));
        j = j - 1;
    }
    None
}

pub open spec fn tools_view(ts: Seq<(String, usize)>) -> Seq<(Seq<char>, nat)> {
    ts.map_values(|p: (String, usize)| (p.0@, p.1 as nat))
}

fn tool_position_exec(tools: &Vec<(String, usize)>, call: &str) -> (r: Option<usize>)
    ensures
        match r {
            Some(p) => tool_position(tools_view(tools@), call@) == Some(p as nat),
            None => tool_position(tools_view(tools@), call@) is None,
        },
{
    let mut j = tools.len();
    assert(tools_view(tools@).take(j as int) =~= tools_view(tools@));
    while j > 0
        invariant
            j <= tools.len(),
            tool_position(tools_view(tools@), call@) == tool_position(tools_view(tools@).take(j as int), call@),
        decreases j,
    {
        let c = &tools[j - 1];
        assert(tools_view(tools@).take(j as int).last() == (c.0@, c.1 as nat));
        if str_eq(c.0.as_str(), call) {
            return Some(c.1);
        }
        assert(tools_view(tools@).take(j as int).drop_last() =~= tools_view(tools@).take(j - 1));
        j = j - 1;
    }
    None
}

proof fn lemma_last_match_bound(ls: Seq<EventV>, t: Seq<char>, turn: Option<u64>, step: Option<u64>)
    ensures
        match last_match(ls, t, turn, step) {
            Some(p) => p < ls.len(),
            None => true,
        },
    decreases ls.len(),
{
    if ls.len() > 0 {
        lemma_last_match_bound(ls.drop_last(), t, turn, step);
    }
}

proof fn lemma_tool_position_bound(tools: Seq<(Seq<char>, nat)>, call: Seq<char>, n: nat)
    requires
        forall|k: int| 0 <= k < tools.len() ==> (#[trigger] tools[k]).1 < n,
    ensures
        match tool_position(tools, call) {
            Some(p) => p < n,
            None => true,
        },
    decreases tools.len(),
{
    if tools.len() > 0 {
        assert(tools.last() == tools[tools.len() - 1]);
        lemma_tool_position_bound(tools.drop_last(), call, n);
    }
}

fn opening_string(e: &TraceEvent, path: &[&str]) -> (r: Option<String>)
    requires
        event_wf(event_view(*e)),
    ensures
        opt_view(r) == spec_string_at(raw_record(event_view(*e)).value, strs(path@)),
{
    string_at(&e.raw_records[e.raw_index].value, path)
}

/// Folds a session's raw events into logical operations (`compacted`).
pub fn compact_logical_events(events: Vec<TraceEvent>) -> (r: Vec<TraceEvent>)
    requires
        all_wf(events_view(events@)),
    ensures
        events_view(r@) == compacted(events_view(events@)),
        all_wf(events_view(r@)),
{
    let ghost es = events_view(events@);
    let n = events.len();
    let mut rest = reversed(events);
    let mut logical: Vec<TraceEvent> = Vec::new();
    let mut pending: Vec<TraceEvent> = Vec::new();
    let mut tools: Vec<(String, usize)> = Vec::new();
    let p_result: &[&str] = &["data", "message", "source", "callId"];
    let p_call: &[&str] = &["data", "callId"];
    assert(strs(p_result@) =~= seq!["data"@, "message"@, "source"@, "callId"@]);
    assert(strs(p_call@) =~= seq!["data"@, "callId"@]);
    let mut i: usize = 0;
    assert(es.take(0) =~= Seq::<EventV>::empty());
    assert(events_view(logical@) =~= Seq::<EventV>::empty());
    assert(events_view(pending@) =~= Seq::<EventV>::empty());
    assert(tools_view(tools@) =~= Seq::<(Seq<char>, nat)>::empty());
    while i < n
        invariant
            n == es.len(),
            i <= n,
            all_wf(es),
            strs(p_result@) == seq!["data"@, "message"@, "source"@, "callId"@],
            strs(p_call@) == seq!["data"@, "callId"@],
            rest@.len() == n - i,
            forall|k: int| 0 <= k < rest@.len() ==> event_view(#[trigger] rest@[k]) == es[n - 1 - k],
            compact_scan(es.take(i as int)) == (FoldState {
                logical: events_view(logical@),
                pending: events_view(pending@),
                tools: tools_view(tools@),
            }),
            all_wf(events_view(logical@)),
            all_wf(events_view(pending@)),
            forall|k: int| 0 <= k < tools@.len() ==> (#[trigger] tools@[k]).1 < logical@.len(),
        decreases n - i,
    {
        let e = rest.pop().unwrap();
        let ghost ev = es[i as int];
        assert(event_view(e) == ev);
        assert(event_wf(ev));
        assert(es.take(i + 1).drop_last() =~= es.take(i as int));
        assert(es.take(i + 1).last() == ev);
        let ghost s = compact_scan(es.take(i as int));
        if fold_only_exec(e.event_type.as_str()) {
            if trailing_exec(e.event_type.as_str()) && logical.len() > 0 {
                let mut last = logical.pop().unwrap();
                assert(event_wf(s.logical[s.logical.len() - 1]));
                append_folded_event(&mut last, e);
                logical.push(last);
                assert(events_view(logical@) =~= s.logical.update(
                    s.logical.len() - 1,
                    fold_into(s.logical.last(), ev),
                ));
            } else {
                let ghost before = pending@;
                pending.push(e);
                assert(events_view(pending@) =~= events_view(before).push(ev));
            }
        } else {
            let lt = logical_type_exec(e.event_type.as_str());
            let target: Option<usize> = if str_eq(lt.as_str(), "turn/input") || str_eq(
                lt.as_str(),
                "model/execution",
            ) {
                proof {
                    lemma_last_match_bound(events_view(logical@), lt@, e.turn, e.step);
                }
                last_match_exec(&logical, lt.as_str(), e.turn, e.step)
            } else if str_eq(e.event_type.as_str(), "tool/result") {
                match opening_string(&e, p_result) {
                    Some(call) => {
                        proof {
                            lemma_tool_position_bound(tools_view(tools@), call@, logical@.len() as nat);
                        }
                        tool_position_exec(&tools, call.as_str())
                    },
                    None => None,
                }
            } else {
                None
            };
            match target {
                Some(p) => {
                    assert(fold_target(s, ev) == Some(p as nat));
                    let ghost before = events_view(logical@);
                    assert(event_wf(before[p as int]));
                    let mut t = logical.remove(p);
                    append_pending(&mut t, &mut pending);
                    append_folded_event(&mut t, e);
                    refresh_logical_event(&mut t);
                    logical.insert(p, t);
                    assert(events_view(logical@) =~= before.update(
                        p as int,
                        refreshed(fold_into(pend(before[p as int], s.pending), ev)),
                    ));
                    assert(events_view(pending@) =~= Seq::<EventV>::empty());
                },
                None => {
                    assert(fold_target(s, ev) is None);
                    let call = if str_eq(lt.as_str(), "tool/execution") {
                        opening_string(&e, p_call)
                    } else {
                        None
                    };
                    let mut ne = e;
                    ne.event_type = lt;
                    assert(event_view(ne) == retyped(ev, logical_type(ev.event_type)));
                    append_pending(&mut ne, &mut pending);
                    refresh_logical_event(&mut ne);
                    let ghost before_tools = tools_view(tools@);
                    if str_eq(ne.event_type.as_str(), "tool/execution") {
                        match call {
                            Some(c) => {
                                tools.push((c, logical.len()));
                                assert(tools_view(tools@) =~= before_tools.push((c@, s.logical.len())));
                            },
                            None => {},
                        }
                    }
                    let ghost before = events_view(logical@);
                    logical.push(ne);
                    assert(events_view(logical@) =~= before.push(event_view(ne)));
                    assert(events_view(pending@) =~= Seq::<EventV>::empty());
                },
            }
        }
        i = i + 1;
    }
    assert(es.take(n as int) =~= es);
    if logical.len() > 0 {
        let ghost s = compact_scan(es);
        assert(event_wf(s.logical[s.logical.len() - 1]));
        let mut last = logical.pop().unwrap();
        append_pending(&mut last, &mut pending);
        refresh_logical_event(&mut last);
        logical.push(last);
        assert(events_view(logical@) =~= s.logical.update(
            s.logical.len() - 1,
            refreshed(pend(s.logical.last(), s.pending)),
        ));
    } else if pending.len() > 0 {
        let ghost s = compact_scan(es);
        let ghost ps = s.pending;
        assert(event_wf(ps[ps.len() - 1]));
        let mut last = pending.pop().unwrap();
        assert(events_view(pending@) =~= ps.drop_last());
        assert(all_wf(events_view(pending@))) by {
            assert forall|k: int| 0 <= k < pending@.len() implies event_wf(#[trigger] events_view(pending@)[k]) by {
                assert(events_view(pending@)[k] == ps[k]);
            }
        }
        append_pending(&mut last, &mut pending);
        refresh_logical_event(&mut last);
        logical.push(last);
        assert(events_view(logical@) =~= seq![refreshed(pend(ps.last(), ps.drop_last()))]);
    }
    logical
}

// ----- conservation -----
pub open spec fn records_of(es: Seq<EventV>) -> Multiset<TraceRecord> {
    all_records(es).to_multiset()
}

/// Everything the fold holds: its operations' records and the waiting ones.
pub open spec fn fold_records(s: FoldState) -> Multiset<TraceRecord> {
    records_of(s.logical).add(records_of(s.pending))
}

pub open spec fn fold_wf(s: FoldState) -> bool {
    &&& all_wf(s.logical)
    &&& all_wf(s.pending)
    &&& forall|k: int| 0 <= k < s.tools.len() ==> (#[trigger] s.tools[k]).1 < s.logical.len()
}

proof fn lemma_all_records_push(s: Seq<EventV>, x: EventV)
    ensures
        all_records(s.push(x)) == all_records(s) + x.records,
{
    assert(s.push(x).drop_last() =~= s);
}

proof fn lemma_add_swap(a: Multiset<TraceRecord>, b: Multiset<TraceRecord>, c: Multiset<TraceRecord>)
    ensures
        a.add(b).add(c) == a.add(c).add(b),
{
    assert(a.add(b).add(c) =~= a.add(c).add(b));
}

proof fn lemma_add_assoc(a: Multiset<TraceRecord>, b: Multiset<TraceRecord>, c: Multiset<TraceRecord>)
    ensures
        a.add(b.add(c)) == a.add(b).add(c),
{
    assert(a.add(b.add(c)) =~= a.add(b).add(c));
}

proof fn lemma_add_cancel(x: Multiset<TraceRecord>, y: Multiset<TraceRecord>, m: Multiset<TraceRecord>)
    requires
        x.add(m) == y.add(m),
    ensures
        x == y,
{
    assert forall|v: TraceRecord| x.count(v) == y.count(v) by {
        assert(x.add(m).count(v) == x.count(v) + m.count(v));
        assert(y.add(m).count(v) == y.count(v) + m.count(v));
    }
    assert(x =~= y);
}

proof fn lemma_add_shuffle(
    r: Multiset<TraceRecord>,
    pd: Multiset<TraceRecord>,
    t: Multiset<TraceRecord>,
    e: Multiset<TraceRecord>,
)
    ensures
        r.add(pd.add(t).add(e)) == r.add(pd).add(e).add(t),
{
    assert(r.add(pd.add(t).add(e)) =~= r.add(pd).add(e).add(t));
}

proof fn lemma_add_empty(a: Multiset<TraceRecord>)
    ensures
        a.add(Multiset::empty()) == a,
{
    assert(a.add(Multiset::empty()) =~= a);
}

proof fn lemma_records_of_empty()
    ensures
        records_of(Seq::<EventV>::empty()) == Multiset::<TraceRecord>::empty(),
{
    broadcast use vstd::seq_lib::to_multiset_len;

    let z = all_records(Seq::<EventV>::empty());
    assert(z.len() == 0);
    assert(z.to_multiset().len() == 0);
    assert(z.to_multiset() =~= Multiset::<TraceRecord>::empty());
}

proof fn lemma_records_update(s: Seq<EventV>, p: int, x: EventV)
    requires
        0 <= p < s.len(),
    ensures
        records_of(s.update(p, x)).add(s[p].records.to_multiset()) == records_of(s).add(
            x.records.to_multiset(),
        ),
    decreases s.len(),
{
    broadcast use vstd::seq_lib::lemma_multiset_commutative;
    let u = s.update(p, x);
    let pm = s[p].records.to_multiset();
    let xm = x.records.to_multiset();
    if p == s.len() - 1 {
        assert(u.drop_last() =~= s.drop_last());
        let a = all_records(s.drop_last()).to_multiset();
        assert(records_of(u) == a.add(xm));
        assert(s.last() == s[p]);
        assert(records_of(s) == a.add(pm));
        lemma_add_swap(a, xm, pm);
    } else {
        assert(u.drop_last() =~= s.drop_last().update(p, x));
        lemma_records_update(s.drop_last(), p, x);
        let l = s.last();
        let lm = l.records.to_multiset();
        let r1 = records_of(s.drop_last().update(p, x));
        let a = records_of(s.drop_last());
        assert(u.last() == l);
        assert(records_of(u) == r1.add(lm));
        assert(records_of(s) == a.add(lm));
        assert(s.drop_last()[p] == s[p]);
        assert(r1.add(pm) == a.add(xm));
        lemma_add_swap(r1, lm, pm);
        lemma_add_swap(a, xm, lm);
    }
}

proof fn lemma_wf_push(s: Seq<EventV>, x: EventV)
    requires
        all_wf(s),
        event_wf(x),
    ensures
        all_wf(s.push(x)),
{
    assert forall|i: int| 0 <= i < s.push(x).len() implies event_wf(#[trigger] s.push(x)[i]) by {
        if i < s.len() {
            assert(s.push(x)[i] == s[i]);
        }
    }
}

proof fn lemma_wf_update(s: Seq<EventV>, p: int, x: EventV)
    requires
        all_wf(s),
        event_wf(x),
        0 <= p < s.len(),
    ensures
        all_wf(s.update(p, x)),
{
    assert forall|i: int| 0 <= i < s.update(p, x).len() implies event_wf(#[trigger] s.update(p, x)[i]) by {
        if i != p {
            assert(s.update(p, x)[i] == s[i]);
        }
    }
}

proof fn lemma_pend(t: EventV, ps: Seq<EventV>)
    requires
        event_wf(t),
        all_wf(ps),
    ensures
        pend(t, ps).records == all_records(ps) + t.records,
        event_wf(pend(t, ps)),
{
    lemma_raw_total(ps);
    if ps.len() == 0 {
        assert(all_records(ps) + t.records =~= t.records);
    }
}

proof fn lemma_compact_step(s: FoldState, e: EventV)
    requires
        fold_wf(s),
        event_wf(e),
    ensures
        fold_wf(compact_step(s, e)),
        fold_records(compact_step(s, e)) == fold_records(s).add(e.records.to_multiset()),
        compact_step(s, e).logical.len() >= s.logical.len(),
        !is_fold_only(e.event_type) ==> compact_step(s, e).logical.len() > 0,
{
    broadcast use vstd::seq_lib::lemma_multiset_commutative;
    let n = compact_step(s, e);
    if is_fold_only(e.event_type) {
        if is_trailing(e.event_type) && s.logical.len() > 0 {
            let k = s.logical.len() - 1;
            let last = s.logical[k];
            assert(s.logical.last() == last);
            let f = fold_into(last, e);
            assert(event_wf(last));
            lemma_wf_update(s.logical, k, f);
            lemma_records_update(s.logical, k, f);
            let lm = last.records.to_multiset();
            let em = e.records.to_multiset();
            let ro = records_of(s.logical);
            let rn = records_of(n.logical);
            assert(f.records.to_multiset() == lm.add(em));
            lemma_add_assoc(ro, lm, em);
            lemma_add_swap(ro, lm, em);
            lemma_add_cancel(rn, ro.add(em), lm);
            lemma_add_swap(ro, em, records_of(s.pending));
        } else {
            lemma_wf_push(s.pending, e);
            lemma_all_records_push(s.pending, e);
            assert(records_of(n.pending) == records_of(s.pending).add(e.records.to_multiset()));
            lemma_add_assoc(records_of(s.logical), records_of(s.pending), e.records.to_multiset());
        }
    } else {
        assert(all_records(Seq::<EventV>::empty()) =~= Seq::<TraceRecord>::empty());
        match fold_target(s, e) {
            Some(p) => {
                lemma_last_match_bound(s.logical, logical_type(e.event_type), e.turn, e.step);
                match result_call(e) {
                    Some(call) => lemma_tool_position_bound(s.tools, call, s.logical.len()),
                    None => {},
                }
                assert(p < s.logical.len());
                let t = s.logical[p as int];
                assert(event_wf(t));
                lemma_pend(t, s.pending);
                let f = refreshed(fold_into(pend(t, s.pending), e));
                assert(f.records == all_records(s.pending) + t.records + e.records);
                lemma_wf_update(s.logical, p as int, f);
                lemma_records_update(s.logical, p as int, f);
                let tm = t.records.to_multiset();
                let em = e.records.to_multiset();
                let pd = records_of(s.pending);
                let ro = records_of(s.logical);
                let rn = records_of(n.logical);
                assert(f.records.to_multiset() == pd.add(tm).add(em));
                lemma_add_shuffle(ro, pd, tm, em);
                lemma_add_cancel(rn, ro.add(pd).add(em), tm);
                lemma_records_of_empty();
                lemma_add_empty(rn);
            },
            None => {
                let lt = logical_type(e.event_type);
                lemma_pend(retyped(e, lt), s.pending);
                let f = refreshed(pend(retyped(e, lt), s.pending));
                lemma_wf_push(s.logical, f);
                lemma_all_records_push(s.logical, f);
                let em = e.records.to_multiset();
                let pd = records_of(s.pending);
                let ro = records_of(s.logical);
                assert(f.records.to_multiset() == pd.add(em));
                assert(records_of(n.logical) == ro.add(pd.add(em)));
                lemma_add_assoc(ro, pd, em);
                lemma_records_of_empty();
                lemma_add_empty(records_of(n.logical));
            },
        }
    }
}

proof fn lemma_records_of_push(s: Seq<EventV>, x: EventV)
    ensures
        records_of(s.push(x)) == records_of(s).add(x.records.to_multiset()),
{
    broadcast use vstd::seq_lib::lemma_multiset_commutative;

    lemma_all_records_push(s, x);
}

proof fn lemma_compact_scan(es: Seq<EventV>)
    requires
        all_wf(es),
    ensures
        fold_wf(compact_scan(es)),
        fold_records(compact_scan(es)) == records_of(es),
        (exists|i: int| 0 <= i < es.len() && !is_fold_only(#[trigger] es[i].event_type))
            ==> compact_scan(es).logical.len() > 0,
    decreases es.len(),
{
    if es.len() == 0 {
        lemma_records_of_empty();
        lemma_add_empty(Multiset::<TraceRecord>::empty());
    } else {
        let dl = es.drop_last();
        let e = es.last();
        assert(all_wf(dl)) by {
            assert forall|i: int| 0 <= i < dl.len() implies event_wf(#[trigger] dl[i]) by {
                assert(dl[i] == es[i]);
            }
        }
        assert(event_wf(es[es.len() - 1]));
        lemma_compact_scan(dl);
        lemma_compact_step(compact_scan(dl), e);
        assert(es =~= dl.push(e));
        lemma_records_of_push(dl, e);
        if exists|i: int| 0 <= i < es.len() && !is_fold_only(#[trigger] es[i].event_type) {
            let i = choose|i: int| 0 <= i < es.len() && !is_fold_only(#[trigger] es[i].event_type);
            if i < es.len() - 1 {
                assert(dl[i] == es[i]);
                assert(!is_fold_only(dl[i].event_type));
            }
        }
    }
}

/// Folding loses no raw record: the operations hold exactly the records
/// that came in, each once, count as many raw events, and each counts its
/// own records.
pub proof fn law_compaction_keeps_every_record(es: Seq<EventV>)
    requires
        all_wf(es),
    ensures
        all_wf(compacted(es)),
        records_of(compacted(es)) == records_of(es),
        raw_total(compacted(es)) == raw_total(es),
{
    broadcast use vstd::seq_lib::lemma_multiset_commutative;
    broadcast use vstd::seq_lib::to_multiset_len;

    lemma_compact_scan(es);
    let s = compact_scan(es);
    if s.logical.len() == 0 {
        lemma_records_of_empty();
        lemma_add_empty(records_of(s.pending));
        assert(records_of(s.logical) == Multiset::<TraceRecord>::empty());
        if s.pending.len() > 0 {
            let ps = s.pending;
            let dl = ps.drop_last();
            let last = ps.last();
            assert(event_wf(ps[ps.len() - 1]));
            assert(all_wf(dl)) by {
                assert forall|k: int| 0 <= k < dl.len() implies event_wf(#[trigger] dl[k]) by {
                    assert(dl[k] == ps[k]);
                }
            }
            lemma_pend(last, dl);
            let f = refreshed(pend(last, dl));
            assert(ps =~= dl.push(last));
            lemma_records_of_push(dl, last);
            assert(compacted(es) =~= Seq::<EventV>::empty().push(f));
            lemma_records_of_push(Seq::<EventV>::empty(), f);
            lemma_add_empty(f.records.to_multiset());
            lemma_wf_push(Seq::<EventV>::empty(), f);
        } else {
            assert(compacted(es) == s.logical);
        }
        lemma_raw_total(es);
        lemma_raw_total(compacted(es));
        assert(all_records(compacted(es)).len() == records_of(compacted(es)).len());
        assert(all_records(es).len() == records_of(es).len());
        return;
    }
    let k = s.logical.len() - 1;
    let last = s.logical[k];
    assert(s.logical.last() == last);
    assert(event_wf(last));
    lemma_pend(last, s.pending);
    let f = refreshed(pend(last, s.pending));
    lemma_wf_update(s.logical, k, f);
    lemma_records_update(s.logical, k, f);
    let lm = last.records.to_multiset();
    let pd = records_of(s.pending);
    let ro = records_of(s.logical);
    let rn = records_of(compacted(es));
    assert(f.records.to_multiset() == pd.add(lm));
    lemma_add_assoc(ro, pd, lm);
    lemma_add_cancel(rn, ro.add(pd), lm);
    lemma_raw_total(es);
    lemma_raw_total(compacted(es));
    assert(all_records(compacted(es)).len() == rn.len());
    assert(all_records(es).len() == records_of(es).len());
}

/// A type that folding can leave: not an annotation, and its own logical
/// type, so none of the transport types (`user/message`, the request,
/// reply, stream and `tool/call` records) that operations absorb.
pub open spec fn operation_type(t: Seq<char>) -> bool {
    !is_fold_only(t) && logical_type(t) == t
}

proof fn lemma_logical_type_is_operation(t: Seq<char>)
    requires
        !is_fold_only(t),
    ensures
        operation_type(logical_type(t)),
{
    reveal_strlit("user/message");
    reveal_strlit("request/header");
    reveal_strlit("request/context");
    reveal_strlit("assistant/message");
    reveal_strlit("tool/call");
    reveal_strlit("assistant/chunk");
    reveal_strlit("reasoning-chunks");
    reveal_strlit("text-chunks");
    reveal_strlit("tool-call-chunks");
    reveal_strlit("turn/input");
    reveal_strlit("model/execution");
    reveal_strlit("tool/execution");
    reveal_strlit("permission/preset");
    reveal_strlit("sandbox/mode");
    reveal_strlit("approval/policy");
    reveal_strlit("agent/inbox/spliced");
    reveal_strlit("turn/start");
    reveal_strlit("step/start");
    reveal_strlit("step/end");
    reveal_strlit("turn/end");
    reveal_strlit("session/title");
    reveal_strlit("session/title-llm-request");
    reveal_strlit("session/end-seed");
    reveal_strlit("subagent/descriptor");
    let ti = "turn/input"@;
    let me = "model/execution"@;
    let te = "tool/execution"@;
    assert(ti[5] != "turn/start"@[5]);
    assert(ti[0] != "step/start"@[0]);
    assert(me[0] != "approval/policy"@[0]);
    assert(me[0] != "request/context"@[0]);
    assert(te[0] != "request/header"@[0]);
    assert(ti != "user/message"@);
    assert(me != "user/message"@);
    assert(te != "user/message"@);
    assert(te[5] != "tool/call"@[5] || te.len() != "tool/call"@.len());
    assert(me[0] != "assistant/message"@[0] || me.len() != "assistant/message"@.len());
}

/// The operations that folding leaves: when some raw event is not an
/// annotation, every result event has an operation type; and no two
/// `turn/input` operations, nor two `model/execution` operations, share
/// their turn and step.
pub open spec fn folded_operations_ok(out: Seq<EventV>) -> bool {
    &&& forall|k: int| 0 <= k < out.len() ==> operation_type((#[trigger] out[k]).event_type)
    &&& forall|a: int, b: int|
        0 <= a < b < out.len() && (#[trigger] out[a]).event_type == (#[trigger] out[b]).event_type
            && (out[a].event_type == "turn/input"@ || out[a].event_type == "model/execution"@)
            ==> (out[a].turn, out[a].step) != (out[b].turn, out[b].step)
}

proof fn lemma_last_match_none(ls: Seq<EventV>, t: Seq<char>, turn: Option<u64>, step: Option<u64>)
    requires
        last_match(ls, t, turn, step) is None,
    ensures
        forall|k: int| 0 <= k < ls.len() ==> !((#[trigger] ls[k]).event_type == t && ls[k].turn == turn && ls[k].step == step),
    decreases ls.len(),
{
    if ls.len() > 0 {
        lemma_last_match_none(ls.drop_last(), t, turn, step);
        assert forall|k: int| 0 <= k < ls.len() implies !((#[trigger] ls[k]).event_type == t && ls[k].turn == turn && ls[k].step == step) by {
            if k < ls.len() - 1 {
                assert(ls[k] == ls.drop_last()[k]);
            }
        }
    }
}

proof fn lemma_scan_operations(es: Seq<EventV>)
    requires
        all_wf(es),
    ensures
        folded_operations_ok(compact_scan(es).logical),
    decreases es.len(),
{
    if es.len() > 0 {
        let d = es.drop_last();
        assert(all_wf(d)) by {
            assert forall|i: int| 0 <= i < d.len() implies event_wf(#[trigger] d[i]) by {
                assert(d[i] == es[i]);
            }
        }
        lemma_scan_operations(d);
        lemma_compact_scan(d);
        let s = compact_scan(d);
        let e = es.last();
        let n = compact_step(s, e);
        assert(compact_scan(es) == n);
        if is_fold_only(e.event_type) {
            if is_trailing(e.event_type) && s.logical.len() > 0 {
                let k = s.logical.len() - 1;
                let u = s.logical.update(k, fold_into(s.logical.last(), e));
                assert forall|a: int| 0 <= a < u.len() implies (#[trigger] u[a]).event_type == s.logical[a].event_type
                    && u[a].turn == s.logical[a].turn && u[a].step == s.logical[a].step by {
                    if a == k {
                        assert(s.logical.last() == s.logical[k]);
                    }
                }
            }
        } else {
            match fold_target(s, e) {
                Some(p) => {
                    lemma_last_match_bound(s.logical, logical_type(e.event_type), e.turn, e.step);
                    match result_call(e) {
                        Some(call) => lemma_tool_position_bound(s.tools, call, s.logical.len()),
                        None => {},
                    }
                    let f = refreshed(fold_into(pend(s.logical[p as int], s.pending), e));
                    let u = s.logical.update(p as int, f);
                    assert(f.event_type == s.logical[p as int].event_type);
                    assert(f.turn == s.logical[p as int].turn && f.step == s.logical[p as int].step);
                    assert forall|a: int| 0 <= a < u.len() implies (#[trigger] u[a]).event_type == s.logical[a].event_type
                        && u[a].turn == s.logical[a].turn && u[a].step == s.logical[a].step by {
                    }
                },
                None => {
                    let lt = logical_type(e.event_type);
                    lemma_logical_type_is_operation(e.event_type);
                    let f = refreshed(pend(retyped(e, lt), s.pending));
                    assert(f.event_type == lt && f.turn == e.turn && f.step == e.step);
                    if lt == "turn/input"@ || lt == "model/execution"@ {
                        lemma_last_match_none(s.logical, lt, e.turn, e.step);
                    }
                    let u = s.logical.push(f);
                    assert forall|a: int, b: int|
                        0 <= a < b < u.len() && (#[trigger] u[a]).event_type == (#[trigger] u[b]).event_type
                            && (u[a].event_type == "turn/input"@ || u[a].event_type == "model/execution"@)
                            implies (u[a].turn, u[a].step) != (u[b].turn, u[b].step) by {
                        if b == s.logical.len() {
                            assert(u[b] == f);
                            assert(u[a] == s.logical[a]);
                        } else {
                            assert(u[a] == s.logical[a]);
                            assert(u[b] == s.logical[b]);
                        }
                    }
                    assert forall|k: int| 0 <= k < u.len() implies operation_type((#[trigger] u[k]).event_type) by {
                        if k < s.logical.len() {
                            assert(u[k] == s.logical[k]);
                        }
                    }
                },
            }
        }
    }
}

/// Folding law: when at least one raw event is not an annotation, the
/// operations that remain have operation types only, and there is at most
/// one `turn/input` and one `model/execution` operation per turn and step.
pub proof fn law_folded_operation_types(es: Seq<EventV>)
    requires
        all_wf(es),
        exists|i: int| 0 <= i < es.len() && !is_fold_only(#[trigger] es[i].event_type),
    ensures
        folded_operations_ok(compacted(es)),
{
    lemma_compact_scan(es);
    lemma_scan_operations(es);
    let s = compact_scan(es);
    let k = s.logical.len() - 1;
    let f = refreshed(pend(s.logical.last(), s.pending));
    let u = s.logical.update(k, f);
    assert(s.logical.last() == s.logical[k]);
    assert(f.event_type == s.logical[k].event_type && f.turn == s.logical[k].turn && f.step == s.logical[k].step);
    assert forall|a: int| 0 <= a < u.len() implies (#[trigger] u[a]).event_type == s.logical[a].event_type
        && u[a].turn == s.logical[a].turn && u[a].step == s.logical[a].step by {
    }
}

/// Every recorded tool position names a tool execution opened by a call
/// with that call id.
pub open spec fn tools_ok(s: FoldState) -> bool {
    &&& forall|k: int|
        0 <= k < s.tools.len() ==> (#[trigger] s.tools[k]).1 < s.logical.len() && s.logical[s.tools[k].1 as int].event_type
            == "tool/execution"@ && call_id(s.logical[s.tools[k].1 as int]) == Some(s.tools[k].0)
    &&& forall|a: int, b: int| 0 <= a < b < s.tools.len() ==> (#[trigger] s.tools[a]).1 < (#[trigger] s.tools[b]).1
    &&& forall|q: int|
        0 <= q < s.logical.len() && (#[trigger] s.logical[q]).event_type == "tool/execution"@ && call_id(s.logical[q]) is Some
            ==> exists|k: int| 0 <= k < s.tools.len() && s.tools[k] == (call_id(s.logical[q])->0, q as nat)
}

proof fn lemma_opening_kept(t: EventV, ps: Seq<EventV>, e: EventV)
    requires
        event_wf(t),
        all_wf(ps),
    ensures
        raw_record(pend(t, ps)) == raw_record(t),
        raw_record(fold_into(t, e)) == raw_record(t),
        raw_record(refreshed(t)) == raw_record(t),
        refreshed(t).event_type == t.event_type,
        pend(t, ps).event_type == t.event_type,
        fold_into(t, e).event_type == t.event_type,
        event_wf(pend(t, ps)),
{
    lemma_pend(t, ps);
    if ps.len() > 0 {
        let a = all_records(ps);
        assert((a + t.records)[(t.raw_index + a.len()) as int] == t.records[t.raw_index as int]);
    }
    assert((t.records + e.records)[t.raw_index as int] == t.records[t.raw_index as int]);
}

proof fn lemma_tools_ok_kept(s: FoldState, n: FoldState)
    requires
        tools_ok(s),
        n.tools == s.tools,
        n.logical.len() == s.logical.len(),
        forall|q: int|
            0 <= q < s.logical.len() ==> (#[trigger] n.logical[q]).event_type == s.logical[q].event_type && call_id(n.logical[q])
                == call_id(s.logical[q]),
    ensures
        tools_ok(n),
{
    assert forall|k: int| 0 <= k < n.tools.len() implies (#[trigger] n.tools[k]).1 < n.logical.len()
        && n.logical[n.tools[k].1 as int].event_type == "tool/execution"@ && call_id(n.logical[n.tools[k].1 as int])
        == Some(n.tools[k].0) by {
        assert(n.tools[k] == s.tools[k]);
        let r = s.tools[k].1 as int;
        assert(n.logical[r].event_type == s.logical[r].event_type);
    }
    assert forall|q: int|
        0 <= q < n.logical.len() && (#[trigger] n.logical[q]).event_type == "tool/execution"@ && call_id(n.logical[q]) is Some
            implies exists|k: int| 0 <= k < n.tools.len() && n.tools[k] == (call_id(n.logical[q])->0, q as nat) by {
        assert(s.logical[q].event_type == "tool/execution"@);
        let k = choose|k: int| 0 <= k < s.tools.len() && s.tools[k] == (call_id(s.logical[q])->0, q as nat);
        assert(n.tools[k] == s.tools[k]);
    }
}

proof fn lemma_tools_ok(es: Seq<EventV>)
    requires
        all_wf(es),
    ensures
        tools_ok(compact_scan(es)),
    decreases es.len(),
{
    if es.len() > 0 {
        let d = es.drop_last();
        assert(all_wf(d)) by {
            assert forall|i: int| 0 <= i < d.len() implies event_wf(#[trigger] d[i]) by {
                assert(d[i] == es[i]);
            }
        }
        lemma_tools_ok(d);
        lemma_compact_scan(d);
        let s = compact_scan(d);
        let e = es.last();
        assert(event_wf(es[es.len() - 1]));
        let n = compact_step(s, e);
        assert(compact_scan(es) == n);
        if is_fold_only(e.event_type) {
            if is_trailing(e.event_type) && s.logical.len() > 0 {
                let k = s.logical.len() - 1;
                assert(s.logical.last() == s.logical[k]);
                assert(event_wf(s.logical[k]));
                lemma_opening_kept(s.logical[k], s.pending, e);
                assert forall|q: int| 0 <= q < s.logical.len() implies (#[trigger] n.logical[q]).event_type
                    == s.logical[q].event_type && call_id(n.logical[q]) == call_id(s.logical[q]) by {
                    if q == k {
                        assert(n.logical[q] == fold_into(s.logical[k], e));
                    } else {
                        assert(n.logical[q] == s.logical[q]);
                    }
                }
                lemma_tools_ok_kept(s, n);
            } else {
                lemma_tools_ok_kept(s, n);
            }
        } else {
            match fold_target(s, e) {
                Some(p) => {
                    lemma_last_match_bound(s.logical, logical_type(e.event_type), e.turn, e.step);
                    match result_call(e) {
                        Some(call) => lemma_tool_position_bound(s.tools, call, s.logical.len()),
                        None => {},
                    }
                    let t = s.logical[p as int];
                    assert(event_wf(t));
                    lemma_opening_kept(t, s.pending, e);
                    let pt = pend(t, s.pending);
                    lemma_opening_kept(pt, Seq::empty(), e);
                    let f = fold_into(pt, e);
                    assert(event_wf(f)) by {
                        lemma_pend(t, s.pending);
                    }
                    lemma_opening_kept(f, Seq::empty(), e);
                    assert(raw_record(refreshed(f)) == raw_record(t));
                    assert(refreshed(f).event_type == t.event_type);
                    assert forall|q: int| 0 <= q < s.logical.len() implies (#[trigger] n.logical[q]).event_type
                        == s.logical[q].event_type && call_id(n.logical[q]) == call_id(s.logical[q]) by {
                        if q == p {
                            assert(n.logical[q] == refreshed(f));
                        } else {
                            assert(n.logical[q] == s.logical[q]);
                        }
                    }
                    lemma_tools_ok_kept(s, n);
                },
                None => {
                    let lt = logical_type(e.event_type);
                    let re = retyped(e, lt);
                    assert(event_wf(re));
                    lemma_opening_kept(re, s.pending, e);
                    let pr = pend(re, s.pending);
                    lemma_opening_kept(pr, Seq::empty(), e);
                    let f = refreshed(pr);
                    assert(raw_record(f) == raw_record(e));
                    assert(f.event_type == lt);
                    assert(call_id(f) == call_id(e));
                    let len = s.logical.len();
                    assert(n.logical == s.logical.push(f));
                    assert forall|k: int| 0 <= k < n.tools.len() implies (#[trigger] n.tools[k]).1 < n.logical.len()
                        && n.logical[n.tools[k].1 as int].event_type == "tool/execution"@ && call_id(
                        n.logical[n.tools[k].1 as int],
                    ) == Some(n.tools[k].0) by {
                        let r = n.tools[k].1 as int;
                        if k < s.tools.len() {
                            assert(n.tools[k] == s.tools[k]);
                            assert(n.logical[r] == s.logical[r]);
                        } else {
                            assert(n.logical[r] == f);
                        }
                    }
                    assert forall|a: int, b: int| 0 <= a < b < n.tools.len() implies (#[trigger] n.tools[a]).1 < (#[trigger] n.tools[b]).1 by {
                        assert(n.tools[a] == s.tools[a]);
                        if b < s.tools.len() {
                            assert(n.tools[b] == s.tools[b]);
                        } else {
                            assert(n.tools[b].1 == len);
                        }
                    }
                    assert forall|q: int|
                        0 <= q < n.logical.len() && (#[trigger] n.logical[q]).event_type == "tool/execution"@ && call_id(n.logical[q]) is Some
                            implies exists|k: int| 0 <= k < n.tools.len() && n.tools[k] == (call_id(n.logical[q])->0, q as nat) by {
                        if q < len {
                            assert(n.logical[q] == s.logical[q]);
                            let k = choose|k: int| 0 <= k < s.tools.len() && s.tools[k] == (call_id(s.logical[q])->0, q as nat);
                            assert(n.tools[k] == s.tools[k]);
                        } else {
                            assert(n.logical[q] == f);
                            assert(n.tools[s.tools.len() as int] == (call_id(e)->0, len as nat));
                        }
                    }
                },
            }
        }
    }
}

proof fn lemma_tool_position_found(tools: Seq<(Seq<char>, nat)>, call: Seq<char>)
    requires
        forall|a: int, b: int| 0 <= a < b < tools.len() ==> (#[trigger] tools[a]).1 < (#[trigger] tools[b]).1,
    ensures
        tool_position(tools, call) matches Some(p) ==> exists|k: int| 0 <= k < tools.len() && (#[trigger] tools[k]).0 == call && tools[k].1 == p,
        tool_position(tools, call) matches Some(p) ==> forall|k: int| 0 <= k < tools.len() && (#[trigger] tools[k]).0 == call ==> tools[k].1 <= p,
        tool_position(tools, call) is None ==> forall|k: int| 0 <= k < tools.len() ==> (#[trigger] tools[k]).0 != call,
    decreases tools.len(),
{
    if tools.len() > 0 {
        let d = tools.drop_last();
        assert forall|a: int, b: int| 0 <= a < b < d.len() implies (#[trigger] d[a]).1 < (#[trigger] d[b]).1 by {
            assert(d[a] == tools[a] && d[b] == tools[b]);
        }
        lemma_tool_position_found(d, call);
        let last = tools.len() - 1;
        assert(tools[last] == tools.last());
        if tools.last().0 != call {
            match tool_position(d, call) {
                Some(p) => {
                    let k = choose|k: int| 0 <= k < d.len() && (#[trigger] d[k]).0 == call && d[k].1 == p;
                    assert(tools[k] == d[k]);
                    assert forall|j: int| 0 <= j < tools.len() && (#[trigger] tools[j]).0 == call implies tools[j].1 <= p by {
                        assert(j < last);
                        assert(tools[j] == d[j]);
                    }
                },
                None => {
                    assert forall|j: int| 0 <= j < tools.len() implies (#[trigger] tools[j]).0 != call by {
                        if j < last {
                            assert(tools[j] == d[j]);
                        }
                    }
                },
            }
        } else {
            assert forall|j: int| 0 <= j < tools.len() && (#[trigger] tools[j]).0 == call implies tools[j].1 <= tools.last().1 by {
                if j < last {
                    assert(tools[j].1 < tools[last].1);
                }
            }
        }
    }
}

/// Tool law: a tool result joins the tool execution whose call carries the
/// call id the result answers, the latest such execution, and no other; a
/// result joins nothing when no execution carries its call id.
pub proof fn law_tool_result_joins_its_call(es: Seq<EventV>, e: EventV, c: Seq<char>)
    requires
        all_wf(es),
        e.event_type == "tool/result"@,
        result_call(e) == Some(c),
    ensures
        fold_target(compact_scan(es), e) matches Some(p) ==> p < compact_scan(es).logical.len()
            && compact_scan(es).logical[p as int].event_type == "tool/execution"@ && call_id(
            compact_scan(es).logical[p as int],
        ) == Some(c) && forall|q: int|
            p < q < compact_scan(es).logical.len() && (#[trigger] compact_scan(es).logical[q]).event_type
                == "tool/execution"@ ==> call_id(compact_scan(es).logical[q]) != Some(c),
        fold_target(compact_scan(es), e) is None ==> forall|q: int|
            0 <= q < compact_scan(es).logical.len() && (#[trigger] compact_scan(es).logical[q]).event_type
                == "tool/execution"@ ==> call_id(compact_scan(es).logical[q]) != Some(c),
{
    let s = compact_scan(es);
    lemma_tools_ok(es);
    lemma_tool_position_found(s.tools, c);
    reveal_strlit("tool/result");
    reveal_strlit("turn/input");
    reveal_strlit("model/execution");
    reveal_strlit("user/message");
    reveal_strlit("request/header");
    reveal_strlit("request/context");
    reveal_strlit("assistant/message");
    reveal_strlit("tool/call");
    reveal_strlit("assistant/chunk");
    reveal_strlit("reasoning-chunks");
    reveal_strlit("text-chunks");
    reveal_strlit("tool-call-chunks");
    assert("tool/result"@[5] != "user/message"@[5]);
    assert("tool/result"@[5] != "tool/call"@[5]);
    assert("tool/result"@[0] != "request/header"@[0]);
    assert("tool/result"@[0] != "assistant/message"@[0]);
    assert("tool/result"@[4] != "tool-call-chunks"@[4]);
    assert(logical_type(e.event_type) == "tool/result"@);
    assert("tool/result"@[1] != "turn/input"@[1]);
    assert("tool/result"@[0] != "model/execution"@[0]);
    assert(fold_target(s, e) == tool_position(s.tools, c));
    match fold_target(s, e) {
        Some(p) => {
            let k = choose|k: int| 0 <= k < s.tools.len() && (#[trigger] s.tools[k]).0 == c && s.tools[k].1 == p;
            assert forall|q: int|
                p < q < s.logical.len() && (#[trigger] s.logical[q]).event_type == "tool/execution"@ implies call_id(
                s.logical[q],
            ) != Some(c) by {
                if call_id(s.logical[q]) == Some(c) {
                    let j = choose|j: int| 0 <= j < s.tools.len() && s.tools[j] == (call_id(s.logical[q])->0, q as nat);
                    assert(s.tools[j].0 == c);
                }
            }
        },
        None => {
            assert forall|q: int|
                0 <= q < s.logical.len() && (#[trigger] s.logical[q]).event_type == "tool/execution"@ implies call_id(
                s.logical[q],
            ) != Some(c) by {
                if call_id(s.logical[q]) == Some(c) {
                    let j = choose|j: int| 0 <= j < s.tools.len() && s.tools[j] == (call_id(s.logical[q])->0, q as nat);
                    assert(s.tools[j].0 == c);
                }
            }
        },
    }
}

/// The records of a session that become raw events: those whose `type` is
/// a string other than `session`, in file order.
pub open spec fn kept_records(rs: Seq<TraceRecord>) -> Seq<TraceRecord>
    decreases rs.len(),
{
    if rs.len() == 0 {
        Seq::empty()
    } else {
        let k = kept_records(rs.drop_last());
        match record_type(rs.last()) {
            Some(t) => if t != "session"@ {
                k.push(rs.last())
            } else {
                k
            },
            None => k,
        }
    }
}

proof fn lemma_norm_scan_records(c: NormContext, rs: Seq<TraceRecord>)
    ensures
        all_records(norm_scan(c, rs).1) == kept_records(rs),
    decreases rs.len(),
{
    if rs.len() > 0 {
        lemma_norm_scan_records(c, rs.drop_last());
        let prev = norm_scan(c, rs.drop_last());
        let r = rs.last();
        match record_type(r) {
            None => {},
            Some(t) => {
                if t != "session"@ {
                    let st = advance(prev.0, r, t);
                    let ev = raw_event(c, st, r, t, prev.1.len());
                    lemma_all_records_push(prev.1, ev);
                    assert(all_records(prev.1) + ev.records =~= kept_records(rs.drop_last()).push(r));
                }
            },
        }
    }
}

/// The trace projection is lossless: every record of a session whose type
/// is a string other than `session` stays attached to exactly one logical
/// operation, and the operations count exactly that many raw records.
pub proof fn law_session_records_are_all_kept(c: NormContext, rs: Seq<TraceRecord>)
    ensures
        records_of(compacted(norm_scan(c, rs).1)) == kept_records(rs).to_multiset(),
        raw_total(compacted(norm_scan(c, rs).1)) == kept_records(rs).len(),
        all_wf(compacted(norm_scan(c, rs).1)),
{
    broadcast use vstd::seq_lib::to_multiset_len;

    let es = norm_scan(c, rs).1;
    lemma_norm_scan_wf(c, rs);
    lemma_norm_scan_records(c, rs);
    law_compaction_keeps_every_record(es);
    lemma_raw_total(es);
}

pub proof fn lemma_norm_scan_wf(c: NormContext, rs: Seq<TraceRecord>)
    ensures
        all_wf(norm_scan(c, rs).1),
    decreases rs.len(),
{
    if rs.len() > 0 {
        lemma_norm_scan_wf(c, rs.drop_last());
        let prev = norm_scan(c, rs.drop_last());
        let r = rs.last();
        match record_type(r) {
            None => {},
            Some(t) => {
                if t != "session"@ {
                    let st = advance(prev.0, r, t);
                    lemma_wf_push(prev.1, raw_event(c, st, r, t, prev.1.len()));
                }
            },
        }
    }
}

/// The logical operations of one session: its raw events (`norm_scan`),
/// folded (`compacted`).
pub fn normalize_session(
    records: Vec<TraceRecord>,
    header: &ArtifactHeader,
    projection: &Projection,
    branches: &Vec<TraceBranch>,
) -> (r: Vec<TraceEvent>)
    ensures
        events_view(r@) == compacted(
            norm_scan(norm_context(*header, *projection, records@, branch_views(branches@)), records@).1,
        ),
        all_wf(events_view(r@)),
{
    proof {
        lemma_norm_scan_wf(norm_context(*header, *projection, records@, branch_views(branches@)), records@);
    }
    let raw = raw_events(records, header, projection, branches);
    compact_logical_events(raw)
}

/// Folded operations count their records.
pub proof fn lemma_compacted_wf(es: Seq<EventV>)
    requires
        all_wf(es),
    ensures
        all_wf(compacted(es)),
{
    law_compaction_keeps_every_record(es);
}

} // verus!
