//! From session records to raw trace events: labels, messages, per-step
//! usage and stream counts, and the normalisation of one session.
use vstd::prelude::*;
use vstd::utf8::encode_utf8;

use crate::json::{JsonValue, TraceRecord, compact_text, message_text, spec_compact_text, spec_message_text, spec_string_at, spec_u64_at, string_at, strs, u64_at, walk_get, walk_members};
use crate::text::{append_chars, append_str, chars_to_string, clone_string, concat3, concat4, concat_strs, decimal, opt_view, starts_with, starts_with_chars, str_eq, str_to_chars, string_views, u64_chars, u64_string};
use crate::trace_branches::{BranchV, branch_view, branch_views};
use crate::trace_model::{ArtifactHeader, Projection, TraceBranch, TraceEvent};
use crate::sort::reversed;

verus! {

/// The values of a trace event.
pub struct EventV {
    pub id: Seq<char>,
    pub index: usize,
    pub time: u64,
    pub sequence: Option<u64>,
    pub branch_id: Seq<char>,
    pub event_type: Seq<char>,
    pub label: Seq<char>,
    pub message: Seq<char>,
    pub turn: Option<u64>,
    pub step: Option<u64>,
    pub context_tokens: Option<u64>,
    pub context_window: Option<u64>,
    pub context_usage: Option<(u64, u64)>,
    pub output_tokens: Option<u64>,
    pub stream_chunks: nat,
    pub raw_event_count: nat,
    pub folded: Seq<Seq<char>>,
    pub records: Seq<TraceRecord>,
    pub raw_index: nat,
}

pub open spec fn event_view(e: TraceEvent) -> EventV {
    EventV {
        id: e.id@,
        index: e.index,
        time: e.time,
        sequence: e.sequence,
        branch_id: e.branch_id@,
        event_type: e.event_type@,
        label: e.label@,
        message: e.message@,
        turn: e.turn,
        step: e.step,
        context_tokens: e.context_tokens,
        context_window: e.context_window,
        context_usage: e.context_usage,
        output_tokens: e.output_tokens,
        stream_chunks: e.stream_chunks as nat,
        raw_event_count: e.raw_event_count as nat,
        folded: string_views(e.folded_event_types@),
        records: e.raw_records@,
        raw_index: e.raw_index as nat,
    }
}

pub open spec fn events_view(es: Seq<TraceEvent>) -> Seq<EventV> {
    es.map_values(|e: TraceEvent| event_view(e))
}

/// The record that opened an event.
pub open spec fn raw_record(e: EventV) -> TraceRecord {
    e.records[e.raw_index as int]
}

pub open spec fn record_type(r: TraceRecord) -> Option<Seq<char>> {
    spec_string_at(r.value, seq!["type"@])
}

pub fn type_of(r: &TraceRecord) -> (t: Option<String>)
    ensures
        opt_view(t) == record_type(*r),
{
    let p: &[&str] = &["type"];
    assert(strs(p@) =~= seq!["type"@]);
    string_at(&r.value, p)
}

pub open spec fn is_stream_type(t: Seq<char>) -> bool {
    t == "assistant/chunk"@ || t == "reasoning-chunks"@ || t == "text-chunks"@ || t
        == "tool-call-chunks"@
}

pub fn stream_type(t: &str) -> (r: bool)
    ensures
        r == is_stream_type(t@),
{
    str_eq(t, "assistant/chunk") || str_eq(t, "reasoning-chunks") || str_eq(t, "text-chunks")
        || str_eq(t, "tool-call-chunks")
}

/// A record's type is a stream-chunk type; a record without one is not a chunk.
pub open spec fn is_stream_record(r: TraceRecord) -> bool {
    match record_type(r) {
        Some(t) => is_stream_type(t),
        None => false,
    }
}

pub fn stream_record(r: &TraceRecord) -> (b: bool)
    ensures
        b == is_stream_record(*r),
{
    match type_of(r) {
        Some(t) => stream_type(t.as_str()),
        None => false,
    }
}

// ----- labels -----
pub open spec fn replace_separators(t: Seq<char>) -> Seq<char> {
    t.map_values(|c: char| if c == '/' || c == '-' {
        ' '
    } else {
        c
    })
}

pub open spec fn data_string(v: JsonValue, key: Seq<char>) -> Option<Seq<char>> {
    spec_string_at(v, seq!["data"@, key])
}

pub open spec fn spec_event_label(t: Seq<char>, v: JsonValue) -> Seq<char> {
    if t == "user/message"@ {
        "User message"@
    } else if t == "request/header"@ {
        match spec_string_at(v, seq!["data"@, "header"@, "config"@, "model"@]) {
            Some(m) => "Model request · "@ + m,
            None => "Model request"@,
        }
    } else if t == "request/context"@ {
        "Context window"@
    } else if t == "assistant/message"@ {
        "Model response"@
    } else if t == "tool/call"@ {
        match data_string(v, "name"@) {
            Some(n) => "Call "@ + n,
            None => "Tool call"@,
        }
    } else if t == "tool/result"@ {
        "Tool result"@
    } else if t == "tool-workflow/run-start"@ {
        match data_string(v, "name"@) {
            Some(n) => "Workflow "@ + n + " starts"@,
            None => "Workflow starts"@,
        }
    } else if t == "tool-workflow/agent-start"@ {
        match data_string(v, "label"@) {
            Some(l) => "Member "@ + l + " starts"@,
            None => "Workflow member starts"@,
        }
    } else if t == "tool-workflow/agent-end"@ {
        match data_string(v, "label"@) {
            Some(l) => "Member "@ + l + " ends"@,
            None => "Workflow member ends"@,
        }
    } else if t == "tool-workflow/run-end"@ {
        "Workflow settles"@
    } else {
        replace_separators(t)
    }
}

fn data_str(v: &JsonValue, key: &str) -> (r: Option<String>)
    ensures
        opt_view(r) == data_string(*v, key@),
{
    let p: [&str; 2] = ["data", key];
    let ps: &[&str] = &p;
    assert(strs(ps@) =~= seq!["data"@, key@]);
    string_at(v, ps)
}

fn wrap3(a: &str, b: &str, c: &str) -> (r: String)
    ensures
        r@ == a@ + b@ + c@,
{
    concat3(a, b, c)
}

pub fn event_label(t: &str, v: &JsonValue) -> (r: String)
    ensures
        r@ == spec_event_label(t@, *v),
{
    if str_eq(t, "user/message") {
        String::from_str("User message")
    } else if str_eq(t, "request/header") {
        let p: &[&str] = &["data", "header", "config", "model"];
        assert(strs(p@) =~= seq!["data"@, "header"@, "config"@, "model"@]);
        match string_at(v, p) {
            Some(m) => concat_strs("Model request · ", m.as_str()),
            None => String::from_str("Model request"),
        }
    } else if str_eq(t, "request/context") {
        String::from_str("Context window")
    } else if str_eq(t, "assistant/message") {
        String::from_str("Model response")
    } else if str_eq(t, "tool/call") {
        match data_str(v, "name") {
            Some(n) => concat_strs("Call ", n.as_str()),
            None => String::from_str("Tool call"),
        }
    } else if str_eq(t, "tool/result") {
        String::from_str("Tool result")
    } else if str_eq(t, "tool-workflow/run-start") {
        match data_str(v, "name") {
            Some(n) => wrap3("Workflow ", n.as_str(), " starts"),
            None => String::from_str("Workflow starts"),
        }
    } else if str_eq(t, "tool-workflow/agent-start") {
        match data_str(v, "label") {
            Some(l) => wrap3("Member ", l.as_str(), " starts"),
            None => String::from_str("Workflow member starts"),
        }
    } else if str_eq(t, "tool-workflow/agent-end") {
        match data_str(v, "label") {
            Some(l) => wrap3("Member ", l.as_str(), " ends"),
            None => String::from_str("Workflow member ends"),
        }
    } else if str_eq(t, "tool-workflow/run-end") {
        String::from_str("Workflow settles")
    } else {
        let chars = str_to_chars(t);
        let mut out: Vec<char> = Vec::new();
        let mut i: usize = 0;
        while i < chars.len()
            invariant
                i <= chars.len(),
                chars@ == t@,
                out@ == replace_separators(chars@.take(i as int)),
            decreases chars.len() - i,
        {
            let c = chars[i];
            out.push(
                if c == '/' || c == '-' {
                    ' '
                } else {
                    c
                },
            );
            assert(out@ =~= replace_separators(chars@.take(i + 1)));
            i = i + 1;
        }
        assert(chars@.take(chars.len() as int) =~= chars@);
        chars_to_string(&out)
    }
}

// ----- messages -----
pub open spec fn array_len_at(v: JsonValue, path: Seq<Seq<char>>) -> nat {
    match walk_get(v, path) {
        Some(JsonValue::Array(a)) => a@.len(),
        _ => 0,
    }
}

pub open spec fn or_text(o: Option<Seq<char>>, d: Seq<char>) -> Seq<char> {
    match o {
        Some(x) => x,
        None => d,
    }
}

pub open spec fn header_message(v: JsonValue) -> Seq<char> {
    let system = match spec_string_at(v, seq!["data"@, "header"@, "system"@]) {
        Some(s) => encode_utf8(s).len(),
        None => 0,
    };
    let tools = array_len_at(v, seq!["data"@, "header"@, "tools"@]);
    let messages = array_len_at(v, seq!["data"@, "header"@, "messages"@]);
    "Complete model input · system "@ + decimal(system) + " chars · "@ + decimal(tools)
        + " tools · "@ + decimal(messages) + " messages"@
}

pub open spec fn compact_message(v: JsonValue, fallback: Seq<char>) -> Seq<char> {
    match spec_message_text(v) {
        Some(t) => spec_compact_text(t, 240),
        None => fallback,
    }
}

pub open spec fn spec_event_message(t: Seq<char>, r: TraceRecord, role: Seq<char>) -> Seq<char> {
    let v = r.value;
    if t == "user/message"@ || t == "assistant/message"@ {
        compact_message(v, role + " message recorded"@)
    } else if t == "request/header"@ {
        header_message(v)
    } else if t == "request/context"@ {
        match spec_u64_at(v, seq!["data"@, "contextWindow"@]) {
            Some(w) => "Provider context window: "@ + decimal(w as nat) + " tokens"@,
            None => "Provider context metadata recorded"@,
        }
    } else if t == "tool/call"@ {
        match data_string(v, "arguments"@) {
            Some(a) => spec_compact_text(a, 240),
            None => "Tool arguments recorded"@,
        }
    } else if t == "tool/result"@ {
        compact_message(v, "Tool output recorded"@)
    } else if t == "tool-workflow/run-start"@ {
        "Dynamic workflow "@ + or_text(data_string(v, "runId"@), "unknown"@) + " created"@
    } else if t == "tool-workflow/agent-start"@ {
        "Workflow member "@ + or_text(data_string(v, "label"@), "unnamed"@) + " assigned to child "@
            + or_text(data_string(v, "childId"@), "unknown"@)
    } else if t == "tool-workflow/agent-end"@ {
        "Workflow member finished with "@ + or_text(data_string(v, "outcome"@), "unknown outcome"@)
    } else if t == "tool-workflow/run-end"@ {
        "Workflow stopped: "@ + or_text(data_string(v, "stopReason"@), "unknown"@)
    } else {
        spec_compact_text(r.data_text@, 240)
    }
}

fn array_len(v: &JsonValue, key: &str) -> (r: usize)
    ensures
        r == array_len_at(*v, seq!["data"@, "header"@, key@]),
{
    let p: [&str; 3] = ["data", "header", key];
    let ps: &[&str] = &p;
    assert(strs(ps@) =~= seq!["data"@, "header"@, key@]);
    match walk_members(v, ps) {
        Some(JsonValue::Array(a)) => a.len(),
        _ => 0,
    }
}

pub fn header_message_exec(v: &JsonValue) -> (r: String)
    ensures
        r@ == header_message(*v),
{
    let p: &[&str] = &["data", "header", "system"];
    assert(strs(p@) =~= seq!["data"@, "header"@, "system"@]);
    let system: usize = match string_at(v, p) {
        Some(s) => s.as_str().as_bytes().len(),
        None => 0,
    };
    let tools = array_len(v, "tools");
    let messages = array_len(v, "messages");
    let mut m = str_to_chars("Complete model input · system ");
    append_chars(&mut m, &u64_chars(system as u64));
    append_str(&mut m, " chars · ");
    append_chars(&mut m, &u64_chars(tools as u64));
    append_str(&mut m, " tools · ");
    append_chars(&mut m, &u64_chars(messages as u64));
    append_str(&mut m, " messages");
    chars_to_string(&m)
}

fn compact_message_exec(v: &JsonValue, fallback: String) -> (r: String)
    ensures
        r@ == compact_message(*v, fallback@),
{
    match message_text(v) {
        Some(t) => compact_text(t.as_str(), 240),
        None => fallback,
    }
}

fn or_str(o: Option<String>, d: &str) -> (r: String)
    ensures
        r@ == or_text(opt_view(o), d@),
{
    match o {
        Some(x) => x,
        None => String::from_str(d),
    }
}

pub fn event_message(t: &str, r: &TraceRecord, role: &str) -> (m: String)
    ensures
        m@ == spec_event_message(t@, *r, role@),
{
    let v = &r.value;
    if str_eq(t, "user/message") || str_eq(t, "assistant/message") {
        compact_message_exec(v, concat_strs(role, " message recorded"))
    } else if str_eq(t, "request/header") {
        header_message_exec(v)
    } else if str_eq(t, "request/context") {
        let p: &[&str] = &["data", "contextWindow"];
        assert(strs(p@) =~= seq!["data"@, "contextWindow"@]);
        match u64_at(v, p) {
            Some(w) => {
                let d = u64_string(w);
                wrap3("Provider context window: ", d.as_str(), " tokens")
            },
            None => String::from_str("Provider context metadata recorded"),
        }
    } else if str_eq(t, "tool/call") {
        match data_str(v, "arguments") {
            Some(a) => compact_text(a.as_str(), 240),
            None => String::from_str("Tool arguments recorded"),
        }
    } else if str_eq(t, "tool/result") {
        compact_message_exec(v, String::from_str("Tool output recorded"))
    } else if str_eq(t, "tool-workflow/run-start") {
        let run = or_str(data_str(v, "runId"), "unknown");
        wrap3("Dynamic workflow ", run.as_str(), " created")
    } else if str_eq(t, "tool-workflow/agent-start") {
        let label = or_str(data_str(v, "label"), "unnamed");
        let child = or_str(data_str(v, "childId"), "unknown");
        concat4("Workflow member ", label.as_str(), " assigned to child ", child.as_str())
    } else if str_eq(t, "tool-workflow/agent-end") {
        let outcome = or_str(data_str(v, "outcome"), "unknown outcome");
        concat_strs("Workflow member finished with ", outcome.as_str())
    } else if str_eq(t, "tool-workflow/run-end") {
        let reason = or_str(data_str(v, "stopReason"), "unknown");
        concat_strs("Workflow stopped: ", reason.as_str())
    } else {
        compact_text(r.data_text.as_str(), 240)
    }
}

// ----- per-step usage and stream counts -----
#[derive(Debug, Clone, Copy)]
pub struct StepUsage {
    pub input: Option<u64>,
    pub output: Option<u64>,
    pub context_window: Option<u64>,
}

#[derive(Debug, Clone, Copy)]
pub struct UsageEntry {
    pub turn: u64,
    pub step: u64,
    pub usage: StepUsage,
}

/// Position in the session while scanning: turn, step, context window.
pub struct ScanState {
    pub turn: u64,
    pub step: u64,
    pub window: Option<u64>,
}

pub open spec fn data_u64(v: JsonValue, key: Seq<char>) -> Option<u64> {
    spec_u64_at(v, seq!["data"@, key])
}

pub open spec fn or_u64(o: Option<u64>, d: u64) -> u64 {
    match o {
        Some(x) => x,
        None => d,
    }
}

pub open spec fn or_opt(o: Option<u64>, d: Option<u64>) -> Option<u64> {
    match o {
        Some(x) => Some(x),
        None => d,
    }
}

/// The turn and step of the session after a record.
pub open spec fn advance(st: ScanState, r: TraceRecord, type_text: Seq<char>) -> ScanState {
    let v = r.value;
    ScanState {
        turn: or_u64(data_u64(v, "turn"@), st.turn),
        step: or_u64(data_u64(v, "step"@), st.step),
        window: if type_text == "request/context"@ {
            or_opt(data_u64(v, "contextWindow"@), st.window)
        } else {
            st.window
        },
    }
}

pub open spec fn type_or_empty(r: TraceRecord) -> Seq<char> {
    match record_type(r) {
        Some(t) => t,
        None => Seq::empty(),
    }
}

/// Scan of every record, collecting the usage reported by each model response.
pub open spec fn usage_scan(records: Seq<TraceRecord>, window: Option<u64>) -> (ScanState, Seq<UsageEntry>)
    decreases records.len(),
{
    if records.len() == 0 {
        (ScanState { turn: 0, step: 0, window }, Seq::empty())
    } else {
        let prev = usage_scan(records.drop_last(), window);
        let r = records.last();
        let t = type_or_empty(r);
        let st = advance(prev.0, r, t);
        let entries = if t == "assistant/message"@ {
            prev.1.push(
                UsageEntry {
                    turn: st.turn,
                    step: st.step,
                    usage: StepUsage {
                        input: spec_u64_at(r.value, seq!["data"@, "usage"@, "inputTokens"@]),
                        output: spec_u64_at(r.value, seq!["data"@, "usage"@, "outputTokens"@]),
                        context_window: st.window,
                    },
                },
            )
        } else {
            prev.1
        };
        (st, entries)
    }
}

/// The usage of a step: the last one reported for it.
pub open spec fn usage_lookup(entries: Seq<UsageEntry>, turn: u64, step: u64) -> StepUsage
    decreases entries.len(),
{
    if entries.len() == 0 {
        StepUsage { input: None, output: None, context_window: None }
    } else if entries.last().turn == turn && entries.last().step == step {
        entries.last().usage
    } else {
        usage_lookup(entries.drop_last(), turn, step)
    }
}

fn advance_exec(st: &ScanState, r: &TraceRecord, t: &str) -> (n: ScanState)
    ensures
        n == advance(*st, *r, t@),
{
    let p_turn: &[&str] = &["data", "turn"];
    let p_step: &[&str] = &["data", "step"];
    let p_window: &[&str] = &["data", "contextWindow"];
    assert(strs(p_turn@) =~= seq!["data"@, "turn"@]);
    assert(strs(p_step@) =~= seq!["data"@, "step"@]);
    assert(strs(p_window@) =~= seq!["data"@, "contextWindow"@]);
    let turn = match u64_at(&r.value, p_turn) {
        Some(x) => x,
        None => st.turn,
    };
    let step = match u64_at(&r.value, p_step) {
        Some(x) => x,
        None => st.step,
    };
    let window = if str_eq(t, "request/context") {
        match u64_at(&r.value, p_window) {
            Some(x) => Some(x),
            None => st.window,
        }
    } else {
        st.window
    };
    ScanState { turn, step, window }
}

pub fn collect_step_usage(records: &Vec<TraceRecord>, window: Option<u64>) -> (r: Vec<UsageEntry>)
    ensures
        r@ == usage_scan(records@, window).1,
{
    let mut st = ScanState { turn: 0, step: 0, window };
    let mut out: Vec<UsageEntry> = Vec::new();
    let mut i: usize = 0;
    let p_in: &[&str] = &["data", "usage", "inputTokens"];
    let p_out: &[&str] = &["data", "usage", "outputTokens"];
    assert(strs(p_in@) =~= seq!["data"@, "usage"@, "inputTokens"@]);
    assert(strs(p_out@) =~= seq!["data"@, "usage"@, "outputTokens"@]);
    assert(records@.take(0) =~= Seq::<TraceRecord>::empty());
    while i < records.len()
        invariant
            i <= records.len(),
            strs(p_in@) == seq!["data"@, "usage"@, "inputTokens"@],
            strs(p_out@) == seq!["data"@, "usage"@, "outputTokens"@],
            (st, out@) == usage_scan(records@.take(i as int), window),
        decreases records.len() - i,
    {
        let r = &records[i];
        assert(records@.take(i + 1).drop_last() =~= records@.take(i as int));
        assert(records@.take(i + 1).last() == *r);
        let t = match type_of(r) {
            Some(t) => t,
            None => String::new(),
        };
        assert(t@ == type_or_empty(*r));
        st = advance_exec(&st, r, t.as_str());
        if str_eq(t.as_str(), "assistant/message") {
            out.push(
                UsageEntry {
                    turn: st.turn,
                    step: st.step,
                    usage: StepUsage {
                        input: u64_at(&r.value, p_in),
                        output: u64_at(&r.value, p_out),
                        context_window: st.window,
                    },
                },
            );
        }
        i = i + 1;
    }
    assert(records@.take(records.len() as int) =~= records@);
    out
}

pub fn lookup_usage(entries: &Vec<UsageEntry>, turn: u64, step: u64) -> (r: StepUsage)
    ensures
        r == usage_lookup(entries@, turn, step),
{
    let mut j = entries.len();
    assert(entries@.take(j as int) =~= entries@);
    while j > 0
        invariant
            j <= entries.len(),
            usage_lookup(entries@, turn, step) == usage_lookup(entries@.take(j as int), turn, step),
        decreases j,
    {
        let e = entries[j - 1];
        assert(entries@.take(j as int).last() == e);
        if e.turn == turn && e.step == step {
            return e.usage;
        }
        assert(entries@.take(j as int).drop_last() =~= entries@.take(j - 1));
        j = j - 1;
    }
    StepUsage { input: None, output: None, context_window: None }
}

/// The steps of the stream-chunk records, one entry per chunk.
pub open spec fn chunk_scan(records: Seq<TraceRecord>) -> (ScanState, Seq<(u64, u64)>)
    decreases records.len(),
{
    if records.len() == 0 {
        (ScanState { turn: 0, step: 0, window: None }, Seq::empty())
    } else {
        let prev = chunk_scan(records.drop_last());
        let r = records.last();
        let st = advance(prev.0, r, Seq::empty());
        let keys = if is_stream_record(r) {
            prev.1.push((st.turn, st.step))
        } else {
            prev.1
        };
        (st, keys)
    }
}

pub open spec fn count_key(keys: Seq<(u64, u64)>, k: (u64, u64)) -> nat
    decreases keys.len(),
{
    if keys.len() == 0 {
        0
    } else {
        count_key(keys.drop_last(), k) + if keys.last() == k {
            1nat
        } else {
            0
        }
    }
}

pub fn collect_stream_chunks(records: &Vec<TraceRecord>) -> (r: Vec<(u64, u64)>)
    ensures
        r@ == chunk_scan(records@).1,
        r@.len() <= records@.len(),
{
    let mut st = ScanState { turn: 0, step: 0, window: None };
    let mut out: Vec<(u64, u64)> = Vec::new();
    let mut i: usize = 0;
    assert(records@.take(0) =~= Seq::<TraceRecord>::empty());
    while i < records.len()
        invariant
            i <= records.len(),
            (st, out@) == chunk_scan(records@.take(i as int)),
            out@.len() <= i,
        decreases records.len() - i,
    {
        let r = &records[i];
        assert(records@.take(i + 1).drop_last() =~= records@.take(i as int));
        assert(records@.take(i + 1).last() == *r);
        st = advance_exec(&st, r, "");
        proof {
            reveal_strlit("");
            assert(""@ =~= Seq::<char>::empty());
        }
        if stream_record(r) {
            out.push((st.turn, st.step));
        }
        i = i + 1;
    }
    assert(records@.take(records.len() as int) =~= records@);
    out
}

pub fn count_chunks(keys: &Vec<(u64, u64)>, turn: u64, step: u64) -> (r: usize)
    ensures
        r == count_key(keys@, (turn, step)),
{
    let mut n: usize = 0;
    let mut i: usize = 0;
    assert(keys@.take(0) =~= Seq::<(u64, u64)>::empty());
    while i < keys.len()
        invariant
            i <= keys.len(),
            n == count_key(keys@.take(i as int), (turn, step)),
            n <= i,
        decreases keys.len() - i,
    {
        assert(keys@.take(i + 1).drop_last() =~= keys@.take(i as int));
        assert(keys@.take(i + 1).last() == keys@[i as int]);
        let k = keys[i];
        if k.0 == turn && k.1 == step {
            n = n + 1;
        }
        i = i + 1;
    }
    assert(keys@.take(keys.len() as int) =~= keys@);
    n
}

// ----- normalisation of one session -----
/// The role of the branch with the given id; where two branches share it,
/// the later one counts.
pub open spec fn role_of(bs: Seq<BranchV>, id: Seq<char>) -> Option<Seq<char>>
    decreases bs.len(),
{
    if bs.len() == 0 {
        None
    } else if bs.last().id == id {
        Some(bs.last().role)
    } else {
        role_of(bs.drop_last(), id)
    }
}

pub fn find_role(bs: &Vec<TraceBranch>, id: &str) -> (r: Option<String>)
    ensures
        opt_view(r) == role_of(branch_views(bs@), id@),
{
    let ghost bv = branch_views(bs@);
    let mut j = bs.len();
    assert(bv.take(j as int) =~= bv);
    while j > 0
        invariant
            j <= bs.len(),
            bv == branch_views(bs@),
            role_of(bv, id@) == role_of(bv.take(j as int), id@),
        decreases j,
    {
        let b = &bs[j - 1];
        assert(bv.take(j as int).last() == branch_view(*b));
        if str_eq(b.id.as_str(), id) {
            return Some(clone_string(&b.role));
        }
        assert(bv.take(j as int).drop_last() =~= bv.take(j - 1));
        j = j - 1;
    }
    None
}

/// The id of the branch of a workflow run.
pub open spec fn workflow_id(session: Seq<char>, run: Seq<char>) -> Seq<char> {
    "workflow:"@ + session + ":"@ + run
}

pub fn workflow_branch_id(session: &str, run: &str) -> (r: String)
    ensures
        r@ == workflow_id(session@, run@),
{
    concat4("workflow:", session, ":", run)
}

/// What the normalisation of one session reads besides its records.
pub struct NormContext {
    pub session_id: Seq<char>,
    pub created_at: u64,
    pub context_window: Option<u64>,
    pub context_tokens: Option<u64>,
    pub usage: Seq<UsageEntry>,
    pub chunks: Seq<(u64, u64)>,
    pub branches: Seq<BranchV>,
}

pub open spec fn norm_context(
    h: ArtifactHeader,
    p: Projection,
    records: Seq<TraceRecord>,
    bs: Seq<BranchV>,
) -> NormContext {
    NormContext {
        session_id: h.id@,
        created_at: h.created_at,
        context_window: p.context_window,
        context_tokens: p.context_tokens,
        usage: usage_scan(records, p.context_window).1,
        chunks: chunk_scan(records).1,
        branches: bs,
    }
}

pub open spec fn is_workflow_type(t: Seq<char>) -> bool {
    starts_with(t, "tool-workflow/"@)
}

/// Workflow records go to their run's branch when it exists; every other
/// record to its session's.
pub open spec fn event_branch(c: NormContext, r: TraceRecord, t: Seq<char>) -> Seq<char> {
    if is_workflow_type(t) {
        match data_string(r.value, "runId"@) {
            Some(run) => if role_of(c.branches, workflow_id(c.session_id, run)) is Some {
                workflow_id(c.session_id, run)
            } else {
                c.session_id
            },
            None => c.session_id,
        }
    } else {
        c.session_id
    }
}

pub open spec fn event_role(c: NormContext, branch: Seq<char>, t: Seq<char>) -> Seq<char> {
    match role_of(c.branches, branch) {
        Some(role) => role,
        None => if is_workflow_type(t) {
            "workflow"@
        } else {
            "subagent"@
        },
    }
}

pub open spec fn positive(n: u64) -> Option<u64> {
    if n > 0 {
        Some(n)
    } else {
        None
    }
}

pub open spec fn usage_of(input: Option<u64>, window: Option<u64>) -> Option<(u64, u64)> {
    match (input, window) {
        (Some(i), Some(w)) => if w > 0 {
            Some((i, w))
        } else {
            None
        },
        _ => None,
    }
}

/// The raw event of one record, the `n`-th kept of its session, with the
/// turn and step reached at it.
pub open spec fn raw_event(c: NormContext, st: ScanState, r: TraceRecord, t: Seq<char>, n: nat) -> EventV {
    let u = usage_lookup(c.usage, st.turn, st.step);
    let window = or_opt(u.context_window, st.window);
    let branch = event_branch(c, r, t);
    let role = event_role(c, branch, t);
    let seqno = spec_u64_at(r.value, seq!["seq"@]);
    let time = or_u64(spec_u64_at(r.value, seq!["time"@]), c.created_at);
    let suffix = match seqno {
        Some(s) => decimal(s as nat),
        None => decimal(time as nat) + "-"@ + decimal(n),
    };
    EventV {
        id: branch + ":"@ + suffix,
        index: 0,
        time,
        sequence: seqno,
        branch_id: branch,
        event_type: t,
        label: spec_event_label(t, r.value),
        message: spec_event_message(t, r, role),
        turn: positive(st.turn),
        step: positive(st.step),
        context_tokens: or_opt(u.input, c.context_tokens),
        context_window: window,
        context_usage: usage_of(u.input, window),
        output_tokens: u.output,
        stream_chunks: if t == "assistant/message"@ {
            count_key(c.chunks, (st.turn, st.step))
        } else {
            0
        },
        raw_event_count: 1,
        folded: seq![t],
        records: seq![r],
        raw_index: 0,
    }
}

/// The raw events of a session: one per record with a type, but for the
/// session header; turn and step advance over those records only.
pub open spec fn norm_scan(c: NormContext, records: Seq<TraceRecord>) -> (ScanState, Seq<EventV>)
    decreases records.len(),
{
    if records.len() == 0 {
        (ScanState { turn: 0, step: 0, window: c.context_window }, Seq::empty())
    } else {
        let prev = norm_scan(c, records.drop_last());
        let r = records.last();
        match record_type(r) {
            None => prev,
            Some(t) => if t == "session"@ {
                prev
            } else {
                let st = advance(prev.0, r, t);
                (st, prev.1.push(raw_event(c, st, r, t, prev.1.len())))
            },
        }
    }
}

proof fn lemma_norm_scan_len(c: NormContext, records: Seq<TraceRecord>)
    ensures
        norm_scan(c, records).1.len() <= records.len(),
    decreases records.len(),
{
    if records.len() > 0 {
        lemma_norm_scan_len(c, records.drop_last());
    }
}

proof fn lemma_count_key_bound(keys: Seq<(u64, u64)>, k: (u64, u64))
    ensures
        count_key(keys, k) <= keys.len(),
    decreases keys.len(),
{
    if keys.len() > 0 {
        lemma_count_key_bound(keys.drop_last(), k);
    }
}

fn event_branch_exec(
    session_id: &str,
    branches: &Vec<TraceBranch>,
    r: &TraceRecord,
    t: &str,
    Ghost(c): Ghost<NormContext>,
) -> (b: String)
    requires
        c.session_id == session_id@,
        c.branches == branch_views(branches@),
    ensures
        b@ == event_branch(c, *r, t@),
{
    let prefix = str_to_chars("tool-workflow/");
    if starts_with_chars(&str_to_chars(t), &prefix) {
        match data_str(&r.value, "runId") {
            Some(run) => {
                let id = workflow_branch_id(session_id, run.as_str());
                match find_role(branches, id.as_str()) {
                    Some(_) => id,
                    None => String::from_str(session_id),
                }
            },
            None => String::from_str(session_id),
        }
    } else {
        String::from_str(session_id)
    }
}

fn event_role_exec(branches: &Vec<TraceBranch>, branch: &str, t: &str, Ghost(c): Ghost<NormContext>) -> (role: String)
    requires
        c.branches == branch_views(branches@),
    ensures
        role@ == event_role(c, branch@, t@),
{
    match find_role(branches, branch) {
        Some(role) => role,
        None => {
            let prefix = str_to_chars("tool-workflow/");
            if starts_with_chars(&str_to_chars(t), &prefix) {
                String::from_str("workflow")
            } else {
                String::from_str("subagent")
            }
        },
    }
}

fn positive_exec(n: u64) -> (r: Option<u64>)
    ensures
        r == positive(n),
{
    if n > 0 {
        Some(n)
    } else {
        None
    }
}

fn event_id(branch: &str, seqno: Option<u64>, time: u64, n: usize) -> (r: String)
    ensures
        r@ == branch@ + ":"@ + match seqno {
            Some(s) => decimal(s as nat),
            None => decimal(time as nat) + "-"@ + decimal(n as nat),
        },
{
    let mut out = str_to_chars(branch);
    append_str(&mut out, ":");
    match seqno {
        Some(s) => append_chars(&mut out, &u64_chars(s)),
        None => {
            append_chars(&mut out, &u64_chars(time));
            append_str(&mut out, "-");
            append_chars(&mut out, &u64_chars(n as u64));
        },
    }
    chars_to_string(&out)
}

/// One raw event per record of the session (see `norm_scan`); the records
/// move into their events.
pub fn raw_events(
    records: Vec<TraceRecord>,
    header: &ArtifactHeader,
    projection: &Projection,
    branches: &Vec<TraceBranch>,
) -> (r: Vec<TraceEvent>)
    ensures
        events_view(r@) == norm_scan(
            norm_context(*header, *projection, records@, branch_views(branches@)),
            records@,
        ).1,
{
    let ghost recs = records@;
    let ghost c = norm_context(*header, *projection, records@, branch_views(branches@));
    let usage = collect_step_usage(&records, projection.context_window);
    let chunks = collect_stream_chunks(&records);
    let n = records.len();
    let mut rest = reversed(records);
    let mut st = ScanState { turn: 0, step: 0, window: projection.context_window };
    let mut out: Vec<TraceEvent> = Vec::new();
    let mut i: usize = 0;
    let p_seq: &[&str] = &["seq"];
    let p_time: &[&str] = &["time"];
    assert(strs(p_seq@) =~= seq!["seq"@]);
    assert(strs(p_time@) =~= seq!["time"@]);
    assert(recs.take(0) =~= Seq::<TraceRecord>::empty());
    while i < n
        invariant
            n == recs.len(),
            i <= n,
            c == norm_context(*header, *projection, recs, branch_views(branches@)),
            usage@ == c.usage,
            chunks@ == c.chunks,
            chunks@.len() <= n,
            strs(p_seq@) == seq!["seq"@],
            strs(p_time@) == seq!["time"@],
            rest@.len() == n - i,
            forall|k: int| 0 <= k < rest@.len() ==> #[trigger] rest@[k] == recs[n - 1 - k],
            (st, events_view(out@)) == norm_scan(c, recs.take(i as int)),
            out@.len() <= i,
        decreases n - i,
    {
        let r = rest.pop().unwrap();
        assert(r == recs[i as int]);
        assert(recs.take(i + 1).drop_last() =~= recs.take(i as int));
        assert(recs.take(i + 1).last() == r);
        let ghost prev = events_view(out@);
        match type_of(&r) {
            None => {},
            Some(t) => {
                if !str_eq(t.as_str(), "session") {
                    st = advance_exec(&st, &r, t.as_str());
                    let u = lookup_usage(&usage, st.turn, st.step);
                    let window = match u.context_window {
                        Some(w) => Some(w),
                        None => st.window,
                    };
                    let branch = event_branch_exec(header.id.as_str(), branches, &r, t.as_str(), Ghost(c));
                    let role = event_role_exec(branches, branch.as_str(), t.as_str(), Ghost(c));
                    let seqno = u64_at(&r.value, p_seq);
                    let time = match u64_at(&r.value, p_time) {
                        Some(x) => x,
                        None => header.created_at,
                    };
                    let id = event_id(branch.as_str(), seqno, time, out.len());
                    let stream_chunks: usize = if str_eq(t.as_str(), "assistant/message") {
                        proof {
                            lemma_count_key_bound(c.chunks, (st.turn, st.step));
                        }
                        count_chunks(&chunks, st.turn, st.step)
                    } else {
                        0
                    };
                    let label = event_label(t.as_str(), &r.value);
                    let message = event_message(t.as_str(), &r, role.as_str());
                    let context_usage = match (u.input, window) {
                        (Some(a), Some(w)) => if w > 0 {
                            Some((a, w))
                        } else {
                            None
                        },
                        _ => None,
                    };
                    let mut folded: Vec<String> = Vec::new();
                    folded.push(clone_string(&t));
                    let mut raw: Vec<TraceRecord> = Vec::new();
                    raw.push(r);
                    let e = TraceEvent {
                        id,
                        index: 0,
                        time,
                        sequence: seqno,
                        branch_id: branch,
                        event_type: t,
                        label,
                        message,
                        turn: positive_exec(st.turn),
                        step: positive_exec(st.step),
                        context_tokens: match u.input {
                            Some(x) => Some(x),
                            None => projection.context_tokens,
                        },
                        context_window: window,
                        context_usage,
                        output_tokens: u.output,
                        stream_chunks,
                        raw_event_count: 1,
                        folded_event_types: folded,
                        raw_records: raw,
                        raw_index: 0,
                    };
                    out.push(e);
                    assert(string_views(out@.last().folded_event_types@) =~= seq![t@]);
                    assert(events_view(out@) =~= prev.push(raw_event(c, st, recs[i as int], t@, prev.len())));
                }
            },
        }
        i = i + 1;
    }
    assert(recs.take(n as int) =~= recs);
    out
}

} // verus!
