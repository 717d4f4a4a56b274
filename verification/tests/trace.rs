use local_stack_core::json::{JsonMember, JsonNumber, JsonValue, TraceRecord, compact_text, short_id, trace_record_from_line};
use local_stack_core::trace_events::event_label;
use local_stack_core::trace_fold::normalize_session;
use local_stack_core::trace_model::{
    ArtifactHeader, Projection, RawSession, TraceBranch, TraceStore, TraceTelemetrySample, header_from_record,
    projection_from, telemetry_days, header_from_line, projection_from_bytes,
};
use local_stack_core::trace_replay::{reconstruct, select_replay_sessions, session_summaries, with_telemetry};
use local_stack_core::trace_slots::build_leases;
use local_stack_core::trace_edges::build_edges;
use local_stack_core::trace_model::TraceEvent;
use serde_json::Value;

fn json_value(value: &Value) -> JsonValue {
    match value {
        Value::Null => JsonValue::Null,
        Value::Bool(b) => JsonValue::Bool(*b),
        Value::Number(n) => JsonValue::Number(JsonNumber { text: n.to_string(), unsigned: n.as_u64() }),
        Value::String(s) => JsonValue::Str(s.clone()),
        Value::Array(items) => JsonValue::Array(items.iter().map(json_value).collect()),
        Value::Object(map) => JsonValue::Object(
            map.iter().map(|(key, value)| JsonMember { key: key.clone(), value: json_value(value) }).collect(),
        ),
    }
}

fn record(text: &str) -> TraceRecord {
    let value: Value = serde_json::from_str(text).unwrap();
    TraceRecord {
        value: json_value(&value),
        text: value.to_string(),
        data_text: value.get("data").map(|data| data.to_string()).unwrap_or_else(|| "null".to_string()),
    }
}

fn event(event_type: &str, seq: u64, time: u64, data: &str) -> TraceRecord {
    record(&format!(r#"{{"type":"{event_type}","seq":{seq},"time":{time},"data":{data}}}"#))
}

fn header(id: &str, created_at: u64, parent: Option<&str>, preset: Option<&str>, path: &str, updated_at: u64) -> ArtifactHeader {
    ArtifactHeader {
        id: id.to_string(),
        created_at,
        cwd: "C:/work".to_string(),
        parent_session: parent.map(str::to_string),
        preset: preset.map(str::to_string),
        path: path.to_string(),
        updated_at,
    }
}

fn branch(id: &str, role: &str) -> TraceBranch {
    TraceBranch {
        id: id.to_string(),
        parent_id: None,
        label: id.to_string(),
        role: role.to_string(),
        context_id: id.to_string(),
        forked: false,
        created_at: 0,
        removed_at: None,
        status: "recorded".to_string(),
    }
}

fn store(slots: usize) -> TraceStore {
    TraceStore::new("sessions".to_string(), "projection".to_string(), "telemetry".to_string(), slots, true)
}

fn root_and_child() -> Vec<RawSession> {
    let root = RawSession {
        header: header("root", 1_000, None, Some("ultra-workflow"), "root.jsonl", 2_000),
        projection: Projection { title: Some("Root trace".into()), context_window: Some(100), ..Projection::default() },
        records: vec![
            event("turn/start", 0, 1_000, r#"{"turn":1}"#),
            event("step/start", 1, 1_010, r#"{"turn":1,"step":1}"#),
            event(
                "request/header",
                2,
                1_020,
                r#"{"header":{"config":{"model":"qwen"},"system":"s","tools":[],"messages":[]}}"#,
            ),
            event(
                "assistant/message",
                3,
                1_100,
                r#"{"turn":1,"step":1,"usage":{"inputTokens":25,"outputTokens":5},"message":{"content":[{"type":"text","text":"done"}]}}"#,
            ),
            event("tool-workflow/run-start", 4, 1_110, r#"{"runId":"wf-1","name":"Audit"}"#),
            event(
                "tool-workflow/agent-start",
                5,
                1_120,
                r#"{"runId":"wf-1","seq":1,"label":"Checker","childId":"child"}"#,
            ),
            event(
                "tool-workflow/agent-end",
                6,
                1_900,
                r#"{"runId":"wf-1","seq":1,"label":"Checker","childId":"child","outcome":"completed"}"#,
            ),
            event("tool-workflow/run-end", 7, 1_910, r#"{"runId":"wf-1","stopReason":"completed"}"#),
        ],
    };
    let child = RawSession {
        header: header("child", 1_120, Some("root"), None, "child.jsonl", 1_900),
        projection: Projection {
            label: Some("Checker".into()),
            context_window: Some(100),
            settled: true,
            ..Projection::default()
        },
        records: vec![
            event("turn/start", 0, 1_130, r#"{"turn":1}"#),
            event("step/start", 1, 1_140, r#"{"turn":1,"step":1}"#),
            event("request/header", 2, 1_150, r#"{"header":{"config":{"model":"qwen"}}}"#),
            event(
                "assistant/message",
                3,
                1_800,
                r#"{"turn":1,"step":1,"usage":{"inputTokens":50,"outputTokens":10},"message":{"content":[{"type":"text","text":"report"}]}}"#,
            ),
        ],
    };
    vec![root, child]
}

fn percent(usage: Option<(u64, u64)>) -> Option<f64> {
    usage.map(|(used, total)| used as f64 / total as f64 * 100.0)
}

#[test]
fn reconstructs_context_lineage_workflows_and_slot_queue() {
    let replay = reconstruct(&store(1), "root", root_and_child(), Vec::new(), 0).unwrap();
    assert_eq!(replay.branches.iter().filter(|branch| branch.role == "workflow").count(), 1);
    assert_eq!(
        replay.branches.iter().find(|branch| branch.id == "child").unwrap().parent_id.as_deref(),
        Some("workflow:root:wf-1")
    );
    assert_eq!(replay.leases.len(), 2);
    assert!(replay.events.iter().any(|event| percent(event.context_usage) == Some(50.0)));
    assert!(replay.edges.iter().any(|edge| edge.kind == "workflow"));
}

#[test]
fn folds_transport_records_into_logical_operations_without_loss() {
    let session_header = header("hello", 1_000, None, None, "hello.jsonl", 2_000);
    let projection = Projection { context_window: Some(100), ..Projection::default() };
    let records = vec![
        event("permission/preset", 1, 1_000, r#"{"preset":"workspace-write"}"#),
        event("turn/start", 2, 1_010, r#"{"turn":1}"#),
        event("step/start", 3, 1_020, r#"{"turn":1,"step":1}"#),
        event(
            "user/message",
            4,
            1_030,
            r#"{"turn":1,"step":1,"content":[{"type":"text","text":"hello"}],"source":{"kind":"user"}}"#,
        ),
        event(
            "user/message",
            5,
            1_031,
            r#"{"turn":1,"step":1,"content":[{"type":"text","text":"runtime"}],"source":{"kind":"plugin"}}"#,
        ),
        event(
            "user/message",
            6,
            1_032,
            r#"{"turn":1,"step":1,"content":[{"type":"text","text":"skills"}],"source":{"kind":"skill-catalog"}}"#,
        ),
        event(
            "request/header",
            7,
            1_040,
            r#"{"turn":1,"step":1,"header":{"config":{"model":"qwen"},"system":"system","tools":[],"messages":[]}}"#,
        ),
        event("request/context", 8, 1_041, r#"{"turn":1,"step":1,"contextWindow":100}"#),
        event("reasoning-chunks", 9, 1_050, r#"{"turn":1,"step":1,"texts":["thinking"]}"#),
        event(
            "assistant/message",
            10,
            1_090,
            r#"{"turn":1,"step":1,"usage":{"inputTokens":25,"outputTokens":5},"message":{"content":[{"type":"text","text":"Hello"}]}}"#,
        ),
        event("step/end", 11, 1_100, r#"{"turn":1,"step":1}"#),
        event("turn/end", 12, 1_110, r#"{"turn":1}"#),
    ];
    let roles = vec![branch("hello", "supervisor")];
    let logical = normalize_session(records, &session_header, &projection, &roles);

    assert_eq!(logical.len(), 2);
    assert_eq!(logical[0].event_type, "turn/input");
    assert_eq!(logical[0].message, "hello · 2 injected context record(s) folded");
    assert_eq!(logical[1].event_type, "model/execution");
    assert_eq!(logical[1].stream_chunks, 1);
    assert_eq!(logical.iter().map(|event| event.raw_event_count).sum::<usize>(), 12);
    assert_eq!(logical.iter().flat_map(|event| &event.raw_records).count(), 12);
}

#[test]
fn model_execution_reads_its_label_usage_and_reply() {
    let session_header = header("s", 1_000, None, None, "s.jsonl", 2_000);
    let projection = Projection { context_window: Some(200), ..Projection::default() };
    let records = vec![
        event("request/header", 1, 1_000, r#"{"turn":1,"step":2,"header":{"config":{"model":"qwen"},"system":"abc","tools":[1,2],"messages":[1]}}"#),
        event(
            "assistant/message",
            2,
            1_050,
            r#"{"turn":1,"step":2,"usage":{"inputTokens":50,"outputTokens":7},"message":{"content":[{"type":"text","text":"  Hello   world  "}]}}"#,
        ),
    ];
    let logical = normalize_session(records, &session_header, &projection, &vec![]);
    assert_eq!(logical.len(), 1);
    let execution = &logical[0];
    assert_eq!(execution.label, "Model execution · qwen");
    assert_eq!(execution.message, "Hello world");
    assert_eq!(execution.id, "s:1");
    assert_eq!(execution.turn, Some(1));
    assert_eq!(execution.step, Some(2));
    assert_eq!(execution.context_tokens, Some(50));
    assert_eq!(execution.context_window, Some(200));
    assert_eq!(percent(execution.context_usage), Some(25.0));
    assert_eq!(execution.output_tokens, Some(7));
    assert_eq!(execution.raw_event_count, 2);
    assert_eq!(execution.folded_event_types, ["request/header", "assistant/message"]);
}

#[test]
fn tool_results_join_their_call_and_annotations_are_kept() {
    let session_header = header("t", 10, None, None, "t.jsonl", 20);
    let records = vec![
        event("tool/call", 1, 11, r#"{"callId":"c1","name":"read","arguments":"{\"path\":\"a\"}"}"#),
        event("tool/result", 2, 12, r#"{"message":{"source":{"callId":"c1"},"content":[{"type":"text","text":"ok"}]}}"#),
        event("step/end", 3, 13, r#"{}"#),
    ];
    let logical = normalize_session(records, &session_header, &Projection::default(), &vec![]);
    assert_eq!(logical.len(), 1);
    assert_eq!(logical[0].event_type, "tool/execution");
    assert_eq!(logical[0].label, "Call read");
    assert_eq!(logical[0].message, "{\"path\":\"a\"}");
    assert_eq!(logical[0].raw_event_count, 3);

    let only_annotations = vec![event("turn/start", 1, 11, r#"{"turn":1}"#)];
    let kept = normalize_session(only_annotations, &session_header, &Projection::default(), &vec![]);
    assert_eq!(kept.len(), 1);
    assert_eq!(kept[0].event_type, "turn/start");
    assert_eq!(kept[0].raw_event_count, 1);
    assert_eq!(kept[0].raw_records.len(), 1);

    let two_annotations = vec![
        event("turn/start", 1, 11, r#"{"turn":1}"#),
        event("step/start", 2, 12, r#"{"step":1}"#),
    ];
    let kept = normalize_session(two_annotations, &session_header, &Projection::default(), &vec![]);
    assert_eq!(kept.len(), 1);
    assert_eq!(kept[0].event_type, "step/start");
    assert_eq!(kept[0].raw_event_count, 2);
    assert_eq!(kept[0].raw_records.len(), 2);
}

#[test]
fn labels_name_the_record() {
    let v = record(r#"{"data":{"name":"fetch","label":"Scout"}}"#).value;
    assert_eq!(event_label("tool/call", &v), "Call fetch");
    assert_eq!(event_label("tool-workflow/agent-start", &v), "Member Scout starts");
    assert_eq!(event_label("tool-workflow/run-start", &v), "Workflow fetch starts");
    assert_eq!(event_label("session/title-llm-request", &v), "session title llm request");
    assert_eq!(event_label("user/message", &v), "User message");
}

#[test]
fn compact_text_collapses_whitespace_and_cuts_long_text() {
    assert_eq!(compact_text("  a \n\t b  ", 240), "a b");
    assert_eq!(compact_text("abcdef", 4), "abc…");
    assert_eq!(compact_text("abcd", 4), "abcd");
    assert_eq!(short_id("0123456789abcdefghijkl"), "0123456789abcdefgh");
    assert_eq!(short_id("abc"), "abc");
}

#[test]
fn leases_on_one_slot_queue_one_after_another() {
    let session_header = header("q", 0, None, None, "q.jsonl", 0);
    let records = vec![
        event("request/header", 1, 100, r#"{"turn":1,"step":1,"header":{"config":{"model":"m"}}}"#),
        event("assistant/message", 2, 300, r#"{"turn":1,"step":1}"#),
        event("request/header", 3, 150, r#"{"turn":1,"step":2,"header":{"config":{"model":"m"}}}"#),
        event("assistant/message", 4, 200, r#"{"turn":1,"step":2}"#),
    ];
    let events = normalize_session(records, &session_header, &Projection::default(), &vec![]);
    assert_eq!(events.len(), 2);
    let single = build_leases(&events, 1);
    assert_eq!(single.len(), 2);
    assert_eq!((single[0].started_at, single[0].ended_at, single[0].slot), (100, 300, 1));
    assert_eq!((single[1].requested_at, single[1].started_at, single[1].ended_at), (150, 300, 301));
    assert_eq!(single[1].model.as_deref(), Some("m"));
    let double = build_leases(&events, 2);
    assert_eq!((double[1].slot, double[1].started_at, double[1].ended_at), (2, 150, 200));
}

#[test]
fn reports_a_missing_root_session() {
    match reconstruct(&store(1), "absent", root_and_child(), Vec::new(), 0) {
        Err(local_stack_core::error::StackError::Config(message)) => {
            assert_eq!(message, "trace root session disappeared during reconstruction")
        },
        other => panic!("unexpected {:?}", other.map(|r| r.events.len())),
    }
}

#[test]
fn replay_window_and_telemetry() {
    let samples = vec![
        TraceTelemetrySample { time: 900, gpu: None, running_models: Vec::new() },
        TraceTelemetrySample { time: 5_000, gpu: None, running_models: Vec::new() },
        TraceTelemetrySample { time: 100_000, gpu: None, running_models: Vec::new() },
        TraceTelemetrySample { time: 1_500, gpu: None, running_models: Vec::new() },
    ];
    let replay = reconstruct(&store(1), "root", root_and_child(), samples, 10_000).unwrap();
    assert_eq!(replay.start_time, 1_020);
    assert_eq!(replay.end_time, 1_910);
    assert_eq!(replay.telemetry.iter().map(|s| s.time).collect::<Vec<_>>(), [900, 1_500, 5_000]);
    assert_eq!(replay.session.title, "Root trace");
    assert_eq!(replay.session.status, "live");
    assert_eq!(replay.session.branch_count, 2);
    assert_eq!(replay.max_slots, 1);
    assert_eq!(replay.source, "root.jsonl");
    for (index, event) in replay.events.iter().enumerate() {
        assert_eq!(event.index, index);
    }
    assert_eq!(telemetry_days(4_000, 86_400_000), (0, 1));
}

#[test]
fn lists_roots_and_selects_the_sessions_of_a_replay() {
    let headers = vec![
        header("a", 0, None, None, "a", 10),
        header("a1", 0, Some("a"), None, "a1", 20),
        header("b", 0, None, None, "b", 30),
        header("a2", 0, Some("a1"), None, "a2", 40),
    ];
    let projections = vec![Projection::default(), Projection::default(), Projection::default(), Projection::default()];
    let summaries = session_summaries(&headers, &projections, 100_000);
    assert_eq!(summaries.iter().map(|s| s.id.as_str()).collect::<Vec<_>>(), ["b", "a"]);
    assert_eq!(summaries[0].branch_count, 1);
    assert_eq!(summaries[1].branch_count, 2);
    assert_eq!(summaries[1].status, "recorded");
    let (root, selected) = select_replay_sessions(&headers, "a2").unwrap();
    assert_eq!(root, "a");
    assert_eq!(selected, [0, 1, 3]);
    assert!(select_replay_sessions(&headers, "zzz").is_err());
}

#[test]
fn reads_headers_and_projections() {
    let first = record(r#"{"type":"session","version":0,"id":"session-a","createdAt":42,"cwd":"C:/work","parentSession":"p"}"#);
    let header = header_from_record(&first.value, "x/session.jsonl", 77).unwrap();
    assert_eq!(header.id, "session-a");
    assert_eq!(header.created_at, 42);
    assert_eq!(header.parent_session.as_deref(), Some("p"));
    assert_eq!(header.updated_at, 77);
    let nameless = record(r#"{"type":"session"}"#);
    assert!(header_from_record(&nameless.value, "y.jsonl", 1).is_err());

    let projection = projection_from(
        &record(r#"{"record":{"rows":{"title":{"seq":3,"val":"T"},"contextPressure":{"seq":9,"val":{"contextWindow":1000,"pressureTokens":10}},"subagentTiming":{"val":{"settledMs":5}}}}}"#).value,
    );
    assert_eq!(projection.title.as_deref(), Some("T"));
    assert_eq!(projection.context_window, Some(1000));
    assert_eq!(projection.context_tokens, Some(10));
    assert_eq!(projection.event_count, 10);
    assert!(projection.settled);
}

fn bare_event(id: &str, branch: &str, time: u64) -> TraceEvent {
    TraceEvent {
        id: id.into(),
        index: 0,
        time,
        sequence: None,
        branch_id: branch.into(),
        event_type: "note".into(),
        label: String::new(),
        message: String::new(),
        turn: None,
        step: None,
        context_tokens: None,
        context_window: None,
        context_usage: None,
        output_tokens: None,
        stream_chunks: 0,
        raw_event_count: 0,
        folded_event_types: Vec::new(),
        raw_records: Vec::new(),
        raw_index: 0,
    }
}

#[test]
fn events_without_records_are_chained_on_their_branch() {
    let events = vec![bare_event("a:1", "a", 1), bare_event("b:1", "b", 2), bare_event("a:2", "a", 3)];
    let edges = build_edges(&vec![], &events);
    assert_eq!(edges.len(), 1);
    assert_eq!(edges[0].from, "a:1");
    assert_eq!(edges[0].to, "a:2");
    assert_eq!(edges[0].kind, "same");
    assert_eq!(edges[0].label, "");
}

#[test]
fn telemetry_added_after_reconstruction_matches() {
    let samples = || vec![
        TraceTelemetrySample { time: 900, gpu: None, running_models: Vec::new() },
        TraceTelemetrySample { time: 5_000, gpu: None, running_models: Vec::new() },
        TraceTelemetrySample { time: 100_000, gpu: None, running_models: Vec::new() },
        TraceTelemetrySample { time: 1_500, gpu: None, running_models: Vec::new() },
    ];
    let bare = reconstruct(&store(1), "root", root_and_child(), Vec::new(), 10_000).unwrap();
    assert!(bare.telemetry.is_empty());
    let completed = with_telemetry(bare, samples());
    let direct = reconstruct(&store(1), "root", root_and_child(), samples(), 10_000).unwrap();
    assert_eq!(
        completed.telemetry.iter().map(|s| s.time).collect::<Vec<_>>(),
        direct.telemetry.iter().map(|s| s.time).collect::<Vec<_>>()
    );
    assert_eq!(completed.events.len(), direct.events.len());
}

#[test]
fn session_lines_become_records() {
    assert!(trace_record_from_line("   ").unwrap().is_none());
    let line = r#"{ "type": "tool/call", "seq": 3, "data": { "name": "read", "callId": "c1" } }"#;
    let parsed = trace_record_from_line(line).unwrap().unwrap();
    let expected = record(line);
    assert_eq!(parsed.text, expected.text);
    assert_eq!(parsed.data_text, expected.data_text);
    assert_eq!(parsed.data_text, r#"{"callId":"c1","name":"read"}"#);
    let without_data = trace_record_from_line(r#"{"type":"turn/start","time":1.5}"#).unwrap().unwrap();
    assert_eq!(without_data.data_text, "null");
    assert_eq!(without_data.text, r#"{"time":1.5,"type":"turn/start"}"#);
    let err = trace_record_from_line("{not json").unwrap_err();
    assert!(matches!(err, local_stack_core::error::StackError::Json(_)));
}

#[test]
fn headers_and_projections_from_text() {
    let header = header_from_line(
        r#"{"type":"session","version":0,"id":"session-a","createdAt":42,"cwd":"C:/work"}"#,
        "x/session.jsonl",
        77,
    )
    .unwrap();
    assert_eq!(header.id, "session-a");
    assert_eq!(header.created_at, 42);
    assert_eq!(header.updated_at, 77);
    assert!(matches!(header_from_line("[", "x", 1).unwrap_err(), local_stack_core::error::StackError::Json(_)));
    let projection = projection_from_bytes(br#"{"record":{"rows":{"title":{"seq":3,"val":"T"}}}}"#).unwrap();
    assert_eq!(projection.title.as_deref(), Some("T"));
    assert!(projection_from_bytes(b"nope").is_err());
}
