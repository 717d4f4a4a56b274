//! Verified core of a local control plane for Ollama and the DeepSeek Harness.
pub mod artifact;
pub mod compatibility;
pub mod config;
pub mod diagnostics;
pub mod environment;
pub mod json;
pub mod error;
pub mod managed;
pub mod ollama;
pub mod paths;
pub mod registry;
pub mod sort;
pub mod supervisor;
pub mod trace_branches;
pub mod trace_edges;
pub mod trace_events;
pub mod trace_fold;
pub mod trace_model;
pub mod trace_replay;
pub mod trace_slots;
pub mod text;
pub mod tray;
pub mod types;
pub mod url;
