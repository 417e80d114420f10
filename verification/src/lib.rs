//! Core of a proxy that turns a Kiro event stream into Anthropic message events.
//!
//! Everything the proxy decides without touching the network stands here: how
//! upstream text is cleaned and split into content blocks, which server-sent
//! events follow from an upstream event, when the web search loop goes on, how
//! requests are addressed and which failures may be retried.
pub mod answer_laws;
pub mod buffered;
pub mod buffered_laws;
pub mod content_blocks;
pub mod drain_laws;
pub mod endpoint;
pub mod error;
pub mod fence;
pub mod ids;
pub mod invoke;
pub mod invoke_laws;
pub mod json;
pub mod kiro_version;
pub mod loop_laws;
pub mod markup_laws;
pub mod message_laws;
pub mod names;
pub mod operation_laws;
pub mod passage;
pub mod protocol;
pub mod reasoning_laws;
pub mod reclaim_laws;
pub mod report_laws;
pub mod round_laws;
pub mod search_content;
pub mod search_events;
pub mod search_laws;
pub mod search_loop;
pub mod search_query;
pub mod search_round;
pub mod search_runs;
pub mod sse;
pub mod stray;
pub mod stray_laws;
pub mod stream;
pub mod stream_laws;
pub mod stream_model;
pub mod tag_laws;
pub mod text;
pub mod text_laws;
pub mod thinking;
pub mod thinking_laws;
pub mod tokens;
pub mod tool_json;
pub mod xml_leak;
