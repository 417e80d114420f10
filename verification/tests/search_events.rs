use kiro_rs::ids::fresh_search_id;
use kiro_rs::json::Json;
use kiro_rs::search_content::{WebSearchResult, WebSearchResults};
use kiro_rs::search_events::{
    build_sse_events, initial_stream_event, render_json, WebSearchSseEmitter,
};
use kiro_rs::sse::{MeteringEvent, SseEvent};
use kiro_rs::tokens::TokenUsage;
use serde_json::Value;

fn json(text: &str) -> Json {
    Json::parse(text).unwrap()
}

fn shown(json: &Json) -> Value {
    serde_json::from_str(&json.to_text()).unwrap()
}

struct Shown {
    event: String,
    data: Value,
}

fn shown_events(events: Vec<SseEvent>) -> Vec<Shown> {
    events
        .iter()
        .map(|e| Shown {
            event: e.event.clone(),
            data: shown(&e.data),
        })
        .collect()
}

fn events_of(
    model: &str,
    content: Vec<Json>,
    stop_reason: &str,
    usage: TokenUsage,
    metering: &Option<MeteringEvent>,
) -> Vec<Shown> {
    shown_events(build_sse_events(model, &content, stop_reason, usage, metering))
}

fn fake_results() -> Option<WebSearchResults> {
    Some(WebSearchResults {
        results: vec![WebSearchResult {
            title: "T".to_string(),
            url: "https://example.com".to_string(),
            snippet: Some("snip".to_string()),
            published_date: None,
        }],
    })
}

#[test]
fn sse_events_render_search_presentation_and_keep_exec() {
    let content = vec![
        json(r#"{"type": "server_tool_use", "id": "srvtoolu_x", "name": "web_search", "input": {"query": "q"}}"#),
        json(r#"{"type": "web_search_tool_result", "content": []}"#),
        json(r#"{"type": "text", "text": "done"}"#),
        json(r#"{"type": "tool_use", "id": "toolu_exec", "name": "exec", "input": {"cmd": "ls"}}"#),
    ];
    let events = events_of(
        "sonnet-4-8",
        content,
        "tool_use",
        token_usage(10, 5),
        &None,
    );

    assert_eq!(events.first().unwrap().event, "message_start");
    assert_eq!(events.last().unwrap().event, "message_stop");
    let delta = events.iter().find(|e| e.event == "message_delta").unwrap();
    assert_eq!(delta.data["delta"]["stop_reason"], "tool_use");

    let has_server_tool = events.iter().any(|e| {
        e.event == "content_block_start" && e.data["content_block"]["type"] == "server_tool_use"
    });
    assert!(
        has_server_tool,
        "the server_tool_use block should be presented"
    );

    let has_result = events.iter().any(|e| {
        e.event == "content_block_start"
            && e.data["content_block"]["type"] == "web_search_tool_result"
    });
    assert!(
        has_result,
        "the web_search_tool_result block should be presented"
    );

    let has_exec = events.iter().any(|e| {
        e.event == "content_block_start"
            && e.data["content_block"]["type"] == "tool_use"
            && e.data["content_block"]["name"] == "exec"
    });
    assert!(
        has_exec,
        "the exec tool_use must be returned to the client as-is and not swallowed"
    );
}

#[test]
fn json_and_sse_render_the_same_four_part_usage() {
    let expected = TokenUsage {
        uncached_input_tokens: 3,
        output_tokens: 5,
        cache_read_input_tokens: 7,
        cache_write_input_tokens: 4,
    };
    let content = vec![json(r#"{"type": "text", "text": "ok"}"#)];
    let response = render_json(
        "opus-4-7",
        content,
        "end_turn",
        expected,
        "",
        &None,
    );
        let body: Value = shown(&response);
    assert_eq!(body["usage"]["input_tokens"], 3);
    assert_eq!(body["usage"]["output_tokens"], 5);
    assert_eq!(body["usage"]["cache_creation_input_tokens"], 4);
    assert_eq!(body["usage"]["cache_read_input_tokens"], 7);

    let events = events_of(
        "opus-4-7",
        vec![json(r#"{"type": "text", "text": "ok"}"#)],
        "end_turn",
        expected,
        &None,
    );
    let start_usage = &events
        .iter()
        .find(|event| event.event == "message_start")
        .unwrap()
        .data["message"]["usage"];
    assert_eq!(start_usage["input_tokens"], 3);
    assert_eq!(start_usage["cache_creation_input_tokens"], 4);
    assert_eq!(start_usage["cache_read_input_tokens"], 7);
    let delta_usage = &events
        .iter()
        .find(|event| event.event == "message_delta")
        .unwrap()
        .data["usage"];
    assert_eq!(delta_usage["output_tokens"], 5);
}

fn token_usage(input_tokens: i32, output_tokens: i32) -> TokenUsage {
    TokenUsage {
        uncached_input_tokens: input_tokens,
        output_tokens,
        cache_read_input_tokens: 0,
        cache_write_input_tokens: 0,
    }
}

fn metering_event(usage: f64) -> MeteringEvent {
    MeteringEvent {
        unit: "credit".to_string(),
        unit_plural: "credits".to_string(),
        usage: json(&usage.to_string()),
    }
}

#[test]
fn render_json_carries_credit_fields_when_metering_present() {
    let content = vec![json(r#"{"type": "text", "text": "ok"}"#)];
    let metering = metering_event(0.42);
    let resp = render_json(
        "opus-4-7",
        content,
        "end_turn",
        token_usage(10, 5),
        "",
        &Some(metering),
    );
        let v: Value = shown(&resp);
    let usage = &v["usage"];
    assert_eq!(usage["credit_usage"], 0.42);
    assert_eq!(usage["credit_unit"], "credit");
    assert_eq!(usage["credit_unit_plural"], "credits");
    assert_eq!(usage["input_tokens"], 10);
    assert_eq!(usage["output_tokens"], 5);
}

#[test]
fn render_json_omits_credit_fields_without_metering() {
    let content = vec![json(r#"{"type": "text", "text": "ok"}"#)];
    let resp = render_json(
        "opus-4-7",
        content,
        "end_turn",
        token_usage(10, 5),
        "",
        &None,
    );
        let v: Value = shown(&resp);
    let usage = &v["usage"];
    assert!(usage.get("credit_usage").is_none());
    assert!(usage.get("credit_unit").is_none());
    assert!(usage.get("credit_unit_plural").is_none());
}

#[test]
fn build_sse_events_carries_credit_fields_in_message_delta() {
    let content = vec![json(r#"{"type": "text", "text": "ok"}"#)];
    let metering = metering_event(0.99);
    let events = events_of(
        "opus-4-7",
        content,
        "end_turn",
        token_usage(10, 5),
        &Some(metering),
    );
    let delta = events
        .iter()
        .find(|e| e.event == "message_delta")
        .expect("must have message_delta");
    let usage = &delta.data["usage"];
    assert_eq!(usage["credit_usage"], 0.99);
    assert_eq!(usage["credit_unit"], "credit");
    assert_eq!(usage["credit_unit_plural"], "credits");
    assert_eq!(usage["output_tokens"], 5);
}

#[test]
fn build_sse_events_omits_credit_fields_without_metering() {
    let content = vec![json(r#"{"type": "text", "text": "ok"}"#)];
    let events = events_of(
        "opus-4-7",
        content,
        "end_turn",
        token_usage(10, 5),
        &None,
    );
    let delta = events
        .iter()
        .find(|e| e.event == "message_delta")
        .expect("must have message_delta");
    let usage = &delta.data["usage"];
    assert!(usage.get("credit_usage").is_none());
    assert!(usage.get("credit_unit").is_none());
    assert!(usage.get("credit_unit_plural").is_none());
}

#[test]
fn channel_response_exposes_message_start_before_background_progress() {
    let first = initial_stream_event("gpt-5.6-sol", 17);
    assert_eq!(first.event, "message_start");
    assert_eq!(shown(&first.data)["message"]["usage"]["input_tokens"], 17);
}

#[test]
fn streaming_emitter_orders_progress_and_deduplicates_final_search() {
    let mut emitter = WebSearchSseEmitter::new();

    let (pending, started) = emitter.begin_search(&fresh_search_id(), "Rust 2026");
    let started = shown_events(started);
    assert_eq!(started.len(), 1);
    assert_eq!(started[0].event, "content_block_start");
    assert_eq!(started[0].data["index"], 0);
    assert_eq!(started[0].data["content_block"]["type"], "server_tool_use");
    assert_eq!(started[0].data["content_block"]["input"]["query"], "Rust 2026");

    let mut events = started;
    events.extend(shown_events(emitter.complete_search(pending, &fake_results())));
    let content = vec![
        json(r#"{"type": "server_tool_use", "id": "duplicate", "name": "web_search", "input": {"query": "Rust 2026"}}"#),
        json(r#"{"type": "web_search_tool_result", "content": [{"type": "web_search_result"}]}"#),
        json(r#"{"type": "text", "text": "final answer"}"#),
        json(r#"{"type": "tool_use", "id": "toolu_exec", "name": "exec", "input": {"cmd": "pwd"}}"#),
    ];
    events.extend(shown_events(emitter.finish(
        &content,
        "tool_use",
        TokenUsage {
            uncached_input_tokens: 3,
            output_tokens: 5,
            cache_read_input_tokens: 7,
            cache_write_input_tokens: 4,
        },
        "search reasoning",
        &Some(metering_event(0.75)),
    )));

    assert_eq!(events.iter().filter(|e| e.event == "message_start").count(), 0);
    let starts: Vec<&Value> = events
        .iter()
        .filter(|e| e.event == "content_block_start")
        .map(|e| &e.data)
        .collect();
    let start_indexes: Vec<i64> = starts
        .iter()
        .map(|data| data["index"].as_i64().unwrap())
        .collect();
    assert_eq!(start_indexes, vec![0, 1, 2, 3]);
    assert_eq!(
        starts
            .iter()
            .filter(|data| data["content_block"]["type"] == "server_tool_use")
            .count(),
        1
    );
    assert_eq!(
        starts
            .iter()
            .filter(|data| data["content_block"]["type"] == "web_search_tool_result")
            .count(),
        1
    );
    let stops: Vec<i64> = events
        .iter()
        .filter(|e| e.event == "content_block_stop")
        .map(|e| e.data["index"].as_i64().unwrap())
        .collect();
    assert_eq!(stops, vec![0, 1, 2, 3]);

    let delta = events
        .iter()
        .find(|e| e.event == "message_delta")
        .map(|e| &e.data)
        .unwrap();
    assert_eq!(delta["delta"]["stop_reason"], "tool_use");
    assert_eq!(delta["usage"]["input_tokens"], 3);
    assert_eq!(delta["usage"]["output_tokens"], 5);
    assert_eq!(delta["usage"]["cache_creation_input_tokens"], 4);
    assert_eq!(delta["usage"]["cache_read_input_tokens"], 7);
    assert_eq!(delta["usage"]["credit_usage"], 0.75);
    let reasoning_position = events
        .iter()
        .position(|e| e.data["kiro_thinking"] == "search reasoning")
        .expect("reasoning must be attached before final visible content");
    let final_text_position = events
        .iter()
        .position(|e| {
            e.event == "content_block_delta"
                && e.data["delta"]["type"] == "text_delta"
                && e.data["delta"]["text"] == "final answer"
        })
        .unwrap();
    assert!(reasoning_position < final_text_position);
    assert_eq!(events.last().unwrap().event, "message_stop");
    assert!(emitter.terminal);
}

#[test]
fn streaming_emitter_reports_background_failure_as_anthropic_error() {
    let mut emitter = WebSearchSseEmitter::new();
    let events = shown_events(emitter.fail("upstream_error", "MCP connection failed"));
    assert_eq!(events.len(), 1);
    assert_eq!(events[0].event, "error");
    assert_eq!(events[0].data["error"]["type"], "upstream_error");
    assert_eq!(events[0].data["error"]["message"], "MCP connection failed");
    assert!(emitter.terminal);

    assert!(emitter.fail("api_error", "must not duplicate").is_empty());
}

#[test]
fn abort_search_closes_the_dangling_block_before_a_terminal_error() {
    let mut emitter = WebSearchSseEmitter::new();
    let (pending, started) = emitter.begin_search(&fresh_search_id(), "Rust 2026");
    let started = shown_events(started);
    assert_eq!(started.len(), 1);
    assert_eq!(started[0].event, "content_block_start");
    let opened_index = started[0].data["index"].clone();

    let mut events = shown_events(emitter.abort_search(pending));
    events.extend(shown_events(emitter.fail("upstream_error", "MCP connection failed")));
    assert_eq!(events.len(), 2);
    assert_eq!(events[0].event, "content_block_stop");
    assert_eq!(events[0].data["index"], opened_index);
    assert_eq!(events[1].event, "error");
    assert!(emitter.terminal);
}

#[test]
fn background_panic_closes_open_block_before_terminal_error() {
    let mut emitter = WebSearchSseEmitter::new();
    let (_pending, started) = emitter.begin_search(&fresh_search_id(), "Rust 2026");
    let mut events = shown_events(started);
    events.extend(shown_events(
        emitter.fail("internal_error", "boom: simulated agentic loop bug"),
    ));
    assert_eq!(events.len(), 3);
    assert_eq!(events[0].event, "content_block_start");
    assert_eq!(events[1].event, "content_block_stop");
    assert_eq!(events[0].data["index"], events[1].data["index"]);
    assert_eq!(events[2].event, "error");
    assert_eq!(events[2].data["error"]["type"], "internal_error");
    assert_eq!(
        events[2].data["error"]["message"],
        "boom: simulated agentic loop bug"
    );
}
