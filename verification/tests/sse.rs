use kiro_rs::ids::{fresh_call_id, fresh_message_id, fresh_tool_id, without_hyphens};
use kiro_rs::json::Json;
use kiro_rs::sse::{MeteringEvent, SseEvent, SseStateManager};
use serde_json::Value;

struct Shown {
    event: String,
    data: Value,
}

fn shown(events: Vec<SseEvent>) -> Vec<Shown> {
    events
        .iter()
        .map(|e| Shown {
            event: e.event.clone(),
            data: serde_json::from_str(&e.data.to_text()).unwrap(),
        })
        .collect()
}

fn data(text: &str) -> Json {
    Json::parse(text).unwrap()
}

#[test]
fn test_sse_event_format() {
    let event = SseEvent::new("message_start", data(r#"{"type": "message_start"}"#));
    let sse_str = event.to_sse_string();

    assert!(sse_str.starts_with("event: message_start\n"));
    assert!(sse_str.contains("data: "));
    assert!(sse_str.ends_with("\n\n"));
}

#[test]
fn test_sse_state_manager_message_start() {
    let mut manager = SseStateManager::new();

    let event = manager.handle_message_start(data(r#"{"type": "message_start"}"#));
    assert!(event.is_some());

    let event = manager.handle_message_start(data(r#"{"type": "message_start"}"#));
    assert!(event.is_none());
}

#[test]
fn test_sse_state_manager_block_lifecycle() {
    let mut manager = SseStateManager::new();

    let events = manager.handle_content_block_start(0, "text", data(r#"{}"#));
    assert_eq!(events.len(), 1);

    let event = manager.handle_content_block_delta(0, data(r#"{}"#));
    assert!(event.is_some());

    let event = manager.handle_content_block_stop(0);
    assert!(event.is_some());

    let event = manager.handle_content_block_stop(0);
    assert!(event.is_none());
}

fn parse_metering(payload: &str) -> MeteringEvent {
    let v: Value = serde_json::from_str(payload).unwrap();
    MeteringEvent {
        unit: v["unit"].as_str().unwrap().to_string(),
        unit_plural: v["unitPlural"].as_str().unwrap().to_string(),
        usage: data(&v["usage"].to_string()),
    }
}

#[test]
fn test_generate_final_events_omits_credit_fields_without_metering() {
    let mut manager = SseStateManager::new();
    let events = shown(manager.generate_final_events(10, 5, 0, 0, &None));
    let delta = events
        .iter()
        .find(|e| e.event == "message_delta")
        .expect("must have message_delta");
    let usage = &delta.data["usage"];
    assert!(usage.get("credit_usage").is_none());
    assert!(usage.get("credit_unit").is_none());
    assert!(usage.get("credit_unit_plural").is_none());
}

#[test]
fn test_generate_final_events_carries_credit_fields_when_metering_present() {
    let mut manager = SseStateManager::new();
    let metering = parse_metering(r#"{"unit":"credit","unitPlural":"credits","usage":0.75}"#);
    let events = shown(manager.generate_final_events(10, 5, 0, 0, &Some(metering)));
    let delta = events
        .iter()
        .find(|e| e.event == "message_delta")
        .expect("must have message_delta");
    let usage = &delta.data["usage"];
    assert_eq!(usage["credit_usage"], 0.75);
    assert_eq!(usage["credit_unit"], "credit");
    assert_eq!(usage["credit_unit_plural"], "credits");
    assert_eq!(usage["input_tokens"], 10);
    assert_eq!(usage["output_tokens"], 5);
}

#[test]
fn error_events_close_open_blocks_without_normal_message_terminal() {
    let mut manager = SseStateManager::new();
    let _ = manager.handle_content_block_start(
        0,
        "text",
        data(r#"{ "type": "content_block_start", "index": 0, "content_block": {"type": "text", "text": ""} }"#),
    );

    let events = shown(manager.generate_error_events("upstream_error", "stream interrupted"));
    assert_eq!(
        events
            .iter()
            .map(|event| event.event.as_str())
            .collect::<Vec<_>>(),
        vec!["content_block_stop", "error"]
    );
    assert_eq!(events[1].data["error"]["type"], "upstream_error");
    assert!(
        events
            .iter()
            .all(|event| { event.event != "message_delta" && event.event != "message_stop" })
    );
}

#[test]
fn values_are_printed_without_white_space_and_in_the_order_of_keys() {
    let v = data(r#"{ "b" : [1, -2, 2.5, true, null], "a": {"k": "\u00e9\n"}, "b2": 1, "a": 0 }"#);
    assert_eq!(v.to_text(), r#"{"a":0,"b":[1,-2,2.5,true,null],"b2":1}"#);
    assert_eq!(v.copy().to_text(), v.to_text());
    assert_eq!(data("\"\\u00e9\\n\"").as_text().unwrap(), "\u{e9}\n");
    assert!(Json::parse("{").is_err());
}

#[test]
fn members_are_set_read_and_removed() {
    let v = Json::object()
        .with("a", Json::of_int(-7))
        .with("b", Json::text("x"))
        .with("a", Json::array(vec![Json::Null]));
    assert_eq!(v.to_text(), r#"{"a":[null],"b":"x"}"#);
    assert_eq!(v.get_text("b").unwrap(), "x");
    assert!(v.get_text("a").is_none());
    assert!(v.get("c").is_none());
    assert_eq!(v.without("a").to_text(), r#"{"b":"x"}"#);
    assert_eq!(Json::Null.with("a", Json::Null).to_text(), "null");
    assert_eq!(Json::of_int(i64::MIN).to_text(), "-9223372036854775808");
}

#[test]
fn identifiers_are_fresh() {
    let id = fresh_call_id();
    let hex = without_hyphens(&id);
    assert_eq!(hex.len(), 32);
    assert_eq!(hex, id.replace('-', ""));
    assert_ne!(fresh_tool_id(), fresh_tool_id());
    assert!(fresh_message_id().starts_with("msg_"));
}

#[test]
fn an_event_is_a_name_and_its_data() {
    let event = SseEvent::new("ping", data(r#"{"type": "ping"}"#));
    assert_eq!(event.to_sse_string(), "event: ping\ndata: {\"type\":\"ping\"}\n\n");
}

#[test]
fn tool_calls_close_the_text_before_them() {
    let mut manager = SseStateManager::new();
    manager.handle_content_block_start(0, "text", data("{}"));
    let events = shown(manager.handle_content_block_start(1, "tool_use", data("{}")));
    let names: Vec<&str> = events.iter().map(|e| e.event.as_str()).collect();
    assert_eq!(names, vec!["content_block_stop", "content_block_start"]);
    assert_eq!(events[0].data["index"], 0);
    assert_eq!(manager.get_stop_reason(), "tool_use");
    assert!(manager.handle_content_block_delta(0, data("{}")).is_none());
    assert!(manager.is_block_open_of_type(1, "tool_use"));
    assert!(!manager.is_block_open_of_type(1, "text"));
}

#[test]
fn the_end_closes_all_blocks_and_comes_once() {
    let mut manager = SseStateManager::new();
    assert_eq!((manager.next_block_index(), manager.next_block_index()), (0, 1));
    manager.handle_content_block_start(0, "thinking", data("{}"));
    assert!(!manager.has_non_thinking_blocks());
    manager.handle_content_block_start(1, "text", data("{}"));
    assert!(manager.has_non_thinking_blocks());
    manager.set_stop_reason("max_tokens");
    let events = shown(manager.generate_final_events(1, 2, 3, 4, &None));
    let names: Vec<&str> = events.iter().map(|e| e.event.as_str()).collect();
    assert_eq!(
        names,
        vec!["content_block_stop", "content_block_stop", "message_delta", "message_stop"]
    );
    assert_eq!(events[2].data["delta"]["stop_reason"], "max_tokens");
    assert!(manager.generate_final_events(1, 2, 3, 4, &None).is_empty());
}

#[test]
fn nothing_follows_an_error() {
    let mut manager = SseStateManager::new();
    manager.handle_content_block_start(0, "text", data("{}"));
    assert_eq!(manager.generate_error_events("upstream_error", "stream interrupted").len(), 2);
    assert!(manager.generate_final_events(10, 5, 0, 0, &None).is_empty());
}
