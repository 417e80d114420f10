use kiro_rs::buffered::BufferedStreamContext;
use kiro_rs::json::Json;
use kiro_rs::names::{NameMap, NameSet};
use kiro_rs::sse::{MeteringEvent, SseEvent};
use kiro_rs::stream::{Event, ReasoningContentEvent, StreamContext};
use kiro_rs::tokens::{CacheUsage, TokenUsage};
use kiro_rs::tool_json::{CompletedToolUse, ToolUseEvent};
use serde_json::Value;

struct Shown {
    event: String,
    data: Value,
}

fn shown(events: Vec<SseEvent>) -> Vec<Shown> {
    events
        .iter()
        .map(|e| Shown {
            event: e.event.clone(),
            data: serde_json::from_str(&e.data.to_text()).unwrap(),
        })
        .collect()
}

fn value(text: &str) -> Value {
    serde_json::from_str(text).unwrap()
}

fn sum(amounts: &[Json]) -> f64 {
    amounts.iter().map(|a| value(&a.to_text()).as_f64().unwrap()).sum()
}

fn opened(ctx: &mut StreamContext) -> Vec<Shown> {
    shown(ctx.generate_initial_events())
}

fn fed(ctx: &mut StreamContext, event: &Event) -> Vec<Shown> {
    shown(ctx.process_kiro_event(event))
}

fn said(ctx: &mut StreamContext, content: &str) -> Vec<Shown> {
    fed(
        ctx,
        &Event::AssistantResponse {
            content: content.to_string(),
        },
    )
}

fn used(ctx: &mut StreamContext, call: ToolUseEvent) -> Vec<Shown> {
    fed(ctx, &Event::ToolUse(call))
}

fn reasoned(ctx: &mut StreamContext, thought: ReasoningContentEvent) -> Vec<Shown> {
    fed(ctx, &Event::ReasoningContent(thought))
}

fn ended(ctx: &mut StreamContext) -> Vec<Shown> {
    shown(ctx.generate_final_events())
}

fn broken(ctx: &mut StreamContext, error_type: &str, message: &str) -> Vec<Shown> {
    shown(ctx.generate_error_events(error_type, message))
}

fn test_known_tools() -> NameSet {
    let mut known = NameSet::new();
    for name in [
        "exec_command",
        "apply_patch",
        "tool_a",
        "tool_b",
        "write_file",
        "wait_agent",
    ] {
        known.insert(name);
    }
    known
}

fn tool_evt(id: &str, name: &str, input: &str, stop: bool) -> ToolUseEvent {
    ToolUseEvent {
        name: name.to_string(),
        tool_use_id: id.to_string(),
        input: input.to_string(),
        stop,
    }
}

#[test]
fn incomplete_tool_json_ends_stream_with_error_only() {
    let mut ctx = StreamContext::new_with_thinking(
        "test-model",
        1,
        false,
        NameMap::new(),
        test_known_tools(),
    );
    let _ = opened(&mut ctx);
    let emitted = fed(&mut ctx, &Event::ToolUse(tool_evt(
        "t1",
        "read_file",
        "{\"path\":\"/a",
        false,
    )));
    assert!(emitted.is_empty(), "partial tool JSON must remain buffered");

    let final_events = ended(&mut ctx);
    assert_eq!(final_events.last().unwrap().event, "error");
    assert_eq!(final_events.last().unwrap().data["error"]["type"], "upstream_tool_json_error");
    assert!(
        final_events
            .iter()
            .all(|event| event.event != "message_delta" && event.event != "message_stop")
    );
}

#[test]
fn emit_and_block_agree_on_shape() {
    let completed = CompletedToolUse {
        id: "toolu_1".to_string(),
        name: "read_file".to_string(),
        input: Json::parse(r#"{"path": "/a"}"#).unwrap(),
    };

    let block = value(&completed.to_anthropic_block().to_text());
    assert_eq!(block["type"], "tool_use");
    assert_eq!(block["id"], "toolu_1");
    assert_eq!(block["name"], "read_file");
    assert_eq!(block["input"], value(r#"{"path": "/a"}"#));

    let mut ctx = StreamContext::new_with_thinking(
        "m",
        1,
        false,
        NameMap::new(),
        NameSet::new(),
    );
    let events = shown(ctx.emit_completed_tool_use(&completed));
    let start = events
        .iter()
        .find(|e| {
            e.event == "content_block_start" && e.data["content_block"]["type"] == "tool_use"
        })
        .unwrap();
    assert_eq!(start.data["content_block"]["id"], block["id"]);
    assert_eq!(start.data["content_block"]["name"], block["name"]);
    let delta = events
        .iter()
        .find(|e| e.event == "content_block_delta")
        .unwrap();
    let partial = delta.data["delta"]["partial_json"].as_str().unwrap();
    let parsed: serde_json::Value = serde_json::from_str(partial).unwrap();
    assert_eq!(
        parsed, block["input"],
    );
    assert!(events.iter().any(|e| e.event == "content_block_stop"));
}

#[test]
fn stream_context_filters_tool_use_xml_leak() {
    let mut ctx = StreamContext::new_with_thinking(
        "m",
        1,
        false,
        NameMap::new(),
        NameSet::new(),
    );
    let mut events = opened(&mut ctx);
    events.extend(said(&mut ctx, "hello <tool"));
    events.extend(said(&mut ctx, "_use name=\"W\">{\"a\":1}</tool_use> world"));
    events.extend(ended(&mut ctx));
    let text: String = events
        .iter()
        .filter(|e| e.event == "content_block_delta" && e.data["delta"]["type"] == "text_delta")
        .filter_map(|e| e.data["delta"]["text"].as_str())
        .collect();
    assert!(!text.contains("<tool_use"));
    assert!(text.contains("hello") && text.contains("world"));
}

#[test]
fn test_tool_name_reverse_mapping_in_stream() {
    let mut map = NameMap::new();
    map.insert("short_abc12345", "mcp__very_long_original_tool_name");

    let mut ctx =
        StreamContext::new_with_thinking("test-model", 1, false, map, test_known_tools());
    let _ = opened(&mut ctx);

    let tool_event = Event::ToolUse(ToolUseEvent {
        name: "short_abc12345".to_string(),
        tool_use_id: "toolu_01".to_string(),
        input: r#"{"key":"value"}"#.to_string(),
        stop: true,
    });

    let events = fed(&mut ctx, &tool_event);

    let start_event = events
        .iter()
        .find(|e| e.event == "content_block_start")
        .unwrap();
    assert_eq!(
        start_event.data["content_block"]["name"], "mcp__very_long_original_tool_name",
    );
}

#[test]
fn test_text_delta_after_tool_use_restarts_text_block() {
    let mut ctx = StreamContext::new_with_thinking(
        "test-model",
        1,
        false,
        NameMap::new(),
        test_known_tools(),
    );

    let initial_events = opened(&mut ctx);
    assert!(
        initial_events
            .iter()
            .any(|e| e.event == "content_block_start"
                && e.data["content_block"]["type"] == "text")
    );

    let initial_text_index = ctx
        .text_block_index
        .expect("initial text block index should exist");

    let tool_events = used(&mut ctx, ToolUseEvent {
        name: "test_tool".to_string(),
        tool_use_id: "tool_1".to_string(),
        input: "{}".to_string(),
        stop: true,
    });
    assert!(
        tool_events.iter().any(|e| {
            e.event == "content_block_stop"
                && e.data["index"].as_i64() == Some(initial_text_index as i64)
        }),
        "tool_use should stop the previous text block"
    );

    let text_events = said(&mut ctx, "hello");
    let new_text_start_index = text_events.iter().find_map(|e| {
        if e.event == "content_block_start" && e.data["content_block"]["type"] == "text" {
            e.data["index"].as_i64()
        } else {
            None
        }
    });
    assert!(
        new_text_start_index.is_some(),
        "should start a new text block"
    );
    assert_ne!(
        new_text_start_index.unwrap(),
        initial_text_index as i64,
        "new text block index should differ from the stopped one"
    );
    assert!(
        text_events.iter().any(|e| {
            e.event == "content_block_delta"
                && e.data["delta"]["type"] == "text_delta"
                && e.data["delta"]["text"] == "hello"
        }),
        "should emit text_delta after restarting text block"
    );
}

#[test]
fn test_tool_use_flushes_pending_thinking_buffer_text_before_tool_block() {
    let mut ctx = StreamContext::new_with_thinking(
        "test-model",
        1,
        true,
        NameMap::new(),
        test_known_tools(),
    );
    let _initial_events = opened(&mut ctx);

    let ev1 = said(&mut ctx, "有修");
    assert!(
        ev1.iter().all(|e| e.event != "content_block_delta"),
        "short prefix should be buffered under thinking mode"
    );
    let ev2 = said(&mut ctx, "改：");
    assert!(
        ev2.iter().all(|e| e.event != "content_block_delta"),
        "short prefix should still be buffered under thinking mode"
    );

    let events = used(&mut ctx, ToolUseEvent {
        name: "Write".to_string(),
        tool_use_id: "tool_1".to_string(),
        input: "{}".to_string(),
        stop: true,
    });

    let text_start_index = events.iter().find_map(|e| {
        if e.event == "content_block_start" && e.data["content_block"]["type"] == "text" {
            e.data["index"].as_i64()
        } else {
            None
        }
    });
    let pos_text_delta = events.iter().position(|e| {
        e.event == "content_block_delta" && e.data["delta"]["type"] == "text_delta"
    });
    let pos_text_stop = text_start_index.and_then(|idx| {
        events.iter().position(|e| {
            e.event == "content_block_stop" && e.data["index"].as_i64() == Some(idx)
        })
    });
    let pos_tool_start = events.iter().position(|e| {
        e.event == "content_block_start" && e.data["content_block"]["type"] == "tool_use"
    });

    assert!(
        text_start_index.is_some(),
        "should start a text block to flush buffered text"
    );
    assert!(
        pos_text_delta.is_some(),
        "should flush buffered text as text_delta"
    );
    assert!(
        pos_text_stop.is_some(),
        "should stop text block before tool_use block starts"
    );
    assert!(pos_tool_start.is_some(), "should start tool_use block");

    let pos_text_delta = pos_text_delta.unwrap();
    let pos_text_stop = pos_text_stop.unwrap();
    let pos_tool_start = pos_tool_start.unwrap();

    assert!(
        pos_text_delta < pos_text_stop && pos_text_stop < pos_tool_start,
        "ordering should be: text_delta -> text_stop -> tool_use_start"
    );

    assert!(
        events.iter().any(|e| {
            e.event == "content_block_delta"
                && e.data["delta"]["type"] == "text_delta"
                && e.data["delta"]["text"] == "有修改："
        }),
        "flushed text should equal the buffered prefix"
    );
}

#[test]
fn test_tool_use_immediately_after_thinking_filters_end_tag_and_closes_thinking_block() {
    let mut ctx = StreamContext::new_with_thinking(
        "test-model",
        1,
        true,
        NameMap::new(),
        test_known_tools(),
    );
    let _initial_events = opened(&mut ctx);

    let mut all_events = Vec::new();

    all_events.extend(said(&mut ctx, "<thinking>abc</thinking>"));

    let tool_events = used(&mut ctx, ToolUseEvent {
        name: "Write".to_string(),
        tool_use_id: "tool_1".to_string(),
        input: "{}".to_string(),
        stop: true,
    });
    all_events.extend(tool_events);

    all_events.extend(ended(&mut ctx));

    assert!(
        all_events.iter().all(|e| {
            !(e.event == "content_block_delta"
                && e.data["delta"]["type"] == "thinking_delta"
                && e.data["delta"]["thinking"] == "</thinking>")
        }),
        "`</thinking>` should be filtered from output"
    );

    let thinking_index = ctx
        .thinking_block_index
        .expect("thinking block index should exist");
    let pos_thinking_stop = all_events.iter().position(|e| {
        e.event == "content_block_stop"
            && e.data["index"].as_i64() == Some(thinking_index as i64)
    });
    let pos_tool_start = all_events.iter().position(|e| {
        e.event == "content_block_start" && e.data["content_block"]["type"] == "tool_use"
    });
    assert!(
        pos_thinking_stop.is_some(),
        "thinking block should be stopped"
    );
    assert!(pos_tool_start.is_some(), "tool_use block should be started");
    assert!(
        pos_thinking_stop.unwrap() < pos_tool_start.unwrap(),
        "thinking block should stop before tool_use block starts"
    );
}

#[test]
fn test_thinking_block_emits_signature_delta_before_stop() {
    let mut ctx = StreamContext::new_with_thinking(
        "test-model",
        1,
        true,
        NameMap::new(),
        test_known_tools(),
    );
    let _ = opened(&mut ctx);

    let mut all = Vec::new();
    all.extend(said(&mut ctx, "<thinking>abc</thinking>\n\nhello"));
    all.extend(ended(&mut ctx));

    let thinking_index = ctx
        .thinking_block_index
        .expect("thinking block index should exist");

    let pos_sig = all.iter().position(|e| {
        e.event == "content_block_delta"
            && e.data["index"].as_i64() == Some(thinking_index as i64)
            && e.data["delta"]["type"] == "signature_delta"
            && e.data["delta"]["signature"]
                .as_str()
                .is_some_and(|s| !s.is_empty())
    });
    let pos_stop = all.iter().position(|e| {
        e.event == "content_block_stop"
            && e.data["index"].as_i64() == Some(thinking_index as i64)
    });

    assert!(pos_sig.is_some(), "signature_delta should be emitted");
    assert!(pos_stop.is_some(), "content_block_stop should be emitted");
    assert!(
        pos_sig.unwrap() < pos_stop.unwrap(),
        "signature_delta must precede content_block_stop"
    );
}

#[test]
fn error_termination_signs_thinking_before_stop() {
    let mut ctx = StreamContext::new_with_thinking(
        "test-model",
        1,
        true,
        NameMap::new(),
        test_known_tools(),
    );
    let _ = opened(&mut ctx);
    let mut events =
        reasoned(&mut ctx, ReasoningContentEvent {
            text: Some("unfinished reasoning".to_string()),
            signature: None,
            redacted_content: None,
        });
    events.extend(broken(&mut ctx, "upstream_error", "stream interrupted"));

    let thinking_index = ctx.thinking_block_index.unwrap();
    let signature = events
        .iter()
        .position(|event| {
            event.event == "content_block_delta"
                && event.data["index"] == thinking_index
                && event.data["delta"]["type"] == "signature_delta"
        })
        .expect("thinking error close must include a signature");
    let stop = events
        .iter()
        .position(|event| {
            event.event == "content_block_stop" && event.data["index"] == thinking_index
        })
        .expect("thinking block must close");
    let error = events
        .iter()
        .position(|event| event.event == "error")
        .expect("stream must end with error");
    assert!(signature < stop && stop < error);
    assert!(events.iter().all(|event| event.event != "message_stop"));
}

#[test]
fn test_final_flush_filters_standalone_thinking_end_tag() {
    let mut ctx = StreamContext::new_with_thinking(
        "test-model",
        1,
        true,
        NameMap::new(),
        test_known_tools(),
    );
    let _initial_events = opened(&mut ctx);

    let mut all_events = Vec::new();
    all_events.extend(said(&mut ctx, "<thinking>abc</thinking>"));
    all_events.extend(ended(&mut ctx));

    assert!(
        all_events.iter().all(|e| {
            !(e.event == "content_block_delta"
                && e.data["delta"]["type"] == "thinking_delta"
                && e.data["delta"]["thinking"] == "</thinking>")
        }),
        "`</thinking>` should be filtered during final flush"
    );
}

#[test]
fn test_thinking_strips_leading_newline_same_chunk() {
    let mut ctx = StreamContext::new_with_thinking(
        "test-model",
        1,
        true,
        NameMap::new(),
        test_known_tools(),
    );
    let _initial_events = opened(&mut ctx);

    let events = said(&mut ctx, "<thinking>\nHello world");

    let thinking_deltas: Vec<_> = events
        .iter()
        .filter(|e| {
            e.event == "content_block_delta" && e.data["delta"]["type"] == "thinking_delta"
        })
        .collect();

    let full_thinking: String = thinking_deltas
        .iter()
        .map(|e| e.data["delta"]["thinking"].as_str().unwrap_or(""))
        .collect();

    assert!(
        !full_thinking.starts_with('\n'),
        "thinking content should not start with \\n, got: {:?}",
        full_thinking
    );
}

#[test]
fn test_thinking_strips_leading_newline_cross_chunk() {
    let mut ctx = StreamContext::new_with_thinking(
        "test-model",
        1,
        true,
        NameMap::new(),
        test_known_tools(),
    );
    let _initial_events = opened(&mut ctx);

    let events1 = said(&mut ctx, "<thinking>");
    let events2 = said(&mut ctx, "\nHello world");

    let mut all_events = Vec::new();
    all_events.extend(events1);
    all_events.extend(events2);

    let thinking_deltas: Vec<_> = all_events
        .iter()
        .filter(|e| {
            e.event == "content_block_delta" && e.data["delta"]["type"] == "thinking_delta"
        })
        .collect();

    let full_thinking: String = thinking_deltas
        .iter()
        .map(|e| e.data["delta"]["thinking"].as_str().unwrap_or(""))
        .collect();

    assert!(
        !full_thinking.starts_with('\n'),
        "thinking content should not start with \\n across chunks, got: {:?}",
        full_thinking
    );
}

#[test]
fn test_thinking_no_strip_when_no_leading_newline() {
    let mut ctx = StreamContext::new_with_thinking(
        "test-model",
        1,
        true,
        NameMap::new(),
        test_known_tools(),
    );
    let _initial_events = opened(&mut ctx);

    let events = said(&mut ctx, "<thinking>abc</thinking>\n\ntext");

    let thinking_deltas: Vec<_> = events
        .iter()
        .filter(|e| {
            e.event == "content_block_delta" && e.data["delta"]["type"] == "thinking_delta"
        })
        .collect();

    let full_thinking: String = thinking_deltas
        .iter()
        .filter(|e| {
            !e.data["delta"]["thinking"]
                .as_str()
                .unwrap_or("")
                .is_empty()
        })
        .map(|e| e.data["delta"]["thinking"].as_str().unwrap_or(""))
        .collect();

    assert_eq!(full_thinking, "abc", "thinking content should be 'abc'");
}

#[test]
fn test_text_after_thinking_strips_leading_newlines() {
    let mut ctx = StreamContext::new_with_thinking(
        "test-model",
        1,
        true,
        NameMap::new(),
        test_known_tools(),
    );
    let _initial_events = opened(&mut ctx);

    let events = said(&mut ctx, "<thinking>\nabc</thinking>\n\n你好");

    let text_deltas: Vec<_> = events
        .iter()
        .filter(|e| e.event == "content_block_delta" && e.data["delta"]["type"] == "text_delta")
        .collect();

    let full_text: String = text_deltas
        .iter()
        .map(|e| e.data["delta"]["text"].as_str().unwrap_or(""))
        .collect();

    assert!(
        !full_text.starts_with('\n'),
        "text after thinking should not start with \\n, got: {:?}",
        full_text
    );
    assert_eq!(full_text, "你好");
}

fn collect_thinking_content(events: &[Shown]) -> String {
    events
        .iter()
        .filter(|e| {
            e.event == "content_block_delta" && e.data["delta"]["type"] == "thinking_delta"
        })
        .map(|e| e.data["delta"]["thinking"].as_str().unwrap_or(""))
        .filter(|s| !s.is_empty())
        .collect()
}

fn collect_text_content(events: &[Shown]) -> String {
    events
        .iter()
        .filter(|e| e.event == "content_block_delta" && e.data["delta"]["type"] == "text_delta")
        .map(|e| e.data["delta"]["text"].as_str().unwrap_or(""))
        .collect()
}

fn collect_tool_uses(events: &[Shown]) -> Vec<(String, String)> {
    let mut result = Vec::new();
    for e in events.iter() {
        if e.event == "content_block_start" && e.data["content_block"]["type"] == "tool_use" {
            let index = e.data["index"].as_i64();
            let name = e.data["content_block"]["name"]
                .as_str()
                .unwrap_or("")
                .to_string();
            let input = events
                .iter()
                .find(|d| {
                    d.event == "content_block_delta"
                        && d.data["index"].as_i64() == index
                        && d.data["delta"]["type"] == "input_json_delta"
                })
                .and_then(|d| d.data["delta"]["partial_json"].as_str())
                .unwrap_or("")
                .to_string();
            result.push((name, input));
        }
    }
    result
}

#[test]
fn test_invoke_sniff_backtick_wrapped_is_not_captured() {
    let mut ctx = StreamContext::new_with_thinking(
        "test-model",
        1,
        false,
        NameMap::new(),
        test_known_tools(),
    );
    let _ = opened(&mut ctx);

    let mut all = Vec::new();
    all.extend(said(&mut ctx, "示例：`<invoke name=\"x\">` 这种写法"));
    all.extend(ended(&mut ctx));

    let tools = collect_tool_uses(&all);
    assert!(tools.is_empty());

    let text = collect_text_content(&all);
    assert!(text.contains("<invoke name=\"x\">"));
}

#[test]
fn test_invoke_sniff_single_bare_invoke() {
    let mut ctx = StreamContext::new_with_thinking(
        "test-model",
        1,
        false,
        NameMap::new(),
        test_known_tools(),
    );
    let _ = opened(&mut ctx);

    let mut all = Vec::new();
    all.extend(said(&mut ctx, "<invoke name=\"exec_command\"><parameter name=\"cmd\">ls</parameter></invoke>"));
    all.extend(ended(&mut ctx));

    let tools = collect_tool_uses(&all);
    assert_eq!(tools.len(), 1);
    assert_eq!(tools[0].0, "exec_command");
    let parsed: serde_json::Value =
        serde_json::from_str(&tools[0].1).unwrap();
    assert_eq!(parsed["cmd"], "ls");
}

#[test]
fn test_invoke_sniff_param_value_with_lt_multiline_chinese() {
    let mut ctx = StreamContext::new_with_thinking(
        "test-model",
        1,
        false,
        NameMap::new(),
        test_known_tools(),
    );
    let _ = opened(&mut ctx);

    let value = "第一行 a < b\n第二行 路径 /tmp/中文";
    let chunk = format!(
        "<invoke name=\"write_file\"><parameter name=\"content\">{}</parameter></invoke>",
        value
    );
    let mut all = Vec::new();
    all.extend(said(&mut ctx, &chunk));
    all.extend(ended(&mut ctx));

    let tools = collect_tool_uses(&all);
    assert_eq!(tools.len(), 1);
    let parsed: serde_json::Value =
        serde_json::from_str(&tools[0].1).unwrap();
    assert_eq!(
        parsed["content"], value,
    );
}

#[test]
fn test_invoke_sniff_two_invokes_sequential() {
    let mut ctx = StreamContext::new_with_thinking(
        "test-model",
        1,
        false,
        NameMap::new(),
        test_known_tools(),
    );
    let _ = opened(&mut ctx);

    let mut all = Vec::new();
    all.extend(said(&mut ctx, "<invoke name=\"tool_a\"><parameter name=\"x\">1</parameter></invoke><invoke name=\"tool_b\"><parameter name=\"y\">2</parameter></invoke>"));
    all.extend(ended(&mut ctx));

    let tools = collect_tool_uses(&all);
    assert_eq!(tools.len(), 2);
    assert_eq!(tools[0].0, "tool_a");
    assert_eq!(tools[1].0, "tool_b");
}

#[test]
fn test_invoke_sniff_split_across_chunks() {
    let mut ctx = StreamContext::new_with_thinking(
        "test-model",
        1,
        false,
        NameMap::new(),
        test_known_tools(),
    );
    let _ = opened(&mut ctx);

    let mut all = Vec::new();
    all.extend(said(&mut ctx, "<inv"));
    all.extend(said(&mut ctx, "oke name=\"exec_command\">"));
    all.extend(said(&mut ctx, "<parameter name=\"cmd\">ls</parameter></in"));
    all.extend(said(&mut ctx, "voke>"));
    all.extend(ended(&mut ctx));

    let tools = collect_tool_uses(&all);
    assert_eq!(tools.len(), 1);
    assert_eq!(tools[0].0, "exec_command");
    let parsed: serde_json::Value =
        serde_json::from_str(&tools[0].1).unwrap();
    assert_eq!(parsed["cmd"], "ls");
}

#[test]
fn test_invoke_sniff_strips_stray_call_token() {
    let mut ctx = StreamContext::new_with_thinking(
        "test-model",
        1,
        false,
        NameMap::new(),
        test_known_tools(),
    );
    let _ = opened(&mut ctx);

    let mut all = Vec::new();
    all.extend(said(&mut ctx, "call\n<invoke name=\"exec_command\"><parameter name=\"cmd\">ls</parameter></invoke>"));
    all.extend(ended(&mut ctx));

    let tools = collect_tool_uses(&all);
    assert_eq!(tools.len(), 1);

    let text = collect_text_content(&all);
    assert!(!text.contains("call"));
}

#[test]
fn test_invoke_sniff_reclaims_after_narrative_then_stray_token() {
    let mut ctx = StreamContext::new_with_thinking(
        "test-model",
        1,
        false,
        NameMap::new(),
        test_known_tools(),
    );
    let _ = opened(&mut ctx);

    let mut all = Vec::new();
    all.extend(said(&mut ctx, "先看看结果。\ncall\n<invoke name=\"exec_command\"><parameter name=\"cmd\">ls</parameter></invoke>"));
    all.extend(ended(&mut ctx));

    let tools = collect_tool_uses(&all);
    assert_eq!(tools.len(), 1);
    let text = collect_text_content(&all);
    assert!(text.contains("先看看结果"));
    assert!(!text.contains("call\n<invoke") && !text.contains("<invoke"));
}

#[test]
fn test_invoke_sniff_keeps_narrative_before_invoke() {
    let mut ctx = StreamContext::new_with_thinking(
        "test-model",
        1,
        false,
        NameMap::new(),
        test_known_tools(),
    );
    let _ = opened(&mut ctx);

    let mut all = Vec::new();
    all.extend(said(&mut ctx, "先看看\n<invoke name=\"exec_command\"><parameter name=\"cmd\">ls</parameter></invoke>"));
    all.extend(ended(&mut ctx));

    let tools = collect_tool_uses(&all);
    assert_eq!(tools.len(), 1);

    let text = collect_text_content(&all);
    assert!(text.contains("先看看"));
}

#[test]
fn test_invoke_sniff_truncated_block_not_captured() {
    let mut ctx = StreamContext::new_with_thinking(
        "test-model",
        1,
        false,
        NameMap::new(),
        test_known_tools(),
    );
    let _ = opened(&mut ctx);

    let mut all = Vec::new();
    all.extend(said(&mut ctx, "<invoke name=\"exec_command\"><parameter name=\"cmd\">ls"));
    all.extend(ended(&mut ctx));

    let tools = collect_tool_uses(&all);
    assert!(tools.is_empty());
}

#[test]
fn test_invoke_midsentence_not_captured() {
    let mut ctx = StreamContext::new_with_thinking(
        "test-model",
        1,
        false,
        NameMap::new(),
        test_known_tools(),
    );
    let _ = opened(&mut ctx);

    let mut all = Vec::new();
    all.extend(said(&mut ctx, "解析器示意：模型吐出 <invoke name=\"exec_command\"><parameter name=\"cmd\">ls</parameter></invoke> 这种文本"));
    all.extend(ended(&mut ctx));

    let tools = collect_tool_uses(&all);
    assert!(tools.is_empty());

    let text = collect_text_content(&all);
    assert!(text.contains("解析器示意") && text.contains("这种文本"));
    assert!(text.contains("<invoke name=\"exec_command\">"));
}

#[test]
fn test_invoke_midsentence_unclosed_not_hold() {
    let mut ctx = StreamContext::new_with_thinking(
        "test-model",
        1,
        false,
        NameMap::new(),
        test_known_tools(),
    );
    let _ = opened(&mut ctx);

    let first = said(&mut ctx, "讨论 <invoke name=\"x\"> 语义，");
    let first_text = collect_text_content(&first);
    assert!(first_text.contains("讨论"));

    let mut all = first;
    all.extend(said(&mut ctx, "后面内容。"));
    all.extend(ended(&mut ctx));

    let tools = collect_tool_uses(&all);
    assert!(tools.is_empty());

    let text = collect_text_content(&all);
    assert!(text.contains("讨论") && text.contains("语义") && text.contains("后面内容。"));
}

#[test]
fn test_invoke_multiline_patch_split_still_captured() {
    let mut ctx = StreamContext::new_with_thinking(
        "test-model",
        1,
        false,
        NameMap::new(),
        test_known_tools(),
    );
    let _ = opened(&mut ctx);

    let mut patch_lines = Vec::new();
    for i in 0..24 {
        patch_lines.push(format!("+ line number {i} of the patch body"));
    }
    let patch_value = patch_lines.join("\n");

    let full = format!(
        "<invoke name=\"apply_patch\"><parameter name=\"input\">{}</parameter></invoke>",
        patch_value
    );
    let mut all = Vec::new();
    let bytes = full.as_bytes();
    let mut idx = 0;
    while idx < bytes.len() {
        let mut end = idx;
        while end < bytes.len() && bytes[end] != b'\n' {
            end += 1;
        }
        if end < bytes.len() {
            end += 1;
        }
        let piece = std::str::from_utf8(&bytes[idx..end]).unwrap();
        all.extend(said(&mut ctx, piece));
        idx = end;
    }
    all.extend(ended(&mut ctx));

    let tools = collect_tool_uses(&all);
    assert_eq!(tools.len(), 1);
    assert_eq!(tools[0].0, "apply_patch");
    let parsed: serde_json::Value =
        serde_json::from_str(&tools[0].1).unwrap();
    assert_eq!(
        parsed["input"], patch_value,
    );
}

#[test]
fn test_invoke_large_patch_split_captured() {
    let mut ctx = StreamContext::new_with_thinking(
        "test-model",
        1,
        false,
        NameMap::new(),
        test_known_tools(),
    );
    let _ = opened(&mut ctx);

    let mut lines = Vec::new();
    for i in 0..250 {
        lines.push(format!(
            "+ patch content row {i:04} padding xxxxxxxxxxxxxxxxxxxxxxxxxxxxxxxxxxx"
        ));
    }
    let big_value = lines.join("\n");
    assert!(big_value.len() > 16 * 1024);

    let full = format!(
        "<invoke name=\"apply_patch\"><parameter name=\"input\">{}</parameter></invoke>",
        big_value
    );
    let mut all = Vec::new();
    let bytes = full.as_bytes();
    let mut idx = 0;
    while idx < bytes.len() {
        let end = (idx + 512).min(bytes.len());
        let piece = std::str::from_utf8(&bytes[idx..end]).unwrap();
        all.extend(said(&mut ctx, piece));
        idx = end;
    }
    all.extend(ended(&mut ctx));

    let tools = collect_tool_uses(&all);
    assert_eq!(tools.len(), 1);
    assert_eq!(tools[0].0, "apply_patch");
    let parsed: serde_json::Value =
        serde_json::from_str(&tools[0].1).unwrap();
    assert_eq!(parsed["input"], big_value);
}

#[test]
fn test_unclosed_invoke_eventually_flushed_as_text() {
    let mut ctx = StreamContext::new_with_thinking(
        "test-model",
        1,
        false,
        NameMap::new(),
        test_known_tools(),
    );
    let _ = opened(&mut ctx);

    let mut all = Vec::new();
    all.extend(said(&mut ctx, "<invoke name=\"x\">"));
    let filler = "A".repeat(StreamContext::MAX_INVOKE_HOLD_BYTES + 1024);
    all.extend(said(&mut ctx, &filler));
    all.extend(ended(&mut ctx));

    let tools = collect_tool_uses(&all);
    assert!(tools.is_empty());

    let text = collect_text_content(&all);
    assert!(text.contains("<invoke name=\"x\">"));
    assert!(text.contains(&"A".repeat(100)));
}

#[test]
fn test_invoke_in_markdown_list_not_captured() {
    let mut ctx = StreamContext::new_with_thinking(
        "test-model",
        1,
        false,
        NameMap::new(),
        test_known_tools(),
    );
    let _ = opened(&mut ctx);

    let mut all = Vec::new();
    all.extend(said(&mut ctx, "- <invoke name=\"exec_command\"><parameter name=\"cmd\">rm -rf /</parameter></invoke>"));
    all.extend(ended(&mut ctx));

    let tools = collect_tool_uses(&all);
    assert!(tools.is_empty());
    let text = collect_text_content(&all);
    assert!(text.contains("rm -rf /"));
}

#[test]
fn test_invoke_in_blockquote_not_captured() {
    let mut ctx = StreamContext::new_with_thinking(
        "test-model",
        1,
        false,
        NameMap::new(),
        test_known_tools(),
    );
    let _ = opened(&mut ctx);

    let mut all = Vec::new();
    all.extend(said(&mut ctx, "> <invoke name=\"exec_command\"><parameter name=\"cmd\">rm -rf /</parameter></invoke>"));
    all.extend(ended(&mut ctx));

    let tools = collect_tool_uses(&all);
    assert!(tools.is_empty());
    let text = collect_text_content(&all);
    assert!(text.contains("rm -rf /"));
}

fn block_start_position(events: &[Shown], block_type: &str) -> (usize, i64) {
    let pos = events
        .iter()
        .position(|e| {
            e.event == "content_block_start" && e.data["content_block"]["type"] == block_type
        })
        .unwrap_or_else(|| panic!("{block_type} block should start"));
    let idx = events[pos].data["index"]
        .as_i64()
        .unwrap_or_else(|| panic!("{block_type} block index should exist"));
    (pos, idx)
}

fn block_stop_position(events: &[Shown], index: i64) -> usize {
    events
        .iter()
        .position(|e| {
            e.event == "content_block_stop" && e.data["index"].as_i64() == Some(index)
        })
        .unwrap_or_else(|| panic!("block {index} should stop"))
}

#[test]
fn test_end_tag_newlines_split_across_events() {
    let mut ctx = StreamContext::new_with_thinking(
        "test-model",
        1,
        true,
        NameMap::new(),
        test_known_tools(),
    );
    let _initial_events = opened(&mut ctx);

    let mut all = Vec::new();
    all.extend(said(&mut ctx, "<thinking>\nabc</thinking>\n"));
    all.extend(said(&mut ctx, "\n"));
    all.extend(said(&mut ctx, "你好"));
    all.extend(ended(&mut ctx));

    let thinking = collect_thinking_content(&all);
    assert_eq!(
        thinking, "abc",
        "thinking should be 'abc', got: {:?}",
        thinking
    );

    let text = collect_text_content(&all);
    assert_eq!(text, "你好");
}

#[test]
fn test_end_tag_alone_in_chunk_then_newlines_in_next() {
    let mut ctx = StreamContext::new_with_thinking(
        "test-model",
        1,
        true,
        NameMap::new(),
        test_known_tools(),
    );
    let _initial_events = opened(&mut ctx);

    let mut all = Vec::new();
    all.extend(said(&mut ctx, "<thinking>\nabc</thinking>"));
    all.extend(said(&mut ctx, "\n\n你好"));
    all.extend(ended(&mut ctx));

    let thinking = collect_thinking_content(&all);
    assert_eq!(
        thinking, "abc",
        "thinking should be 'abc', got: {:?}",
        thinking
    );

    let text = collect_text_content(&all);
    assert_eq!(text, "你好");
}

#[test]
fn test_start_tag_newline_split_across_events() {
    let mut ctx = StreamContext::new_with_thinking(
        "test-model",
        1,
        true,
        NameMap::new(),
        test_known_tools(),
    );
    let _initial_events = opened(&mut ctx);

    let mut all = Vec::new();
    all.extend(said(&mut ctx, "\n\n"));
    all.extend(said(&mut ctx, "<thinking>"));
    all.extend(said(&mut ctx, "\n"));
    all.extend(said(&mut ctx, "abc</thinking>\n\ntext"));
    all.extend(ended(&mut ctx));

    let thinking = collect_thinking_content(&all);
    assert_eq!(
        thinking, "abc",
        "thinking should be 'abc', got: {:?}",
        thinking
    );

    let text = collect_text_content(&all);
    assert_eq!(text, "text", "text should be 'text', got: {:?}", text);
}

#[test]
fn test_full_flow_maximally_split() {
    let mut ctx = StreamContext::new_with_thinking(
        "test-model",
        1,
        true,
        NameMap::new(),
        test_known_tools(),
    );
    let _initial_events = opened(&mut ctx);

    let mut all = Vec::new();
    all.extend(said(&mut ctx, "\n"));
    all.extend(said(&mut ctx, "\n"));
    all.extend(said(&mut ctx, "<thin"));
    all.extend(said(&mut ctx, "king>"));
    all.extend(said(&mut ctx, "\n"));
    all.extend(said(&mut ctx, "hello"));
    all.extend(said(&mut ctx, "</thi"));
    all.extend(said(&mut ctx, "nking>"));
    all.extend(said(&mut ctx, "\n"));
    all.extend(said(&mut ctx, "\n"));
    all.extend(said(&mut ctx, "world"));
    all.extend(ended(&mut ctx));

    let thinking = collect_thinking_content(&all);
    assert_eq!(
        thinking, "hello",
        "thinking should be 'hello', got: {:?}",
        thinking
    );

    let text = collect_text_content(&all);
    assert_eq!(text, "world", "text should be 'world', got: {:?}", text);
}

#[test]
fn test_thinking_only_sets_max_tokens_stop_reason() {
    let mut ctx = StreamContext::new_with_thinking(
        "test-model",
        1,
        true,
        NameMap::new(),
        test_known_tools(),
    );
    let _initial_events = opened(&mut ctx);

    let mut all_events = Vec::new();
    all_events.extend(said(&mut ctx, "<thinking>\nabc</thinking>"));
    all_events.extend(ended(&mut ctx));

    let message_delta = all_events
        .iter()
        .find(|e| e.event == "message_delta")
        .expect("should have message_delta event");

    assert_eq!(
        message_delta.data["delta"]["stop_reason"], "max_tokens",
        "stop_reason should be max_tokens when only thinking is produced"
    );

    assert!(
        all_events.iter().any(|e| {
            e.event == "content_block_start" && e.data["content_block"]["type"] == "text"
        }),
        "should emit text content_block_start"
    );
    assert!(
        all_events.iter().any(|e| {
            e.event == "content_block_delta"
                && e.data["delta"]["type"] == "text_delta"
                && e.data["delta"]["text"] == " "
        }),
        "should emit text_delta with a single space"
    );
    let text_block_index = all_events
        .iter()
        .find_map(|e| {
            if e.event == "content_block_start" && e.data["content_block"]["type"] == "text" {
                e.data["index"].as_i64()
            } else {
                None
            }
        })
        .expect("text block should exist");
    assert!(
        all_events.iter().any(|e| {
            e.event == "content_block_stop"
                && e.data["index"].as_i64() == Some(text_block_index)
        }),
        "text block should be stopped"
    );
}

#[test]
fn test_thinking_with_text_keeps_end_turn_stop_reason() {
    let mut ctx = StreamContext::new_with_thinking(
        "test-model",
        1,
        true,
        NameMap::new(),
        test_known_tools(),
    );
    let _initial_events = opened(&mut ctx);

    let mut all_events = Vec::new();
    all_events.extend(said(&mut ctx, "<thinking>\nabc</thinking>\n\nHello"));
    all_events.extend(ended(&mut ctx));

    let message_delta = all_events
        .iter()
        .find(|e| e.event == "message_delta")
        .expect("should have message_delta event");

    assert_eq!(
        message_delta.data["delta"]["stop_reason"], "end_turn",
        "stop_reason should be end_turn when text is also produced"
    );
}

#[test]
fn test_thinking_with_tool_use_keeps_tool_use_stop_reason() {
    let mut ctx = StreamContext::new_with_thinking(
        "test-model",
        1,
        true,
        NameMap::new(),
        test_known_tools(),
    );
    let _initial_events = opened(&mut ctx);

    let mut all_events = Vec::new();
    all_events.extend(said(&mut ctx, "<thinking>\nabc</thinking>"));
    all_events.extend(
        used(&mut ctx, ToolUseEvent {
            name: "test_tool".to_string(),
            tool_use_id: "tool_1".to_string(),
            input: "{}".to_string(),
            stop: true,
        }),
    );
    all_events.extend(ended(&mut ctx));

    let message_delta = all_events
        .iter()
        .find(|e| e.event == "message_delta")
        .expect("should have message_delta event");

    assert_eq!(
        message_delta.data["delta"]["stop_reason"], "tool_use",
        "stop_reason should be tool_use when tool_use is present"
    );
}

#[test]
fn test_invoke_param_value_contains_literal_invoke_close() {
    let mut ctx = StreamContext::new_with_thinking(
        "test-model",
        1,
        false,
        NameMap::new(),
        test_known_tools(),
    );
    let _ = opened(&mut ctx);
    let payload = "count\n<invoke name=\"apply_patch\"><parameter name=\"input\">line1\n</invoke>\nstill in patch\nline3</parameter></invoke>";
    let mut all = Vec::new();
    all.extend(said(&mut ctx, payload));
    all.extend(ended(&mut ctx));
    let tools = collect_tool_uses(&all);
    assert_eq!(tools.len(), 1);
    assert_eq!(tools[0].0, "apply_patch");
    let parsed: serde_json::Value = serde_json::from_str(&tools[0].1).unwrap();
    let input = parsed["input"].as_str().unwrap();
    assert!(input.contains("still in patch"));
    assert!(input.contains("line3"));
    let text = collect_text_content(&all);
    assert!(!text.contains("still in patch"));
}

#[test]
fn test_invoke_param_value_contains_literal_parameter_close() {
    let mut ctx = StreamContext::new_with_thinking(
        "test-model",
        1,
        false,
        NameMap::new(),
        test_known_tools(),
    );
    let _ = opened(&mut ctx);
    let payload = "count\n<invoke name=\"apply_patch\"><parameter name=\"input\">before</parameter> after the fake close</parameter></invoke>";
    let mut all = Vec::new();
    all.extend(said(&mut ctx, payload));
    all.extend(ended(&mut ctx));
    let tools = collect_tool_uses(&all);
    assert_eq!(tools.len(), 1);
    let parsed: serde_json::Value = serde_json::from_str(&tools[0].1).unwrap();
    let input = parsed["input"].as_str().unwrap();
    assert!(input.contains("after the fake close"));
}

#[test]
fn test_invoke_inside_code_fence_not_captured() {
    let mut ctx = StreamContext::new_with_thinking(
        "test-model",
        1,
        false,
        NameMap::new(),
        test_known_tools(),
    );
    let _ = opened(&mut ctx);
    let payload = "示例代码：\n```\n<invoke name=\"exec_command\"><parameter name=\"cmd\">rm -rf /</parameter></invoke>\n```\n讲解完毕。";
    let mut all = Vec::new();
    all.extend(said(&mut ctx, payload));
    all.extend(ended(&mut ctx));
    let tools = collect_tool_uses(&all);
    assert!(tools.is_empty());
    let text = collect_text_content(&all);
    assert!(text.contains("<invoke name=\"exec_command\">"));
}

#[test]
fn test_invoke_unknown_tool_name_not_synthesized() {
    let mut ctx = StreamContext::new_with_thinking(
        "test-model",
        1,
        false,
        NameMap::new(),
        test_known_tools(),
    );
    let _ = opened(&mut ctx);
    let payload = "count\n<invoke name=\"totally_unknown_tool\"><parameter name=\"x\">1</parameter></invoke>";
    let mut all = Vec::new();
    all.extend(said(&mut ctx, payload));
    all.extend(ended(&mut ctx));
    let tools = collect_tool_uses(&all);
    assert!(tools.is_empty());
    let text = collect_text_content(&all);
    assert!(text.contains("totally_unknown_tool"));
}

#[test]
fn test_invoke_empty_known_tools_never_captured() {
    let mut ctx = StreamContext::new_with_thinking(
        "test-model",
        1,
        false,
        NameMap::new(),
        NameSet::new(),
    );
    let _ = opened(&mut ctx);
    let payload =
        "count\n<invoke name=\"exec_command\"><parameter name=\"cmd\">ls</parameter></invoke>";
    let mut all = Vec::new();
    all.extend(said(&mut ctx, payload));
    all.extend(ended(&mut ctx));
    let tools = collect_tool_uses(&all);
    assert!(tools.is_empty());
}

#[test]
fn test_invoke_strips_stray_card_token() {
    let mut ctx = StreamContext::new_with_thinking(
        "test-model",
        1,
        false,
        NameMap::new(),
        test_known_tools(),
    );
    let _ = opened(&mut ctx);
    let payload = "我先等结果。\n\ncard\n<invoke name=\"wait_agent\"><parameter name=\"x\">1</parameter></invoke>";
    let mut all = Vec::new();
    all.extend(said(&mut ctx, payload));
    all.extend(ended(&mut ctx));
    let tools = collect_tool_uses(&all);
    assert_eq!(tools.len(), 1);
    assert_eq!(tools[0].0, "wait_agent");
    let text = collect_text_content(&all);
    assert!(!text.contains("card"));
    assert!(text.contains("我先等结果"));
}

#[test]
fn test_invoke_fence_split_across_chunks() {
    let mut ctx = StreamContext::new_with_thinking(
        "test-model",
        1,
        false,
        NameMap::new(),
        test_known_tools(),
    );
    let _ = opened(&mut ctx);
    let mut all = Vec::new();
    all.extend(said(&mut ctx, "看代码：\n``"));
    all.extend(said(&mut ctx, "`\n<invoke name=\"exec_command\"><parameter name=\"cmd\">x</parameter></invoke>\n```"));
    all.extend(ended(&mut ctx));
    let tools = collect_tool_uses(&all);
    assert!(tools.is_empty());
}

#[test]
fn test_invoke_burst_with_trailing_text_not_merged() {
    let mut ctx = StreamContext::new_with_thinking(
        "test-model",
        1,
        false,
        NameMap::new(),
        test_known_tools(),
    );
    let _ = opened(&mut ctx);
    let payload = "count\n<invoke name=\"tool_a\"><parameter name=\"x\">1</parameter>trailing plain</invoke><invoke name=\"tool_b\"><parameter name=\"y\">2</parameter></invoke>";
    let mut all = Vec::new();
    all.extend(said(&mut ctx, payload));
    all.extend(ended(&mut ctx));
    let tools = collect_tool_uses(&all);
    assert_eq!(tools.len(), 2);
    assert_eq!(tools[0].0, "tool_a");
    assert_eq!(tools[1].0, "tool_b");
    let a: serde_json::Value = serde_json::from_str(&tools[0].1).unwrap();
    let b: serde_json::Value = serde_json::from_str(&tools[1].1).unwrap();
    assert!(a.get("y").is_none());
    assert_eq!(a["x"], "1");
    assert_eq!(b["y"], "2");
}

#[test]
fn test_invoke_burst_clean_two_blocks() {
    let mut ctx = StreamContext::new_with_thinking(
        "test-model",
        1,
        false,
        NameMap::new(),
        test_known_tools(),
    );
    let _ = opened(&mut ctx);
    let payload = "count\n<invoke name=\"tool_a\"><parameter name=\"x\">1</parameter></invoke><invoke name=\"tool_b\"><parameter name=\"y\">2</parameter></invoke>";
    let mut all = Vec::new();
    all.extend(said(&mut ctx, payload));
    all.extend(ended(&mut ctx));
    let tools = collect_tool_uses(&all);
    assert_eq!(tools.len(), 2);
    assert_eq!(tools[0].0, "tool_a");
    assert_eq!(tools[1].0, "tool_b");
}

#[test]
fn test_invoke_real_leak_sample_from_thread_019e9e8d() {
    let mut known = NameSet::new();
    for name in ["exec_command", "update_plan", "update_goal"] {
        known.insert(name);
    }
    let mut ctx =
        StreamContext::new_with_thinking("test-model", 1, false, NameMap::new(), known);
    let _ = opened(&mut ctx);
    let real = "）。\n\ncount\n<invoke name=\"exec_command\">\n<parameter name=\"cmd\">cd /Users/yuyifeng/.codex/everything-codex/runtime/agent-tools && python3 -m pytest -q -p no:cacheprovider objects/dev/beads/leaves/create_issue/ 2>&1 | tail -8</parameter>\n<parameter name=\"yield_time_ms\">60000</parameter>\n</invoke>";
    let mut all = Vec::new();
    all.extend(said(&mut ctx, real));
    all.extend(ended(&mut ctx));
    let tools = collect_tool_uses(&all);
    assert_eq!(tools.len(), 1);
    assert_eq!(tools[0].0, "exec_command");
    let parsed: serde_json::Value =
        serde_json::from_str(&tools[0].1).unwrap();
    assert!(parsed["cmd"].as_str().unwrap_or("").contains("pytest"));
    assert_eq!(parsed["yield_time_ms"], "60000");
    let text = collect_text_content(&all);
    assert!(!text.contains("<invoke name=\"exec_command\">"));
    assert!(!text.contains("\ncount\n") && !text.ends_with("count"));
}

#[test]
fn repeat_guard_trips_on_count_flood() {
    let mut ctx = StreamContext::new_with_thinking(
        "test-model",
        1,
        false,
        NameMap::new(),
        test_known_tools(),
    );
    let _ = opened(&mut ctx);

    let mut payload = String::from("先看 crawlee 状态。\n\ncall\n\n");
    for _ in 0..5000 {
        payload.push_str("count\n\n");
    }
    let mut all = Vec::new();
    all.extend(said(&mut ctx, &payload));
    all.extend(ended(&mut ctx));

    let text = collect_text_content(&all);
    let emitted_counts = text.matches("count").count();
    assert!(emitted_counts < 64);
    assert!(text.contains("先看 crawlee 状态"));
}

#[test]
fn repeat_guard_does_not_trip_on_single_stray_token() {
    let mut ctx = StreamContext::new_with_thinking(
        "test-model",
        1,
        false,
        NameMap::new(),
        test_known_tools(),
    );
    let _ = opened(&mut ctx);
    let payload =
        "count\n<invoke name=\"exec_command\"><parameter name=\"cmd\">ls</parameter></invoke>";
    let mut all = Vec::new();
    all.extend(said(&mut ctx, payload));
    all.extend(ended(&mut ctx));
    let tools = collect_tool_uses(&all);
    assert_eq!(tools.len(), 1);
    assert_eq!(tools[0].0, "exec_command");
}

#[test]
fn repeat_guard_does_not_trip_on_normal_prose() {
    let mut ctx = StreamContext::new_with_thinking(
        "test-model",
        1,
        false,
        NameMap::new(),
        test_known_tools(),
    );
    let _ = opened(&mut ctx);
    let payload =
        "我数了一下 count = 3，然后继续做别的事。\n这是第二行正常文字。\n第三行也正常。";
    let mut all = Vec::new();
    all.extend(said(&mut ctx, payload));
    all.extend(ended(&mut ctx));
    let text = collect_text_content(&all);
    assert!(text.contains("我数了一下"));
    assert!(text.contains("第三行也正常"));
}

#[test]
fn repeat_guard_trips_across_chunks() {
    let mut ctx = StreamContext::new_with_thinking(
        "test-model",
        1,
        false,
        NameMap::new(),
        test_known_tools(),
    );
    let _ = opened(&mut ctx);
    let mut all = Vec::new();
    all.extend(said(&mut ctx, "call\n\n"));
    for _ in 0..2000 {
        all.extend(said(&mut ctx, "count\n\n"));
    }
    all.extend(ended(&mut ctx));
    let text = collect_text_content(&all);
    let emitted_counts = text.matches("count").count();
    assert!(emitted_counts < 64);
}

#[test]
fn test_native_reasoning_event_emits_thinking_with_signature() {
    let mut ctx = StreamContext::new_with_thinking(
        "test-model",
        1,
        true,
        NameMap::new(),
        NameSet::new(),
    );
    let mut all_events = opened(&mut ctx);

    all_events.extend(fed(&mut ctx, &Event::ReasoningContent(
        ReasoningContentEvent {
            text: Some("native reasoning".to_string()),
            signature: Some("real-signature".to_string()),
            redacted_content: None,
        },
    )));
    all_events.extend(said(&mut ctx, "final answer"));
    all_events.extend(ended(&mut ctx));

    assert_eq!(collect_thinking_content(&all_events), "native reasoning");
    assert_eq!(collect_text_content(&all_events), "final answer");
    assert!(all_events.iter().any(|e| {
        e.event == "content_block_delta"
            && e.data["delta"]["type"] == "signature_delta"
            && e.data["delta"]["signature"] == "real-signature"
    }));
}

#[test]
fn test_native_reasoning_signature_only_applies_to_next_thinking_text() {
    let mut ctx = StreamContext::new_with_thinking(
        "test-model",
        1,
        true,
        NameMap::new(),
        NameSet::new(),
    );
    let mut all_events = opened(&mut ctx);

    all_events.extend(fed(&mut ctx, &Event::ReasoningContent(
        ReasoningContentEvent {
            text: None,
            signature: Some("signature-before-text".to_string()),
            redacted_content: None,
        },
    )));
    all_events.extend(fed(&mut ctx, &Event::ReasoningContent(
        ReasoningContentEvent {
            text: Some("delayed native reasoning".to_string()),
            signature: None,
            redacted_content: None,
        },
    )));
    all_events.extend(ended(&mut ctx));

    assert_eq!(collect_thinking_content(&all_events), "delayed native reasoning");
    assert!(all_events.iter().any(|e| {
        e.event == "content_block_delta"
            && e.data["delta"]["type"] == "signature_delta"
            && e.data["delta"]["signature"] == "signature-before-text"
    }));
}

#[test]
fn test_native_reasoning_text_downgrades_to_text_when_thinking_disabled() {
    let mut ctx = StreamContext::new_with_thinking(
        "test-model",
        1,
        false,
        NameMap::new(),
        NameSet::new(),
    );
    let mut all_events = opened(&mut ctx);

    all_events.extend(fed(&mut ctx, &Event::ReasoningContent(
        ReasoningContentEvent {
            text: Some("visible reasoning fallback".to_string()),
            signature: Some("ignored-signature".to_string()),
            redacted_content: Some("ignored-redacted".to_string()),
        },
    )));
    all_events.extend(ended(&mut ctx));

    assert_eq!(collect_text_content(&all_events), "visible reasoning fallback");
    assert_eq!(collect_thinking_content(&all_events), "");
    assert!(!all_events.iter().any(|e| {
        e.event == "content_block_delta" && e.data["delta"]["type"] == "signature_delta"
    }));
    assert!(!all_events.iter().any(|e| {
        e.event == "content_block_start"
            && e.data["content_block"]["type"] == "redacted_thinking"
    }));
}

#[test]
fn test_native_redacted_thinking_is_ordered_between_thinking_and_text() {
    let mut ctx = StreamContext::new_with_thinking(
        "test-model",
        1,
        true,
        NameMap::new(),
        NameSet::new(),
    );
    let mut all_events = opened(&mut ctx);

    all_events.extend(fed(&mut ctx, &Event::ReasoningContent(
        ReasoningContentEvent {
            text: Some("native reasoning".to_string()),
            signature: Some("real-signature".to_string()),
            redacted_content: None,
        },
    )));
    all_events.extend(fed(&mut ctx, &Event::ReasoningContent(
        ReasoningContentEvent {
            text: None,
            signature: None,
            redacted_content: Some("encrypted-thinking".to_string()),
        },
    )));
    all_events.extend(said(&mut ctx, "final answer"));
    all_events.extend(ended(&mut ctx));

    let (_, thinking_idx) = block_start_position(&all_events, "thinking");
    let thinking_stop_pos = block_stop_position(&all_events, thinking_idx);
    let (redacted_start_pos, redacted_idx) =
        block_start_position(&all_events, "redacted_thinking");
    let redacted_stop_pos = block_stop_position(&all_events, redacted_idx);
    let (text_start_pos, _) = block_start_position(&all_events, "text");

    assert!(
        thinking_stop_pos < redacted_start_pos,
        "thinking block must close before redacted_thinking starts"
    );
    assert!(
        redacted_stop_pos < text_start_pos,
        "redacted_thinking block must close before text starts"
    );
    assert_eq!(collect_thinking_content(&all_events), "native reasoning");
    assert_eq!(collect_text_content(&all_events), "final answer");
}

#[test]
fn test_native_reasoning_event_emits_redacted_thinking() {
    let mut ctx = StreamContext::new_with_thinking(
        "test-model",
        1,
        true,
        NameMap::new(),
        NameSet::new(),
    );
    let mut all_events = opened(&mut ctx);

    all_events.extend(fed(&mut ctx, &Event::ReasoningContent(
        ReasoningContentEvent {
            text: None,
            signature: None,
            redacted_content: Some("encrypted-thinking".to_string()),
        },
    )));
    all_events.extend(ended(&mut ctx));

    assert!(all_events.iter().any(|e| {
        e.event == "content_block_start"
            && e.data["content_block"]["type"] == "redacted_thinking"
            && e.data["content_block"]["data"] == "encrypted-thinking"
    }));
}

#[test]
fn test_stream_context_keeps_latest_metering_in_message_delta() {
    let mut ctx = StreamContext::new_with_thinking(
        "opus-4-7",
        100,
        false,
        NameMap::new(),
        test_known_tools(),
    );
    let _ = opened(&mut ctx);

    fed(&mut ctx, &Event::Metering(MeteringEvent {
        unit: "credit".into(),
        unit_plural: "credits".into(),
        usage: Json::parse("0.10").unwrap(),
    }));
    fed(&mut ctx, &Event::Metering(MeteringEvent {
        unit: "credit".into(),
        unit_plural: "credits".into(),
        usage: Json::parse("0.42").unwrap(),
    }));

    let final_events = ended(&mut ctx);
    let delta = final_events
        .iter()
        .find(|e| e.event == "message_delta")
        .expect("must have message_delta");
    let usage = &delta.data["usage"];
    assert_eq!(usage["credit_usage"], 0.42);
    assert_eq!(usage["credit_unit"], "credit");
    assert_eq!(usage["credit_unit_plural"], "credits");
    assert!((sum(&ctx.credits) - 0.52).abs() < 1e-9);
}

#[test]
fn test_stream_context_omits_credit_fields_without_metering() {
    let mut ctx = StreamContext::new_with_thinking(
        "opus-4-7",
        100,
        false,
        NameMap::new(),
        test_known_tools(),
    );
    let _ = opened(&mut ctx);
    let final_events = ended(&mut ctx);
    let delta = final_events
        .iter()
        .find(|e| e.event == "message_delta")
        .expect("must have message_delta");
    let usage = &delta.data["usage"];
    assert!(usage.get("credit_usage").is_none());
    assert!(usage.get("credit_unit").is_none());
    assert!(usage.get("credit_unit_plural").is_none());
}

#[test]
fn provider_usage_overrides_fallback_and_keeps_the_latest_snapshot() {
    let mut ctx = StreamContext::new_with_thinking(
        "opus-4-7",
        100,
        false,
        NameMap::new(),
        test_known_tools(),
    );
    ctx.context_input_tokens = Some(80);
    ctx.output_tokens = 99;
    ctx.cache_usage = CacheUsage {
        cache_read: 25,
        cache_covered_est: 50,
        prompt_total_est: 100,
    };

    let _ = fed(&mut ctx, &Event::Metadata {
        token_usage: Some(TokenUsage {
            uncached_input_tokens: 3,
            output_tokens: 11,
            cache_read_input_tokens: 7,
            cache_write_input_tokens: 4,
        }),
    });
    let _ = fed(&mut ctx, &Event::Metadata { token_usage: None });
    assert_eq!(ctx.resolved_usage(), (3, 4, 7));
    assert_eq!(ctx.resolved_output_tokens(), 11);

    let _ = fed(&mut ctx, &Event::Metadata {
        token_usage: Some(TokenUsage {
            uncached_input_tokens: -1,
            output_tokens: 22,
            cache_read_input_tokens: 23,
            cache_write_input_tokens: 24,
        }),
    });
    assert_eq!(ctx.resolved_usage(), (0, 24, 23));
    assert_eq!(ctx.resolved_output_tokens(), 22);
}

#[test]
fn stream_usage_falls_back_to_context_cache_split_and_local_output() {
    let mut ctx = StreamContext::new_with_thinking(
        "opus-4-7",
        100,
        false,
        NameMap::new(),
        test_known_tools(),
    );
    ctx.context_input_tokens = Some(80);
    ctx.output_tokens = 9;
    ctx.cache_usage = CacheUsage {
        cache_read: 25,
        cache_covered_est: 50,
        prompt_total_est: 100,
    };

    assert_eq!(ctx.resolved_usage(), (40, 20, 20));
    assert_eq!(ctx.resolved_output_tokens(), 9);
}

#[test]
fn buffered_stream_reports_the_same_provider_usage_in_events_and_final_usage() {
    let usage = TokenUsage {
        uncached_input_tokens: 3,
        output_tokens: 11,
        cache_read_input_tokens: 7,
        cache_write_input_tokens: 4,
    };
    let mut ctx = BufferedStreamContext::new(
        "opus-4-7",
        100,
        false,
        NameMap::new(),
        test_known_tools(),
    );
    ctx.process_and_buffer(&Event::Metadata {
        token_usage: Some(usage),
    });
    let events = shown(ctx.finish_and_get_all_events());

    let (input, output, creation, read, credits) = ctx.final_usage();
    assert_eq!((input, output, creation, read, sum(&credits)), (3, 11, 4, 7, 0.0));
    let start_usage = &events
        .iter()
        .find(|event| event.event == "message_start")
        .unwrap()
        .data["message"]["usage"];
    assert_eq!(start_usage["input_tokens"], 3);
    assert_eq!(start_usage["cache_creation_input_tokens"], 4);
    assert_eq!(start_usage["cache_read_input_tokens"], 7);
    let delta_usage = &events
        .iter()
        .find(|event| event.event == "message_delta")
        .unwrap()
        .data["usage"];
    assert_eq!(delta_usage["output_tokens"], 11);
}
