use kiro_rs::buffered::BufferedStreamContext;
use kiro_rs::json::Json;
use kiro_rs::names::{NameMap, NameSet};
use kiro_rs::sse::{MeteringEvent, SseEvent};
use kiro_rs::stream::{Event, ReasoningContentEvent, StreamContext};
use kiro_rs::tokens::{CacheUsage, TokenUsage};
use kiro_rs::tool_json::ToolUseEvent;
use serde_json::Value;

fn data(event: &SseEvent) -> Value {
    serde_json::from_str(&event.data.to_text()).unwrap()
}

fn known() -> NameSet {
    let mut names = NameSet::new();
    names.insert("exec");
    names
}

fn answer(content: &str) -> Event {
    Event::AssistantResponse {
        content: content.to_string(),
    }
}

fn call(id: &str, input: &str, stop: bool) -> Event {
    Event::ToolUse(ToolUseEvent {
        name: "exec".to_string(),
        tool_use_id: id.to_string(),
        input: input.to_string(),
        stop,
    })
}

fn thought(text: &str) -> Event {
    Event::ReasoningContent(ReasoningContentEvent {
        text: Some(text.to_string()),
        signature: None,
        redacted_content: None,
    })
}

fn message_with(thinking: bool, known: NameSet, events: &[Event]) -> Vec<SseEvent> {
    let mut ctx = StreamContext::new_with_thinking("m", 1, thinking, NameMap::new(), known);
    let mut all = ctx.generate_initial_events();
    for event in events {
        all.extend(ctx.process_kiro_event(event));
    }
    all.extend(ctx.generate_final_events());
    all
}

fn message(thinking: bool, events: &[Event]) -> Vec<SseEvent> {
    message_with(thinking, known(), events)
}

fn text_of(events: &[SseEvent], kind: &str, key: &str) -> String {
    events
        .iter()
        .map(|e| data(e))
        .filter(|d| d["delta"]["type"] == kind)
        .map(|d| d["delta"][key].as_str().unwrap().to_string())
        .collect()
}

fn assert_in_order(events: &[SseEvent]) {
    let mut kinds: Vec<String> = Vec::new();
    let mut open: Vec<i64> = Vec::new();
    let mut signed: Vec<i64> = Vec::new();
    assert_eq!(events[0].event, "message_start");
    for (n, event) in events.iter().enumerate() {
        let d = data(event);
        let index = d["index"].as_i64().unwrap_or(-1);
        match event.event.as_str() {
            "message_start" => assert_eq!(n, 0),
            "content_block_start" => {
                assert_eq!(index, kinds.len() as i64);
                kinds.push(d["content_block"]["type"].as_str().unwrap().to_string());
                open.push(index);
            }
            "content_block_delta" => {
                assert!(open.contains(&index));
                if d["delta"]["type"] == "signature_delta" {
                    signed.push(index);
                }
            }
            "content_block_stop" => {
                assert!(open.contains(&index));
                open.retain(|i| *i != index);
                if kinds[index as usize] == "thinking" {
                    assert!(signed.contains(&index));
                }
            }
            "message_delta" => {
                assert!(open.is_empty());
                assert_eq!(n, events.len() - 2);
            }
            "message_stop" | "error" => {
                assert!(open.is_empty());
                assert_eq!(n, events.len() - 1);
            }
            other => panic!("unexpected event: {other}"),
        }
    }
}

#[test]
fn whole_messages_are_in_order() {
    let invoke = "\n<invoke name=\"exec\"><parameter name=\"c\">ls</parameter></invoke>";
    for thinking in [false, true] {
        assert_in_order(&message(thinking, &[]));
        assert_in_order(&message(thinking, &[answer("hello"), answer(invoke), answer("bye")]));
        assert_in_order(&message(
            thinking,
            &[
                thought("a"),
                answer("b"),
                call("t1", "{}", true),
                thought("c"),
                answer("d"),
                call("t1", "{}", true),
                call("t2", "{\"x\":", false),
                call("t2", "1}", true),
            ],
        ));
        assert_in_order(&message(thinking, &[answer("x"), call("t1", "{", true)]));
        assert_in_order(&message(thinking, &[call("t1", "{", false), answer("x")]));
        assert_in_order(&message(
            thinking,
            &[answer("<thinking>a"), answer("b</thinking>\n\n"), answer("c")],
        ));
    }
}

fn redacted(data: &str) -> Event {
    Event::ReasoningContent(ReasoningContentEvent {
        text: None,
        signature: None,
        redacted_content: Some(data.to_string()),
    })
}

#[test]
fn thinking_that_no_tag_ends_is_signed() {
    assert_in_order(&message(true, &[answer("<thinking>")]));
    let all = message(true, &[answer("<thinking>cut off")]);
    assert_in_order(&all);
    assert_eq!(text_of(&all, "thinking_delta", "thinking"), "cut off");
}

#[test]
fn thinking_is_over_where_a_tag_ends_it() {
    for (text, open) in [("cut off", true), ("", true), ("whole</thinking>", false)] {
        let mut ctx = StreamContext::new_with_thinking("m", 1, true, NameMap::new(), known());
        ctx.generate_initial_events();
        ctx.process_kiro_event(&answer("<thinking>"));
        ctx.process_kiro_event(&answer(text));
        assert!(ctx.in_thinking_block);
        ctx.generate_final_events();
        assert_eq!(ctx.in_thinking_block, open);
        assert_eq!(ctx.thinking_extracted, !open);
        assert_eq!(ctx.thinking_buffer, "");
        let again = ctx.generate_final_events();
        assert_eq!(text_of(&again, "thinking_delta", "thinking"), "");
        assert_eq!(text_of(&again, "signature_delta", "signature"), "");
    }
}

#[test]
fn a_redaction_ends_thinking_between_tags() {
    let all = message(
        true,
        &[answer("<thinking>first"), redacted("secret"), answer("second")],
    );
    assert_in_order(&all);
    assert_eq!(text_of(&all, "thinking_delta", "thinking"), "first");
    assert_eq!(text_of(&all, "text_delta", "text"), "second");
    let kinds: Vec<String> = all
        .iter()
        .filter(|e| e.event == "content_block_start")
        .map(|e| data(e)["content_block"]["type"].as_str().unwrap().to_string())
        .collect();
    assert_eq!(kinds, vec!["thinking", "redacted_thinking", "text"]);
}

fn stop_reason(events: &[SseEvent]) -> String {
    let delta = events.iter().find(|e| e.event == "message_delta").unwrap();
    data(delta)["delta"]["stop_reason"].as_str().unwrap().to_string()
}

#[test]
fn text_that_is_held_back_is_text() {
    let all = message(true, &[answer("<thinking>\nabc</thinking>\n\n<3")]);
    assert_eq!(text_of(&all, "text_delta", "text"), "<3");
    assert_eq!(stop_reason(&all), "end_turn");
    let all = message(true, &[answer("<thinking>\nabc</thinking>\n\n")]);
    assert_eq!(text_of(&all, "text_delta", "text"), " ");
    assert_eq!(stop_reason(&all), "max_tokens");
}

#[test]
fn calls_in_the_middle_of_a_line_are_not_run() {
    let block = r#"<invoke name="exec"></invoke>"#;
    let whole = format!("see {block}{block}");
    for events in [
        vec![answer(&whole)],
        vec![answer("see "), answer(block), answer(block)],
        vec![answer(&format!("see {block}")), answer(block)],
    ] {
        let all = message(false, &events);
        assert_eq!(text_of(&all, "text_delta", "text"), whole);
        assert!(all.iter().all(|e| data(e)["content_block"]["type"] != "tool_use"));
    }
    let all = message(false, &[answer("see\n"), answer(block), answer(block)]);
    assert_eq!(text_of(&all, "text_delta", "text"), "see\n");
}

fn calls_run(events: &[SseEvent]) -> usize {
    events
        .iter()
        .filter(|e| data(e)["content_block"]["type"] == "tool_use")
        .count()
}

#[test]
fn the_rest_of_a_line_begun_before_is_kept() {
    let block = r#"<invoke name="exec"></invoke>"#;
    for (first, second, text, runs) in [
        ("", format!("call\n{block}"), "".to_string(), 1),
        ("ca", format!("ll\n{block}"), "call\n".to_string(), 1),
        ("ca", format!("ll\n\ncount\n{block}"), "call\n\n".to_string(), 1),
        ("ca", format!("ll{block}"), format!("call{block}"), 0),
        ("call", block.to_string(), "call".to_string(), 1),
        ("call", format!("\ncard\n{block}"), "call\n".to_string(), 1),
        (
            "call",
            format!("\n{block}```\n{block}"),
            format!("call\n```\n{block}"),
            1,
        ),
    ] {
        let all = message(false, &[answer(first), answer(&second)]);
        assert_eq!(text_of(&all, "text_delta", "text"), text);
        assert_eq!(calls_run(&all), runs);
    }
}

#[test]
fn text_is_drained_whole_where_no_tools_are_declared() {
    let text = "a <b\n<invoke name=\"exec\"></invoke>\n```\n<invoke name=\"exec\">\n<inv";
    let chars: Vec<char> = text.chars().collect();
    for step in 1..=chars.len() {
        let mut ctx =
            StreamContext::new_with_thinking("m", 1, false, NameMap::new(), NameSet::new());
        ctx.generate_initial_events();
        let mut all: Vec<SseEvent> = Vec::new();
        for piece in chars.chunks(step) {
            all.extend(ctx.create_text_delta_events(&piece.iter().collect::<String>()));
        }
        all.extend(ctx.drain_invoke_sniff_buffer(true));
        assert_eq!(text_of(&all, "text_delta", "text"), text);
        assert_eq!(calls_run(&all), 0);
        assert_eq!(ctx.invoke_sniff_buffer, "");
    }
}

#[test]
fn what_is_held_back_is_looked_through_again() {
    let mut ctx = StreamContext::new_with_thinking("m", 1, false, NameMap::new(), known());
    ctx.generate_initial_events();
    let first = ctx.create_text_delta_events("x\n<invoke name=\"exec\">");
    assert_eq!(text_of(&first, "text_delta", "text"), "x\n");
    assert!(ctx.drain_invoke_sniff_buffer(false).is_empty());
    assert_eq!(ctx.invoke_sniff_buffer, "<invoke name=\"exec\">");
    let rest = ctx.drain_invoke_sniff_buffer(true);
    assert_eq!(text_of(&rest, "text_delta", "text"), "<invoke name=\"exec\">");
}

#[test]
fn nothing_but_stops_follows_a_failure() {
    let mut ctx = StreamContext::new_with_thinking("m", 1, false, NameMap::new(), known());
    ctx.generate_initial_events();
    ctx.generate_error_events("upstream_error", "cut off");
    assert!(ctx.generate_final_events().is_empty());
}

#[test]
fn failures_are_in_order_and_come_last() {
    let mut ctx = StreamContext::new_with_thinking("m", 1, true, NameMap::new(), known());
    let mut all = ctx.generate_initial_events();
    all.extend(ctx.process_kiro_event(&thought("a")));
    all.extend(ctx.generate_error_events("upstream_error", "cut off"));
    assert_in_order(&all);
    let last = data(all.last().unwrap());
    assert_eq!(last["error"]["type"], "upstream_error");
    assert_eq!(last["error"]["message"], "cut off");
}

#[test]
fn a_call_that_cannot_be_read_ends_the_message_with_an_error() {
    let all = message(false, &[call("t1", "{", true)]);
    assert_eq!(all.last().unwrap().event, "error");
    let mut ctx = StreamContext::new_with_thinking("m", 1, false, NameMap::new(), known());
    assert_eq!(ctx.tool_json_error_message(), None);
    ctx.process_kiro_event(&call("t1", "{", true));
    let message = ctx.tool_json_error_message().unwrap();
    assert!(message.starts_with("Upstream returned invalid JSON for tool_use t1 (exec): "));
}

#[test]
fn text_arrives_however_it_is_cut() {
    let text = "a < b and <b>bold</b>, invoke `x`, <tool> \u{4e2d}\u{6587}\n```\ncode\n```\n<";
    let chars: Vec<char> = text.chars().collect();
    for thinking in [false, true] {
        for step in 1..=chars.len() {
            let mut events: Vec<Event> = chars
                .chunks(step)
                .map(|c| answer(&c.iter().collect::<String>()))
                .collect();
            events.insert(1, call("t1", "{}", true));
            let all = message(thinking, &events);
            assert_eq!(text_of(&all, "text_delta", "text"), text);
        }
    }
}

#[test]
fn calls_in_the_text_are_text_where_no_tools_are_declared() {
    let text = "x\n<invoke name=\"exec\"></invoke>\n<invoke name=\"exec\">";
    let all = message_with(false, NameSet::new(), &[answer(text)]);
    assert_eq!(text_of(&all, "text_delta", "text"), text);
    let all = message(false, &[answer(text)]);
    assert_eq!(text_of(&all, "text_delta", "text"), "x\n\n<invoke name=\"exec\">");
}

#[test]
fn calls_arrive_with_their_arguments() {
    let all = message(false, &[call("t1", "{\"b\": 1,", false), call("t1", "\"a\": []}", true)]);
    assert_eq!(text_of(&all, "input_json_delta", "partial_json"), "{\"a\":[],\"b\":1}");
    let start = all
        .iter()
        .map(|e| data(e))
        .find(|d| d["content_block"]["type"] == "tool_use")
        .unwrap();
    assert_eq!(start["content_block"]["id"], "t1");
    assert_eq!(start["content_block"]["name"], "exec");
    assert_eq!(start["content_block"]["input"], Value::Object(serde_json::Map::new()));
}

#[test]
fn thinking_arrives_however_it_is_cut() {
    let text = "<thinking>\nfirst, a < b\nthen c</thinking>\n\nthe answer";
    let chars: Vec<char> = text.chars().collect();
    for step in 1..=chars.len() {
        let events: Vec<Event> = chars
            .chunks(step)
            .map(|c| answer(&c.iter().collect::<String>()))
            .collect();
        let all = message(true, &events);
        assert_in_order(&all);
        assert_eq!(
            text_of(&all, "thinking_delta", "thinking"),
            "first, a < b\nthen c"
        );
        assert_eq!(text_of(&all, "text_delta", "text"), "the answer");
    }
}

#[test]
fn exceptions_and_full_contexts_give_the_reason_to_stop() {
    let reason = |event: Event| {
        let all = message(false, &[event]);
        let delta = all.iter().find(|e| e.event == "message_delta").unwrap();
        data(delta)["delta"]["stop_reason"].as_str().unwrap().to_string()
    };
    let exception = |kind: &str| Event::Exception {
        exception_type: kind.to_string(),
        message: String::new(),
    };
    assert_eq!(reason(exception("ContentLengthExceededException")), "max_tokens");
    assert_eq!(reason(exception("ThrottlingException")), "end_turn");
    let full = |exceeded| Event::ContextUsage {
        input_tokens: 5,
        exceeded,
    };
    assert_eq!(reason(full(true)), "model_context_window_exceeded");
    assert_eq!(reason(full(false)), "end_turn");
    assert_eq!(reason(Event::Unknown), "end_turn");
}

#[test]
fn buffered_messages_open_with_the_final_counts() {
    let mut ctx = BufferedStreamContext::new("m", 100, false, NameMap::new(), known());
    ctx.set_cache_usage(CacheUsage {
        cache_read: 25,
        cache_covered_est: 50,
        prompt_total_est: 100,
    });
    ctx.process_and_buffer(&answer("hello"));
    ctx.process_and_buffer(&Event::ContextUsage {
        input_tokens: 80,
        exceeded: false,
    });
    ctx.process_and_buffer(&Event::Metering(MeteringEvent {
        unit: "credit".to_string(),
        unit_plural: "credits".to_string(),
        usage: Json::of_int(2),
    }));
    let all = ctx.finish_and_get_all_events();
    assert_in_order(&all);
    let usage = &data(&all[0])["message"]["usage"];
    assert_eq!(usage["input_tokens"], 40);
    assert_eq!(usage["cache_creation_input_tokens"], 20);
    assert_eq!(usage["cache_read_input_tokens"], 20);
    let (input, output, creation, read, credits) = ctx.final_usage();
    assert_eq!((input, creation, read), (40, 20, 20));
    assert_eq!(output, 2);
    assert_eq!(credits.len(), 1);
    assert_eq!(credits[0].to_text(), "2");
    assert_eq!(ctx.tool_json_error_message(), None);
}

#[test]
fn the_end_does_not_change_what_is_charged() {
    let mut ctx = StreamContext::new_with_thinking("m", 7, false, NameMap::new(), known());
    ctx.generate_initial_events();
    ctx.process_kiro_event(&Event::Metadata {
        token_usage: Some(TokenUsage {
            uncached_input_tokens: 3,
            output_tokens: 11,
            cache_read_input_tokens: 7,
            cache_write_input_tokens: 4,
        }),
    });
    ctx.process_kiro_event(&answer("held back <"));
    let before = ctx.resolved_usage();
    ctx.generate_final_events();
    assert_eq!(ctx.resolved_usage(), before);
    assert_eq!(ctx.resolved_output_tokens(), 11);
}
