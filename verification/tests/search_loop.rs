use kiro_rs::json::Json;
use kiro_rs::names::{NameMap, NameSet};
use kiro_rs::search_content::{WebSearchResult, WebSearchResults};
use kiro_rs::search_events::response_error_details;
use kiro_rs::search_loop::{SearchLoop, SearchStep, Turn};
use kiro_rs::search_round::{
    conversion_failure, provider_failure, serialization_failure, stream_failure, ConversionError,
    Message, RoundDecoder, RoundOutcome, SettlementStatus, TraceOutcome,
};
use kiro_rs::sse::{MeteringEvent, SseEvent};
use kiro_rs::stream::{Event, ReasoningContentEvent};
use kiro_rs::tokens::TokenUsage;
use kiro_rs::tool_json::ToolUseEvent;
use serde_json::Value;

fn shown(json: &Json) -> Value {
    serde_json::from_str(&json.to_text()).unwrap()
}

fn asked() -> Vec<Message> {
    vec![Message {
        role: "user".to_string(),
        content: Json::parse(r#"[{"type":"text","text":"what is new?"}]"#).unwrap(),
    }]
}

fn call(name: &str, id: &str, input: &str) -> Event {
    Event::ToolUse(ToolUseEvent {
        name: name.to_string(),
        tool_use_id: id.to_string(),
        input: input.to_string(),
        stop: true,
    })
}

fn answer(content: &str) -> Event {
    Event::AssistantResponse {
        content: content.to_string(),
    }
}

fn thought(text: &str) -> Event {
    Event::ReasoningContent(ReasoningContentEvent {
        text: Some(text.to_string()),
        signature: None,
        redacted_content: None,
    })
}

fn metered(amount: &str) -> Event {
    Event::Metering(MeteringEvent {
        unit: "credit".to_string(),
        unit_plural: "credits".to_string(),
        usage: Json::parse(amount).unwrap(),
    })
}

fn round_cut_off(events: &[Event], error: Option<&str>) -> RoundOutcome {
    let mut decoder = RoundDecoder::new();
    for event in events {
        decoder.read(event);
    }
    let mut known = NameSet::new();
    known.insert("exec");
    known.insert("web_search");
    decoder.finish(error.map(|e| e.to_string()), known, NameMap::new())
}

fn round(events: &[Event]) -> RoundOutcome {
    round_cut_off(events, None)
}

fn found() -> Option<WebSearchResults> {
    Some(WebSearchResults {
        results: vec![WebSearchResult {
            title: "T".to_string(),
            url: "https://example.com".to_string(),
            snippet: None,
            published_date: None,
        }],
    })
}

fn names(events: &[SseEvent]) -> Vec<&str> {
    events.iter().map(|e| e.event.as_str()).collect()
}

fn is_round(turn: &Turn) -> bool {
    matches!(turn.step, SearchStep::Round)
}

fn query_of(turn: &Turn) -> Option<String> {
    match &turn.step {
        SearchStep::Search { query } => query.clone(),
        _ => panic!("no search"),
    }
}

#[test]
fn searches_are_run_and_fed_back() {
    let mut search: SearchLoop = SearchLoop::new(asked(), true);
    let turn = search.take_round(
        round(&[
            thought("first"),
            answer("let me see"),
            metered("0.5"),
            call("web_search", "s1", r#"{"query":"rust"}"#),
            call("web_search", "s2", r#"{"other":1}"#),
        ]),
        7,
        100,
        10,
    );
    assert_eq!(query_of(&turn).as_deref(), Some("rust"));
    assert_eq!(names(&turn.events), vec!["content_block_start"]);
    assert!(turn.record.is_none());

    let turn = search.take_search(found(), "summary".to_string());
    assert_eq!(query_of(&turn), None);
    assert_eq!(
        names(&turn.events),
        vec![
            "content_block_stop",
            "content_block_start",
            "content_block_stop",
            "content_block_start"
        ]
    );

    let turn = search.take_search(None, "nothing".to_string());
    assert!(is_round(&turn));
    assert_eq!(search.messages.len(), 3);
    assert_eq!(search.messages[1].role, "assistant");
    let asked = shown(&search.messages[1].content);
    assert_eq!(asked[0]["text"], "let me see");
    assert_eq!(asked[1]["id"], "s1");
    assert_eq!(asked[2]["id"], "s2");
    let told = shown(&search.messages[2].content);
    assert_eq!(search.messages[2].role, "user");
    assert_eq!(told[0]["tool_use_id"], "s1");
    assert_eq!(told[0]["content"], "summary");
    assert_eq!(told[1]["content"], "nothing");

    let turn = search.take_round(
        round(&[thought("second"), answer("the answer"), metered("0.25")]),
        0,
        200,
        20,
    );
    let record = turn.record.unwrap();
    assert_eq!(record.credential_id, 7);
    assert!(record.status == SettlementStatus::Success);
    assert_eq!(record.usage.uncached_input_tokens, 300);
    assert_eq!(record.usage.output_tokens, 30);
    let charged: Vec<Vec<String>> = record
        .credits
        .iter()
        .map(|r| r.iter().map(|c| c.to_text()).collect())
        .collect();
    assert_eq!(charged, vec![vec!["0.5".to_string()], vec!["0.25".to_string()]]);
    let SearchStep::Done(done) = turn.step else {
        panic!("not done");
    };
    assert_eq!(done.stop_reason, "end_turn");
    assert_eq!(done.thinking, "first\n\nsecond");
    assert_eq!(done.usage.uncached_input_tokens, 300);
    assert_eq!(done.metering.unwrap().usage.to_text(), "0.25");
    let types: Vec<String> = done
        .content
        .iter()
        .map(|b| b.get_text("type").unwrap().clone())
        .collect();
    assert_eq!(
        types,
        vec![
            "server_tool_use",
            "web_search_tool_result",
            "server_tool_use",
            "web_search_tool_result",
            "text"
        ]
    );
    assert_eq!(
        names(&turn.events),
        vec![
            "content_block_start",
            "content_block_delta",
            "content_block_stop",
            "message_delta",
            "message_stop"
        ]
    );
    assert!(search.settlement.cancel().is_none());
}

#[test]
fn calls_of_other_tools_end_the_loop() {
    let mut search: SearchLoop = SearchLoop::new(asked(), false);
    let turn = search.take_round(
        round(&[
            call("exec", "t1", r#"{"cmd":"ls"}"#),
            call("web_search", "s1", r#"{"query":"rust"}"#),
        ]),
        7,
        100,
        10,
    );
    assert_eq!(query_of(&turn).as_deref(), Some("rust"));
    assert!(turn.events.is_empty());
    let turn = search.take_search(found(), "summary".to_string());
    let SearchStep::Done(done) = turn.step else {
        panic!("not done");
    };
    assert!(turn.events.is_empty());
    assert_eq!(done.stop_reason, "tool_use");
    assert_eq!(done.content.len(), 3);
    assert_eq!(shown(&done.content[0])["name"], "exec");
    assert_eq!(shown(&done.content[1])["type"], "server_tool_use");
    assert_eq!(shown(&done.content[2])["content"][0]["title"], "T");
}

#[test]
fn the_loop_ends_after_the_last_round() {
    let mut search: SearchLoop = SearchLoop::new(asked(), false);
    let mut rounds = 0;
    loop {
        rounds += 1;
        let turn = search.take_round(
            round(&[call("web_search", "s", r#"{"query":"again"}"#)]),
            1,
            1,
            1,
        );
        assert_eq!(query_of(&turn).as_deref(), Some("again"));
        let turn = search.take_search(None, String::new());
        match turn.step {
            SearchStep::Round => {}
            SearchStep::Done(done) => {
                assert_eq!(done.stop_reason, "end_turn");
                break;
            }
            _ => panic!("neither goes on nor ends"),
        }
    }
    assert_eq!(rounds, 6);
}

#[test]
fn an_empty_answer_to_a_tool_result_is_asked_for_once_more() {
    let messages = vec![Message {
        role: "user".to_string(),
        content: Json::parse(r#"[{"type":"tool_result","tool_use_id":"t","content":"x"}]"#)
            .unwrap(),
    }];
    let mut search: SearchLoop = SearchLoop::new(messages, true);
    let turn = search.take_round(round(&[thought("hidden")]), 3, 10, 1);
    assert!(is_round(&turn));
    assert!(turn.record.is_none());
    let turn = search.take_round(round(&[]), 3, 10, 1);
    match turn.step {
        SearchStep::Fail {
            status,
            error_type,
            message,
        } => {
            assert_eq!(status, 502);
            assert_eq!(error_type, "upstream_error");
            assert_eq!(
                message,
                "Upstream returned no assistant text or tool call after a tool result."
            );
        }
        _ => panic!("no failure"),
    }
    let record = turn.record.unwrap();
    assert!(record.status == SettlementStatus::Error);
    assert_eq!(record.usage.uncached_input_tokens, 20);
    assert_eq!(names(&turn.events), vec!["error"]);
}

#[test]
fn searches_that_fail_end_the_loop() {
    let mut search: SearchLoop = SearchLoop::new(asked(), true);
    search.take_round(
        round(&[call("web_search", "s1", r#"{"query":"rust"}"#)]),
        7,
        100,
        10,
    );
    let turn = search.fail_search(
        "MCP error: -1 - upstream unavailable",
        String::new(),
        502,
        "api_error",
        "search failed",
    );
    assert_eq!(names(&turn.events), vec!["content_block_stop", "error"]);
    let record = turn.record.unwrap();
    assert!(record.status == SettlementStatus::Error);
    let (outcome, message) = record.error.unwrap();
    assert!(outcome == TraceOutcome::LastAttempt);
    assert_eq!(message, "MCP error: -1 - upstream unavailable");
    match turn.step {
        SearchStep::Fail { status, .. } => assert_eq!(status, 502),
        _ => panic!("no failure"),
    }
}

#[test]
fn searches_that_find_nothing_do_not_end_the_loop() {
    let mut search: SearchLoop = SearchLoop::new(asked(), true);
    search.take_round(
        round(&[call("web_search", "s1", r#"{"query":"rust"}"#)]),
        7,
        100,
        10,
    );
    let turn = search.fail_search(
        "MCP error: -32602 - Tool returned no results",
        "none".to_string(),
        502,
        "api_error",
        "search failed",
    );
    assert!(is_round(&turn));
    assert_eq!(shown(&search.messages[2].content)[0]["content"], "none");
}

#[test]
fn a_search_that_was_not_asked_for_fails() {
    let mut search: SearchLoop = SearchLoop::new(asked(), false);
    let turn = search.take_search(None, String::new());
    match turn.step {
        SearchStep::Fail { status, message, .. } => {
            assert_eq!(status, 500);
            assert_eq!(message, "web_search loop exited unexpectedly");
        }
        _ => panic!("no failure"),
    }
}

#[test]
fn rounds_that_are_cut_off_fail_with_their_cost() {
    let cut = round_cut_off(&[answer("half"), metered("1.5")], Some("reset by peer"));
    let failure = stream_failure(&cut, 9, 100, 10).unwrap();
    assert_eq!(failure.status, 502);
    assert_eq!(failure.client_error, "upstream_error");
    assert!(failure.trace == TraceOutcome::StreamInterrupted);
    assert_eq!(failure.error_message, "reset by peer");
    assert_eq!(failure.credential_id, 9);
    assert_eq!(failure.token_usage.unwrap().uncached_input_tokens, 100);
    assert_eq!(failure.credits.len(), 1);
    assert!(stream_failure(&round(&[answer("whole")]), 9, 100, 10).is_none());

    let mut search: SearchLoop = SearchLoop::new(asked(), true);
    let turn = search.take_round(cut, 9, 100, 10);
    let record = turn.record.unwrap();
    assert_eq!(record.credential_id, 9);
    assert_eq!(record.usage.output_tokens, 10);
    assert_eq!(record.credits[0][0].to_text(), "1.5");
}

#[test]
fn failures_before_the_call_cost_nothing() {
    let failure = conversion_failure(&ConversionError::InvalidModel("x".to_string()));
    assert_eq!(failure.client_message, "invalid model id: x");
    assert_eq!(failure.status, 400);
    assert_eq!(
        conversion_failure(&ConversionError::EmptyMessages).client_message,
        "message list is empty"
    );
    assert_eq!(
        conversion_failure(&ConversionError::UnsupportedToolMapping("y".to_string()))
            .client_message,
        "unsupported tool mapping: y"
    );
    let failure = serialization_failure("depth");
    assert_eq!(failure.status, 500);
    assert_eq!(failure.client_message, "failed to serialize request: depth");
    assert!(failure.token_usage.is_none());
    let failure = provider_failure("timeout", 504, "api_error", "try again", -5);
    assert_eq!(failure.token_usage.unwrap().uncached_input_tokens, 0);
    let mut search: SearchLoop = SearchLoop::new(asked(), false);
    let turn = search.fail_round(&failure);
    assert_eq!(turn.record.unwrap().error.unwrap().1, "timeout");
}

#[test]
fn rounds_are_put_together_from_their_events() {
    let outcome = round(&[
        answer("a <tool_use x>"),
        answer("gone</tool_use>b"),
        call("exec", "t1", "{\"k\":"),
        call("", "t1", "1}"),
        call("exec", "t2", ""),
        call("exec", "t3", "not json"),
        Event::Metadata {
            token_usage: Some(TokenUsage {
                uncached_input_tokens: -1,
                output_tokens: 2,
                cache_read_input_tokens: 3,
                cache_write_input_tokens: 4,
            }),
        },
        Event::Metadata { token_usage: None },
        Event::Exception {
            exception_type: "ContentLengthExceededException".to_string(),
            message: String::new(),
        },
    ]);
    assert_eq!(outcome.text, "a b");
    let inputs: Vec<String> = outcome.tool_uses.iter().map(|t| t.input.to_text()).collect();
    assert_eq!(inputs, vec!["{\"k\":1}", "{}", "{}"]);
    assert_eq!(outcome.tool_uses[0].name, "exec");
    assert_eq!(outcome.resolved_token_usage(9, 9).uncached_input_tokens, 0);
    assert_eq!(outcome.stop_reason_override.as_deref(), Some("max_tokens"));
    assert_eq!(outcome.output_blocks().len(), 4);
}

#[test]
fn errors_are_read_from_responses() {
    assert_eq!(
        response_error_details(r#"{"error":{"type":"t","message":"m"}}"#, "502 Bad Gateway"),
        ("t".to_string(), "m".to_string())
    );
    assert_eq!(
        response_error_details("<html>", "502 Bad Gateway"),
        (
            "api_error".to_string(),
            "web_search agentic loop failed with HTTP 502 Bad Gateway".to_string()
        )
    );
}

#[test]
fn mcp_failure_maps_to_error_response_not_silent_success() {
    let mut search: SearchLoop = SearchLoop::new(asked(), false);
    search.take_round(
        round(&[call("web_search", "s1", r#"{"query":"rust"}"#)]),
        7,
        100,
        10,
    );
    let turn = search.fail_search(
        "MCP error: -1 - upstream unavailable",
        String::new(),
        502,
        "api_error",
        "MCP error: -1 - upstream unavailable",
    );
    match turn.step {
        SearchStep::Fail { status, .. } => {
            assert!(!(200..300).contains(&status));
            assert_eq!(status, 502);
        }
        _ => panic!("a failed search must not be passed off as a success"),
    }
}
