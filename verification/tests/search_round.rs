use kiro_rs::json::Json;
use kiro_rs::names::{NameMap, NameSet};
use kiro_rs::search_round::{
    empty_tool_result_disposition, is_no_results_mcp_error, EmptyToolResultDisposition, Message,
    RoundOutcome, SettlementStatus, WebSearchUsageSettlement,
    MAX_EMPTY_TOOL_RESULT_RETRIES,
};
use kiro_rs::tokens::{estimate_tokens, TokenUsage};
use kiro_rs::tool_json::CompletedToolUse;
use serde_json::Value;

fn json(text: &str) -> Json {
    Json::parse(text).unwrap()
}

fn shown(json: &Json) -> Value {
    serde_json::from_str(&json.to_text()).unwrap()
}

fn sum(rounds: &[Vec<Json>]) -> f64 {
    rounds.iter().flatten().map(|a| shown(a).as_f64().unwrap()).sum()
}

fn tu(name: &str) -> CompletedToolUse {
    CompletedToolUse {
        id: format!("toolu_{}", name),
        name: name.to_string(),
        input: json(r#"{"query": "rust 2026"}"#),
    }
}

fn round_outcome(text: &str, tool_uses: Vec<CompletedToolUse>) -> RoundOutcome {
    RoundOutcome {
        text: text.to_string(),
        thinking: String::new(),
        tool_uses,
        context_input_tokens: None,
        provider_token_usage: None,
        credits: Vec::new(),
        last_metering: None,
        stop_reason_override: None,
        stream_error: None,
        known_tool_names: NameSet::new(),
        tool_name_map: NameMap::new(),
    }
}

fn payload_with_last_block(block: Json) -> Vec<Message> {
    vec![Message {
        role: "user".to_string(),
        content: Json::array(vec![block]),
    }]
}

#[test]
fn no_results_mcp_error_is_nonfatal() {
    assert!(is_no_results_mcp_error(
        "MCP error: -32602 - Tool returned no results"
    ));
    assert!(!is_no_results_mcp_error(
        "MCP error: -32602 - Invalid tool parameters provided"
    ));
}

#[test]
fn empty_round_after_tool_result_retries_once_then_fails() {
    let payload = payload_with_last_block(json(r#"{ "type": "tool_result", "tool_use_id": "call_1", "content": "done" }"#));
    assert_eq!(
        empty_tool_result_disposition(&payload, &round_outcome("", vec![]), 0),
        EmptyToolResultDisposition::Retry
    );
    assert_eq!(
        empty_tool_result_disposition(
            &payload,
            &round_outcome("", vec![]),
            MAX_EMPTY_TOOL_RESULT_RETRIES,
        ),
        EmptyToolResultDisposition::Fail
    );
}

#[test]
fn text_or_tool_call_after_tool_result_is_not_retried() {
    let payload = payload_with_last_block(json(r#"{ "type": "tool_result", "tool_use_id": "call_1", "content": "done" }"#));
    assert_eq!(
        empty_tool_result_disposition(&payload, &round_outcome("finished", vec![]), 0),
        EmptyToolResultDisposition::Accept
    );
    assert_eq!(
        empty_tool_result_disposition(&payload, &round_outcome("", vec![tu("exec")]), 0),
        EmptyToolResultDisposition::Accept
    );
}

#[test]
fn empty_initial_round_is_not_misclassified_as_tool_continuation() {
    let payload = payload_with_last_block(json(r#"{"type": "text", "text": "hello"}"#));
    assert_eq!(
        empty_tool_result_disposition(&payload, &round_outcome("", vec![]), 0),
        EmptyToolResultDisposition::Accept
    );
}

#[test]
fn whitespace_and_reasoning_only_after_tool_result_is_retried() {
    let payload = payload_with_last_block(json(r#"{ "type": "tool_result", "tool_use_id": "call_1", "content": "done" }"#));
    let mut round = round_outcome(" \n\t", vec![]);
    round.thinking = "hidden reasoning without a client-visible continuation".to_string();
    assert_eq!(
        empty_tool_result_disposition(&payload, &round, 0),
        EmptyToolResultDisposition::Retry
    );
}

#[test]
fn terminal_limit_reason_after_tool_result_is_not_retried() {
    let payload = payload_with_last_block(json(r#"{ "type": "tool_result", "tool_use_id": "call_1", "content": "done" }"#));
    let mut round = round_outcome("", vec![]);
    round.stop_reason_override = Some("max_tokens".to_string());
    assert_eq!(
        empty_tool_result_disposition(&payload, &round, 0),
        EmptyToolResultDisposition::Accept
    );
}

#[test]
fn only_the_last_message_determines_tool_continuation() {
    let mut payload = payload_with_last_block(json(r#"{ "type": "tool_result", "tool_use_id": "call_1", "content": "done" }"#));
    payload.push(Message {
        role: "user".to_string(),
        content: json(r#"[{"type": "text", "text": "new user turn"}]"#),
    });
    assert_eq!(
        empty_tool_result_disposition(&payload, &round_outcome("", vec![]), 0),
        EmptyToolResultDisposition::Accept
    );
}

#[test]
fn round_usage_prefers_provider_and_mixed_rounds_accumulate_each_category() {
    let mut provider_round = round_outcome("ignored fallback output", vec![]);
    provider_round.context_input_tokens = Some(999);
    provider_round.provider_token_usage = Some(TokenUsage {
        uncached_input_tokens: 3,
        output_tokens: 5,
        cache_read_input_tokens: 7,
        cache_write_input_tokens: 4,
    });
    let provider_usage = provider_round.resolved_token_usage(888, estimate_tokens("ignored fallback output"));
    assert_eq!(
        provider_usage,
        TokenUsage {
            uncached_input_tokens: 3,
            output_tokens: 5,
            cache_read_input_tokens: 7,
            cache_write_input_tokens: 4,
        }
    );

    let mut fallback_round = round_outcome("fallback output", vec![]);
    fallback_round.context_input_tokens = Some(20);
    let fallback_usage = fallback_round.resolved_token_usage(500, estimate_tokens("fallback output"));
    assert_eq!(fallback_usage.uncached_input_tokens, 20);
    assert_eq!(fallback_usage.cache_write_input_tokens, 0);
    assert_eq!(fallback_usage.cache_read_input_tokens, 0);
    assert!(fallback_usage.output_tokens > 0);

    let total = provider_usage.saturating_add(fallback_usage);
    assert_eq!(total.uncached_input_tokens, 23);
    assert_eq!(total.output_tokens, 5 + fallback_usage.output_tokens);
    assert_eq!(total.cache_write_input_tokens, 4);
    assert_eq!(total.cache_read_input_tokens, 7);
}

#[test]
fn aggregated_trace_usage_matches_websearch_usage_and_sanitizes_values() {
    let mut settlement = WebSearchUsageSettlement::new();
    settlement.add(
        7,
        TokenUsage {
            uncached_input_tokens: 3,
            output_tokens: 5,
            cache_read_input_tokens: 7,
            cache_write_input_tokens: 4,
        },
        &vec![json("0.125")],
    );
    let trace = settlement.finish(SettlementStatus::Success, None).unwrap();
    assert_eq!(trace.usage.uncached_input_tokens, 3);
    assert_eq!(trace.usage.output_tokens, 5);
    assert_eq!(trace.usage.cache_write_input_tokens, 4);
    assert_eq!(trace.usage.cache_read_input_tokens, 7);
    assert_eq!(sum(&trace.credits), 0.125);

    let mut settlement = WebSearchUsageSettlement::new();
    settlement.add(
        7,
        TokenUsage {
            uncached_input_tokens: -1,
            output_tokens: -2,
            cache_read_input_tokens: -3,
            cache_write_input_tokens: -4,
        },
        &vec![],
    );
    let sanitized = settlement.finish(SettlementStatus::Success, None).unwrap();
    assert_eq!(sanitized.usage.uncached_input_tokens, 0);
    assert_eq!(sanitized.usage.output_tokens, 0);
    assert_eq!(sanitized.usage.cache_write_input_tokens, 0);
    assert_eq!(sanitized.usage.cache_read_input_tokens, 0);
    assert_eq!(sum(&sanitized.credits), 0.0);
}

#[test]
fn receiver_disconnect_settles_accumulated_usage_once() {
    let mut settlement = WebSearchUsageSettlement::new();
    settlement.add(
        7,
        TokenUsage {
            uncached_input_tokens: 3,
            output_tokens: 5,
            cache_read_input_tokens: 7,
            cache_write_input_tokens: 4,
        },
        &vec![json("0.75")],
    );
    let record = settlement.cancel().unwrap();
    assert!(record.status != SettlementStatus::Success);
    assert_eq!(record.usage.uncached_input_tokens, 3);
    assert_eq!(record.usage.output_tokens, 5);
    assert_eq!(sum(&record.credits), 0.75);
    assert!(settlement.cancel().is_none());
}
