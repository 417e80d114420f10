use kiro_rs::endpoint::payload::{apply_payload_model_id, transform_streaming_payload};
use kiro_rs::endpoint::refusal::{
    account_suspended_in, account_throttled_in, client_validation_error_in,
    default_is_account_suspended, default_is_account_throttled, default_is_bearer_token_invalid,
    default_is_client_validation_error, default_is_gateway_timeout,
    default_is_monthly_request_limit, monthly_request_limit_in,
};
use kiro_rs::json::Json;

#[test]
fn test_default_monthly_request_limit_detects_reason() {
    let body = r#"{"message":"You have reached the limit.","reason":"MONTHLY_REQUEST_COUNT"}"#;
    assert!(default_is_monthly_request_limit(body));
}

#[test]
fn test_default_monthly_request_limit_nested_reason() {
    let body = r#"{"error":{"reason":"MONTHLY_REQUEST_COUNT"}}"#;
    assert!(default_is_monthly_request_limit(body));
}

#[test]
fn test_default_monthly_request_limit_false() {
    let body = r#"{"message":"nope","reason":"DAILY_REQUEST_COUNT"}"#;
    assert!(!default_is_monthly_request_limit(body));
}

#[test]
fn test_default_quota_exhausted_overage() {
    let body = r#"{"message":"You have reached the limit for overages.","reason":"OVERAGE_REQUEST_LIMIT_EXCEEDED"}"#;
    assert!(default_is_monthly_request_limit(body));
}

#[test]
fn test_default_quota_exhausted_overage_nested() {
    let body = r#"{"error":{"reason":"OVERAGE_REQUEST_LIMIT_EXCEEDED"}}"#;
    assert!(default_is_monthly_request_limit(body));
}

#[test]
fn test_default_quota_exhausted_substring_does_not_false_match() {
    let body = r#"{"message":"some text MONTHLY_REQUEST_COUNT-like phrase","reason":"OTHER"}"#;
    assert!(!default_is_monthly_request_limit(body));
}

#[test]
fn test_default_bearer_token_invalid() {
    assert!(default_is_bearer_token_invalid(
        "The bearer token included in the request is invalid"
    ));
    assert!(!default_is_bearer_token_invalid("unrelated error"));
}

#[test]
fn test_default_is_account_suspended() {
    let body = r#"{"message":"Your User ID (736048611274) temporarily is suspended. We've locked your account as a security precaution. To restore access, please contact our support team to verify your identity: https://aws.amazon.com/contact-us/","reason":null}"#;
    assert!(default_is_account_suspended(body));

    assert!(default_is_account_suspended(
        "Account SUSPENDED. We've LOCKED YOUR ACCOUNT."
    ));

    assert!(!default_is_account_suspended(
        r#"{"message":"User is not authorized to perform this action","reason":null}"#
    ));
    assert!(!default_is_account_suspended("your account is suspended"));
    assert!(!default_is_account_suspended(
        "we have locked your account temporarily"
    ));

    assert!(default_is_account_suspended(
        r#"{"reason":"TEMPORARILY_SUSPENDED"}"#
    ));
    assert!(default_is_account_suspended(
        r#"{"error":{"reason":"temporarily_suspended"}}"#
    ));
}

#[test]
fn test_default_is_account_throttled() {
    let body = r#"{"message":"Due to suspicious activity, we are imposing temporary limits on how frequently your account (d-9067c98495.84f894a8) can send a request to Kiro while we investigate.","reason":null}"#;
    assert!(default_is_account_throttled(body));
    assert!(!default_is_account_throttled(
        "{\"message\":\"Too many requests\"}"
    ));
    assert!(!default_is_account_throttled(
        "suspicious activity detected"
    ));

    assert!(default_is_account_throttled(
        r#"{"reason":"USER_REQUEST_RATE_EXCEEDED"}"#
    ));
    assert!(default_is_account_throttled(
        r#"{"error":{"reason":"SERVICE_REQUEST_RATE_EXCEEDED"}}"#
    ));
    assert!(!default_is_account_throttled(
        r#"{"message":"trace mentions USER_REQUEST_RATE_EXCEEDED","reason":"OTHER"}"#
    ));
}

#[test]
fn endpoint_payloads_are_rebuilt_from_the_original_body() {
    let original = r#"{
        "conversationState": {
            "currentMessage": {"userInputMessage": {"origin": "AI_EDITOR", "modelId": "friendly"}},
            "history": [{"userInputMessage": {"origin": "AI_EDITOR", "modelId": "friendly"}}]
        }
    }"#;

    let codewhisperer = apply_payload_model_id(original, "internal-model-id");
    let runtime = transform_streaming_payload(
        original,
        &Some("arn:aws:codewhisperer:us-east-1:123:profile/test".to_string()),
        "AI_EDITOR",
        false,
    );
    let codewhisperer: serde_json::Value = serde_json::from_str(&codewhisperer).unwrap();
    let runtime: serde_json::Value = serde_json::from_str(&runtime).unwrap();

    assert_eq!(
        codewhisperer["conversationState"]["currentMessage"]["userInputMessage"]["modelId"],
        "internal-model-id"
    );
    assert_eq!(
        runtime["conversationState"]["currentMessage"]["userInputMessage"]["modelId"],
        "friendly"
    );
    assert_eq!(
        runtime["conversationState"]["history"][0]["userInputMessage"]["modelId"],
        "friendly"
    );
}

#[test]
fn test_default_is_gateway_timeout() {
    assert!(default_is_gateway_timeout(
        "API Error: 524 status code (no body). This is a server-side issue"
    ));
    assert!(default_is_gateway_timeout("524 Gateway Timeout"));
    assert!(!default_is_gateway_timeout(
        r#"{"message":"some unrelated field mentions 524 tokens"}"#
    ));
}

#[test]
fn test_default_is_client_validation_error() {
    assert!(default_is_client_validation_error(
        r#"{"reason":"TOOL_USE_RESULT_MISMATCH"}"#
    ));
    assert!(default_is_client_validation_error(
        r#"{"error":{"reason":"TOOL_USE_RESULT_MISMATCH"}}"#
    ));
    assert!(default_is_client_validation_error(
        "upstream error: TOOL_USE_RESULT_MISMATCH"
    ));
    assert!(default_is_client_validation_error(
        r#"{"__type":"ValidationException","message":"input_schema does not support oneOf, allOf, or anyOf at the top level","reason":"TOOL_SCHEMA_INVALID"}"#
    ));
    assert!(default_is_client_validation_error(
        "Expected toolResult blocks but found none"
    ));

    assert!(!default_is_client_validation_error(
        r#"{"message":"Internal server error"}"#
    ));
    assert!(!default_is_client_validation_error(
        "connection reset by peer"
    ));
    assert!(!default_is_client_validation_error(
        r#"{"message":"trace mentions TOOL_USE_RESULT_MISMATCH internally","reason":"INTERNAL_SERVER_ERROR"}"#
    ));
    assert!(!default_is_client_validation_error(
        r#"{"__type":"ValidationException","message":"some other validation"}"#
    ));
}

#[test]
fn cli_payload_sets_origin_and_strips_unsupported_state() {
    let body = r#"{
        "conversationState": {
            "agentContinuationId": "continue",
            "agentTaskType": "vibe",
            "currentMessage": {"userInputMessage": {"origin": "AI_EDITOR"}},
            "history": [{"userInputMessage": {"origin": "AI_EDITOR", "modelId": "friendly"}}]
        }
    }"#;
    let result = transform_streaming_payload(body, &Some("arn:test".to_string()), "CLI", true);
    let value: serde_json::Value = serde_json::from_str(&result).unwrap();
    let state = &value["conversationState"];
    assert!(state.get("agentContinuationId").is_none());
    assert!(state.get("agentTaskType").is_none());
    assert_eq!(state["currentMessage"]["userInputMessage"]["origin"], "CLI");
    assert_eq!(state["history"][0]["userInputMessage"]["origin"], "CLI");
    assert_eq!(state["history"][0]["userInputMessage"]["modelId"], "friendly");
    assert_eq!(value["profileArn"], "arn:test");
}

#[test]
fn transforming_twice_is_transforming_once() {
    let body = r#"{
        "other": [1, 2],
        "conversationState": {
            "agentContinuationId": "continue",
            "currentMessage": {"userInputMessage": {"origin": "AI_EDITOR"}},
            "history": [
                {"userInputMessage": {"content": "a"}},
                {"assistantResponseMessage": {"content": "b"}},
                7
            ]
        }
    }"#;
    let arn = Some("arn:test".to_string());
    let once = transform_streaming_payload(body, &arn, "CLI", true);
    assert_eq!(transform_streaming_payload(&once, &arn, "CLI", true), once);
    let value: serde_json::Value = serde_json::from_str(&once).unwrap();
    assert_eq!(value["other"][1], 2);
    assert_eq!(value["conversationState"]["history"][0]["userInputMessage"]["origin"], "CLI");
    assert!(value["conversationState"]["history"][1].get("userInputMessage").is_none());
    assert_eq!(value["conversationState"]["history"][2], 7);
}

#[test]
fn the_model_is_set_once_and_at_any_time() {
    let body = r#"{
        "conversationState": {
            "agentTaskType": "vibe",
            "currentMessage": {"userInputMessage": {"content": "a"}},
            "history": [{"userInputMessage": {"modelId": "old"}}, 7]
        }
    }"#;
    let once = apply_payload_model_id(body, "m");
    assert_eq!(
        once,
        r#"{"conversationState":{"agentTaskType":"vibe","currentMessage":{"userInputMessage":{"content":"a","modelId":"m"}},"history":[{"userInputMessage":{"modelId":"m"}},7]}}"#
    );
    assert_eq!(apply_payload_model_id(&once, "m"), once);
    assert_eq!(
        apply_payload_model_id(&once, "n"),
        apply_payload_model_id(body, "n")
    );
    let arn = Some("arn:test".to_string());
    for strip in [false, true] {
        assert_eq!(
            apply_payload_model_id(&transform_streaming_payload(body, &arn, "CLI", strip), "m"),
            transform_streaming_payload(&once, &arn, "CLI", strip)
        );
    }
}

#[test]
fn bodies_without_a_conversation_are_kept() {
    assert_eq!(apply_payload_model_id("not json", "m"), "not json");
    assert_eq!(apply_payload_model_id("[1]", "m"), "[1]");
    assert_eq!(apply_payload_model_id(r#"{"conversationState":3}"#, "m"), r#"{"conversationState":3}"#);
    assert_eq!(
        transform_streaming_payload(r#"{"a":1}"#, &None, "CLI", true),
        r#"{"a":1}"#
    );
    assert_eq!(
        transform_streaming_payload("[1]", &Some("arn".to_string()), "CLI", true),
        "[1]"
    );
}

#[test]
fn refusals_are_read_from_what_the_body_means() {
    let read = Json::parse(r#"{"error":{"reason":"MONTHLY_REQUEST_COUNT"}}"#);
    assert!(monthly_request_limit_in("MONTHLY_REQUEST_COUNT", &read));
    assert!(!monthly_request_limit_in("quota", &read));
    assert!(monthly_request_limit_in(
        "MONTHLY_REQUEST_COUNT",
        &Err("expected value".to_string())
    ));
    let rate = Json::parse(r#"{"reason":"SERVICE_REQUEST_RATE_EXCEEDED"}"#);
    assert!(account_throttled_in("", &rate));
    assert!(!account_throttled_in("", &Err(String::new())));
    let suspended = Json::parse(r#"{"reason":"Temporarily_Suspended"}"#);
    assert!(account_suspended_in("", &suspended));
    assert!(!account_suspended_in("", &rate));
    let schema = Json::parse(r#"{"reason":"TOOL_SCHEMA_INVALID"}"#);
    assert!(client_validation_error_in("TOOL_SCHEMA_INVALID", &schema));
    assert!(!client_validation_error_in("", &schema));
    assert!(client_validation_error_in(
        "Expected toolResult blocks",
        &rate
    ));
}
