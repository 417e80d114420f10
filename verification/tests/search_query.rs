use kiro_rs::json::Json;
use kiro_rs::search_query::{normalized_query_value, tool_query};
use kiro_rs::tool_json::CompletedToolUse;

fn json(text: &str) -> Json {
    Json::parse(text).unwrap()
}

fn tu_with_input(input: Json) -> CompletedToolUse {
    CompletedToolUse {
        id: "toolu_web_search".to_string(),
        name: "web_search".to_string(),
        input,
    }
}

#[test]
fn tool_query_normalizes_supported_input_shapes() {
    assert_eq!(
        tool_query(&tu_with_input(json(r#"{"query": "  rust 2026  "}"#))),
        Some("rust 2026".to_string())
    );
    assert_eq!(
        tool_query(&tu_with_input(json(r#"{"search_query": "南京演唱会"}"#))),
        Some("南京演唱会".to_string())
    );
    assert_eq!(
        tool_query(&tu_with_input(json(r#"{"queries": ["", "上海天气"]}"#))),
        Some("上海天气".to_string())
    );
    assert_eq!(
        tool_query(&tu_with_input(json(r#"{"query": {"text": "Paris weather"}}"#))),
        Some("Paris weather".to_string())
    );
}

#[test]
fn tool_query_rejects_missing_or_non_string_input() {
    assert_eq!(tool_query(&tu_with_input(json(r#"{"query": "   "}"#))), None);
    assert_eq!(tool_query(&tu_with_input(json(r#"{"query": 42}"#))), None);
    assert_eq!(tool_query(&tu_with_input(json(r#"{"other": true}"#))), None);
}

#[test]
fn queries_are_found_in_lists_and_objects() {
    for (value, query) in [
        (r#"" a ""#, Some("a")),
        (r#"[[], {"x": 1}, {"q": ["", " b"]}]"#, Some("b")),
        (r#"{"value": "v", "text": "t"}"#, Some("t")),
        (r#"{"queries": ["q"]}"#, None),
        ("true", None),
        (r#""""#, None),
    ] {
        assert_eq!(normalized_query_value(&json(value)).as_deref(), query);
    }
}

#[test]
fn queries_that_were_trimmed_stay() {
    let once = normalized_query_value(&json(r#"["\t one two \n"]"#)).unwrap();
    assert_eq!(once, "one two");
    assert_eq!(normalized_query_value(&Json::text(&once)), Some(once));
}
