use kiro_rs::json::Json;
use kiro_rs::names::{NameMap, NameSet};
use kiro_rs::search_content::{
    build_flush_content, build_result_block, partition_tool_uses, resolve_flush_stop_reason,
    should_search_round, WebSearchResult, WebSearchResults, MAX_WEB_SEARCH_ROUNDS,
};
use kiro_rs::tool_json::CompletedToolUse;
use serde_json::Value;

fn json(text: &str) -> Json {
    Json::parse(text).unwrap()
}

fn shown(json: &Json) -> Value {
    serde_json::from_str(&json.to_text()).unwrap()
}

fn shown_all(blocks: &[Json]) -> Vec<Value> {
    blocks.iter().map(|b| shown(b)).collect()
}

fn flushed(
    presentation: Vec<Json>,
    text: &str,
    tool_uses: &Vec<CompletedToolUse>,
    searched: &Vec<Option<WebSearchResults>>,
    known_tool_names: &NameSet,
    tool_name_map: &NameMap,
) -> Vec<Value> {
    shown_all(&build_flush_content(
        presentation,
        text,
        tool_uses,
        searched,
        known_tool_names,
        tool_name_map,
    ))
}

fn tu(name: &str) -> CompletedToolUse {
    CompletedToolUse {
        id: format!("toolu_{}", name),
        name: name.to_string(),
        input: json(r#"{"query": "rust 2026"}"#),
    }
}

fn names(ns: &[&str]) -> NameSet {
    let mut known = NameSet::new();
    for n in ns {
        known.insert(n);
    }
    known
}

fn nomap() -> NameMap {
    NameMap::new()
}

fn fake_results(_query: &str) -> Option<WebSearchResults> {
    Some(WebSearchResults {
        results: vec![WebSearchResult {
            title: "T".to_string(),
            url: "https://example.com".to_string(),
            snippet: Some("snip".to_string()),
            published_date: None,
        }],
    })
}

fn leaks_literal_invoke(content: &[Value]) -> bool {
    content.iter().any(|c| {
        c["type"] == "text"
            && c["text"]
                .as_str()
                .map(|t| t.contains("<invoke name="))
                .unwrap_or(false)
    })
}

#[test]
fn round_with_only_web_search_continues() {
    let tools = vec![tu("web_search"), tu("web_search")];
    assert!(should_search_round(0, &tools));
    assert!(should_search_round(MAX_WEB_SEARCH_ROUNDS - 1, &tools));
}

#[test]
fn round_with_exec_does_not_enter_loop() {
    let mixed = vec![tu("web_search"), tu("exec")];
    assert!(!should_search_round(0, &mixed));
    let exec_only = vec![tu("exec")];
    assert!(!should_search_round(0, &exec_only));
}

#[test]
fn round_with_no_tool_use_does_not_enter_loop() {
    let empty: Vec<CompletedToolUse> = vec![];
    assert!(!should_search_round(0, &empty));
}

#[test]
fn round_at_limit_stops_even_if_web_search() {
    let tools = vec![tu("web_search")];
    assert!(!should_search_round(MAX_WEB_SEARCH_ROUNDS, &tools));
    assert!(!should_search_round(MAX_WEB_SEARCH_ROUNDS + 1, &tools));
}

#[test]
fn result_block_maps_contract_a_fields() {
    let results = WebSearchResults {
        results: vec![WebSearchResult {
            title: "Rust 1.99".to_string(),
            url: "https://example.com/rust".to_string(),
            snippet: Some("Rust 1.99 released".to_string()),
            published_date: None,
        }],
    };
    let block = shown_all(&build_result_block(&Some(results)));
    assert_eq!(block.len(), 1);
    assert_eq!(block[0]["type"], "web_search_result");
    assert_eq!(block[0]["title"], "Rust 1.99");
    assert_eq!(block[0]["url"], "https://example.com/rust");
    assert_eq!(block[0]["encrypted_content"], "Rust 1.99 released");
}

#[test]
fn result_block_none_is_empty() {
    assert!(build_result_block(&None).is_empty());
}

#[test]
fn flush_content_mixed_round_never_emits_raw_web_search() {
    let tool_uses = vec![tu("web_search"), tu("exec")];
    let searched = vec![fake_results("rust 2026"), None];
    let content = flushed(
        Vec::new(),
        "answer",
        &tool_uses,
        &searched,
        &names(&["exec"]),
        &nomap(),
    );

    let raw_web_search = content
        .iter()
        .any(|c| c["type"] == "tool_use" && c["name"] == "web_search");
    assert!(
        !raw_web_search,
        "web_search must never be flushed as a raw tool_use (host rejects it). content={:?}",
        content
    );

    assert!(
        content
            .iter()
            .any(|c| c["type"] == "server_tool_use" && c["name"] == "web_search"),
        "web_search must be presented as server_tool_use"
    );
    assert!(
        content
            .iter()
            .any(|c| c["type"] == "web_search_tool_result"),
        "web_search must carry a web_search_tool_result block"
    );
    assert!(
        content
            .iter()
            .any(|c| c["type"] == "tool_use" && c["name"] == "exec"),
        "the exec client tool must be returned to the client as-is"
    );
    assert!(
        content
            .iter()
            .any(|c| c["type"] == "text" && c["text"] == "answer"),
        "assistant text must be preserved"
    );
}

#[test]
fn flush_content_client_tools_only_passthrough() {
    let tool_uses = vec![tu("exec")];
    let searched: Vec<Option<WebSearchResults>> = vec![None];
    let content = flushed(
        Vec::new(),
        "",
        &tool_uses,
        &searched,
        &names(&["exec"]),
        &nomap(),
    );
    assert!(
        content
            .iter()
            .any(|c| c["type"] == "tool_use" && c["name"] == "exec")
    );
    assert!(!content.iter().any(|c| c["type"] == "server_tool_use"));
}

#[test]
fn flush_content_reclaims_leaked_invoke_into_tool_use() {
    let leaked = "call\n<invoke name=\"exec_command\">\n<parameter name=\"cmd\">echo hi</parameter>\n</invoke>";
    let content = flushed(
        Vec::new(),
        leaked,
        &vec![],
        &vec![],
        &names(&["exec_command"]),
        &nomap(),
    );
    assert!(
        !leaks_literal_invoke(&content),
        "literal <invoke> must not leak as text. content={:?}",
        content
    );
    let reclaimed = content.iter().find(|c| c["type"] == "tool_use");
    assert!(
        reclaimed.is_some(),
        "must reclaim a structured tool_use. content={:?}",
        content
    );
    let tu = reclaimed.unwrap();
    assert_eq!(tu["name"], "exec_command");
    assert_eq!(
        tu["input"]["cmd"], "echo hi",
        "parameter must be parsed into input"
    );
    assert!(
        !content
            .iter()
            .any(|c| c["type"] == "text" && c["text"].as_str() == Some("call\n")),
        "stray token line must be stripped"
    );
}

#[test]
fn flush_content_keeps_real_text_before_leaked_invoke() {
    let leaked = "Here is the result.\n<invoke name=\"exec_command\">\n<parameter name=\"cmd\">ls</parameter>\n</invoke>";
    let content = flushed(
        Vec::new(),
        leaked,
        &vec![],
        &vec![],
        &names(&["exec_command"]),
        &nomap(),
    );
    assert!(!leaks_literal_invoke(&content));
    assert!(
        content.iter().any(|c| c["type"] == "text"
            && c["text"]
                .as_str()
                .unwrap_or("")
                .contains("Here is the result.")),
        "narrative text must be preserved. content={:?}",
        content
    );
    assert!(
        content
            .iter()
            .any(|c| c["type"] == "tool_use" && c["name"] == "exec_command")
    );
}

#[test]
fn flush_content_does_not_reclaim_invoke_inside_code_fence() {
    let text = "Look at this example:\n```\n<invoke name=\"exec_command\">\n<parameter name=\"cmd\">rm -rf /</parameter>\n</invoke>\n```";
    let content = flushed(
        Vec::new(),
        text,
        &vec![],
        &vec![],
        &names(&["exec_command"]),
        &nomap(),
    );
    assert!(
        !content.iter().any(|c| c["type"] == "tool_use"),
        "fenced <invoke> must NOT be reclaimed (it's a display). content={:?}",
        content
    );
}

#[test]
fn flush_content_does_not_reclaim_invoke_mid_sentence() {
    let text = "the tag <invoke name=\"exec_command\"><parameter name=\"cmd\">x</parameter></invoke> means a call";
    let content = flushed(
        Vec::new(),
        text,
        &vec![],
        &vec![],
        &names(&["exec_command"]),
        &nomap(),
    );
    assert!(
        !content.iter().any(|c| c["type"] == "tool_use"),
        "mid-sentence <invoke> must NOT be reclaimed. content={:?}",
        content
    );
}

#[test]
fn flush_content_does_not_reclaim_unknown_tool_name() {
    let leaked = "call\n<invoke name=\"definitely_not_a_tool\">\n<parameter name=\"x\">y</parameter>\n</invoke>";
    let content = flushed(
        Vec::new(),
        leaked,
        &vec![],
        &vec![],
        &names(&["exec_command"]),
        &nomap(),
    );
    assert!(
        !content.iter().any(|c| c["type"] == "tool_use"),
        "unknown tool name must NOT be reclaimed. content={:?}",
        content
    );
}

#[test]
fn flush_content_never_reclaims_web_search_as_raw_tool_use() {
    let leaked = "let me search\n<invoke name=\"web_search\">\n<parameter name=\"query\">latest news</parameter>\n</invoke>";
    let content = flushed(
        Vec::new(),
        leaked,
        &vec![],
        &vec![],
        &names(&["web_search", "exec_command"]),
        &nomap(),
    );
    assert!(
        !content
            .iter()
            .any(|c| c["type"] == "tool_use" && c["name"] == "web_search"),
        "leaked <invoke name=web_search> must NEVER become a raw tool_use. content={:?}",
        content
    );
    assert!(
        !content.iter().any(|c| c["type"] == "server_tool_use"),
        "text-leaked web_search must not be upgraded to server_tool_use either. content={:?}",
        content
    );
}

#[test]
fn flush_content_web_search_guard_does_not_block_other_tools() {
    let leaked = "<invoke name=\"exec_command\">\n<parameter name=\"cmd\">ls</parameter>\n</invoke>\n<invoke name=\"web_search\">\n<parameter name=\"query\">news</parameter>\n</invoke>";
    let content = flushed(
        Vec::new(),
        leaked,
        &vec![],
        &vec![],
        &names(&["web_search", "exec_command"]),
        &nomap(),
    );
    assert!(
        content
            .iter()
            .any(|c| c["type"] == "tool_use" && c["name"] == "exec_command"),
        "exec_command must still be reclaimed. content={:?}",
        content
    );
    assert!(
        !content
            .iter()
            .any(|c| c["type"] == "tool_use" && c["name"] == "web_search"),
        "web_search must NOT be reclaimed as raw tool_use. content={:?}",
        content
    );
}

#[test]
fn flush_content_clean_text_is_single_text_block() {
    let content = flushed(
        Vec::new(),
        "just a normal answer",
        &vec![],
        &vec![],
        &names(&["exec_command"]),
        &nomap(),
    );
    assert_eq!(content.len(), 1);
    assert_eq!(content[0]["type"], "text");
    assert_eq!(content[0]["text"], "just a normal answer");
}

#[test]
fn flush_content_reclaims_two_burst_invokes() {
    let leaked = "<invoke name=\"exec_command\">\n<parameter name=\"cmd\">a</parameter>\n</invoke>\n<invoke name=\"get_time\">\n<parameter name=\"tz\">utc</parameter>\n</invoke>";
    let content = flushed(
        Vec::new(),
        leaked,
        &vec![],
        &vec![],
        &names(&["exec_command", "get_time"]),
        &nomap(),
    );
    assert!(!leaks_literal_invoke(&content));
    let tus: Vec<&Value> = content.iter().filter(|c| c["type"] == "tool_use").collect();
    assert_eq!(
        tus.len(),
        2,
        "both invokes reclaimed. content={:?}",
        content
    );
    assert_eq!(tus[0]["name"], "exec_command");
    assert_eq!(tus[0]["input"]["cmd"], "a");
    assert_eq!(tus[1]["name"], "get_time");
    assert_eq!(tus[1]["input"]["tz"], "utc");
}

#[test]
fn flush_content_unclosed_invoke_stays_text() {
    let text = "call\n<invoke name=\"exec_command\">\n<parameter name=\"cmd\">echo hi";
    let content = flushed(
        Vec::new(),
        text,
        &vec![],
        &vec![],
        &names(&["exec_command"]),
        &nomap(),
    );
    assert!(
        !content.iter().any(|c| c["type"] == "tool_use"),
        "unclosed <invoke> must NOT be reclaimed. content={:?}",
        content
    );
}

#[test]
fn flush_content_restores_shortened_tool_name() {
    let short = "mcp__codex_apps__x___list_projects_a1b2c3d4";
    let original = "mcp__codex_apps__sites___list_projects_with_a_very_long_suffix";
    let leaked = format!(
        "call\n<invoke name=\"{}\">\n<parameter name=\"q\">x</parameter>\n</invoke>",
        short
    );
    let mut map = NameMap::new();
    map.insert(short, original);
    let content = flushed(Vec::new(), &leaked, &vec![], &vec![], &names(&[short]), &map);
    let tu = content
        .iter()
        .find(|c| c["type"] == "tool_use")
        .expect("must reclaim a tool_use");
    assert_eq!(
        tu["name"], original,
        "reclaimed tool name must be restored to the original (not the shortened) name"
    );
}

#[test]
fn flush_content_yields_tool_use_so_caller_sets_tool_use_stop_reason() {
    let leaked = "call\n<invoke name=\"exec_command\">\n<parameter name=\"cmd\">echo hi</parameter>\n</invoke>";
    let content = flushed(
        Vec::new(),
        leaked,
        &vec![],
        &vec![],
        &names(&["exec_command"]),
        &nomap(),
    );
    let has_client_tool_use = content
        .iter()
        .any(|c| c["type"] == "tool_use" && c["name"] != "web_search");
    assert!(
        has_client_tool_use,
        "a reclaimed leak must surface a client tool_use so the caller sets stop_reason=tool_use. content={:?}",
        content
    );
}

#[test]
fn stop_reason_reclaimed_text_invoke_is_tool_use_not_end_turn() {
    let content = vec![json(r#"{"type":"tool_use","id":"t","name":"exec_command","input":{}}"#)];
    assert_eq!(
        resolve_flush_stop_reason(&None, true, &content),
        "tool_use",
        "a reclaimed tool_use must flip stop_reason to tool_use"
    );
}

#[test]
fn stop_reason_web_search_only_stays_end_turn() {
    let content = vec![
        json(r#"{"type":"text","text":"answer"}"#),
        json(r#"{"type":"server_tool_use","id":"s","name":"web_search","input":{"query":"q"}}"#),
        json(r#"{"type":"web_search_tool_result","content":[]}"#),
    ];
    assert_eq!(resolve_flush_stop_reason(&None, true, &content), "end_turn");
}

#[test]
fn stop_reason_structured_client_tool_use_is_tool_use() {
    let content = vec![json(r#"{"type":"tool_use","id":"t","name":"exec","input":{}}"#)];
    assert_eq!(resolve_flush_stop_reason(&None, false, &content), "tool_use");
}

#[test]
fn stop_reason_upstream_override_always_wins() {
    let content = vec![json(r#"{"type":"tool_use","id":"t","name":"exec_command","input":{}}"#)];
    assert_eq!(
        resolve_flush_stop_reason(&Some("max_tokens".to_string()), true, &content),
        "max_tokens"
    );
}

#[test]
fn partition_separates_web_search_from_client_tools() {
    let tool_uses = vec![tu("web_search"), tu("exec"), tu("web_search")];
    let (web, client) = partition_tool_uses(&tool_uses);
    assert_eq!(web.len(), 2, "two web_search calls");
    assert_eq!(client.len(), 1, "one client tool");
    assert_eq!(client[0].name, "exec");
}

#[test]
fn flush_content_only_web_search_has_no_client_tool() {
    let tool_uses = vec![tu("web_search")];
    let searched = vec![fake_results("q")];
    let content =
        flushed(Vec::new(), "", &tool_uses, &searched, &names(&[]), &nomap());
    assert!(!content.iter().any(|c| c["type"] == "tool_use"));
    assert!(
        content
            .iter()
            .any(|c| c["type"] == "server_tool_use" && c["name"] == "web_search")
    );
    let (_web, client) = partition_tool_uses(&tool_uses);
    assert!(client.is_empty());
}

#[test]
fn flush_content_dedups_reclaimed_against_structured_tool_use() {
    let leaked = "call\n<invoke name=\"exec_command\">\n<parameter name=\"cmd\">rm -rf build</parameter>\n</invoke>";
    let structured = vec![CompletedToolUse {
        id: "toolu_dup".to_string(),
        name: "exec_command".to_string(),
        input: json(r#"{"cmd": "rm -rf build"}"#),
    }];
    let content = flushed(
        Vec::new(),
        leaked,
        &structured,
        &vec![],
        &names(&["exec_command"]),
        &nomap(),
    );
    let exec_calls = content
        .iter()
        .filter(|c| c["type"] == "tool_use" && c["name"] == "exec_command")
        .count();
    assert_eq!(
        exec_calls, 1,
        "duplicate tool_use (reclaimed + structured) must be de-duped to one. content={:?}",
        content
    );
}

#[test]
fn flush_content_keeps_distinct_reclaimed_and_structured() {
    let leaked = "call\n<invoke name=\"exec_command\">\n<parameter name=\"cmd\">ls</parameter>\n</invoke>";
    let structured = vec![CompletedToolUse {
        id: "toolu_other".to_string(),
        name: "exec_command".to_string(),
        input: json(r#"{"cmd": "pwd"}"#),
    }];
    let content = flushed(
        Vec::new(),
        leaked,
        &structured,
        &vec![],
        &names(&["exec_command"]),
        &nomap(),
    );
    let exec_calls = content
        .iter()
        .filter(|c| c["type"] == "tool_use" && c["name"] == "exec_command")
        .count();
    assert_eq!(
        exec_calls, 2,
        "distinct inputs must both be kept. content={:?}",
        content
    );
}

#[test]
fn pages_carry_their_dates() {
    let page = |date| WebSearchResults {
        results: vec![WebSearchResult {
            title: "T".to_string(),
            url: "u".to_string(),
            snippet: None,
            published_date: date,
        }],
    };
    let shown = |date| shown_all(&build_result_block(&Some(page(date))));
    assert_eq!(shown(Some(1_767_225_600_000))[0]["page_age"], "January 1, 2026");
    assert_eq!(shown(Some(0))[0]["page_age"], "January 1, 1970");
    assert_eq!(shown(Some(i64::MAX))[0]["page_age"], Value::Null);
    assert_eq!(shown(None)[0]["page_age"], Value::Null);
    assert_eq!(shown(None)[0]["encrypted_content"], "");
}

#[test]
fn searches_are_identified_where_they_are_shown() {
    let content = flushed(
        vec![json(r#"{"type":"text","text":"shown before"}"#)],
        "",
        &vec![tu("web_search")],
        &vec![],
        &names(&[]),
        &nomap(),
    );
    assert_eq!(content.len(), 3);
    assert_eq!(content[0]["text"], "shown before");
    assert!(content[1]["id"].as_str().unwrap().starts_with("srvtoolu_"));
    assert_eq!(content[1]["input"]["query"], "rust 2026");
    assert_eq!(content[2]["content"], Value::Array(vec![]));
}
