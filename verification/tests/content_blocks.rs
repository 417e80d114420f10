use kiro_rs::content_blocks::extract_invoke_content_blocks;
use kiro_rs::names::{NameMap, NameSet};
use serde_json::Value;

fn test_known_tools() -> NameSet {
    let mut known = NameSet::new();
    for name in [
        "exec_command",
        "apply_patch",
        "tool_a",
        "tool_b",
        "write_file",
        "wait_agent",
    ] {
        known.insert(name);
    }
    known
}

fn blocks_of(text: &str, known: &NameSet, map: &NameMap) -> Vec<Value> {
    extract_invoke_content_blocks(text, known, map)
        .iter()
        .map(|b| serde_json::from_str(&b.to_text()).unwrap())
        .collect()
}

#[test]
fn extract_blocks_reclaims_clean_leak_and_strips_stray_token() {
    let text = "call\n<invoke name=\"exec_command\">\n<parameter name=\"cmd\">echo hi</parameter>\n</invoke>";
    let blocks = blocks_of(
        text,
        &test_known_tools(),
        &NameMap::new(),
    );
    let tu = blocks
        .iter()
        .find(|b| b["type"] == "tool_use")
        .expect("must reclaim tool_use");
    assert_eq!(tu["name"], "exec_command");
    assert_eq!(tu["input"]["cmd"], "echo hi");
    assert!(
        !blocks.iter().any(|b| b["type"] == "text"
            && b["text"]
                .as_str()
                .map(|t| t.contains("<invoke"))
                .unwrap_or(false)),
        "no literal <invoke> may remain as text"
    );
    assert!(
        !blocks
            .iter()
            .any(|b| b["type"] == "text" && b["text"] == "call\n"),
        "stray token line must be stripped"
    );
}

#[test]
fn extract_blocks_restores_shortened_name_via_map() {
    let short = "shrunk_name_abcd1234";
    let original = "an_extremely_long_original_tool_name_that_exceeds_the_limit";
    let text = format!(
        "call\n<invoke name=\"{}\">\n<parameter name=\"x\">y</parameter>\n</invoke>",
        short
    );
    let mut known = NameSet::new();
    known.insert(short);
    let mut map = NameMap::new();
    map.insert(short, original);
    let blocks = blocks_of(&text, &known, &map);
    let tu = blocks
        .iter()
        .find(|b| b["type"] == "tool_use")
        .expect("reclaimed");
    assert_eq!(
        tu["name"], original,
        "shortened name must be restored to original"
    );
}

#[test]
fn extract_blocks_does_not_reclaim_fenced_or_unknown() {
    let fenced = "see:\n```\n<invoke name=\"exec_command\">\n<parameter name=\"cmd\">rm -rf /</parameter>\n</invoke>\n```";
    let b1 = blocks_of(
        fenced,
        &test_known_tools(),
        &NameMap::new(),
    );
    assert!(
        !b1.iter().any(|b| b["type"] == "tool_use"),
        "fenced must not reclaim"
    );
    let unknown = "call\n<invoke name=\"not_a_real_tool\">\n<parameter name=\"x\">y</parameter>\n</invoke>";
    let b2 = blocks_of(
        unknown,
        &test_known_tools(),
        &NameMap::new(),
    );
    assert!(
        !b2.iter().any(|b| b["type"] == "tool_use"),
        "unknown name must not reclaim"
    );
}

#[test]
fn extract_blocks_clean_text_is_single_unchanged_text_block() {
    let blocks = blocks_of(
        "just a normal answer with no tool calls",
        &test_known_tools(),
        &NameMap::new(),
    );
    assert_eq!(blocks.len(), 1);
    assert_eq!(blocks[0]["type"], "text");
    assert_eq!(blocks[0]["text"], "just a normal answer with no tool calls");
}

#[test]
fn extract_blocks_collapses_count_flood() {
    let mut text = String::from("先看 crawlee 状态。\n\ncall\n\n");
    for _ in 0..5000 {
        text.push_str("count\n\n");
    }
    let blocks = blocks_of(
        &text,
        &test_known_tools(),
        &NameMap::new(),
    );
    let joined: String = blocks
        .iter()
        .filter(|b| b["type"] == "text")
        .filter_map(|b| b["text"].as_str())
        .collect();
    let emitted = joined.matches("count").count();
    assert!(emitted < 64);
    assert!(joined.contains("先看 crawlee 状态"));
}

#[test]
fn extract_blocks_keeps_single_stray_and_reclaims() {
    let text = "count\n<invoke name=\"exec_command\">\n<parameter name=\"cmd\">ls</parameter>\n</invoke>";
    let blocks = blocks_of(
        text,
        &test_known_tools(),
        &NameMap::new(),
    );
    assert!(
        blocks
            .iter()
            .any(|b| b["type"] == "tool_use" && b["name"] == "exec_command"),
    );
}

#[test]
fn calls_are_identified_and_in_their_place() {
    let text = "before\n<invoke name=\"tool_a\"><parameter name=\"x\">1</parameter></invoke>after";
    let blocks = blocks_of(text, &test_known_tools(), &NameMap::new());
    assert_eq!(blocks.len(), 3);
    assert_eq!(blocks[0]["text"], "before\n");
    assert_eq!(blocks[1]["name"], "tool_a");
    assert_eq!(blocks[1]["input"]["x"], "1");
    let id = blocks[1]["id"].as_str().unwrap();
    assert!(id.starts_with("toolu_"));
    assert_eq!(id.len(), 38);
    assert!(id[6..].chars().all(|c| c.is_ascii_hexdigit()));
    assert_eq!(blocks[2]["text"], "after");
}

#[test]
fn a_text_inside_a_fence_stays_one_text() {
    let text = "```\n<invoke name=\"tool_a\"></invoke>\n<invoke name=\"tool_b\"></invoke>\n";
    let blocks = blocks_of(text, &test_known_tools(), &NameMap::new());
    assert_eq!(blocks.len(), 1);
    assert_eq!(blocks[0]["text"], text);
}

#[test]
fn no_text_gives_no_blocks() {
    assert!(blocks_of("", &test_known_tools(), &NameMap::new()).is_empty());
}

#[test]
fn calls_of_unknown_tools_leave_the_text_whole() {
    let text = "x\n<invoke name=\"nope\"></invoke>\ny";
    let blocks = blocks_of(text, &test_known_tools(), &NameMap::new());
    assert_eq!(blocks.len(), 1);
    assert_eq!(blocks[0]["text"], text);
}

#[test]
fn calls_in_the_middle_of_a_line_stay_text() {
    let block = r#"<invoke name="tool_a"></invoke>"#;
    let text = format!("see {block}{block}");
    let blocks = blocks_of(&text, &test_known_tools(), &NameMap::new());
    assert_eq!(blocks.len(), 1);
    assert_eq!(blocks[0]["text"], text);

    let text = format!("see {block}call\n{block}");
    let blocks = blocks_of(&text, &test_known_tools(), &NameMap::new());
    assert_eq!(blocks.len(), 2);
    assert_eq!(blocks[0]["text"], format!("see {block}call\n"));
    assert_eq!(blocks[1]["name"], "tool_a");

    let text = format!("{block}{block} {block}");
    let blocks = blocks_of(&text, &test_known_tools(), &NameMap::new());
    assert_eq!(blocks.iter().filter(|b| b["type"] == "tool_use").count(), 3);
}
