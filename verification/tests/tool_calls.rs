use kiro_rs::json::Json;
use kiro_rs::names::{NameMap, ToolForms};
use kiro_rs::tool_json::{ToolJsonAccumulator, ToolJsonAccumulatorError, ToolUseEvent};
use serde_json::Value;

fn value(text: &str) -> Value {
    serde_json::from_str(text).unwrap()
}

fn shown(json: &Json) -> Value {
    value(&json.to_text())
}

fn tool_evt(
    id: &str,
    name: &str,
    input: &str,
    stop: bool,
) -> ToolUseEvent {
    ToolUseEvent {
        name: name.to_string(),
        tool_use_id: id.to_string(),
        input: input.to_string(),
        stop,
    }
}

#[test]
fn tool_json_accumulator_reassembles_split_fragments() {
    let mut acc = ToolJsonAccumulator::new();
    let map = NameMap::new();
    assert!(
        acc.push(&tool_evt("t1", "custom_tool", "{\"pa", false), &map)
            .unwrap()
            .is_none()
    );
    assert!(
        acc.push(&tool_evt("t1", "custom_tool", "th\":\"/a", false), &map)
            .unwrap()
            .is_none()
    );
    let completed = acc
        .push(&tool_evt("t1", "custom_tool", ".txt\"}", true), &map)
        .unwrap()
        .unwrap();
    assert_eq!(completed.id, "t1");
    assert_eq!(completed.name, "custom_tool");
    assert_eq!(shown(&completed.input), value(r#"{"path": "/a.txt"}"#));
}

#[test]
fn tool_json_accumulator_empty_input_is_empty_object() {
    let mut acc = ToolJsonAccumulator::new();
    let completed = acc
        .push(&tool_evt("t1", "noop", "", true), &NameMap::new())
        .unwrap()
        .unwrap();
    assert_eq!(shown(&completed.input), value(r#"{}"#));
}

#[test]
fn tool_json_accumulator_invalid_json_errors() {
    let mut acc = ToolJsonAccumulator::new();
    let err = acc
        .push(
            &tool_evt("t1", "read_file", "{not json", true),
            &NameMap::new(),
        )
        .unwrap_err();
    assert_eq!(err.error_type(), "upstream_tool_json_error");
    assert!(matches!(err, ToolJsonAccumulatorError::InvalidJson { .. }));
}

#[test]
fn tool_json_accumulator_incomplete_on_missing_stop() {
    let mut acc = ToolJsonAccumulator::new();
    assert!(
        acc.push(
            &tool_evt("t1", "read_file", "{\"path\":\"/a", false),
            &NameMap::new()
        )
        .unwrap()
        .is_none()
    );
    let err = acc.finish().unwrap_err();
    assert!(matches!(
        err,
        ToolJsonAccumulatorError::IncompleteJson { .. }
    ));
    assert!(acc.finish().is_ok());
}

#[test]
fn tool_json_accumulator_restores_short_tool_name() {
    let mut acc = ToolJsonAccumulator::new();
    let mut map = NameMap::new();
    map.insert("short_abc123", "the_original_very_long_tool_name");
    let completed = acc
        .push(&tool_evt("t1", "short_abc123", "{}", true), &map)
        .unwrap()
        .unwrap();
    assert_eq!(completed.name, "the_original_very_long_tool_name");
}

#[test]
fn fragments_add_up_wherever_they_are_cut() {
    let input = r#"{"path":"/a","n":[1,2.5,null]}"#;
    for i in 0..=input.len() {
        let mut acc = ToolJsonAccumulator::new();
        let map = NameMap::new();
        assert!(acc.push(&tool_evt("t1", "tool", &input[..i], false), &map).unwrap().is_none());
        let call = acc.push(&tool_evt("t1", "", &input[i..], true), &map).unwrap().unwrap();
        assert_eq!(call.name, "tool");
        assert_eq!(shown(&call.input), value(input));
    }
}

#[test]
fn calls_that_alternate_are_kept_apart() {
    let mut acc = ToolJsonAccumulator::new();
    let map = NameMap::new();
    acc.push(&tool_evt("a", "x", "{\"k\":", false), &map).unwrap();
    acc.push(&tool_evt("b", "y", "{\"k\":2", false), &map).unwrap();
    let a = acc.push(&tool_evt("a", "x", "1}", true), &map).unwrap().unwrap();
    let b = acc.push(&tool_evt("b", "y", "}", true), &map).unwrap().unwrap();
    assert_eq!((a.id.as_str(), shown(&a.input)), ("a", value("{\"k\":1}")));
    assert_eq!((b.id.as_str(), shown(&b.input)), ("b", value("{\"k\":2}")));
    assert!(acc.finish().is_ok());
}

#[test]
fn errors_name_the_call() {
    let mut acc = ToolJsonAccumulator::new();
    let map = NameMap::new();
    let err = acc.push(&tool_evt("t1", "tool", "[1", true), &map).unwrap_err();
    assert!(err.message().contains("t1"));
    acc.push(&tool_evt("t2", "tool", "{\"\u{4e2d}", false), &map).unwrap();
    match acc.finish().unwrap_err() {
        ToolJsonAccumulatorError::IncompleteJson { tool_use_id, name, bytes } => {
            assert_eq!((tool_use_id.as_str(), name.as_str(), bytes), ("t2", "tool", 5));
        }
        other => panic!("unexpected error: {other:?}"),
    }
}

fn forms() -> ToolForms {
    let mut names = NameMap::new();
    names.insert("fs_write", "Write");
    let renamed = |tool: &str, from: &str, to: &str| {
        (tool.to_string(), from.to_string(), to.to_string())
    };
    ToolForms {
        names,
        renamed: vec![
            renamed("fs_write", "text", "content"),
            renamed("fs_write", "absent", "x"),
            renamed("other", "path", "y"),
        ],
    }
}

#[test]
fn calls_get_the_name_and_the_arguments_of_the_declared_tool() {
    let mut acc = ToolJsonAccumulator::new();
    let call = acc
        .push(&tool_evt("t1", "fs_write", r#"{"path":"/a","text":"x"}"#, true), &forms())
        .unwrap()
        .unwrap();
    assert_eq!(call.name, "Write");
    assert_eq!(shown(&call.input), value(r#"{"content":"x","path":"/a"}"#));
    let call = acc
        .push(&tool_evt("t2", "exec", r#"{"text":"x"}"#, true), &forms())
        .unwrap()
        .unwrap();
    assert_eq!(call.name, "exec");
    assert_eq!(shown(&call.input), value(r#"{"text":"x"}"#));
}
