use kiro_rs::fence::{advance_code_fence_state, fence_open_after};
use kiro_rs::stray::{
    collapse_stray_token_floods, invoke_looks_like_real_leak, is_stray_token,
    strip_trailing_stray_tokens, RepeatGuard, REPEAT_GUARD_TRIP_THRESHOLD,
};
use kiro_rs::xml_leak::{longest_prefix_suffix, strip_tool_use_xml_leaks, ToolUseXmlLeakFilter};

#[test]
fn tool_use_xml_filter_strips_single_chunk_block() {
    let mut f = ToolUseXmlLeakFilter::default();
    let out = f
        .filter("before <tool_use id=\"t\" name=\"Write\">{\"path\":\"/a\"}</tool_use> after")
        + &f.finish();
    assert!(!out.contains("<tool_use"));
    assert!(out.contains("before") && out.contains("after"));
}

#[test]
fn tool_use_xml_filter_strips_cross_chunk_open_split() {
    let mut f = ToolUseXmlLeakFilter::default();
    let mut out = f.filter("before <tool");
    out.push_str(&f.filter("_use id=\"t\">{\"a\":1}</tool_use>after"));
    out.push_str(&f.finish());
    assert!(!out.contains("<tool_use"), "out={out:?}");
    assert!(out.contains("before") && out.contains("after"));
}

#[test]
fn tool_use_xml_filter_strips_cross_chunk_close_split() {
    let mut f = ToolUseXmlLeakFilter::default();
    let mut out = f.filter("x <tool_use name=\"W\">{\"a\":1}</tool");
    out.push_str(&f.filter("_use>y"));
    out.push_str(&f.finish());
    assert!(!out.contains("<tool_use"), "out={out:?}");
    assert!(out.contains('x') && out.contains('y'));
}

#[test]
fn tool_use_xml_filter_keeps_similar_text() {
    let mut f = ToolUseXmlLeakFilter::default();
    let out = f.filter("use <tool_user> here") + &f.finish();
    assert_eq!(out, "use <tool_user> here");
}

#[test]
fn tool_use_xml_filter_drops_unclosed_at_finish() {
    let mut f = ToolUseXmlLeakFilter::default();
    let mut out = f.filter("keep <tool_use name=\"W\">partial...");
    out.push_str(&f.finish());
    assert!(out.contains("keep"));
    assert!(!out.contains("<tool_use") && !out.contains("partial"));
}

#[test]
fn strip_trailing_stray_preserves_preceding_newline() {
    let got = strip_trailing_stray_tokens("some text\ncall");
    assert_eq!(
        got, "some text\n",
        "must keep the newline terminating the narrative line so the invoke stays line-start"
    );
    assert!(
        invoke_looks_like_real_leak(&got.chars().collect::<Vec<char>>()),
        "stripped narrative must still look like a line-start leak (ends with newline)"
    );
}

fn chars(text: &str) -> Vec<char> {
    text.chars().collect()
}

fn filtered(pieces: &[&str]) -> String {
    let mut f = ToolUseXmlLeakFilter::default();
    let mut out = String::new();
    for piece in pieces {
        out.push_str(&f.filter(piece));
    }
    out + &f.finish()
}

#[test]
fn markup_is_removed_wherever_the_text_is_cut() {
    let text = "a <tool_use name=\"x\">{}</tool_use> b <tool_used> </tool_use> c";
    let whole = strip_tool_use_xml_leaks(text);
    assert_eq!(whole, "a  b <tool_used> </tool_use> c");
    let all = chars(text);
    for i in 0..=all.len() {
        let head: String = all[..i].iter().collect();
        let tail: String = all[i..].iter().collect();
        assert_eq!(filtered(&[&head, &tail]), whole);
    }
}

#[test]
fn a_name_that_goes_on_is_no_tag() {
    let mut f = ToolUseXmlLeakFilter::default();
    let first = f.filter("use <tool_use");
    assert_eq!(first, "use ");
    assert_eq!(first + &f.filter("r> here"), "use <tool_user> here");
    assert_eq!(filtered(&["x <tool_user> y"]), "x <tool_user> y");
    assert_eq!(filtered(&["x <tool_use", " a>gone</tool_use>y"]), "x y");
    assert_eq!(filtered(&["x <tool_use"]), "x ");
}

#[test]
fn a_cut_before_a_closing_tag_that_completes_the_opening_one_counts() {
    assert_eq!(filtered(&["x <tool_use a</tool_use> y"]), "x ");
    assert_eq!(filtered(&["x <tool_use a", "</tool_use> y"]), "x  y");
}

#[test]
fn text_without_tags_passes_at_once() {
    let mut f = ToolUseXmlLeakFilter::default();
    assert_eq!(f.filter("a > b & c"), "a > b & c");
    assert_eq!(f.finish(), "");
}

#[test]
fn the_beginning_of_a_tag_is_kept_for_later() {
    let mut f = ToolUseXmlLeakFilter::default();
    assert_eq!(f.filter("if a <to"), "if a ");
    assert_eq!(f.finish(), "<to");
    assert_eq!(longest_prefix_suffix(&chars("x <tool"), &chars("<tool_use")), 5);
    assert_eq!(longest_prefix_suffix(&chars("<tool_use"), &chars("<tool_use")), 0);
    assert_eq!(longest_prefix_suffix(&chars("abc"), &[]), 0);
}

#[test]
fn stray_words_are_cut_off_line_by_line() {
    assert_eq!(strip_trailing_stray_tokens("call"), "");
    assert_eq!(strip_trailing_stray_tokens("a\n\ncall\n count \r\n"), "a\n\n");
    assert_eq!(strip_trailing_stray_tokens("recall"), "recall");
    for text in ["a\n\ncall\n count \r\n", "some text\ncall", "x", ""] {
        let once = strip_trailing_stray_tokens(text);
        assert_eq!(strip_trailing_stray_tokens(&once), once);
        assert!(text.starts_with(&once));
    }
    assert_eq!(strip_trailing_stray_tokens("call me"), "call me");
    assert!(is_stray_token("card"));
    assert!(!is_stray_token("Card"));
}

#[test]
fn calls_are_meant_at_the_beginning_of_a_line() {
    assert!(invoke_looks_like_real_leak(&chars("")));
    assert!(invoke_looks_like_real_leak(&chars("a\n \t")));
    assert!(invoke_looks_like_real_leak(&chars("a\r")));
    assert!(!invoke_looks_like_real_leak(&chars("- ")));
}

#[test]
fn a_flood_is_cut_off_at_the_line_that_trips() {
    let most = REPEAT_GUARD_TRIP_THRESHOLD as usize - 1;
    let flood = "count\n".repeat(100);
    assert_eq!(collapse_stray_token_floods(&flood), "count\n".repeat(most));
    assert_eq!(
        collapse_stray_token_floods(&"count\ncall\n".repeat(100)),
        "count\ncall\n".repeat(100)
    );
    assert_eq!(
        collapse_stray_token_floods(&"count\n\n".repeat(40)),
        "count\n\n".repeat(most)
    );
}

#[test]
fn what_passed_the_guard_passes_again() {
    for text in ["a\ncount\nb".to_string(), "card\n".repeat(50) + "tail"] {
        let once = collapse_stray_token_floods(&text);
        assert!(text.starts_with(&once));
        assert_eq!(collapse_stray_token_floods(&once), once);
    }
}

#[test]
fn a_guard_that_tripped_passes_nothing() {
    let mut guard = RepeatGuard::new();
    guard.filter(&"call\n".repeat(40));
    assert!(guard.tripped);
    assert_eq!(guard.filter("an ordinary line\n"), "");
}

#[test]
fn the_guard_does_not_mind_cuts_between_lines() {
    let text = "x\n".to_string() + &"count\n".repeat(40) + "y\n";
    let mut guard = RepeatGuard::new();
    let mut out = String::new();
    for line in text.split_inclusive('\n') {
        out.push_str(&guard.filter(line));
    }
    assert_eq!(out, collapse_stray_token_floods(&text));
}

#[test]
fn fences_are_seen_across_cuts() {
    let text = "a\n  ```rust\nb\n```";
    let all = chars(text);
    for i in 0..=all.len() {
        let head: String = all[..i].iter().collect();
        let tail: String = all[i..].iter().collect();
        let mut open = false;
        let mut partial = String::new();
        advance_code_fence_state(&mut open, &mut partial, &head);
        advance_code_fence_state(&mut open, &mut partial, &tail);
        assert!(open);
        assert_eq!(partial, "```");
    }
    assert!(!fence_open_after(true, "```", "\n"));
    assert!(!fence_open_after(false, "", "``` on one line"));
}
