use kiro_rs::thinking::{
    extract_thinking_from_complete_text, find_real_thinking_end_tag,
    find_real_thinking_end_tag_at_buffer_end, find_real_thinking_start_tag,
};

#[test]
fn test_find_real_thinking_start_tag_basic() {
    assert_eq!(find_real_thinking_start_tag("<thinking>"), Some(0));
    assert_eq!(find_real_thinking_start_tag("prefix<thinking>"), Some(6));
}

#[test]
fn test_find_real_thinking_start_tag_with_backticks() {
    assert_eq!(find_real_thinking_start_tag("`<thinking>`"), None);
    assert_eq!(find_real_thinking_start_tag("use `<thinking>` tag"), None);

    assert_eq!(
        find_real_thinking_start_tag("about `<thinking>` tag<thinking>content"),
        Some(22)
    );
}

#[test]
fn test_find_real_thinking_start_tag_with_quotes() {
    assert_eq!(find_real_thinking_start_tag("\"<thinking>\""), None);
    assert_eq!(find_real_thinking_start_tag("the \"<thinking>\" tag"), None);

    assert_eq!(find_real_thinking_start_tag("'<thinking>'"), None);

    assert_eq!(
        find_real_thinking_start_tag("about \"<thinking>\" and '<thinking>' then<thinking>"),
        Some(40)
    );
}

#[test]
fn test_find_real_thinking_end_tag_basic() {
    assert_eq!(find_real_thinking_end_tag("</thinking>\n\n"), Some(0));
    assert_eq!(find_real_thinking_end_tag("content</thinking>\n\n"), Some(7));
    assert_eq!(
        find_real_thinking_end_tag("some text</thinking>\n\nmore text"),
        Some(9)
    );

    assert_eq!(find_real_thinking_end_tag("</thinking>"), None);
    assert_eq!(find_real_thinking_end_tag("</thinking>\n"), None);
    assert_eq!(find_real_thinking_end_tag("</thinking> more"), None);
}

#[test]
fn test_find_real_thinking_end_tag_with_backticks() {
    assert_eq!(find_real_thinking_end_tag("`</thinking>`\n\n"), None);
    assert_eq!(
        find_real_thinking_end_tag("mention `</thinking>` in code\n\n"),
        None
    );

    assert_eq!(find_real_thinking_end_tag("`</thinking>\n\n"), None);

    assert_eq!(find_real_thinking_end_tag("</thinking>`\n\n"), None);
}

#[test]
fn test_find_real_thinking_end_tag_with_quotes() {
    assert_eq!(find_real_thinking_end_tag("\"</thinking>\"\n\n"), None);
    assert_eq!(
        find_real_thinking_end_tag("the string \"</thinking>\" is a tag\n\n"),
        None
    );

    assert_eq!(find_real_thinking_end_tag("'</thinking>'\n\n"), None);
    assert_eq!(
        find_real_thinking_end_tag("use '</thinking>' as marker\n\n"),
        None
    );

    assert_eq!(
        find_real_thinking_end_tag("about \"</thinking>\" tag</thinking>\n\n"),
        Some(23)
    );

    assert_eq!(
        find_real_thinking_end_tag("about '</thinking>' tag</thinking>\n\n"),
        Some(23)
    );
}

#[test]
fn test_find_real_thinking_end_tag_mixed() {
    assert_eq!(
        find_real_thinking_end_tag("discussing `</thinking>` tag</thinking>\n\n"),
        Some(28)
    );

    assert_eq!(
        find_real_thinking_end_tag("`</thinking>` and `</thinking>` done</thinking>\n\n"),
        Some(36)
    );

    assert_eq!(
        find_real_thinking_end_tag(
            "`</thinking>` and \"</thinking>\" and '</thinking>' done</thinking>\n\n"
        ),
        Some(54)
    );
}

#[test]
fn closing_tags_are_found_at_the_end() {
    assert_eq!(find_real_thinking_end_tag_at_buffer_end("abc</thinking>"), Some(3));
    assert_eq!(find_real_thinking_end_tag_at_buffer_end("abc</thinking> \n"), Some(3));
    assert_eq!(find_real_thinking_end_tag_at_buffer_end("abc</thinking> x"), None);
    assert_eq!(find_real_thinking_end_tag_at_buffer_end("`</thinking>"), None);
    assert_eq!(
        find_real_thinking_end_tag("\u{4e2d}\u{6587}</thinking>\n\n"),
        Some(6)
    );
}

#[test]
fn thinking_is_taken_out_of_a_complete_text() {
    assert_eq!(
        extract_thinking_from_complete_text("<thinking>\nabc</thinking>\n\nhello"),
        (Some("abc".to_string()), "hello".to_string())
    );
    assert_eq!(
        extract_thinking_from_complete_text("<thinking>abc</thinking>"),
        (Some("abc".to_string()), String::new())
    );
    assert_eq!(
        extract_thinking_from_complete_text("first <thinking>abc</thinking>\n\nlast"),
        (Some("abc".to_string()), "first last".to_string())
    );
    assert_eq!(
        extract_thinking_from_complete_text("<thinking>never closed"),
        (None, "<thinking>never closed".to_string())
    );
    let empty = "<thinking>\n</thinking>\n\nhi";
    assert_eq!(
        extract_thinking_from_complete_text(empty),
        (None, empty.to_string())
    );
    assert_eq!(
        extract_thinking_from_complete_text("plain"),
        (None, "plain".to_string())
    );
}
