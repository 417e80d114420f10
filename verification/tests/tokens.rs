use kiro_rs::text::find_char_boundary;
use kiro_rs::tokens::{estimate_tokens, CacheUsage, TokenUsage};

#[test]
fn test_estimate_tokens() {
    assert!(estimate_tokens("Hello") > 0);
    assert!(estimate_tokens("你好") > 0);
    assert!(estimate_tokens("Hello 你好") > 0);
}

#[test]
fn tokens_are_estimated_by_kind() {
    assert_eq!(estimate_tokens(""), 1);
    assert_eq!(estimate_tokens("abcd"), 1);
    assert_eq!(estimate_tokens("abcde"), 2);
    assert_eq!(estimate_tokens("\u{4e2d}\u{6587}\u{5b57}"), 2);
    assert_eq!(estimate_tokens("\u{4e2d}a"), 2);
}

#[test]
fn usage_is_never_negative_and_never_overflows() {
    let usage = TokenUsage {
        uncached_input_tokens: -3,
        output_tokens: i32::MAX,
        cache_read_input_tokens: 2,
        cache_write_input_tokens: i32::MIN,
    };
    let sane = usage.sanitized();
    assert_eq!(sane.sanitized(), sane);
    assert_eq!(sane.uncached_input_tokens, 0);
    assert_eq!(sane.cache_write_input_tokens, 0);
    assert_eq!(sane.saturating_add(sane).output_tokens, i32::MAX);
}

#[test]
fn input_is_split_as_the_cache_is() {
    let usage = CacheUsage {
        cache_read: 25,
        cache_covered_est: 50,
        prompt_total_est: 100,
    };
    for total in [0, 1, 7, 80, 1_000_003] {
        let (uncached, creation, read) = usage.split_against_total(total);
        assert_eq!(uncached + creation + read, total);
    }
    assert_eq!(CacheUsage::none().split_against_total(80), (80, 0, 0));
}

#[test]
fn boundaries_do_not_split_characters() {
    let text = "a\u{4e2d}b";
    let found: Vec<usize> = (0..8).map(|i| find_char_boundary(text, i)).collect();
    assert_eq!(found, vec![0, 1, 1, 1, 4, 5, 5, 5]);
}
