use http::header::{HeaderMap, HeaderValue, RETRY_AFTER};
use kiro_rs::error::{delay_in, CreditLimitReachedError, UpstreamRateLimitError};
use kiro_rs::kiro_version::{
    cached, current_release, effective, LatestVersion, USAGE_API_KIRO_VERSION,
};
use kiro_rs::json::Json;

#[test]
fn accepts_delta_seconds_and_http_date() {
    let seconds = UpstreamRateLimitError::new(Some(" 1800 ".to_string()));
    assert_eq!(seconds.retry_after(), Some("1800"));
    assert!(!seconds.should_retry_locally());

    let date = "Sun, 12 Jul 2026 02:30:00 GMT";
    let http_date = UpstreamRateLimitError::new(Some(date.to_string()));
    assert_eq!(http_date.retry_after(), Some(date));
    assert!(!http_date.should_retry_locally());
}

#[test]
fn rejects_invalid_retry_after() {
    let error = UpstreamRateLimitError::new(Some("not-a-retry-delay".to_string()));
    assert_eq!(error.retry_after(), None);
    assert!(error.should_retry_locally());
}

#[test]
fn delays_are_read_from_headers() {
    let mut headers = HeaderMap::new();
    assert_eq!(UpstreamRateLimitError::from_headers(&headers).retry_after(), None);
    headers.insert(RETRY_AFTER, HeaderValue::from_static(" 30 "));
    assert_eq!(UpstreamRateLimitError::from_headers(&headers).retry_after(), Some("30"));
    headers.insert(RETRY_AFTER, HeaderValue::from_bytes(b"\xff30").unwrap());
    assert_eq!(UpstreamRateLimitError::from_headers(&headers).retry_after(), None);
}

#[test]
fn delays_are_counts_or_dates() {
    for text in ["+5", "18446744073709551615", "0", "007"] {
        assert_eq!(delay_in(text.to_string(), false).as_deref(), Some(text));
    }
    for text in ["", "+", "-1", "1.5", "18446744073709551616"] {
        assert_eq!(delay_in(text.to_string(), false), None);
    }
    assert_eq!(delay_in("soon".to_string(), true).as_deref(), Some("soon"));
    assert_eq!(delay_in(String::new(), true), None);
}

#[test]
fn normalized_delays_stay() {
    for text in [" 5 ", "Sun, 12 Jul 2026 02:30:00 GMT", "x", ""] {
        let once = UpstreamRateLimitError::new(Some(text.to_string()));
        let kept = once.retry_after().map(|s| s.to_string());
        assert_eq!(UpstreamRateLimitError::new(kept.clone()).retry_after(), kept.as_deref());
    }
    assert_eq!(UpstreamRateLimitError::new(None).message(), "upstream rate limited");
}

#[test]
fn credit_delays_are_bounded() {
    let delay = |secs| CreditLimitReachedError::new("spent".to_string(), secs).retry_after_secs();
    assert_eq!(delay(Some(0)), 1);
    assert_eq!(delay(Some(59)), 59);
    assert_eq!(delay(Some(3601)), 3600);
    assert_eq!(delay(None), 3600);
    assert_eq!(
        CreditLimitReachedError::new("spent".to_string(), None).message(),
        "spent"
    );
}

#[test]
fn test_metadata_parses_current_release() {
    let json = r#"{"currentRelease":"0.12.301","releases":[]}"#;
    let metadata = Json::parse(json).unwrap();
    let named = match metadata.get("currentRelease") {
        Some(Json::Text(release)) => Some(release.clone()),
        _ => None,
    };
    assert_eq!(current_release(named).as_deref(), Some("0.12.301"));
}

#[test]
fn metadata_without_a_release_is_refused() {
    assert_eq!(current_release(None), None);
    assert_eq!(current_release(Some(String::new())), None);
    assert_eq!(current_release(Some(" \t\n".to_string())), None);
    assert_eq!(current_release(Some(" 1.0 ".to_string())).as_deref(), Some(" 1.0 "));
}

#[test]
fn test_effective_falls_back_without_cache() {
    let v = effective(&LatestVersion::unknown(), "0.9.2");
    assert!(!v.is_empty());
    assert_eq!(v, USAGE_API_KIRO_VERSION);
}

#[test]
fn the_latest_version_is_given() {
    let mut latest = LatestVersion::unknown();
    assert_eq!(cached(&latest), None);
    assert!(latest.store("1.0"));
    assert!(!latest.store("1.0"));
    assert!(latest.store("1.1"));
    assert_eq!(cached(&latest).as_deref(), Some("1.1"));
    assert_eq!(effective(&latest, "0.9.2"), "1.1");
}
