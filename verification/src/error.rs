//! Errors of calls to the upstream that the client is told of.
use crate::text::{chars_of, is_u64, is_u64_text, opt_text, trim, trimmed};
use vstd::prelude::*;

verus! {

#[verifier::external_type_specification]
#[verifier::external_body]
#[verifier::reject_recursive_types(T)]
pub struct DeclaredHeaderMap<T>(http::HeaderMap<T>);

#[verifier::external_type_specification]
#[verifier::external_body]
pub struct DeclaredHeaderValue(http::HeaderValue);

/// The bytes of the first `retry-after` header that a map holds.
pub uninterp spec fn retry_after_bytes(headers: http::HeaderMap) -> Option<Seq<u8>>;

/// The bytes are visible ASCII characters, spaces or tabs.
pub open spec fn all_visible(bytes: Seq<u8>) -> bool {
    forall|i: int| 0 <= i < bytes.len() ==> 32 <= #[trigger] bytes[i] < 127 || bytes[i] == 9
}

/// The text of a header; a value with other characters has none.
pub open spec fn header_text(bytes: Option<Seq<u8>>) -> Option<Seq<char>> {
    match bytes {
        Some(b) => if all_visible(b) {
            Some(Seq::new(b.len(), |i: int| b[i] as char))
        } else {
            None
        },
        None => None,
    }
}

/// Whether `httpdate` reads a text as a date.
pub uninterp spec fn is_http_date(text: Seq<char>) -> bool;

/// `http::HeaderMap::get` for `retry-after`, which gives the first value, and
/// `HeaderValue::to_str`, which gives its text if its characters are visible ones
/// of ASCII, spaces or tabs.
#[verifier::external_body]
fn read_retry_after(headers: &http::HeaderMap) -> (r: Option<String>)
    ensures
        opt_text(r) == header_text(retry_after_bytes(*headers)),
{
    headers.get(http::header::RETRY_AFTER).and_then(|v| v.to_str().ok()).map(|s| s.to_owned())
}

/// `httpdate::parse_http_date`: whether the text is a date in one of the forms of
/// HTTP. It depends on the text alone.
#[verifier::external_body]
fn parses_as_http_date(text: &str) -> (r: bool)
    ensures
        r == is_http_date(text@),
{
    httpdate::parse_http_date(text).is_ok()
}

/// A delay that a client can understand: a number of seconds or a date, without
/// white space around it.
pub open spec fn normalized_delay(value: Option<Seq<char>>) -> Option<Seq<char>> {
    match value {
        Some(v) => if is_u64_text(trimmed(v)) || (trimmed(v).len() > 0 && is_http_date(
            trimmed(v),
        )) {
            Some(trimmed(v))
        } else {
            None
        },
        None => None,
    }
}

/// The delay that a text gives, told whether it is a date.
pub open spec fn delay_of(text: Seq<char>, is_date: bool) -> Option<Seq<char>> {
    if is_u64_text(text) || (text.len() > 0 && is_date) {
        Some(text)
    } else {
        None
    }
}

/// The delay that a trimmed text gives, told whether it is a date.
pub fn delay_in(text: String, is_date: bool) -> (r: Option<String>)
    ensures
        opt_text(r) == delay_of(text@, is_date),
{
    if is_u64(text.as_str()) || (chars_of(text.as_str()).len() > 0 && is_date) {
        Some(text)
    } else {
        None
    }
}

fn normalize_retry_after(value: &Option<String>) -> (r: Option<String>)
    ensures
        opt_text(r) == normalized_delay(opt_text(*value)),
{
    match value {
        Some(v) => {
            let text = trim(v.as_str());
            let is_date = parses_as_http_date(text.as_str());
            delay_in(text, is_date)
        },
        None => None,
    }
}

/// The upstream still answered with status 429 after every other attempt.
#[derive(Debug)]
pub struct UpstreamRateLimitError {
    retry_after: Option<String>,
}

impl View for UpstreamRateLimitError {
    type V = Option<Seq<char>>;

    closed spec fn view(&self) -> Option<Seq<char>> {
        opt_text(self.retry_after)
    }
}

impl UpstreamRateLimitError {
    /// The error with the delay that the upstream asked for, if that can be read.
    pub fn new(retry_after: Option<String>) -> (r: Self)
        ensures
            r@ == normalized_delay(opt_text(retry_after)),
    {
        UpstreamRateLimitError { retry_after: normalize_retry_after(&retry_after) }
    }

    /// The error for a response with those headers.
    pub fn from_headers(headers: &http::HeaderMap) -> (r: Self)
        ensures
            r@ == normalized_delay(header_text(retry_after_bytes(*headers))),
    {
        UpstreamRateLimitError::new(read_retry_after(headers))
    }

    /// The delay that the upstream asked for.
    pub fn retry_after(&self) -> (r: Option<&str>)
        ensures
            match r {
                Some(s) => self@ == Some(s@),
                None => self@ is None,
            },
    {
        match &self.retry_after {
            Some(s) => Some(s.as_str()),
            None => None,
        }
    }

    /// Without a delay from the upstream, a short retry here is still worth while.
    pub fn should_retry_locally(&self) -> (r: bool)
        ensures
            r == (self@ is None),
    {
        self.retry_after.is_none()
    }

    /// The text of the error.
    pub fn message(&self) -> (r: &'static str)
        ensures
            r@ == "upstream rate limited"@,
    {
        "upstream rate limited"
    }
}

/// The longest delay that a client is asked for, in seconds.
pub const FALLBACK_RETRY_AFTER_SECS: u64 = 3600;

/// All accounts have used up the credits that they were allowed.
#[derive(Debug)]
pub struct CreditLimitReachedError {
    message: String,
    retry_after_secs: Option<u64>,
}

/// The delay in seconds: at least one, at most an hour, and an hour if unknown.
pub open spec fn clamped_delay(secs: Option<u64>) -> u64 {
    match secs {
        Some(s) => if s < 1 {
            1
        } else if s > FALLBACK_RETRY_AFTER_SECS {
            FALLBACK_RETRY_AFTER_SECS
        } else {
            s
        },
        None => FALLBACK_RETRY_AFTER_SECS,
    }
}

impl CreditLimitReachedError {
    pub closed spec fn text(&self) -> Seq<char> {
        self.message@
    }

    pub closed spec fn secs(&self) -> Option<u64> {
        self.retry_after_secs
    }

    pub fn new(message: String, retry_after_secs: Option<u64>) -> (r: Self)
        ensures
            r.text() == message@,
            r.secs() == retry_after_secs,
    {
        CreditLimitReachedError { message, retry_after_secs }
    }

    /// The delay that the client is asked for, in seconds.
    pub fn retry_after_secs(&self) -> (r: u64)
        ensures
            r == clamped_delay(self.secs()),
            1 <= r <= FALLBACK_RETRY_AFTER_SECS,
    {
        match self.retry_after_secs {
            Some(s) => if s < 1 {
                1
            } else if s > FALLBACK_RETRY_AFTER_SECS {
                FALLBACK_RETRY_AFTER_SECS
            } else {
                s
            },
            None => FALLBACK_RETRY_AFTER_SECS,
        }
    }

    /// The text of the error.
    pub fn message(&self) -> (r: &str)
        ensures
            r@ == self.text(),
    {
        self.message.as_str()
    }
}

/// A delay that has been normalized stays as it is.
pub proof fn normalizing_a_delay_is_stable(value: Option<Seq<char>>)
    ensures
        normalized_delay(normalized_delay(value)) == normalized_delay(value),
{
    if let Some(v) = value {
        crate::search_query::trimming_is_stable(v);
    }
}

} // verus!
