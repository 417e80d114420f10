//! What the upstream means by a refusal.
use crate::json::{json_parsed, Json, JsonV};
use crate::text::{
    contains_text, chars_of, holds_text, lower_chars, lowered, same_text, text_contains,
};
use crate::tool_json::result_json;
use vstd::prelude::*;

verus! {

/// The reasons that a body gives: its own, and that of the error in it.
pub open spec fn reasons(v: JsonV) -> (Option<Seq<char>>, Option<Seq<char>>) {
    (
        v.text_field("reason"@),
        match v.field("error"@) {
            Some(e) => e.text_field("reason"@),
            None => None,
        },
    )
}

/// One of the reasons that a body gives is as `p` says.
pub open spec fn gives_reason(v: JsonV, p: spec_fn(Seq<char>) -> bool) -> bool {
    ||| (reasons(v).0 matches Some(r) && p(r))
    ||| (reasons(v).1 matches Some(r) && p(r))
}

/// The reasons for which an account cannot be used until its quota is renewed.
pub open spec fn is_quota_reason(r: Seq<char>) -> bool {
    r == "MONTHLY_REQUEST_COUNT"@ || r == "OVERAGE_REQUEST_LIMIT_EXCEEDED"@
}

/// The reasons for which an account is slowed down.
pub open spec fn is_rate_reason(r: Seq<char>) -> bool {
    r == "USER_REQUEST_RATE_EXCEEDED"@ || r == "SERVICE_REQUEST_RATE_EXCEEDED"@
}

/// The reason for which an account is suspended, in any case.
pub open spec fn is_suspension_reason(r: Seq<char>) -> bool {
    lowered(r) == "temporarily_suspended"@
}

/// The reasons for which the request itself is at fault.
pub open spec fn is_request_reason(r: Seq<char>) -> bool {
    r == "TOOL_USE_RESULT_MISMATCH"@ || r == "TOOL_SCHEMA_INVALID"@
}

fn reason_pair<'a>(v: &'a Json) -> (r: (Option<&'a String>, Option<&'a String>))
    ensures
        match r.0 {
            Some(t) => reasons(v@).0 == Some(t@),
            None => reasons(v@).0 is None,
        },
        match r.1 {
            Some(t) => reasons(v@).1 == Some(t@),
            None => reasons(v@).1 is None,
        },
{
    let top = v.get_text("reason");
    let nested = match v.get("error") {
        Some(e) => e.get_text("reason"),
        None => None,
    };
    (top, nested)
}

/// The account has used up its quota: the body names one of the reasons for that,
/// and, if it is JSON, gives it as its reason.
pub open spec fn quota_used_up(body: Seq<char>, parsed: Result<JsonV, Seq<char>>) -> bool {
    &&& holds_text(body, "MONTHLY_REQUEST_COUNT"@) || holds_text(
        body,
        "OVERAGE_REQUEST_LIMIT_EXCEEDED"@,
    )
    &&& match parsed {
        Ok(v) => gives_reason(v, |r: Seq<char>| is_quota_reason(r)),
        Err(_) => true,
    }
}

fn quota_reason(r: &str) -> (b: bool)
    ensures
        b == is_quota_reason(r@),
{
    same_text(r, "MONTHLY_REQUEST_COUNT") || same_text(r, "OVERAGE_REQUEST_LIMIT_EXCEEDED")
}

/// Whether a body that was read as `parsed` means that the quota is used up.
pub fn monthly_request_limit_in(body: &str, parsed: &Result<Json, String>) -> (r: bool)
    ensures
        r == quota_used_up(body@, result_json(*parsed)),
{
    if !(text_contains(body, "MONTHLY_REQUEST_COUNT") || text_contains(
        body,
        "OVERAGE_REQUEST_LIMIT_EXCEEDED",
    )) {
        return false;
    }
    match parsed {
        Ok(v) => {
            let (top, nested) = reason_pair(v);
            (match top {
                Some(t) => quota_reason(t.as_str()),
                None => false,
            }) || (match nested {
                Some(t) => quota_reason(t.as_str()),
                None => false,
            })
        },
        Err(_) => true,
    }
}

/// Whether a body means that the quota of the account is used up.
pub fn default_is_monthly_request_limit(body: &str) -> (r: bool)
    ensures
        r == quota_used_up(body@, json_parsed(body@)),
{
    let parsed = Json::parse(body);
    monthly_request_limit_in(body, &parsed)
}

/// The token of the request is not valid.
pub open spec fn token_invalid(body: Seq<char>) -> bool {
    holds_text(body, "The bearer token included in the request is invalid"@)
}

/// Whether a body means that the token of the request is not valid.
pub fn default_is_bearer_token_invalid(body: &str) -> (r: bool)
    ensures
        r == token_invalid(body@),
{
    text_contains(body, "The bearer token included in the request is invalid")
}

/// The account is slowed down for a while.
pub open spec fn account_throttled(body: Seq<char>, parsed: Result<JsonV, Seq<char>>) -> bool {
    ||| holds_text(body, "suspicious activity"@) && holds_text(body, "temporary limits"@)
    ||| (parsed matches Ok(v) && gives_reason(v, |r: Seq<char>| is_rate_reason(r)))
}

fn rate_reason(r: &str) -> (b: bool)
    ensures
        b == is_rate_reason(r@),
{
    same_text(r, "USER_REQUEST_RATE_EXCEEDED") || same_text(r, "SERVICE_REQUEST_RATE_EXCEEDED")
}

/// Whether a body that was read as `parsed` means that the account is slowed down.
pub fn account_throttled_in(body: &str, parsed: &Result<Json, String>) -> (r: bool)
    ensures
        r == account_throttled(body@, result_json(*parsed)),
{
    if text_contains(body, "suspicious activity") && text_contains(body, "temporary limits") {
        return true;
    }
    match parsed {
        Ok(v) => {
            let (top, nested) = reason_pair(v);
            (match top {
                Some(t) => rate_reason(t.as_str()),
                None => false,
            }) || (match nested {
                Some(t) => rate_reason(t.as_str()),
                None => false,
            })
        },
        Err(_) => false,
    }
}

/// Whether a body means that the account is slowed down for a while.
pub fn default_is_account_throttled(body: &str) -> (r: bool)
    ensures
        r == account_throttled(body@, json_parsed(body@)),
{
    let parsed = Json::parse(body);
    account_throttled_in(body, &parsed)
}

/// The account is suspended until someone restores it.
pub open spec fn account_suspended(body: Seq<char>, parsed: Result<JsonV, Seq<char>>) -> bool {
    ||| holds_text(lowered(body), "suspended"@) && holds_text(
        lowered(body),
        "locked your account"@,
    )
    ||| (parsed matches Ok(v) && gives_reason(v, |r: Seq<char>| is_suspension_reason(r)))
}

fn suspension_reason(r: &str) -> (b: bool)
    ensures
        b == is_suspension_reason(r@),
{
    let low = lower_chars(r);
    let low = crate::text::text_of(low.as_slice());
    same_text(low.as_str(), "temporarily_suspended")
}

/// Whether a body that was read as `parsed` means that the account is suspended.
pub fn account_suspended_in(body: &str, parsed: &Result<Json, String>) -> (r: bool)
    ensures
        r == account_suspended(body@, result_json(*parsed)),
{
    let low = lower_chars(body);
    let a = chars_of("suspended");
    let b = chars_of("locked your account");
    if contains_text(low.as_slice(), a.as_slice()) && contains_text(low.as_slice(), b.as_slice()) {
        return true;
    }
    match parsed {
        Ok(v) => {
            let (top, nested) = reason_pair(v);
            (match top {
                Some(t) => suspension_reason(t.as_str()),
                None => false,
            }) || (match nested {
                Some(t) => suspension_reason(t.as_str()),
                None => false,
            })
        },
        Err(_) => false,
    }
}

/// Whether a body means that the account is suspended until someone restores it.
pub fn default_is_account_suspended(body: &str) -> (r: bool)
    ensures
        r == account_suspended(body@, json_parsed(body@)),
{
    let parsed = Json::parse(body);
    account_suspended_in(body, &parsed)
}

/// A gateway before the upstream gave up waiting.
pub open spec fn gateway_timed_out(body: Seq<char>) -> bool {
    &&& holds_text(body, "524"@)
    &&& holds_text(lowered(body), "status code"@) || holds_text(lowered(body), "gateway timeout"@)
        || holds_text(lowered(body), "server-side issue"@)
}

/// Whether a body means that a gateway before the upstream gave up waiting.
pub fn default_is_gateway_timeout(body: &str) -> (r: bool)
    ensures
        r == gateway_timed_out(body@),
{
    if !text_contains(body, "524") {
        return false;
    }
    let low = lower_chars(body);
    let a = chars_of("status code");
    let b = chars_of("gateway timeout");
    let c = chars_of("server-side issue");
    contains_text(low.as_slice(), a.as_slice()) || contains_text(low.as_slice(), b.as_slice())
        || contains_text(low.as_slice(), c.as_slice())
}

/// The request itself is at fault and would fail again.
pub open spec fn request_invalid(body: Seq<char>, parsed: Result<JsonV, Seq<char>>) -> bool {
    ||| (holds_text(body, "TOOL_USE_RESULT_MISMATCH"@) || holds_text(body, "TOOL_SCHEMA_INVALID"@))
        && match parsed {
        Ok(v) => gives_reason(v, |r: Seq<char>| is_request_reason(r)),
        Err(_) => true,
    }
    ||| holds_text(body, "Expected toolResult blocks"@)
}

fn request_reason(r: &str) -> (b: bool)
    ensures
        b == is_request_reason(r@),
{
    same_text(r, "TOOL_USE_RESULT_MISMATCH") || same_text(r, "TOOL_SCHEMA_INVALID")
}

/// Whether a body that was read as `parsed` means that the request is at fault.
pub fn client_validation_error_in(body: &str, parsed: &Result<Json, String>) -> (r: bool)
    ensures
        r == request_invalid(body@, result_json(*parsed)),
{
    if text_contains(body, "TOOL_USE_RESULT_MISMATCH") || text_contains(
        body,
        "TOOL_SCHEMA_INVALID",
    ) {
        match parsed {
            Ok(v) => {
                let (top, nested) = reason_pair(v);
                let named = (match top {
                    Some(t) => request_reason(t.as_str()),
                    None => false,
                }) || (match nested {
                    Some(t) => request_reason(t.as_str()),
                    None => false,
                });
                if named {
                    return true;
                }
            },
            Err(_) => {
                return true;
            },
        }
    }
    text_contains(body, "Expected toolResult blocks")
}

/// Whether a body means that the request itself is at fault and would fail again.
pub fn default_is_client_validation_error(body: &str) -> (r: bool)
    ensures
        r == request_invalid(body@, json_parsed(body@)),
{
    let parsed = Json::parse(body);
    client_validation_error_in(body, &parsed)
}

} // verus!
