//! Laws on what the upstream means by a refusal, stated over the text of its body and the
//! members of its JSON.
use crate::endpoint::refusal::{
    account_suspended, account_throttled, gateway_timed_out, gives_reason, is_quota_reason,
    is_rate_reason, is_request_reason, is_suspension_reason, quota_used_up, reasons,
    request_invalid, token_invalid,
};
use crate::json::JsonV;
use crate::text::{first_occurrence, holds_text, lemma_first_occurrence, lower_char, lowered, occurs_at};
use vstd::prelude::*;

verus! {

/// `t` stands somewhere in `body`.
pub open spec fn stands_in(body: Seq<char>, t: Seq<char>) -> bool {
    exists|i: int|
        0 <= i && i + t.len() <= body.len() && #[trigger] body.subrange(i, i + t.len()) == t
}

/// `t` is `low`, a text in lower case, in any case.
pub open spec fn same_letters(t: Seq<char>, low: Seq<char>) -> bool {
    t.len() == low.len() && forall|i: int|
        0 <= i < t.len() ==> #[trigger] t[i] == low[i] || ('a' <= low[i] <= 'z' && t[i] as int
            == low[i] as int - 32)
}

/// `low`, a text in lower case, stands somewhere in `body`, in any case.
pub open spec fn stands_in_any_case(body: Seq<char>, low: Seq<char>) -> bool {
    exists|i: int|
        0 <= i && i + low.len() <= body.len() && same_letters(
            #[trigger] body.subrange(i, i + low.len()),
            low,
        )
}

/// The object `m` has the text `r` as its member `reason`.
pub open spec fn has_reason(m: Map<Seq<char>, JsonV>, r: Seq<char>) -> bool {
    m.dom().contains("reason"@) && m["reason"@] == JsonV::Text(r)
}

/// A body gives the reason `r`, itself or in its error.
pub open spec fn names_reason(v: JsonV, r: Seq<char>) -> bool {
    match v {
        JsonV::Object(m) => has_reason(m, r) || (m.dom().contains("error"@) && match m["error"@] {
            JsonV::Object(e) => has_reason(e, r),
            _ => false,
        }),
        _ => false,
    }
}

/// A text is held where it stands.
pub proof fn a_text_is_held_where_it_stands(s: Seq<char>, t: Seq<char>)
    ensures
        holds_text(s, t) == stands_in(s, t),
{
    lemma_first_occurrence(s, t, 0);
    match first_occurrence(s, t, 0) {
        Some(i) => {
            assert(occurs_at(s, t, i));
            assert(s.subrange(i, i + t.len()) == t);
        },
        None => {
            assert forall|i: int| 0 <= i && i + t.len() <= s.len() implies #[trigger] s.subrange(
                i,
                i + t.len(),
            ) != t by {
                assert(!occurs_at(s, t, i));
            }
        },
    }
}

proof fn lemma_stands(a: Seq<char>, t: Seq<char>, b: Seq<char>)
    ensures
        stands_in(a + t + b, t),
{
    let s = a + t + b;
    let i = a.len() as int;
    assert(s.subrange(i, i + t.len()) =~= t);
}

/// The texts that are looked for without regard to case are written in lower case.
spec fn in_lower_case(low: Seq<char>) -> bool {
    forall|i: int| 0 <= i < low.len() ==> !('A' <= #[trigger] low[i] <= 'Z')
}

proof fn lemma_lower(c: char, l: char)
    requires
        !('A' <= l <= 'Z'),
    ensures
        (lower_char(c) == l) == (c == l || ('a' <= l <= 'z' && c as int == l as int - 32)),
{
    if 'A' <= c <= 'Z' {
        assert(lower_char(c) as int == c as int + 32);
    }
}

proof fn lemma_any_case(body: Seq<char>, low: Seq<char>)
    requires
        in_lower_case(low),
    ensures
        holds_text(lowered(body), low) == stands_in_any_case(body, low),
{
    a_text_is_held_where_it_stands(lowered(body), low);
    let n = low.len() as int;
    assert forall|i: int| 0 <= i && i + n <= body.len() implies (lowered(body).subrange(i, i + n)
        == low) == same_letters(#[trigger] body.subrange(i, i + n), low) by {
        let t = body.subrange(i, i + n);
        let u = lowered(body).subrange(i, i + n);
        assert forall|k: int| 0 <= k < n implies u[k] == lower_char(#[trigger] t[k]) by {}
        assert forall|k: int| 0 <= k < n implies (u[k] == low[k]) == (#[trigger] t[k] == low[k] || (
        'a' <= low[k] <= 'z' && t[k] as int == low[k] as int - 32)) by {
            lemma_lower(t[k], low[k]);
        }
        if u == low {
            assert forall|k: int| 0 <= k < n implies #[trigger] t[k] == low[k] || ('a' <= low[k]
                <= 'z' && t[k] as int == low[k] as int - 32) by {
                assert(u[k] == low[k]);
            }
        }
        if same_letters(t, low) {
            assert forall|k: int| 0 <= k < n implies u[k] == low[k] by {
                assert(t[k] == low[k] || ('a' <= low[k] <= 'z' && t[k] as int == low[k] as int
                    - 32));
            }
            assert(u =~= low);
        }
    }
    if holds_text(lowered(body), low) {
        let i = choose|i: int|
            0 <= i && i + low.len() <= lowered(body).len() && #[trigger] lowered(body).subrange(
                i,
                i + low.len(),
            ) == low;
        assert(same_letters(body.subrange(i, i + n), low));
    }
    if stands_in_any_case(body, low) {
        let i = choose|i: int|
            0 <= i && i + low.len() <= body.len() && same_letters(
                #[trigger] body.subrange(i, i + low.len()),
                low,
            );
        assert(lowered(body).subrange(i, i + n) == low);
    }
}

proof fn lemma_any_case_stands(a: Seq<char>, t: Seq<char>, b: Seq<char>, low: Seq<char>)
    requires
        same_letters(t, low),
    ensures
        stands_in_any_case(a + t + b, low),
{
    let s = a + t + b;
    let i = a.len() as int;
    assert(s.subrange(i, i + low.len()) =~= t);
}

/// A body means an invalid token wherever the sentence that says so stands in it, and not
/// otherwise.
pub proof fn an_invalid_token_is_told_by_its_sentence(
    a: Seq<char>,
    b: Seq<char>,
    body: Seq<char>,
)
    ensures
        token_invalid(a + "The bearer token included in the request is invalid"@ + b),
        token_invalid(body) == stands_in(
            body,
            "The bearer token included in the request is invalid"@,
        ),
{
    let t = "The bearer token included in the request is invalid"@;
    a_text_is_held_where_it_stands(body, t);
    a_text_is_held_where_it_stands(a + t + b, t);
    lemma_stands(a, t, b);
}

proof fn lemma_gives_reason(v: JsonV, p: spec_fn(Seq<char>) -> bool, x: Seq<char>, y: Seq<char>)
    requires
        forall|r: Seq<char>| #[trigger] p(r) == (r == x || r == y),
    ensures
        gives_reason(v, p) == (names_reason(v, x) || names_reason(v, y)),
{
    if let JsonV::Object(m) = v {
        if m.dom().contains("reason"@) {
            if let JsonV::Text(r) = m["reason"@] {
                assert(p(r) == (r == x || r == y));
                assert(reasons(v).0 == Some(r));
            }
        }
        if m.dom().contains("error"@) {
            if let JsonV::Object(e) = m["error"@] {
                if e.dom().contains("reason"@) {
                    if let JsonV::Text(r) = e["reason"@] {
                        assert(p(r) == (r == x || r == y));
                        assert(reasons(v).1 == Some(r));
                    }
                }
            }
        }
    }
}

/// The quota is used up exactly where the body holds one of the two reasons for that and, if
/// it is JSON, gives one of them as its reason or as that of its error.
pub proof fn the_quota_is_used_up_for_two_reasons(
    body: Seq<char>,
    parsed: Result<JsonV, Seq<char>>,
)
    ensures
        quota_used_up(body, parsed) == ((stands_in(body, "MONTHLY_REQUEST_COUNT"@) || stands_in(
            body,
            "OVERAGE_REQUEST_LIMIT_EXCEEDED"@,
        )) && (parsed is Ok ==> names_reason(parsed->Ok_0, "MONTHLY_REQUEST_COUNT"@)
            || names_reason(parsed->Ok_0, "OVERAGE_REQUEST_LIMIT_EXCEEDED"@))),
{
    let x = "MONTHLY_REQUEST_COUNT"@;
    let y = "OVERAGE_REQUEST_LIMIT_EXCEEDED"@;
    a_text_is_held_where_it_stands(body, x);
    a_text_is_held_where_it_stands(body, y);
    if let Ok(v) = parsed {
        lemma_gives_reason(v, |r: Seq<char>| is_quota_reason(r), x, y);
    }
}

/// A body that is not JSON means that the quota is used up wherever one of the reasons
/// stands in it.
pub proof fn a_quota_reason_counts_anywhere_in_plain_text(
    a: Seq<char>,
    b: Seq<char>,
    error: Seq<char>,
)
    ensures
        quota_used_up(a + "MONTHLY_REQUEST_COUNT"@ + b, Err(error)),
        quota_used_up(a + "OVERAGE_REQUEST_LIMIT_EXCEEDED"@ + b, Err(error)),
{
    let x = a + "MONTHLY_REQUEST_COUNT"@ + b;
    let y = a + "OVERAGE_REQUEST_LIMIT_EXCEEDED"@ + b;
    lemma_stands(a, "MONTHLY_REQUEST_COUNT"@, b);
    lemma_stands(a, "OVERAGE_REQUEST_LIMIT_EXCEEDED"@, b);
    the_quota_is_used_up_for_two_reasons(x, Err(error));
    the_quota_is_used_up_for_two_reasons(y, Err(error));
}

/// An account is slowed down exactly where the body speaks of suspicious activity and of
/// temporary limits, wherever in it and in whatever order, or gives one of the two reasons
/// for that as its reason or as that of its error.
pub proof fn an_account_is_throttled_by_text_or_reason(
    body: Seq<char>,
    parsed: Result<JsonV, Seq<char>>,
)
    ensures
        account_throttled(body, parsed) == (stands_in(body, "suspicious activity"@) && stands_in(
            body,
            "temporary limits"@,
        ) || (parsed is Ok && (names_reason(parsed->Ok_0, "USER_REQUEST_RATE_EXCEEDED"@)
            || names_reason(parsed->Ok_0, "SERVICE_REQUEST_RATE_EXCEEDED"@)))),
{
    a_text_is_held_where_it_stands(body, "suspicious activity"@);
    a_text_is_held_where_it_stands(body, "temporary limits"@);
    if let Ok(v) = parsed {
        lemma_gives_reason(
            v,
            |r: Seq<char>| is_rate_reason(r),
            "USER_REQUEST_RATE_EXCEEDED"@,
            "SERVICE_REQUEST_RATE_EXCEEDED"@,
        );
    }
}

/// The object `m` has `r` in any case as its member `reason`.
pub open spec fn has_reason_in_any_case(m: Map<Seq<char>, JsonV>, r: Seq<char>) -> bool {
    m.dom().contains("reason"@) && match m["reason"@] {
        JsonV::Text(t) => same_letters(t, r),
        _ => false,
    }
}

/// A body gives the reason `r` in any case, itself or in its error.
pub open spec fn names_reason_in_any_case(v: JsonV, r: Seq<char>) -> bool {
    match v {
        JsonV::Object(m) => has_reason_in_any_case(m, r) || (m.dom().contains("error"@)
            && match m["error"@] {
            JsonV::Object(e) => has_reason_in_any_case(e, r),
            _ => false,
        }),
        _ => false,
    }
}

proof fn lemma_suspension_words()
    ensures
        in_lower_case("suspended"@),
        in_lower_case("locked your account"@),
        in_lower_case("temporarily_suspended"@),
        in_lower_case("status code"@),
        in_lower_case("gateway timeout"@),
        in_lower_case("server-side issue"@),
{
    reveal_strlit("suspended");
    reveal_strlit("locked your account");
    reveal_strlit("temporarily_suspended");
    reveal_strlit("status code");
    reveal_strlit("gateway timeout");
    reveal_strlit("server-side issue");
}

proof fn lemma_whole_in_any_case(t: Seq<char>, low: Seq<char>)
    requires
        in_lower_case(low),
    ensures
        (lowered(t) == low) == same_letters(t, low),
{
    assert forall|k: int| 0 <= k < t.len() && k < low.len() implies (lower_char(#[trigger] t[k])
        == low[k]) == (t[k] == low[k] || ('a' <= low[k] <= 'z' && t[k] as int == low[k] as int
        - 32)) by {
        lemma_lower(t[k], low[k]);
    }
    if lowered(t) == low {
        assert(lowered(t).len() == t.len());
        assert forall|k: int| 0 <= k < t.len() implies #[trigger] t[k] == low[k] || ('a' <= low[k]
            <= 'z' && t[k] as int == low[k] as int - 32) by {
            assert(lowered(t)[k] == low[k]);
        }
    }
    if same_letters(t, low) {
        assert forall|k: int| 0 <= k < t.len() implies lowered(t)[k] == low[k] by {
            assert(t[k] == low[k] || ('a' <= low[k] <= 'z' && t[k] as int == low[k] as int - 32));
        }
        assert(lowered(t) =~= low);
    }
}

/// An account is suspended exactly where the body says, in any case, both that it is
/// suspended and that it was locked, or gives the reason for that, in any case, as its
/// reason or as that of its error.
pub proof fn an_account_is_suspended_by_text_or_reason(
    body: Seq<char>,
    parsed: Result<JsonV, Seq<char>>,
)
    ensures
        account_suspended(body, parsed) == (stands_in_any_case(body, "suspended"@)
            && stands_in_any_case(body, "locked your account"@) || (parsed is Ok
            && names_reason_in_any_case(parsed->Ok_0, "temporarily_suspended"@))),
{
    lemma_suspension_words();
    lemma_any_case(body, "suspended"@);
    lemma_any_case(body, "locked your account"@);
    if let Ok(v) = parsed {
        let p = |r: Seq<char>| is_suspension_reason(r);
        if let JsonV::Object(m) = v {
            if m.dom().contains("reason"@) {
                if let JsonV::Text(r) = m["reason"@] {
                    lemma_whole_in_any_case(r, "temporarily_suspended"@);
                    assert(reasons(v).0 == Some(r) && p(r) == is_suspension_reason(r));
                }
            }
            if m.dom().contains("error"@) {
                if let JsonV::Object(e) = m["error"@] {
                    if e.dom().contains("reason"@) {
                        if let JsonV::Text(r) = e["reason"@] {
                            lemma_whole_in_any_case(r, "temporarily_suspended"@);
                            assert(reasons(v).1 == Some(r) && p(r) == is_suspension_reason(r));
                        }
                    }
                }
            }
        }
        assert(gives_reason(v, p) == names_reason_in_any_case(v, "temporarily_suspended"@));
    }
}

/// A gateway gave up waiting exactly where the body holds the number of that status and,
/// in any case, one of the phrases that come with it.
pub proof fn a_gateway_timeout_is_told_by_its_number(body: Seq<char>)
    ensures
        gateway_timed_out(body) == (stands_in(body, "524"@) && (stands_in_any_case(
            body,
            "status code"@,
        ) || stands_in_any_case(body, "gateway timeout"@) || stands_in_any_case(
            body,
            "server-side issue"@,
        ))),
{
    lemma_suspension_words();
    a_text_is_held_where_it_stands(body, "524"@);
    lemma_any_case(body, "status code"@);
    lemma_any_case(body, "gateway timeout"@);
    lemma_any_case(body, "server-side issue"@);
}

/// The request is at fault exactly where the body says that results of tools are missing,
/// or holds one of the two reasons for that and, if it is JSON, gives one of them as its
/// reason or as that of its error.
pub proof fn a_request_is_at_fault_by_text_or_reason(
    body: Seq<char>,
    parsed: Result<JsonV, Seq<char>>,
)
    ensures
        request_invalid(body, parsed) == (stands_in(body, "Expected toolResult blocks"@) || (
        stands_in(body, "TOOL_USE_RESULT_MISMATCH"@) || stands_in(body, "TOOL_SCHEMA_INVALID"@)) && (
        parsed is Ok ==> names_reason(parsed->Ok_0, "TOOL_USE_RESULT_MISMATCH"@) || names_reason(
            parsed->Ok_0,
            "TOOL_SCHEMA_INVALID"@,
        ))),
{
    let x = "TOOL_USE_RESULT_MISMATCH"@;
    let y = "TOOL_SCHEMA_INVALID"@;
    a_text_is_held_where_it_stands(body, x);
    a_text_is_held_where_it_stands(body, y);
    a_text_is_held_where_it_stands(body, "Expected toolResult blocks"@);
    if let Ok(v) = parsed {
        lemma_gives_reason(v, |r: Seq<char>| is_request_reason(r), x, y);
    }
}

/// What is said in a body is understood wherever it stands there: text around it, before or
/// behind, and the case in which it is written, where case does not matter, make no
/// difference.
pub proof fn what_surrounds_a_phrase_makes_no_difference(
    a: Seq<char>,
    b: Seq<char>,
    c: Seq<char>,
    suspended: Seq<char>,
    locked: Seq<char>,
    phrase: Seq<char>,
    parsed: Result<JsonV, Seq<char>>,
)
    requires
        same_letters(suspended, "suspended"@),
        same_letters(locked, "locked your account"@),
        same_letters(phrase, "status code"@) || same_letters(phrase, "gateway timeout"@)
            || same_letters(phrase, "server-side issue"@),
    ensures
        account_throttled(a + "suspicious activity"@ + b + "temporary limits"@ + c, parsed),
        account_throttled(a + "temporary limits"@ + b + "suspicious activity"@ + c, parsed),
        account_suspended(a + suspended + b + locked + c, parsed),
        account_suspended(a + locked + b + suspended + c, parsed),
        gateway_timed_out(a + "524"@ + b + phrase + c),
        gateway_timed_out(a + phrase + b + "524"@ + c),
        request_invalid(a + "Expected toolResult blocks"@ + b, parsed),
{
    let s = "suspicious activity"@;
    let t = "temporary limits"@;
    lemma_two(a, s, b, t, c);
    lemma_two(a, t, b, s, c);
    an_account_is_throttled_by_text_or_reason(a + s + b + t + c, parsed);
    an_account_is_throttled_by_text_or_reason(a + t + b + s + c, parsed);
    lemma_two_in_any_case(a, suspended, b, locked, c, "suspended"@, "locked your account"@);
    lemma_two_in_any_case(a, locked, b, suspended, c, "locked your account"@, "suspended"@);
    an_account_is_suspended_by_text_or_reason(a + suspended + b + locked + c, parsed);
    an_account_is_suspended_by_text_or_reason(a + locked + b + suspended + c, parsed);
    lemma_two(a, "524"@, b, phrase, c);
    lemma_two(a, phrase, b, "524"@, c);
    let low = if same_letters(phrase, "status code"@) {
        "status code"@
    } else if same_letters(phrase, "gateway timeout"@) {
        "gateway timeout"@
    } else {
        "server-side issue"@
    };
    lemma_any_case_stands(a + "524"@ + b, phrase, c, low);
    lemma_any_case_stands(a, phrase, b + "524"@ + c, low);
    assert(a + phrase + (b + "524"@ + c) =~= a + phrase + b + "524"@ + c);
    a_gateway_timeout_is_told_by_its_number(a + "524"@ + b + phrase + c);
    a_gateway_timeout_is_told_by_its_number(a + phrase + b + "524"@ + c);
    lemma_stands(a, "Expected toolResult blocks"@, b);
    a_request_is_at_fault_by_text_or_reason(a + "Expected toolResult blocks"@ + b, parsed);
}

proof fn lemma_two(a: Seq<char>, s: Seq<char>, b: Seq<char>, t: Seq<char>, c: Seq<char>)
    ensures
        stands_in(a + s + b + t + c, s),
        stands_in(a + s + b + t + c, t),
{
    lemma_stands(a, s, b + t + c);
    assert(a + s + (b + t + c) =~= a + s + b + t + c);
    lemma_stands(a + s + b, t, c);
}

proof fn lemma_two_in_any_case(
    a: Seq<char>,
    s: Seq<char>,
    b: Seq<char>,
    t: Seq<char>,
    c: Seq<char>,
    low_s: Seq<char>,
    low_t: Seq<char>,
)
    requires
        same_letters(s, low_s),
        same_letters(t, low_t),
    ensures
        stands_in_any_case(a + s + b + t + c, low_s),
        stands_in_any_case(a + s + b + t + c, low_t),
{
    lemma_any_case_stands(a, s, b + t + c, low_s);
    assert(a + s + (b + t + c) =~= a + s + b + t + c);
    lemma_any_case_stands(a + s + b, t, c, low_t);
}

} // verus!
