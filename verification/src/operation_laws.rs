//! Laws on what the operations of the library give, call by call: whatever a call returns
//! stands in the stated relation to what it was given.
use crate::answer_laws::{every_page_is_shown, page_members};
use crate::endpoint::payload::{
    apply_payload_model_id, set_payload_model, stream_payload, transform_streaming_payload,
};
use crate::endpoint::payload_laws::{
    carried_everywhere, dropped_members, every_message_names_the_model,
    every_message_names_the_origin, has_conversation,
};
use crate::endpoint::refusal::{
    default_is_account_suspended, default_is_account_throttled, default_is_bearer_token_invalid,
    default_is_client_validation_error, default_is_gateway_timeout,
    default_is_monthly_request_limit,
};
use crate::endpoint::refusal_laws::{
    a_gateway_timeout_is_told_by_its_number, a_request_is_at_fault_by_text_or_reason,
    an_account_is_suspended_by_text_or_reason, an_account_is_throttled_by_text_or_reason,
    an_invalid_token_is_told_by_its_sentence, names_reason, names_reason_in_any_case,
    same_letters, stands_in, stands_in_any_case, the_quota_is_used_up_for_two_reasons,
};
use crate::endpoint::normalize_api_region;
use crate::endpoint::request_laws::regions_in_europe_stay_in_europe;
use crate::error::{CreditLimitReachedError, UpstreamRateLimitError};
use crate::invoke::parse_invoke_block;
use crate::invoke_laws::{
    are_plain_params, arguments_are_what_stands_between_the_tags, given, is_plain_name,
    written_call,
};
use crate::json::{json_parsed, json_printed, Json, JsonV};
use crate::kiro_version::current_release;
use crate::loop_laws::{
    a_query_is_the_text_that_was_asked_for, is_blank_text, is_trim,
    trimming_takes_white_space_alone,
};
use crate::markup_laws::{
    are_attributes, leaked_elements_are_taken_out, lines_of, not_before,
    a_repeated_word_passes_thirty_one_times, thinking_is_parted_from_the_answer,
};
use crate::search_content::{build_result_block, should_search_round, WebSearchResults};
use crate::search_events::{response_error_details, to_client_usage};
use crate::search_query::tool_query;
use crate::search_round::{
    conversion_failure, is_no_results_mcp_error, provider_failure, serialization_failure,
    ConversionError, RoundFailure,
};
use crate::sse::{SseEvent, Usage};
use crate::stray::{collapse_stray_token_floods, is_stray};
use crate::text::{byte_len, decimal, decimal_text, find_char_boundary, opt_text, trim};
use crate::text_laws::{decimal_digits_read_as_the_number, delays_are_seconds_or_dates};
use crate::thinking::extract_thinking_from_complete_text;
use crate::thinking_laws::{tagged, well_tagged};
use crate::tokens::{cjk_count, estimate_tokens, CacheUsage, TokenUsage};
use crate::tool_json::CompletedToolUse;
use crate::xml_leak::strip_tool_use_xml_leaks;
use vstd::prelude::*;

verus! {

/// A body means an invalid token if the sentence that says so stands in it, and otherwise
/// not.
pub proof fn a_body_is_asked_for_an_invalid_token(body: &str, r: bool)
    requires
        call_ensures(default_is_bearer_token_invalid, (body,), r),
    ensures
        r == stands_in(body@, "The bearer token included in the request is invalid"@),
{
    an_invalid_token_is_told_by_its_sentence(Seq::empty(), Seq::empty(), body@);
}

/// A body means that the quota is used up if one of the two reasons stands in it and, where
/// it is JSON, is given as the reason.
pub proof fn a_body_is_asked_for_a_used_up_quota(body: &str, r: bool)
    requires
        call_ensures(default_is_monthly_request_limit, (body,), r),
    ensures
        ({
            let (x, y) = ("MONTHLY_REQUEST_COUNT"@, "OVERAGE_REQUEST_LIMIT_EXCEEDED"@);
            r == ((stands_in(body@, x) || stands_in(body@, y)) && match json_parsed(body@) {
                Ok(v) => names_reason(v, x) || names_reason(v, y),
                Err(_) => true,
            })
        }),
{
    the_quota_is_used_up_for_two_reasons(body@, json_parsed(body@));
}

/// A body means that the account is slowed down if it speaks of that or gives one of the two
/// reasons for it.
pub proof fn a_body_is_asked_for_a_slowed_down_account(body: &str, r: bool)
    requires
        call_ensures(default_is_account_throttled, (body,), r),
    ensures
        r == (stands_in(body@, "suspicious activity"@) && stands_in(body@, "temporary limits"@)
            || match json_parsed(body@) {
            Ok(v) => names_reason(v, "USER_REQUEST_RATE_EXCEEDED"@) || names_reason(
                v,
                "SERVICE_REQUEST_RATE_EXCEEDED"@,
            ),
            Err(_) => false,
        }),
{
    an_account_is_throttled_by_text_or_reason(body@, json_parsed(body@));
}

/// A body means that the account is suspended if it says so, in any case, or gives the
/// reason for it.
pub proof fn a_body_is_asked_for_a_suspended_account(body: &str, r: bool)
    requires
        call_ensures(default_is_account_suspended, (body,), r),
    ensures
        r == (stands_in_any_case(body@, "suspended"@) && stands_in_any_case(
            body@,
            "locked your account"@,
        ) || match json_parsed(body@) {
            Ok(v) => names_reason_in_any_case(v, "temporarily_suspended"@),
            Err(_) => false,
        }),
{
    an_account_is_suspended_by_text_or_reason(body@, json_parsed(body@));
}

/// A body means that a gateway gave up waiting if it holds the number of that status and one
/// of the phrases that come with it, in any case.
pub proof fn a_body_is_asked_for_a_gateway_timeout(body: &str, r: bool)
    requires
        call_ensures(default_is_gateway_timeout, (body,), r),
    ensures
        r == (stands_in(body@, "524"@) && (stands_in_any_case(body@, "status code"@)
            || stands_in_any_case(body@, "gateway timeout"@) || stands_in_any_case(
            body@,
            "server-side issue"@,
        ))),
{
    a_gateway_timeout_is_told_by_its_number(body@);
}

/// A body means that the request is at fault if it says that results of tools are missing,
/// or names one of the two reasons and, where it is JSON, gives it as the reason.
pub proof fn a_body_is_asked_for_a_fault_of_the_request(body: &str, r: bool)
    requires
        call_ensures(default_is_client_validation_error, (body,), r),
    ensures
        ({
            let (x, y) = ("TOOL_USE_RESULT_MISMATCH"@, "TOOL_SCHEMA_INVALID"@);
            r == (stands_in(body@, "Expected toolResult blocks"@) || (stands_in(body@, x)
                || stands_in(body@, y)) && match json_parsed(body@) {
                Ok(v) => names_reason(v, x) || names_reason(v, y),
                Err(_) => true,
            })
        }),
{
    a_request_is_at_fault_by_text_or_reason(body@, json_parsed(body@));
}

/// Bringing a payload into the form of an endpoint puts the origin into every message of the
/// user, the last one and each of the history.
pub proof fn a_payload_names_the_origin_everywhere(
    v: Json,
    profile_arn: &Option<String>,
    origin: &str,
    strip: bool,
    r: Json,
)
    requires
        call_ensures(stream_payload, (v, profile_arn, origin, strip), r),
        has_conversation(v@),
    ensures
        has_conversation(r@),
        carried_everywhere(
            v@->Object_0["conversationState"@]->Object_0,
            r@->Object_0["conversationState"@]->Object_0,
            "origin"@,
            origin@,
            dropped_members(strip),
        ),
        (*profile_arn matches Some(arn) ==> r@.field("profileArn"@) == Some(JsonV::Text(arn@))),
{
    every_message_names_the_origin(v@, opt_text(*profile_arn), origin@, strip);
}

/// Setting the model of a payload puts it into every message of the user, the last one and
/// each of the history.
pub proof fn a_payload_names_the_model_everywhere(v: Json, model_id: &str, r: Json)
    requires
        call_ensures(set_payload_model, (v, model_id), r),
        has_conversation(v@),
    ensures
        has_conversation(r@),
        carried_everywhere(
            v@->Object_0["conversationState"@]->Object_0,
            r@->Object_0["conversationState"@]->Object_0,
            "modelId"@,
            model_id@,
            Set::empty(),
        ),
{
    every_message_names_the_model(v@, model_id@);
}

/// A body that is not JSON passes as it is.
pub proof fn bodies_that_are_not_json_pass(
    body: &str,
    profile_arn: &Option<String>,
    origin: &str,
    strip: bool,
    model_id: &str,
    r: String,
    s: String,
)
    requires
        json_parsed(body@) is Err,
        call_ensures(transform_streaming_payload, (body, profile_arn, origin, strip), r),
        call_ensures(apply_payload_model_id, (body, model_id), s),
    ensures
        r@ == body@,
        s@ == body@,
{
}

/// Reading a written call gives the name of its tool and, for each parameter, the text
/// between its tags, character for character.
pub proof fn reading_a_call_gives_what_was_written(
    block: &[char],
    tool: Seq<char>,
    ps: Seq<(Seq<char>, Seq<char>)>,
    r: Option<(String, Json)>,
)
    requires
        call_ensures(parse_invoke_block, (block,), r),
        block@ == written_call(tool, ps),
        tool.len() > 0,
        is_plain_name(tool),
        are_plain_params(ps),
    ensures
        r is Some,
        r->Some_0.0@ == tool,
        r->Some_0.1@ == JsonV::Object(given(ps)),
{
    arguments_are_what_stands_between_the_tags(tool, ps);
}

/// A search that found pages shows every one of them, in order; one that failed shows none.
pub proof fn all_pages_of_a_search_are_shown(results: &Option<WebSearchResults>, r: Vec<Json>, i: int)
    requires
        call_ensures(build_result_block, (results,), r),
    ensures
        *results is None ==> r@.len() == 0,
        (*results matches Some(found) ==> {
            &&& r@.len() == found@.len()
            &&& 0 <= i < r@.len() ==> r@[i]@ == page_members(found@[i])
        }),
{
    if let Some(found) = *results {
        every_page_is_shown(found@);
        let shown = crate::stream::jsons(r@);
        assert(shown == crate::search_content::page_blocks(Some(found@)));
        if 0 <= i < r@.len() {
            assert(shown[i] == r@[i]@);
        }
    } else {
        every_page_is_shown(Seq::empty());
        assert(crate::stream::jsons(r@).len() == r@.len());
    }
}

/// A search looks for the text under `query`, without white space around it.
pub proof fn a_search_looks_for_its_query(
    call: &CompletedToolUse,
    m: Map<Seq<char>, JsonV>,
    a: Seq<char>,
    t: Seq<char>,
    b: Seq<char>,
    r: Option<String>,
)
    requires
        call_ensures(tool_query, (call,), r),
        call@.input == JsonV::Object(m),
        m.dom().contains("query"@),
        m["query"@] == JsonV::Text(a + t + b),
        is_blank_text(a),
        is_blank_text(b),
        is_trim(t),
    ensures
        r is Some,
        r->Some_0@ == t,
{
    a_query_is_the_text_that_was_asked_for(m, a, t, b);
}

/// Another round follows searches alone, and five rounds at most.
pub proof fn another_round_follows_searches_alone(
    round: usize,
    calls: &Vec<CompletedToolUse>,
    r: bool,
)
    requires
        call_ensures(should_search_round, (round, calls), r),
    ensures
        r == (round < 5 && calls@.len() > 0 && forall|i: int|
            0 <= i < calls@.len() ==> (#[trigger] calls@[i])@.name == "web_search"@),
{
    let view = crate::search_content::calls_view(calls@);
    crate::answer_laws::only_searches_lead_to_another_round(round as int, view);
    assert(view.len() == calls@.len());
    assert forall|i: int| 0 <= i < calls@.len() implies (#[trigger] calls@[i])@ == view[i] by {}
    if forall|i: int| 0 <= i < calls@.len() ==> (#[trigger] calls@[i])@.name == "web_search"@ {
        assert forall|i: int| 0 <= i < view.len() implies (#[trigger] view[i]).name
            == "web_search"@ by {
            assert(calls@[i]@ == view[i]);
        }
    }
    if forall|i: int| 0 <= i < view.len() ==> (#[trigger] view[i]).name == "web_search"@ {
        assert forall|i: int| 0 <= i < calls@.len() implies (#[trigger] calls@[i])@.name
            == "web_search"@ by {
            assert(calls@[i]@ == view[i]);
        }
    }
}

/// The error of a search says that nothing was found wherever that stands in it.
pub proof fn an_error_is_asked_for_no_results(message: &str, r: bool)
    requires
        call_ensures(is_no_results_mcp_error, (message,), r),
    ensures
        r == stands_in(message@, "Tool returned no results"@),
{
    crate::loop_laws::finding_nothing_is_told_by_its_phrase(
        Seq::empty(),
        Seq::empty(),
        message@,
    );
}

/// An upstream that refuses a request costs the input that was estimated, nothing else; the
/// client is answered as the refusal was understood, and the error itself is traced.
pub proof fn a_refused_request_costs_its_input(
    error: &str,
    status: u16,
    client_error: &str,
    client_message: &str,
    input: i32,
    r: RoundFailure,
)
    requires
        call_ensures(provider_failure, (error, status, client_error, client_message, input), r),
    ensures
        r@.status == status,
        r@.client_error == client_error@,
        r@.client_message == client_message@,
        r@.error_message == error@,
        r@.credential_id == 0,
        r@.metered.len() == 0,
        r@.token_usage is Some,
        r@.token_usage->Some_0.uncached_input_tokens == if input < 0 {
            0
        } else {
            input as int
        },
        r@.token_usage->Some_0.output_tokens == 0,
        r@.token_usage->Some_0.cache_read_input_tokens == 0,
        r@.token_usage->Some_0.cache_write_input_tokens == 0,
{
}

/// A request that cannot be put to the upstream costs nothing: the client is at fault where
/// it cannot be understood, and the library where it cannot be written down. Client and
/// trace are told the same.
pub proof fn a_request_that_was_not_made_costs_nothing(
    e: &ConversionError,
    error: &str,
    r: RoundFailure,
    s: RoundFailure,
)
    requires
        call_ensures(conversion_failure, (e,), r),
        call_ensures(serialization_failure, (error,), s),
    ensures
        r@.token_usage is None && r@.metered.len() == 0 && r@.credential_id == 0,
        s@.token_usage is None && s@.metered.len() == 0 && s@.credential_id == 0,
        r@.status == 400 && r@.client_error == "invalid_request_error"@,
        s@.status == 500 && s@.client_error == "internal_error"@,
        r@.error_message == r@.client_message,
        s@.error_message == s@.client_message,
        s@.client_message == "failed to serialize request: "@ + error@,
        r@.client_message == match *e {
            ConversionError::InvalidModel(reason) => "invalid model id: "@ + reason@,
            ConversionError::EmptyMessages => "message list is empty"@,
            ConversionError::UnsupportedToolMapping(reason) => "unsupported tool mapping: "@
                + reason@,
        },
{
}

/// The error of a response that is not JSON is told by its status alone.
pub proof fn a_response_without_an_error_is_told_by_its_status(
    body: &str,
    status: &str,
    r: (String, String),
)
    requires
        call_ensures(response_error_details, (body, status), r),
        json_parsed(body@) is Err,
    ensures
        r.0@ == "api_error"@,
        r.1@ == "web_search agentic loop failed with HTTP "@ + status@,
{
}

/// An event goes over the wire under its name, with its data as JSON on one line, and ends
/// with an empty line.
pub proof fn an_event_is_written_with_its_name_and_data(e: &SseEvent, r: String)
    requires
        call_ensures(SseEvent::to_sse_string, (e,), r),
    ensures
        r@ == "event: "@ + (e.event@ + ("\ndata: "@ + (json_printed(e.data@) + "\n\n"@))),
{
    assert(r@ =~= "event: "@ + (e.event@ + ("\ndata: "@ + (json_printed(e.data@) + "\n\n"@))));
}

/// A region in Europe stays in Europe, and any other goes to the United States.
pub proof fn a_region_is_one_of_two(region: &str, r: &'static str)
    requires
        call_ensures(normalize_api_region, (region,), r),
    ensures
        r@ == if region@.len() >= 3 && same_letters(region@.take(3), "eu-"@) {
            "eu-central-1"@
        } else {
            "us-east-1"@
        },
{
    regions_in_europe_stay_in_europe(region@);
}

/// A release is taken as it is, unless it is blank.
pub proof fn a_release_is_taken_unless_it_is_blank(release: Option<String>, r: Option<String>)
    requires
        call_ensures(current_release, (release,), r),
    ensures
        release is None ==> r is None,
        (release matches Some(v) ==> if is_blank_text(v@) {
            r is None
        } else {
            r is Some && r->Some_0@ == v@
        }),
{
    if let Some(v) = release {
        crate::endpoint::request_laws::the_known_release_counts(v@, v@);
    }
}

/// The upstream's number of seconds is passed on without white space around it.
pub proof fn a_number_of_seconds_is_passed_on(
    value: Option<String>,
    a: Seq<char>,
    b: Seq<char>,
    n: u64,
    r: UpstreamRateLimitError,
)
    requires
        call_ensures(UpstreamRateLimitError::new, (value,), r),
        value is Some,
        value->Some_0@ == a + decimal_text(n as nat) + b,
        is_blank_text(a),
        is_blank_text(b),
    ensures
        r@ == Some(decimal_text(n as nat)),
{
    decimal_digits_read_as_the_number(n as nat);
    delays_are_seconds_or_dates(a, decimal_text(n as nat), b, n);
}

/// Without a delay of the upstream a retry here is worth while, and only then.
pub proof fn a_retry_is_worth_while_without_a_delay(e: &UpstreamRateLimitError, r: bool)
    requires
        call_ensures(UpstreamRateLimitError::should_retry_locally, (e,), r),
    ensures
        r == (e@ is None),
{
}

/// A client waits as long as was asked for, within an hour and for a second at least.
pub proof fn a_client_waits_within_an_hour(
    message: String,
    secs: Option<u64>,
    e: CreditLimitReachedError,
    r: u64,
)
    requires
        call_ensures(CreditLimitReachedError::new, (message, secs), e),
        call_ensures(CreditLimitReachedError::retry_after_secs, (&e,), r),
    ensures
        (secs matches Some(n) ==> r == if n == 0 {
            1
        } else if n > 3600 {
            3600
        } else {
            n as int
        }),
        secs is None ==> r == 3600,
{
}

/// A text is estimated at the least number of tokens for its letters, four each, and for its
/// ideographs, three in two.
pub proof fn a_text_is_estimated_by_script(text: &str, x: int, y: int, r: i32)
    requires
        call_ensures(estimate_tokens, (text,), r),
        4 * (x - 1) < text@.len() - cjk_count(text@) <= 4 * x,
        3 * (y - 1) < 2 * cjk_count(text@) <= 3 * y,
        x + y <= i32::MAX,
    ensures
        r == if x + y == 0 {
            1
        } else {
            x + y
        },
{
    crate::text_laws::tokens_are_counted_by_script(
        text@,
        text@.len() - cjk_count(text@),
        cjk_count(text@),
        x,
        y,
    );
}

/// The parts into which a prompt is split make up the whole of it, and no part is less than
/// nothing.
pub proof fn the_parts_of_a_prompt_make_up_the_whole(u: CacheUsage, total: i32, r: (i32, i32, i32))
    requires
        call_ensures(CacheUsage::split_against_total, (u, total), r),
        0 <= u.cache_read <= u.cache_covered_est <= u.prompt_total_est,
        0 < u.prompt_total_est,
        0 <= total,
    ensures
        r.0 + r.1 + r.2 == total,
        r.0 >= 0 && r.1 >= 0 && r.2 >= 0,
        r.2 * u.prompt_total_est <= total * u.cache_read < (r.2 + 1) * u.prompt_total_est,
        (r.2 + r.1) * u.prompt_total_est <= total * u.cache_covered_est < (r.2 + r.1 + 1)
            * u.prompt_total_est,
{
    crate::text_laws::a_prompt_is_split_as_the_cache_covers_it(u, total);
}

/// The client is told the figures of the provider, each under its own name, and none below
/// zero.
pub proof fn the_client_is_told_the_figures(u: TokenUsage, r: Usage)
    requires
        call_ensures(to_client_usage, (u,), r),
    ensures
        u.uncached_input_tokens >= 0 ==> r.input_tokens == u.uncached_input_tokens,
        u.output_tokens >= 0 ==> r.output_tokens == u.output_tokens,
        u.cache_write_input_tokens >= 0 ==> r.cache_creation_input_tokens
            == u.cache_write_input_tokens,
        u.cache_read_input_tokens >= 0 ==> r.cache_read_input_tokens == u.cache_read_input_tokens,
        u.uncached_input_tokens < 0 ==> r.input_tokens == 0,
        u.output_tokens < 0 ==> r.output_tokens == 0,
        u.cache_write_input_tokens < 0 ==> r.cache_creation_input_tokens == 0,
        u.cache_read_input_tokens < 0 ==> r.cache_read_input_tokens == 0,
{
}

/// An element that leaked into a text is taken out, and what stands around it stays.
pub proof fn cleaning_takes_leaked_elements_out(
    text: &str,
    a: Seq<char>,
    attrs: Seq<char>,
    body: Seq<char>,
    b: Seq<char>,
    r: String,
)
    requires
        call_ensures(strip_tool_use_xml_leaks, (text,), r),
        text@ == a + "<tool_use"@ + (attrs + seq!['>'] + (body + "</tool_use>"@ + b)),
        not_before(a + "<tool_use"@, "<tool_use"@, a.len() as int),
        are_attributes(attrs),
        not_before(body + "</tool_use>"@, "</tool_use>"@, body.len() as int),
        forall|i: int| 0 <= i < b.len() ==> b[i] != '<',
    ensures
        r@ == a + b,
{
    leaked_elements_are_taken_out(a, attrs, body, b);
    crate::xml_leak::text_without_tags_is_kept(b);
}

/// A stray word that is repeated without end is cut off after thirty-one lines.
pub proof fn cleaning_cuts_floods_off(text: &str, w: Seq<char>, n: nat, r: String)
    requires
        call_ensures(collapse_stray_token_floods, (text,), r),
        is_stray(w),
        text@ == lines_of(w, n),
    ensures
        r@ == lines_of(
            w,
            if n < 32 {
                n
            } else {
                31
            },
        ),
{
    a_repeated_word_passes_thirty_one_times(w, n);
}

/// Thinking between tags at the beginning of a complete text is parted from the answer.
pub proof fn parting_gives_thinking_and_answer(
    text: &str,
    t: Seq<char>,
    rest: Seq<char>,
    r: (Option<String>, String),
)
    requires
        call_ensures(extract_thinking_from_complete_text, (text,), r),
        text@ == tagged(t, rest),
        well_tagged(t, rest),
        t[0] != '\n',
    ensures
        r.0 is Some,
        r.0->Some_0@ == t,
        r.1@ == rest,
{
    thinking_is_parted_from_the_answer(t, rest, Seq::empty());
}

/// Trimming takes white space off both ends.
pub proof fn trimming_gives_what_stands_between(
    s: &str,
    a: Seq<char>,
    t: Seq<char>,
    b: Seq<char>,
    r: String,
)
    requires
        call_ensures(trim, (s,), r),
        s@ == a + t + b,
        is_blank_text(a),
        is_blank_text(b),
        t.len() == 0 || is_trim(t),
    ensures
        r@ == t,
{
    trimming_takes_white_space_alone(a, t, b);
}

/// A number is written in decimal digits that read as the number.
pub proof fn a_number_is_written_in_digits(n: u64, r: String)
    requires
        call_ensures(decimal, (n,), r),
    ensures
        crate::text::digits_value(r@) == n,
        r@.len() > 0,
        n > 0 ==> r@[0] != '0',
{
    decimal_digits_read_as_the_number(n as nat);
}

/// The boundary that is found is the last one that is not behind the target.
pub proof fn a_boundary_is_the_last_before_the_target(s: &str, target: usize, r: usize, k: int)
    requires
        call_ensures(find_char_boundary, (s, target), r),
        0 <= k <= s@.len(),
        byte_len(s@.take(k)) <= target,
    ensures
        r <= target,
        byte_len(s@.take(k)) <= r,
{
    crate::tag_laws::whole_characters_are_taken(s@, target as int);
    let n = crate::text::whole_chars(s@, target as int);
    if k > n {
        crate::text::lemma_byte_len_take(s@.take(k), n + 1);
        assert(s@.take(k).take(n + 1) =~= s@.take(n + 1));
    } else {
        crate::text::lemma_byte_len_take(s@.take(n), k);
        assert(s@.take(n).take(k) =~= s@.take(k));
    }
}

} // verus!
