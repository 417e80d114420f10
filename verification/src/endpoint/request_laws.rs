//! Laws on the requests of all endpoints: where they go, what their headers say and what
//! becomes of their bodies.
use crate::endpoint::cli::CliEndpoint;
use crate::endpoint::ide::{EditorEndpointKind, IdeEndpoint};
use crate::endpoint::payload_laws::{
    carried_everywhere, dropped_members, every_message_names_the_origin, has_conversation,
};
use crate::endpoint::refusal_laws::same_letters;
use crate::endpoint::{
    normal_region, region_of, Config, ContextV, KiroCredentials, KiroEndpoint,
};
use crate::json::{json_parsed, json_printed, JsonV};
use crate::kiro_version::{release_taken, version_given};
use crate::loop_laws::is_blank_text;
use crate::text::{lower_char, lowered};
use vstd::prelude::*;

verus! {

/// The headers of a request or a search.
pub type Headers = Seq<(Seq<char>, Seq<char>)>;

/// A region lies in Europe if its name begins with `eu-`, in any case; requests from there
/// stay there, and all others go to the United States.
pub proof fn regions_in_europe_stay_in_europe(region: Seq<char>)
    ensures
        region.len() >= 3 && same_letters(region.take(3), "eu-"@) ==> normal_region(region)
            == "eu-central-1"@,
        !(region.len() >= 3 && same_letters(region.take(3), "eu-"@)) ==> normal_region(region)
            == "us-east-1"@,
{
    reveal_strlit("eu-");
    let low = "eu-"@;
    let n = low.len() as int;
    assert(n == 3);
    assert(low[0] == 'e' && low[1] == 'u' && low[2] == '-');
    if region.len() >= 3 {
        let t = region.take(3);
        let u = lowered(region).subrange(0, 3);
        assert forall|k: int| 0 <= k < 3 implies u[k] == lower_char(#[trigger] t[k]) && (u[k]
            == low[k]) == (t[k] == low[k] || ('a' <= low[k] <= 'z' && t[k] as int == low[k] as int
            - 32)) by {
            if 'A' <= t[k] <= 'Z' {
                assert(lower_char(t[k]) as int == t[k] as int + 32);
            }
        }
        if same_letters(t, low) {
            assert forall|k: int| 0 <= k < 3 implies #[trigger] u[k] == low[k] by {
                assert(t[k] == low[k] || ('a' <= low[k] <= 'z' && t[k] as int == low[k] as int
                    - 32));
            }
            assert(u =~= low);
        } else if u == low {
            assert forall|k: int| 0 <= k < t.len() implies #[trigger] t[k] == low[k] || ('a'
                <= low[k] <= 'z' && t[k] as int == low[k] as int - 32) by {
                assert(u[k] == low[k]);
            }
        }
    }
}

/// The region of an account goes before that of the configuration, and of each the one that
/// is set for the interface before the general one.
pub proof fn the_nearest_region_counts(
    a: KiroCredentials,
    c: Config,
    text: String,
)
    ensures
        a.api_region == Some(text) ==> region_of(a, c) == text@,
        a.api_region is None && a.region == Some(text) ==> region_of(a, c) == text@,
        a.api_region is None && a.region is None && c.api_region == Some(text) ==> region_of(a, c)
            == text@,
        a.api_region is None && a.region is None && c.api_region is None ==> region_of(a, c)
            == c.region@,
{
}

/// The release that is known goes before the one that is configured; one that is blank is
/// not known.
pub proof fn the_known_release_counts(v: Seq<char>, fallback: Seq<char>)
    ensures
        version_given(Some(v), fallback) == v,
        version_given(None, fallback) == fallback,
        is_blank_text(v) ==> release_taken(Some(v)) is None,
        !is_blank_text(v) ==> release_taken(Some(v)) == Some(v),
        release_taken(None) is None,
{
    crate::text::lemma_blank(v);
    assert(is_blank_text(v) == crate::text::all_white(v));
}

/// What every request and every search says of itself: who makes it and with what, which
/// call it is and where it goes.
pub open spec fn introduces_itself(
    headers: Headers,
    c: ContextV,
    host: Seq<char>,
    call: Seq<char>,
) -> bool {
    &&& headers.contains(("host"@, host))
    &&& headers.contains(("Authorization"@, "Bearer "@ + c.token))
    &&& headers.contains(("amz-sdk-invocation-id"@, call))
    &&& headers.contains(("amz-sdk-request"@, "attempt=1; max=3"@))
    &&& headers.contains(("x-amzn-kiro-agent-mode"@, c.agent_mode))
    &&& headers.contains(
        (
            "x-amz-user-agent"@,
            "aws-sdk-js/1.0.34 KiroIDE-"@ + (c.version + ("-"@ + c.machine_id)),
        ),
    )
    &&& headers.contains(
        (
            "user-agent"@,
            "aws-sdk-js/1.0.34 ua/2.1 os/"@ + (c.system_version + (" lang/js md/nodejs#"@ + (
            c.node_version + (" api/codewhispererstreaming#1.0.34 m/E KiroIDE-"@ + (c.version + (
            "-"@ + c.machine_id)))))),
        ),
    )
    &&& (c.token_type matches Some(t) ==> headers.contains(("TokenType"@, t)))
}

/// How many headers [`introduces_itself`] asks for.
pub open spec fn own_headers(c: ContextV) -> nat {
    if c.token_type is Some {
        8
    } else {
        7
    }
}

proof fn lemma_agents(c: ContextV)
    ensures
        crate::endpoint::short_agent(c) == "aws-sdk-js/1.0.34 KiroIDE-"@ + (c.version + ("-"@
            + c.machine_id)),
        crate::endpoint::long_agent(c) == "aws-sdk-js/1.0.34 ua/2.1 os/"@ + (c.system_version + (
        " lang/js md/nodejs#"@ + (c.node_version + (
        " api/codewhispererstreaming#1.0.34 m/E KiroIDE-"@ + (c.version + ("-"@ + c.machine_id)))))),
{
    assert(crate::endpoint::short_agent(c) =~= "aws-sdk-js/1.0.34 KiroIDE-"@ + (c.version + ("-"@
        + c.machine_id)));
    assert(crate::endpoint::long_agent(c) =~= "aws-sdk-js/1.0.34 ua/2.1 os/"@ + (c.system_version
        + (" lang/js md/nodejs#"@ + (c.node_version + (
    " api/codewhispererstreaming#1.0.34 m/E KiroIDE-"@ + (c.version + ("-"@ + c.machine_id)))))));
}

proof fn lemma_held(headers: Headers, i: int, pair: (Seq<char>, Seq<char>))
    requires
        0 <= i < headers.len(),
        headers[i] == pair,
    ensures
        headers.contains(pair),
{
}

/// Headers that go on behind the common ones introduce the request as those do.
proof fn lemma_introduced(
    headers: Headers,
    c: ContextV,
    host: Seq<char>,
    call: Seq<char>,
)
    requires
        ({
            let common = crate::endpoint::common_headers(c, c.agent_mode, host, call);
            headers.len() >= common.len() && headers.take(common.len() as int) == common
        }),
    ensures
        introduces_itself(headers, c, host, call),
        crate::endpoint::common_headers(c, c.agent_mode, host, call).len() == own_headers(c),
{
    lemma_agents(c);
    let common = crate::endpoint::common_headers(c, c.agent_mode, host, call);
    assert forall|i: int| 0 <= i < common.len() implies headers[i] == #[trigger] common[i] by {
        assert(headers.take(common.len() as int)[i] == headers[i]);
    }
    assert(common[0] == ("x-amzn-kiro-agent-mode"@, c.agent_mode));
    lemma_held(headers, 0, common[0]);
    lemma_held(headers, 1, common[1]);
    lemma_held(headers, 2, common[2]);
    lemma_held(headers, 3, common[3]);
    lemma_held(headers, 4, common[4]);
    lemma_held(headers, 5, common[5]);
    lemma_held(headers, 6, common[6]);
    if c.token_type is Some {
        lemma_held(headers, 7, common[7]);
    }
}

/// The two regions by which hosts are named.
pub open spec fn is_region(r: Seq<char>) -> bool {
    r == "eu-central-1"@ || r == "us-east-1"@
}

/// A request of the editor goes to the host of its kind in the region of the account, names
/// that host and the call that it makes, and introduces itself; that of the runtime says
/// besides that it is not to be learned from. It has no other headers.
pub proof fn requests_of_the_editor_are_addressed(e: IdeEndpoint, c: ContextV, call: Seq<char>)
    ensures
        ({
            let r = normal_region(c.region);
            let q = "q."@ + (r + ".amazonaws.com"@);
            let host = match e.kind {
                EditorEndpointKind::KiroRuntime => "runtime."@ + (r + ".kiro.dev"@),
                EditorEndpointKind::CodeWhisperer => if r == "us-east-1"@ {
                    "codewhisperer.us-east-1.amazonaws.com"@
                } else {
                    q
                },
                EditorEndpointKind::AmazonQ => q,
            };
            let headers = e.api_header_seq(c, call);
            let runtime = e.kind == EditorEndpointKind::KiroRuntime;
            &&& is_region(r)
            &&& e.api_address(c) == "https://"@ + (host + "/generateAssistantResponse"@)
            &&& introduces_itself(headers, c, host, call)
            &&& headers.contains(
                (
                    "x-amz-target"@,
                    "AmazonCodeWhispererStreamingService.GenerateAssistantResponse"@,
                ),
            )
            &&& runtime ==> headers.contains(("x-amzn-codewhisperer-optout"@, "true"@))
            &&& headers.len() == own_headers(c) + if runtime {
                2nat
            } else {
                1nat
            }
        }),
{
    crate::endpoint::normalizing_a_region_is_stable(c.region);
    let r = normal_region(c.region);
    let host = crate::endpoint::ide::editor_host(e.kind, c);
    assert("q."@ + r + ".amazonaws.com"@ =~= "q."@ + (r + ".amazonaws.com"@));
    assert("runtime."@ + r + ".kiro.dev"@ =~= "runtime."@ + (r + ".kiro.dev"@));
    assert(e.api_address(c) =~= "https://"@ + (host + "/generateAssistantResponse"@));
    let common = crate::endpoint::common_headers(c, c.agent_mode, host, call);
    let headers = e.api_header_seq(c, call);
    assert(headers.take(common.len() as int) =~= common);
    lemma_introduced(headers, c, host, call);
    lemma_held(headers, common.len() as int, headers[common.len() as int]);
    if e.kind == EditorEndpointKind::KiroRuntime {
        let n = common.len() as int;
        lemma_held(headers, n + 1, headers[n + 1]);
    }
}

/// A request of the command line goes to its host in the region of the account, names that
/// host and the call that it makes, and introduces itself. It has no other headers.
pub proof fn requests_of_the_command_line_are_addressed(
    e: CliEndpoint,
    c: ContextV,
    call: Seq<char>,
)
    ensures
        ({
            let host = "q."@ + (normal_region(c.region) + ".amazonaws.com"@);
            let headers = e.api_header_seq(c, call);
            &&& e.api_address(c) == "https://"@ + (host + "/SendMessageStreaming"@)
            &&& introduces_itself(headers, c, host, call)
            &&& headers.contains(
                ("x-amz-target"@, "AmazonQDeveloperStreamingService.SendMessage"@),
            )
            &&& headers.len() == own_headers(c) + 1
        }),
{
    let r = normal_region(c.region);
    let host = crate::endpoint::ide::q_host(c);
    assert("q."@ + r + ".amazonaws.com"@ =~= "q."@ + (r + ".amazonaws.com"@));
    assert(e.api_address(c) =~= "https://"@ + (host + "/SendMessageStreaming"@));
    let common = crate::endpoint::common_headers(c, c.agent_mode, host, call);
    let headers = e.api_header_seq(c, call);
    assert(headers.take(common.len() as int) =~= common);
    lemma_introduced(headers, c, host, call);
    lemma_held(headers, common.len() as int, headers[common.len() as int]);
}

/// Searches of all endpoints go to one place in the region of the account. They name their
/// host and introduce themselves, and name the profile of the account, if it has one; they
/// have no other headers.
pub proof fn searches_are_addressed(
    ide: IdeEndpoint,
    cli: CliEndpoint,
    c: ContextV,
    call: Seq<char>,
)
    ensures
        ({
            let host = "q."@ + (normal_region(c.region) + ".amazonaws.com"@);
            let headers = ide.mcp_header_seq(c, call);
            &&& ide.mcp_address(c) == "https://"@ + (host + "/mcp"@)
            &&& cli.mcp_address(c) == ide.mcp_address(c)
            &&& cli.mcp_header_seq(c, call) == headers
            &&& introduces_itself(headers, c, host, call)
            &&& match c.profile_arn {
                Some(arn) => headers.contains(("x-amzn-kiro-profile-arn"@, arn)) && headers.len()
                    == own_headers(c) + 1,
                None => headers.len() == own_headers(c),
            }
        }),
{
    let r = normal_region(c.region);
    let host = crate::endpoint::ide::q_host(c);
    assert("q."@ + r + ".amazonaws.com"@ =~= "q."@ + (r + ".amazonaws.com"@));
    assert(ide.mcp_address(c) =~= "https://"@ + (host + "/mcp"@));
    let common = crate::endpoint::common_headers(c, c.agent_mode, host, call);
    let headers = ide.mcp_header_seq(c, call);
    assert(headers.take(common.len() as int) =~= common);
    lemma_introduced(headers, c, host, call);
    if c.profile_arn is Some {
        lemma_held(headers, common.len() as int, headers[common.len() as int]);
    }
}

/// A body that is not JSON is sent as it is. One that is goes out as JSON again: with the
/// profile for streaming, if there is one, and in every message of its conversation the
/// origin of the endpoint, and without what the command line does not know where that
/// makes the request.
pub proof fn bodies_take_the_form_of_the_endpoint(
    ide: IdeEndpoint,
    cli: CliEndpoint,
    body: Seq<char>,
    c: ContextV,
)
    ensures
        match json_parsed(body) {
            Err(_) => ide.api_body(body, c) == body && cli.api_body(body, c) == body,
            Ok(v) => (v is Object && has_conversation(v)) ==> {
                &&& exists|w: JsonV|
                    ide.api_body(body, c) == json_printed(w) && #[trigger] takes_the_form(
                        v,
                        w,
                        c.streaming_profile_arn,
                        "AI_EDITOR"@,
                        false,
                    )
                &&& exists|w: JsonV|
                    cli.api_body(body, c) == json_printed(w) && #[trigger] takes_the_form(
                        v,
                        w,
                        c.streaming_profile_arn,
                        "CLI"@,
                        true,
                    )
            },
        },
{
    if let Ok(v) = json_parsed(body) {
        if v is Object && has_conversation(v) {
            let p = c.streaming_profile_arn;
            every_message_names_the_origin(v, p, "AI_EDITOR"@, false);
            every_message_names_the_origin(v, p, "CLI"@, true);
            let a = crate::endpoint::payload::streaming_payload(v, p, "AI_EDITOR"@, false);
            let b = crate::endpoint::payload::streaming_payload(v, p, "CLI"@, true);
            assert(takes_the_form(v, a, p, "AI_EDITOR"@, false));
            assert(takes_the_form(v, b, p, "CLI"@, true));
        }
    }
}

/// `w` is the payload `v` with the profile, if there is one, and the origin in every message
/// of its conversation; `strip` tells whether what the command line does not know is gone.
pub open spec fn takes_the_form(
    v: JsonV,
    w: JsonV,
    profile_arn: Option<Seq<char>>,
    origin: Seq<char>,
    strip: bool,
) -> bool {
    &&& w is Object
    &&& has_conversation(w)
    &&& (profile_arn matches Some(arn) ==> w->Object_0.dom().contains("profileArn"@)
        && w->Object_0["profileArn"@] == JsonV::Text(arn))
    &&& carried_everywhere(
        v->Object_0["conversationState"@]->Object_0,
        w->Object_0["conversationState"@]->Object_0,
        "origin"@,
        origin,
        dropped_members(strip),
    )
}

/// The endpoints of the editor go by three names, each of them its own; only one of them
/// takes the model by its internal name.
pub proof fn endpoints_are_told_apart_by_name(kind: EditorEndpointKind)
    ensures
        crate::endpoint::ide::editor_named(crate::endpoint::ide::editor_model(kind).name) == Some(
            kind,
        ),
        (IdeEndpoint { kind }).own_name() == match kind {
            EditorEndpointKind::CodeWhisperer => "codewhisperer"@,
            EditorEndpointKind::AmazonQ => "amazonq"@,
            EditorEndpointKind::KiroRuntime => "runtime"@,
        },
        crate::endpoint::ide::editor_model(kind).display_name == match kind {
            EditorEndpointKind::CodeWhisperer => "CodeWhisperer"@,
            EditorEndpointKind::AmazonQ => "AmazonQ"@,
            EditorEndpointKind::KiroRuntime => "KiroRuntime"@,
        },
        crate::endpoint::ide::editor_model(kind).needs_model_id == (kind
            == EditorEndpointKind::CodeWhisperer),
        CliEndpoint.own_name() == "amazonq-cli"@,
{
    reveal_strlit("codewhisperer");
    reveal_strlit("amazonq");
    reveal_strlit("runtime");
    assert("codewhisperer"@.len() == 13);
    assert("amazonq"@[0] == 'a');
    assert("runtime"@[0] == 'r');
}

} // verus!
