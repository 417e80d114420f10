//! The endpoints of the upstream: how requests are addressed, headed and shaped.
pub mod cli;
pub mod ide;
pub mod payload;
pub mod payload_laws;
pub mod refusal;
pub mod refusal_laws;
pub mod request_laws;
use crate::ids::{fresh_call_id, is_uuid_text};
use crate::json::json_parsed;
use crate::kiro_version::{effective, version_given, LatestVersion};
use crate::text::{lower_chars, lowered, occurs_at, opt_text, push_text};
use refusal::{
    account_suspended, account_throttled, default_is_account_suspended,
    default_is_account_throttled, default_is_bearer_token_invalid,
    default_is_client_validation_error, default_is_gateway_timeout,
    default_is_monthly_request_limit, gateway_timed_out, quota_used_up, request_invalid,
    token_invalid,
};
use vstd::prelude::*;

verus! {

/// What a request takes from the account that it is made with.
pub struct KiroCredentials {
    pub region: Option<String>,
    pub api_region: Option<String>,
    /// The kind of the token, where it has to be named.
    pub token_type: Option<String>,
    pub profile_arn: Option<String>,
    /// The profile that streaming requests name.
    pub streaming_profile_arn: Option<String>,
}

/// What a request takes from the configuration.
pub struct Config {
    pub region: String,
    pub api_region: Option<String>,
    pub agent_mode: String,
    pub kiro_version: String,
    pub system_version: String,
    pub node_version: String,
}

pub ghost struct ContextV {
    pub region: Seq<char>,
    pub token_type: Option<Seq<char>>,
    pub profile_arn: Option<Seq<char>>,
    pub streaming_profile_arn: Option<Seq<char>>,
    pub token: Seq<char>,
    pub machine_id: Seq<char>,
    pub agent_mode: Seq<char>,
    pub version: Seq<char>,
    pub system_version: Seq<char>,
    pub node_version: Seq<char>,
}

/// What is known when a request is made.
pub struct RequestContext<'a> {
    pub credentials: &'a KiroCredentials,
    pub token: &'a str,
    pub machine_id: &'a str,
    pub config: &'a Config,
    pub latest_version: &'a LatestVersion,
}

/// The region of a request: that of the account goes before that of the
/// configuration, and one that is set for the interface before the general one.
pub open spec fn region_of(credentials: KiroCredentials, config: Config) -> Seq<char> {
    match opt_text(credentials.api_region) {
        Some(r) => r,
        None => match opt_text(credentials.region) {
            Some(r) => r,
            None => match opt_text(config.api_region) {
                Some(r) => r,
                None => config.region@,
            },
        },
    }
}

impl<'a> View for RequestContext<'a> {
    type V = ContextV;

    open spec fn view(&self) -> ContextV {
        ContextV {
            region: region_of(*self.credentials, *self.config),
            token_type: opt_text(self.credentials.token_type),
            profile_arn: opt_text(self.credentials.profile_arn),
            streaming_profile_arn: opt_text(self.credentials.streaming_profile_arn),
            token: self.token@,
            machine_id: self.machine_id@,
            agent_mode: self.config.agent_mode@,
            version: version_given(self.latest_version@, self.config.kiro_version@),
            system_version: self.config.system_version@,
            node_version: self.config.node_version@,
        }
    }
}

impl KiroCredentials {
    /// The region of requests with this account.
    pub fn effective_api_region<'a>(&'a self, config: &'a Config) -> (r: &'a str)
        ensures
            r@ == region_of(*self, *config),
    {
        match &self.api_region {
            Some(r) => r.as_str(),
            None => match &self.region {
                Some(r) => r.as_str(),
                None => match &config.api_region {
                    Some(r) => r.as_str(),
                    None => config.region.as_str(),
                },
            },
        }
    }
}

/// There are two regions: that of Europe for regions in Europe, and that of the
/// United States for all others.
pub open spec fn normal_region(region: Seq<char>) -> Seq<char> {
    if occurs_at(lowered(region), "eu-"@, 0) {
        "eu-central-1"@
    } else {
        "us-east-1"@
    }
}

/// The one of the two regions that a region belongs to.
pub fn normalize_api_region(region: &str) -> (r: &'static str)
    ensures
        r@ == normal_region(region@),
{
    let low = lower_chars(region);
    let eu = crate::text::chars_of("eu-");
    if crate::text::starts_with(low.as_slice(), eu.as_slice()) {
        "eu-central-1"
    } else {
        "us-east-1"
    }
}

/// A region that has been normalized stays as it is, and is one of the two.
pub proof fn normalizing_a_region_is_stable(region: Seq<char>)
    ensures
        normal_region(normal_region(region)) == normal_region(region),
        normal_region(region) == "eu-central-1"@ || normal_region(region) == "us-east-1"@,
{
    reveal_strlit("eu-");
    reveal_strlit("eu-central-1");
    reveal_strlit("us-east-1");
    let eu = "eu-central-1"@;
    let us = "us-east-1"@;
    assert(lowered(eu).subrange(0, 3) =~= "eu-"@) by {
        assert(eu[0] == 'e' && eu[1] == 'u' && eu[2] == '-');
    }
    assert(lowered(us)[1] == 's') by {
        assert(us[1] == 's');
    }
    assert("eu-"@[1] == 'u');
    if occurs_at(lowered(us), "eu-"@, 0) {
        assert(lowered(us).subrange(0, 3)[1] == lowered(us)[1]);
    }
}

/// Headers, each with its name and its value.
pub open spec fn headers_view(v: Seq<(String, String)>) -> Seq<(Seq<char>, Seq<char>)> {
    Seq::new(v.len(), |i: int| (v[i].0@, v[i].1@))
}

pub(crate) fn push_header(headers: &mut Vec<(String, String)>, name: &str, value: &str)
    ensures
        headers_view(final(headers)@) == headers_view(old(headers)@).push((name@, value@)),
{
    headers.push((name.to_owned(), value.to_owned()));
    assert(headers_view(headers@) =~= headers_view(old(headers)@).push((name@, value@)));
}

/// The short form in which a request names its origin.
pub open spec fn short_agent(c: ContextV) -> Seq<char> {
    "aws-sdk-js/1.0.34 KiroIDE-"@ + c.version + "-"@ + c.machine_id
}

/// The long form in which a request names its origin.
pub open spec fn long_agent(c: ContextV) -> Seq<char> {
    "aws-sdk-js/1.0.34 ua/2.1 os/"@ + c.system_version + " lang/js md/nodejs#"@ + c.node_version
        + " api/codewhispererstreaming#1.0.34 m/E KiroIDE-"@ + c.version + "-"@ + c.machine_id
}

fn x_amz_user_agent(ctx: &RequestContext<'_>) -> (r: String)
    ensures
        r@ == short_agent(ctx@),
{
    let version = effective(ctx.latest_version, ctx.config.kiro_version.as_str());
    let mut s = "aws-sdk-js/1.0.34 KiroIDE-".to_owned();
    push_text(&mut s, version.as_str());
    push_text(&mut s, "-");
    push_text(&mut s, ctx.machine_id);
    s
}

fn user_agent(ctx: &RequestContext<'_>) -> (r: String)
    ensures
        r@ == long_agent(ctx@),
{
    let version = effective(ctx.latest_version, ctx.config.kiro_version.as_str());
    let mut s = "aws-sdk-js/1.0.34 ua/2.1 os/".to_owned();
    push_text(&mut s, ctx.config.system_version.as_str());
    push_text(&mut s, " lang/js md/nodejs#");
    push_text(&mut s, ctx.config.node_version.as_str());
    push_text(&mut s, " api/codewhispererstreaming#1.0.34 m/E KiroIDE-");
    push_text(&mut s, version.as_str());
    push_text(&mut s, "-");
    push_text(&mut s, ctx.machine_id);
    s
}

/// The headers that all requests have, `call` identifying the call.
pub open spec fn common_headers(
    c: ContextV,
    agent_mode: Seq<char>,
    host: Seq<char>,
    call: Seq<char>,
) -> Seq<(Seq<char>, Seq<char>)> {
    let headers = seq![
        ("x-amzn-kiro-agent-mode"@, agent_mode),
        ("x-amz-user-agent"@, short_agent(c)),
        ("user-agent"@, long_agent(c)),
        ("host"@, host),
        ("amz-sdk-invocation-id"@, call),
        ("amz-sdk-request"@, "attempt=1; max=3"@),
        ("Authorization"@, "Bearer "@ + c.token),
    ];
    match c.token_type {
        Some(t) => headers.push(("TokenType"@, t)),
        None => headers,
    }
}

pub(crate) fn common_header_list(
    ctx: &RequestContext<'_>,
    agent_mode: &str,
    host: &str,
    call: &str,
) -> (r: Vec<(String, String)>)
    ensures
        headers_view(r@) == common_headers(ctx@, agent_mode@, host@, call@),
{
    let mut headers: Vec<(String, String)> = Vec::new();
    assert(headers_view(headers@) =~= Seq::<(Seq<char>, Seq<char>)>::empty());
    push_header(&mut headers, "x-amzn-kiro-agent-mode", agent_mode);
    push_header(&mut headers, "x-amz-user-agent", x_amz_user_agent(ctx).as_str());
    push_header(&mut headers, "user-agent", user_agent(ctx).as_str());
    push_header(&mut headers, "host", host);
    push_header(&mut headers, "amz-sdk-invocation-id", call);
    push_header(&mut headers, "amz-sdk-request", "attempt=1; max=3");
    let bearer = crate::text::join2("Bearer ", ctx.token);
    push_header(&mut headers, "Authorization", bearer.as_str());
    match &ctx.credentials.token_type {
        Some(t) => {
            push_header(&mut headers, "TokenType", t.as_str());
        },
        None => {},
    }
    assert(headers_view(headers@) =~= common_headers(ctx@, agent_mode@, host@, call@));
    headers
}

/// The headers with that of the profile, if there is one.
pub open spec fn with_profile(
    headers: Seq<(Seq<char>, Seq<char>)>,
    profile_arn: Option<Seq<char>>,
) -> Seq<(Seq<char>, Seq<char>)> {
    match profile_arn {
        Some(arn) => headers.push(("x-amzn-kiro-profile-arn"@, arn)),
        None => headers,
    }
}

pub(crate) fn push_profile(headers: &mut Vec<(String, String)>, profile_arn: &Option<String>)
    ensures
        headers_view(final(headers)@) == with_profile(
            headers_view(old(headers)@),
            opt_text(*profile_arn),
        ),
{
    match profile_arn {
        Some(arn) => {
            push_header(headers, "x-amzn-kiro-profile-arn", arn.as_str());
        },
        None => {},
    }
}

/// An endpoint of the upstream.
pub trait KiroEndpoint: Send + Sync {
    /// The name under which it is configured.
    spec fn own_name(&self) -> Seq<char>;

    /// Where its requests go.
    spec fn api_address(&self, c: ContextV) -> Seq<char>;

    spec fn mcp_address(&self, c: ContextV) -> Seq<char>;

    /// The headers of its requests, `call` identifying the call.
    spec fn api_header_seq(&self, c: ContextV, call: Seq<char>) -> Seq<(Seq<char>, Seq<char>)>;

    spec fn mcp_header_seq(&self, c: ContextV, call: Seq<char>) -> Seq<(Seq<char>, Seq<char>)>;

    /// The bodies of its requests.
    spec fn api_body(&self, body: Seq<char>, c: ContextV) -> Seq<char>;

    /// The name under which the endpoint is configured.
    fn name(&self) -> (r: &'static str)
        ensures
            r@ == self.own_name(),
    ;

    /// The name under which the endpoint is logged.
    fn display_name(&self) -> (r: &'static str)
        default_ensures
            r@ == self.own_name(),
    {
        self.name()
    }

    /// The endpoint to turn to once where this one is overloaded.
    fn fallback_name(&self) -> (r: Option<&'static str>)
        default_ensures
            r is None,
    {
        None
    }

    /// Whether the model has to be given by its internal name.
    fn requires_codewhisperer_model_id(&self) -> (r: bool)
        default_ensures
            !r,
    {
        false
    }

    /// The type of the bodies.
    fn content_type(&self) -> (r: &'static str)
        default_ensures
            r@ == "application/json"@,
    {
        "application/json"
    }

    /// Where requests go.
    fn api_url(&self, ctx: &RequestContext<'_>) -> (r: String)
        ensures
            r@ == self.api_address(ctx@),
    ;

    /// Where searches go.
    fn mcp_url(&self, ctx: &RequestContext<'_>) -> (r: String)
        ensures
            r@ == self.mcp_address(ctx@),
    ;

    /// The headers of a request.
    fn api_headers(&self, ctx: &RequestContext<'_>, call: &str) -> (r: Vec<(String, String)>)
        ensures
            headers_view(r@) == self.api_header_seq(ctx@, call@),
    ;

    /// The headers of a search.
    fn mcp_headers(&self, ctx: &RequestContext<'_>, call: &str) -> (r: Vec<(String, String)>)
        ensures
            headers_view(r@) == self.mcp_header_seq(ctx@, call@),
    ;

    /// The headers of a request that is about to be sent, under a fresh identifier.
    fn decorate_api(&self, ctx: &RequestContext<'_>) -> (r: Vec<(String, String)>)
        ensures
            exists|call: Seq<char>|
                is_uuid_text(call) && headers_view(r@) == #[trigger] self.api_header_seq(
                    ctx@,
                    call,
                ),
    {
        let call = fresh_call_id();
        self.api_headers(ctx, call.as_str())
    }

    /// The headers of a search that is about to be sent, under a fresh identifier.
    fn decorate_mcp(&self, ctx: &RequestContext<'_>) -> (r: Vec<(String, String)>)
        ensures
            exists|call: Seq<char>|
                is_uuid_text(call) && headers_view(r@) == #[trigger] self.mcp_header_seq(
                    ctx@,
                    call,
                ),
    {
        let call = fresh_call_id();
        self.mcp_headers(ctx, call.as_str())
    }

    /// The body of a request in the form of the endpoint.
    fn transform_api_body(&self, body: &str, ctx: &RequestContext<'_>) -> (r: String)
        ensures
            r@ == self.api_body(body@, ctx@),
    ;

    /// The body of a search in the form of the endpoint.
    fn transform_mcp_body(&self, body: &str, ctx: &RequestContext<'_>) -> (r: String)
        default_ensures
            r@ == body@,
    {
        body.to_owned()
    }

    /// Whether a body means that the quota of the account is used up.
    fn is_monthly_request_limit(&self, body: &str) -> (r: bool)
        default_ensures
            r == quota_used_up(body@, json_parsed(body@)),
    {
        default_is_monthly_request_limit(body)
    }

    /// Whether a body means that the token of the request is not valid.
    fn is_bearer_token_invalid(&self, body: &str) -> (r: bool)
        default_ensures
            r == token_invalid(body@),
    {
        default_is_bearer_token_invalid(body)
    }

    /// Whether a body means that the account is slowed down for a while.
    fn is_account_throttled(&self, body: &str) -> (r: bool)
        default_ensures
            r == account_throttled(body@, json_parsed(body@)),
    {
        default_is_account_throttled(body)
    }

    /// Whether a body means that the request itself is at fault.
    fn is_client_validation_error(&self, body: &str) -> (r: bool)
        default_ensures
            r == request_invalid(body@, json_parsed(body@)),
    {
        default_is_client_validation_error(body)
    }

    /// Whether a body means that a gateway gave up waiting.
    fn is_gateway_timeout(&self, body: &str) -> (r: bool)
        default_ensures
            r == gateway_timed_out(body@),
    {
        default_is_gateway_timeout(body)
    }

    /// Whether a body means that the account is suspended.
    fn is_account_suspended(&self, body: &str) -> (r: bool)
        default_ensures
            r == account_suspended(body@, json_parsed(body@)),
    {
        default_is_account_suspended(body)
    }
}

} // verus!
