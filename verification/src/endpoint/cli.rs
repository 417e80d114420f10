//! The endpoint that takes the requests of the command line.
use crate::endpoint::ide::{q_host, RUNTIME_ENDPOINT_NAME};
use crate::endpoint::payload::{transform_streaming_payload, transformed_body};
use crate::endpoint::{
    common_header_list, common_headers, normal_region, normalize_api_region, push_header,
    push_profile, with_profile, ContextV, KiroEndpoint, RequestContext,
};
use crate::text::join3;
use vstd::prelude::*;

verus! {

/// A former name, kept for accounts that use it.
pub const CLI_ENDPOINT_NAME: &'static str = "cli";

pub const AMAZON_Q_CLI_ENDPOINT_NAME: &'static str = "amazonq-cli";

pub struct CliEndpoint;

impl CliEndpoint {
    pub fn new() -> (r: Self)
        ensures
            r == CliEndpoint,
    {
        CliEndpoint
    }

    fn api_region(&self, ctx: &RequestContext<'_>) -> (r: &'static str)
        ensures
            r@ == normal_region(ctx@.region),
    {
        normalize_api_region(ctx.credentials.effective_api_region(ctx.config))
    }

    fn host(&self, ctx: &RequestContext<'_>) -> (r: String)
        ensures
            r@ == q_host(ctx@),
    {
        join3("q.", self.api_region(ctx), ".amazonaws.com")
    }
}

impl Default for CliEndpoint {
    fn default() -> (r: Self)
        ensures
            r == CliEndpoint,
    {
        CliEndpoint::new()
    }
}

impl KiroEndpoint for CliEndpoint {
    open spec fn own_name(&self) -> Seq<char> {
        "amazonq-cli"@
    }

    open spec fn api_address(&self, c: ContextV) -> Seq<char> {
        "https://"@ + q_host(c) + "/SendMessageStreaming"@
    }

    open spec fn mcp_address(&self, c: ContextV) -> Seq<char> {
        "https://"@ + q_host(c) + "/mcp"@
    }

    open spec fn api_header_seq(&self, c: ContextV, call: Seq<char>) -> Seq<
        (Seq<char>, Seq<char>),
    > {
        common_headers(c, c.agent_mode, q_host(c), call).push(
            ("x-amz-target"@, "AmazonQDeveloperStreamingService.SendMessage"@),
        )
    }

    open spec fn mcp_header_seq(&self, c: ContextV, call: Seq<char>) -> Seq<
        (Seq<char>, Seq<char>),
    > {
        with_profile(common_headers(c, c.agent_mode, q_host(c), call), c.profile_arn)
    }

    open spec fn api_body(&self, body: Seq<char>, c: ContextV) -> Seq<char> {
        transformed_body(body, c.streaming_profile_arn, "CLI"@, true)
    }

    fn name(&self) -> (r: &'static str) {
        AMAZON_Q_CLI_ENDPOINT_NAME
    }

    fn display_name(&self) -> (r: &'static str)
        ensures
            r@ == "AmazonQCLI"@,
    {
        "AmazonQCLI"
    }

    fn fallback_name(&self) -> (r: Option<&'static str>)
        ensures
            r is Some,
            r->Some_0@ == "runtime"@,
    {
        Some(RUNTIME_ENDPOINT_NAME)
    }

    fn api_url(&self, ctx: &RequestContext<'_>) -> (r: String) {
        join3("https://", self.host(ctx).as_str(), "/SendMessageStreaming")
    }

    fn mcp_url(&self, ctx: &RequestContext<'_>) -> (r: String) {
        join3("https://", self.host(ctx).as_str(), "/mcp")
    }

    fn api_headers(&self, ctx: &RequestContext<'_>, call: &str) -> (r: Vec<(String, String)>) {
        let host = self.host(ctx);
        let mut headers = common_header_list(
            ctx,
            ctx.config.agent_mode.as_str(),
            host.as_str(),
            call,
        );
        push_header(
            &mut headers,
            "x-amz-target",
            "AmazonQDeveloperStreamingService.SendMessage",
        );
        headers
    }

    fn mcp_headers(&self, ctx: &RequestContext<'_>, call: &str) -> (r: Vec<(String, String)>) {
        let host = self.host(ctx);
        let mut headers = common_header_list(
            ctx,
            ctx.config.agent_mode.as_str(),
            host.as_str(),
            call,
        );
        push_profile(&mut headers, &ctx.credentials.profile_arn);
        headers
    }

    fn transform_api_body(&self, body: &str, ctx: &RequestContext<'_>) -> (r: String) {
        transform_streaming_payload(body, &ctx.credentials.streaming_profile_arn, "CLI", true)
    }
}

} // verus!
