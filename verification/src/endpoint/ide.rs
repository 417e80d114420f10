//! The endpoints that take the requests of an editor.
//!
//! They take the same bodies; each has limits of its own, so that one can stand in
//! for another that is overloaded.
use crate::endpoint::payload::{transform_streaming_payload, transformed_body};
use crate::endpoint::{
    common_header_list, common_headers, normal_region, normalize_api_region, push_header,
    push_profile, with_profile, ContextV, KiroEndpoint, RequestContext,
};
use crate::text::join3;
use vstd::prelude::*;

verus! {

/// A former name, kept for configurations that use it.
pub const IDE_ENDPOINT_NAME: &'static str = "ide";

pub const CODEWHISPERER_ENDPOINT_NAME: &'static str = "codewhisperer";

pub const AMAZON_Q_ENDPOINT_NAME: &'static str = "amazonq";

pub const RUNTIME_ENDPOINT_NAME: &'static str = "runtime";

#[derive(Clone, Copy, Debug, PartialEq, Eq, Structural)]
pub enum EditorEndpointKind {
    CodeWhisperer,
    AmazonQ,
    KiroRuntime,
}

pub struct IdeEndpoint {
    pub kind: EditorEndpointKind,
}

/// The host of a kind of endpoint.
pub open spec fn editor_host(kind: EditorEndpointKind, c: ContextV) -> Seq<char> {
    match kind {
        EditorEndpointKind::KiroRuntime => "runtime."@ + normal_region(c.region) + ".kiro.dev"@,
        EditorEndpointKind::CodeWhisperer => if normal_region(c.region) == "us-east-1"@ {
            "codewhisperer.us-east-1.amazonaws.com"@
        } else {
            q_host(c)
        },
        EditorEndpointKind::AmazonQ => q_host(c),
    }
}

/// The host that takes searches.
pub open spec fn q_host(c: ContextV) -> Seq<char> {
    "q."@ + normal_region(c.region) + ".amazonaws.com"@
}

impl IdeEndpoint {
    /// The endpoint that requests go to first.
    pub fn new() -> (r: Self)
        ensures
            r.kind == EditorEndpointKind::CodeWhisperer,
    {
        IdeEndpoint::codewhisperer()
    }

    pub fn codewhisperer() -> (r: Self)
        ensures
            r.kind == EditorEndpointKind::CodeWhisperer,
    {
        IdeEndpoint { kind: EditorEndpointKind::CodeWhisperer }
    }

    pub fn amazon_q() -> (r: Self)
        ensures
            r.kind == EditorEndpointKind::AmazonQ,
    {
        IdeEndpoint { kind: EditorEndpointKind::AmazonQ }
    }

    pub fn runtime() -> (r: Self)
        ensures
            r.kind == EditorEndpointKind::KiroRuntime,
    {
        IdeEndpoint { kind: EditorEndpointKind::KiroRuntime }
    }

    fn api_region(&self, ctx: &RequestContext<'_>) -> (r: &'static str)
        ensures
            r@ == normal_region(ctx@.region),
    {
        normalize_api_region(ctx.credentials.effective_api_region(ctx.config))
    }

    fn api_host(&self, ctx: &RequestContext<'_>) -> (r: String)
        ensures
            r@ == editor_host(self.kind, ctx@),
    {
        let region = self.api_region(ctx);
        match self.kind {
            EditorEndpointKind::KiroRuntime => join3("runtime.", region, ".kiro.dev"),
            EditorEndpointKind::CodeWhisperer => if crate::text::same_text(region, "us-east-1") {
                "codewhisperer.us-east-1.amazonaws.com".to_owned()
            } else {
                self.mcp_host(ctx)
            },
            EditorEndpointKind::AmazonQ => self.mcp_host(ctx),
        }
    }

    fn mcp_host(&self, ctx: &RequestContext<'_>) -> (r: String)
        ensures
            r@ == q_host(ctx@),
    {
        join3("q.", self.api_region(ctx), ".amazonaws.com")
    }
}

impl Default for IdeEndpoint {
    fn default() -> (r: Self)
        ensures
            r.kind == EditorEndpointKind::CodeWhisperer,
    {
        IdeEndpoint::new()
    }
}

/// What sets a kind of endpoint apart: its names, the endpoint that stands in for it,
/// and whether it takes the model by its internal name.
pub ghost struct EditorV {
    pub name: Seq<char>,
    pub display_name: Seq<char>,
    pub fallback: Seq<char>,
    pub needs_model_id: bool,
}

/// What sets the kinds of endpoint apart.
pub open spec fn editor_model(kind: EditorEndpointKind) -> EditorV {
    match kind {
        EditorEndpointKind::CodeWhisperer => EditorV {
            name: "codewhisperer"@,
            display_name: "CodeWhisperer"@,
            fallback: "runtime"@,
            needs_model_id: true,
        },
        EditorEndpointKind::AmazonQ => EditorV {
            name: "amazonq"@,
            display_name: "AmazonQ"@,
            fallback: "runtime"@,
            needs_model_id: false,
        },
        EditorEndpointKind::KiroRuntime => EditorV {
            name: "runtime"@,
            display_name: "KiroRuntime"@,
            fallback: "codewhisperer"@,
            needs_model_id: false,
        },
    }
}

impl KiroEndpoint for IdeEndpoint {
    open spec fn own_name(&self) -> Seq<char> {
        editor_model(self.kind).name
    }

    open spec fn api_address(&self, c: ContextV) -> Seq<char> {
        "https://"@ + editor_host(self.kind, c) + "/generateAssistantResponse"@
    }

    open spec fn mcp_address(&self, c: ContextV) -> Seq<char> {
        "https://"@ + q_host(c) + "/mcp"@
    }

    open spec fn api_header_seq(&self, c: ContextV, call: Seq<char>) -> Seq<
        (Seq<char>, Seq<char>),
    > {
        let headers = common_headers(c, c.agent_mode, editor_host(self.kind, c), call).push(
            (
                "x-amz-target"@,
                "AmazonCodeWhispererStreamingService.GenerateAssistantResponse"@,
            ),
        );
        if self.kind == EditorEndpointKind::KiroRuntime {
            headers.push(("x-amzn-codewhisperer-optout"@, "true"@))
        } else {
            headers
        }
    }

    open spec fn mcp_header_seq(&self, c: ContextV, call: Seq<char>) -> Seq<
        (Seq<char>, Seq<char>),
    > {
        with_profile(common_headers(c, c.agent_mode, q_host(c), call), c.profile_arn)
    }

    open spec fn api_body(&self, body: Seq<char>, c: ContextV) -> Seq<char> {
        transformed_body(body, c.streaming_profile_arn, "AI_EDITOR"@, false)
    }

    fn name(&self) -> (r: &'static str) {
        match self.kind {
            EditorEndpointKind::CodeWhisperer => CODEWHISPERER_ENDPOINT_NAME,
            EditorEndpointKind::AmazonQ => AMAZON_Q_ENDPOINT_NAME,
            EditorEndpointKind::KiroRuntime => RUNTIME_ENDPOINT_NAME,
        }
    }

    fn display_name(&self) -> (r: &'static str)
        ensures
            r@ == editor_model(self.kind).display_name,
    {
        match self.kind {
            EditorEndpointKind::CodeWhisperer => "CodeWhisperer",
            EditorEndpointKind::AmazonQ => "AmazonQ",
            EditorEndpointKind::KiroRuntime => "KiroRuntime",
        }
    }

    fn fallback_name(&self) -> (r: Option<&'static str>)
        ensures
            r is Some,
            r->Some_0@ == editor_model(self.kind).fallback,
    {
        match self.kind {
            EditorEndpointKind::KiroRuntime => Some(CODEWHISPERER_ENDPOINT_NAME),
            EditorEndpointKind::CodeWhisperer => Some(RUNTIME_ENDPOINT_NAME),
            EditorEndpointKind::AmazonQ => Some(RUNTIME_ENDPOINT_NAME),
        }
    }

    fn requires_codewhisperer_model_id(&self) -> (r: bool)
        ensures
            r == editor_model(self.kind).needs_model_id,
    {
        self.kind == EditorEndpointKind::CodeWhisperer
    }

    fn api_url(&self, ctx: &RequestContext<'_>) -> (r: String) {
        join3("https://", self.api_host(ctx).as_str(), "/generateAssistantResponse")
    }

    fn mcp_url(&self, ctx: &RequestContext<'_>) -> (r: String) {
        join3("https://", self.mcp_host(ctx).as_str(), "/mcp")
    }

    fn api_headers(&self, ctx: &RequestContext<'_>, call: &str) -> (r: Vec<(String, String)>) {
        let host = self.api_host(ctx);
        let mut headers = common_header_list(
            ctx,
            ctx.config.agent_mode.as_str(),
            host.as_str(),
            call,
        );
        push_header(
            &mut headers,
            "x-amz-target",
            "AmazonCodeWhispererStreamingService.GenerateAssistantResponse",
        );
        if self.kind == EditorEndpointKind::KiroRuntime {
            push_header(&mut headers, "x-amzn-codewhisperer-optout", "true");
        }
        headers
    }

    fn mcp_headers(&self, ctx: &RequestContext<'_>, call: &str) -> (r: Vec<(String, String)>) {
        let host = self.mcp_host(ctx);
        let mut headers = common_header_list(
            ctx,
            ctx.config.agent_mode.as_str(),
            host.as_str(),
            call,
        );
        push_profile(&mut headers, &ctx.credentials.profile_arn);
        headers
    }

    fn transform_api_body(&self, body: &str, ctx: &RequestContext<'_>) -> (r: String) {
        transform_streaming_payload(
            body,
            &ctx.credentials.streaming_profile_arn,
            "AI_EDITOR",
            false,
        )
    }
}

/// The kind that a name belongs to.
pub open spec fn editor_named(name: Seq<char>) -> Option<EditorEndpointKind> {
    if name == "codewhisperer"@ {
        Some(EditorEndpointKind::CodeWhisperer)
    } else if name == "amazonq"@ {
        Some(EditorEndpointKind::AmazonQ)
    } else if name == "runtime"@ {
        Some(EditorEndpointKind::KiroRuntime)
    } else {
        None
    }
}

/// The endpoints stand in for one another in a ring: each has another one to turn
/// to, and from there on the runtime and the first one take turns.
pub proof fn fallbacks_form_a_ring(kind: EditorEndpointKind)
    ensures
        ({
            let next = editor_model(kind).fallback;
            &&& editor_named(next) is Some
            &&& editor_named(next) != Some(kind)
            &&& (kind == EditorEndpointKind::KiroRuntime) == (editor_named(next) == Some(
                EditorEndpointKind::CodeWhisperer,
            ))
            &&& (kind != EditorEndpointKind::KiroRuntime) == (editor_named(next) == Some(
                EditorEndpointKind::KiroRuntime,
            ))
        }),
{
    reveal_strlit("codewhisperer");
    reveal_strlit("amazonq");
    reveal_strlit("runtime");
    assert("codewhisperer"@[0] == 'c');
    assert("amazonq"@[0] == 'a');
    assert("runtime"@[0] == 'r');
}

} // verus!
