//! One round of an answer that web searches go into: what the upstream sent, what
//! it cost and how it may have failed.
use crate::buffered::copy_jsons;
use crate::content_blocks::{text_content, text_content_json};
use crate::json::{json_parsed, Json, JsonV};
use crate::names::{NameMap, NameSet, Restoring, ToolRestorer};
use crate::search_content::calls_view;
use crate::sse::{opt_metering, typed, typed_json, MeteringEvent, MeteringV};
use crate::stream::{jsons, Event};
use crate::stream_model::EventV;
use crate::text::{chars_of, is_blank, join2, opt_text, push_text, same_text, trimmed};
use crate::tokens::{at_least_zero, not_negative, TokenUsage};
use crate::tool_json::{
    call_block, restored_call, with_fragment, CallV, CompletedToolUse, PendingToolUse, PendingV,
    ToolJsonAccumulator,
};
use crate::xml_leak::{strip_tool_use_xml_leaks, xml_stripped};
use vstd::prelude::*;

verus! {

/// How often an empty answer to a tool result is asked for again.
pub const MAX_EMPTY_TOOL_RESULT_RETRIES: usize = 1;

/// What one round brought.
pub struct RoundOutcome<R = NameMap> {
    pub text: String,
    pub thinking: String,
    pub tool_uses: Vec<CompletedToolUse>,
    pub context_input_tokens: Option<i32>,
    pub provider_token_usage: Option<TokenUsage>,
    /// What each metering event charged, in the order of the events.
    pub credits: Vec<Json>,
    pub last_metering: Option<MeteringEvent>,
    pub stop_reason_override: Option<String>,
    pub stream_error: Option<String>,
    pub known_tool_names: NameSet,
    pub tool_name_map: R,
}

pub ghost struct RoundV {
    pub text: Seq<char>,
    pub thinking: Seq<char>,
    pub calls: Seq<CallV>,
    pub context_input_tokens: Option<i32>,
    pub provider_token_usage: Option<TokenUsage>,
    pub metered: Seq<JsonV>,
    pub metering: Option<MeteringV>,
    pub stop_reason: Option<Seq<char>>,
    pub stream_error: Option<Seq<char>>,
    pub known: Set<Seq<char>>,
    pub names: Restoring,
}

impl<R: ToolRestorer> View for RoundOutcome<R> {
    type V = RoundV;

    open spec fn view(&self) -> RoundV {
        RoundV {
            text: self.text@,
            thinking: self.thinking@,
            calls: calls_view(self.tool_uses@),
            context_input_tokens: self.context_input_tokens,
            provider_token_usage: self.provider_token_usage,
            metered: jsons(self.credits@),
            metering: opt_metering(self.last_metering),
            stop_reason: opt_text(self.stop_reason_override),
            stream_error: opt_text(self.stream_error),
            known: self.known_tool_names@,
            names: self.tool_name_map.restoring(),
        }
    }
}

pub open spec fn thinking_content(t: Seq<char>) -> JsonV {
    typed("thinking"@).put("thinking"@, JsonV::Text(t))
}

/// The blocks of calls.
pub open spec fn call_blocks(calls: Seq<CallV>) -> Seq<JsonV> {
    Seq::new(calls.len(), |i: int| call_block(calls[i]))
}

/// A block, unless its text is empty.
pub open spec fn block_unless_empty(t: Seq<char>, block: JsonV) -> Seq<JsonV> {
    if t.len() == 0 {
        Seq::empty()
    } else {
        seq![block]
    }
}

impl RoundV {
    /// What the output of the round is estimated from.
    pub open spec fn output(self) -> Seq<JsonV> {
        block_unless_empty(self.thinking, thinking_content(self.thinking)) + block_unless_empty(
            self.text,
            text_content(self.text),
        ) + call_blocks(self.calls)
    }

    /// The provider's figures, or else the best that is known without them.
    pub open spec fn usage(self, fallback_input: int, estimated_output: i32) -> TokenUsage {
        match self.provider_token_usage {
            Some(u) => u.sane(),
            None => TokenUsage {
                uncached_input_tokens: not_negative(
                    match self.context_input_tokens {
                        Some(n) => n as int,
                        None => fallback_input,
                    },
                ) as i32,
                output_tokens: estimated_output,
                cache_read_input_tokens: 0,
                cache_write_input_tokens: 0,
            },
        }
    }
}

impl<R: ToolRestorer> RoundOutcome<R> {
    /// The content blocks that the output of the round is estimated from.
    pub fn output_blocks(&self) -> (r: Vec<Json>)
        ensures
            jsons(r@) == self@.output(),
    {
        let mut out: Vec<Json> = Vec::new();
        if chars_of(self.thinking.as_str()).len() > 0 {
            out.push(
                typed_json("thinking").with("thinking", Json::text(self.thinking.as_str())),
            );
        }
        assert(jsons(out@) =~= block_unless_empty(self@.thinking, thinking_content(self@.thinking)));
        let ghost first = jsons(out@);
        if chars_of(self.text.as_str()).len() > 0 {
            out.push(text_content_json(self.text.as_str()));
        }
        assert(jsons(out@) =~= first + block_unless_empty(self@.text, text_content(self@.text)));
        push_call_blocks(&mut out, &self.tool_uses);
        out
    }

    /// The token counts of the round. The provider's own go first; without them
    /// the input is that of the context or `fallback_input_tokens`, and the output
    /// is the estimate.
    pub fn resolved_token_usage(
        &self,
        fallback_input_tokens: i32,
        estimated_output_tokens: i32,
    ) -> (r: TokenUsage)
        ensures
            r == self@.usage(fallback_input_tokens as int, estimated_output_tokens),
    {
        match self.provider_token_usage {
            Some(usage) => usage.sanitized(),
            None => {
                let input: i32 = match self.context_input_tokens {
                    Some(n) => n,
                    None => fallback_input_tokens,
                };
                TokenUsage {
                    uncached_input_tokens: at_least_zero(input),
                    output_tokens: estimated_output_tokens,
                    cache_read_input_tokens: 0,
                    cache_write_input_tokens: 0,
                }
            },
        }
    }
}

/// Appends the blocks of calls.
pub fn push_call_blocks(out: &mut Vec<Json>, tool_uses: &Vec<CompletedToolUse>)
    ensures
        jsons(final(out)@) == jsons(old(out)@) + call_blocks(calls_view(tool_uses@)),
{
    let ghost start = jsons(out@);
    let ghost all = call_blocks(calls_view(tool_uses@));
    let mut i: usize = 0;
    while i < tool_uses.len()
        invariant
            i <= tool_uses@.len(),
            all == call_blocks(calls_view(tool_uses@)),
            jsons(out@) == start + all.take(i as int),
        decreases tool_uses.len() - i,
    {
        let ghost before = jsons(out@);
        let block = tool_uses[i].to_anthropic_block();
        out.push(block);
        assert(jsons(out@) =~= before.push(block@));
        assert(before.push(block@) =~= start + all.take(i + 1));
        i = i + 1;
    }
    assert(all.take(i as int) =~= all);
}

/// What has been read of a round so far.
pub struct RoundDecoder {
    pub text: String,
    pub thinking: String,
    pub calls: ToolJsonAccumulator,
    pub context_input_tokens: Option<i32>,
    pub provider_token_usage: Option<TokenUsage>,
    pub credits: Vec<Json>,
    pub last_metering: Option<MeteringEvent>,
    pub stop_reason_override: Option<String>,
}

pub ghost struct DecoderV {
    pub text: Seq<char>,
    pub thinking: Seq<char>,
    pub calls: Seq<PendingV>,
    pub context_input_tokens: Option<i32>,
    pub provider_token_usage: Option<TokenUsage>,
    pub metered: Seq<JsonV>,
    pub metering: Option<MeteringV>,
    pub stop_reason: Option<Seq<char>>,
}

impl View for RoundDecoder {
    type V = DecoderV;

    open spec fn view(&self) -> DecoderV {
        DecoderV {
            text: self.text@,
            thinking: self.thinking@,
            calls: self.calls@,
            context_input_tokens: self.context_input_tokens,
            provider_token_usage: self.provider_token_usage,
            metered: jsons(self.credits@),
            metering: opt_metering(self.last_metering),
            stop_reason: opt_text(self.stop_reason_override),
        }
    }
}

/// The arguments of a call; an object without members where they cannot be read.
pub open spec fn arguments_or_none(input: Seq<char>) -> JsonV {
    if input.len() == 0 {
        JsonV::object()
    } else {
        match json_parsed(input) {
            Ok(v) => v,
            Err(_) => JsonV::object(),
        }
    }
}

impl DecoderV {
    pub open spec fn fresh() -> DecoderV {
        DecoderV {
            text: Seq::empty(),
            thinking: Seq::empty(),
            calls: Seq::empty(),
            context_input_tokens: None,
            provider_token_usage: None,
            metered: Seq::empty(),
            metering: None,
            stop_reason: None,
        }
    }

    /// An event has been read. Texts and fragments add up; of counts, costs and
    /// reasons the last one holds.
    pub open spec fn read(self, event: EventV) -> DecoderV {
        match event {
            EventV::AssistantResponse(content) => DecoderV { text: self.text + content, ..self },
            EventV::Reasoning { text, signature, redacted } => match text {
                Some(t) => DecoderV { thinking: self.thinking + t, ..self },
                None => self,
            },
            EventV::ToolUse(f) => DecoderV { calls: with_fragment(self.calls, f), ..self },
            EventV::Metadata(usage) => match usage {
                Some(u) => DecoderV { provider_token_usage: Some(u.sane()), ..self },
                None => self,
            },
            EventV::ContextUsage { input_tokens, exceeded } => DecoderV {
                context_input_tokens: Some(input_tokens),
                stop_reason: if exceeded {
                    Some("model_context_window_exceeded"@)
                } else {
                    self.stop_reason
                },
                ..self
            },
            EventV::Metering(m) => DecoderV {
                metered: self.metered.push(m.usage),
                metering: Some(m),
                ..self
            },
            EventV::Exception(kind) => if kind == "ContentLengthExceededException"@ {
                DecoderV { stop_reason: Some("max_tokens"@), ..self }
            } else {
                self
            },
            EventV::Other => self,
        }
    }

    /// The calls in the order in which they first appeared.
    pub open spec fn read_calls(self, names: Restoring) -> Seq<CallV> {
        Seq::new(
            self.calls.len(),
            |i: int|
                restored_call(
                    self.calls[i].id,
                    self.calls[i].name,
                    arguments_or_none(self.calls[i].input),
                    names,
                ),
        )
    }

    /// The round once the upstream has ended, or has failed with `error`.
    pub open spec fn ended(
        self,
        error: Option<Seq<char>>,
        known: Set<Seq<char>>,
        names: Restoring,
    ) -> RoundV {
        RoundV {
            text: xml_stripped(self.text),
            thinking: self.thinking,
            calls: self.read_calls(names),
            context_input_tokens: self.context_input_tokens,
            provider_token_usage: self.provider_token_usage,
            metered: self.metered,
            metering: self.metering,
            stop_reason: self.stop_reason,
            stream_error: error,
            known,
            names,
        }
    }
}

/// The call that a text of arguments, read as `parsed`, completes.
pub fn call_with<R: ToolRestorer>(
    pending: &PendingToolUse,
    parsed: Result<Json, String>,
    tool_name_map: &R,
) -> (r: CompletedToolUse)
    ensures
        r@ == restored_call(
            pending@.id,
            pending@.name,
            match parsed {
                Ok(v) => v@,
                Err(_) => JsonV::object(),
            },
            tool_name_map.restoring(),
        ),
{
    let input = match parsed {
        Ok(v) => v,
        Err(_) => Json::object(),
    };
    CompletedToolUse::from_kiro(pending.id.clone(), pending.name.as_str(), input, tool_name_map)
}

impl RoundDecoder {
    pub fn new() -> (r: Self)
        ensures
            r@ == DecoderV::fresh(),
    {
        let r = RoundDecoder {
            text: String::new(),
            thinking: String::new(),
            calls: ToolJsonAccumulator::new(),
            context_input_tokens: None,
            provider_token_usage: None,
            credits: Vec::new(),
            last_metering: None,
            stop_reason_override: None,
        };
        assert(r@.text =~= Seq::<char>::empty());
        assert(r@.thinking =~= Seq::<char>::empty());
        assert(r@.metered =~= Seq::<JsonV>::empty());
        r
    }

    /// Reads an event.
    pub fn read(&mut self, event: &Event)
        ensures
            final(self)@ == old(self)@.read(event@),
    {
        match event {
            Event::AssistantResponse { content } => {
                push_text(&mut self.text, content.as_str());
            },
            Event::ReasoningContent(r) => {
                match &r.text {
                    Some(t) => {
                        push_text(&mut self.thinking, t.as_str());
                    },
                    None => {},
                }
            },
            Event::ToolUse(f) => {
                self.calls.add_fragment(f);
            },
            Event::Metadata { token_usage } => {
                match token_usage {
                    Some(u) => {
                        self.provider_token_usage = Some(u.sanitized());
                    },
                    None => {},
                }
            },
            Event::ContextUsage { input_tokens, exceeded } => {
                self.context_input_tokens = Some(*input_tokens);
                if *exceeded {
                    self.stop_reason_override = Some("model_context_window_exceeded".to_owned());
                }
            },
            Event::Metering(m) => {
                self.credits.push(m.usage.copy());
                self.last_metering = Some(m.copy());
                assert(jsons(self.credits@) =~= jsons(old(self).credits@).push(m@.usage));
            },
            Event::Error { error_code, error_message } => {},
            Event::Exception { exception_type, message } => {
                if same_text(exception_type.as_str(), "ContentLengthExceededException") {
                    self.stop_reason_override = Some("max_tokens".to_owned());
                }
            },
            Event::Unknown => {},
        }
    }

    /// The round once the upstream has ended, or has failed with `error`.
    pub fn finish<R: ToolRestorer>(
        self,
        error: Option<String>,
        known_tool_names: NameSet,
        tool_name_map: R,
    ) -> (r: RoundOutcome<R>)
        ensures
            r@ == self@.ended(opt_text(error), known_tool_names@, tool_name_map.restoring()),
    {
        let mut tool_uses: Vec<CompletedToolUse> = Vec::new();
        let mut i: usize = 0;
        while i < self.calls.pending.len()
            invariant
                i <= self.calls.pending@.len(),
                tool_uses@.len() == i,
                forall|k: int|
                    0 <= k < i ==> (#[trigger] tool_uses@[k])@ == self@.read_calls(
                        tool_name_map.restoring(),
                    )[k],
            decreases self.calls.pending.len() - i,
        {
            let p = &self.calls.pending[i];
            assert(p@ == self@.calls[i as int]);
            let parsed = if chars_of(p.input.as_str()).len() == 0 {
                Ok(Json::object())
            } else {
                Json::parse(p.input.as_str())
            };
            let call = call_with(p, parsed, &tool_name_map);
            tool_uses.push(call);
            i = i + 1;
        }
        assert(calls_view(tool_uses@) =~= self@.read_calls(tool_name_map.restoring()));
        let text = strip_tool_use_xml_leaks(self.text.as_str());
        RoundOutcome {
            text,
            thinking: self.thinking,
            tool_uses,
            context_input_tokens: self.context_input_tokens,
            provider_token_usage: self.provider_token_usage,
            credits: self.credits,
            last_metering: self.last_metering,
            stop_reason_override: self.stop_reason_override,
            stream_error: error,
            known_tool_names,
            tool_name_map,
        }
    }
}

/// A message of the conversation.
#[derive(Debug)]
pub struct Message {
    pub role: String,
    pub content: Json,
}

pub ghost struct MessageV {
    pub role: Seq<char>,
    pub content: JsonV,
}

impl View for Message {
    type V = MessageV;

    open spec fn view(&self) -> MessageV {
        MessageV { role: self.role@, content: self.content@ }
    }
}

pub open spec fn messages_view(v: Seq<Message>) -> Seq<MessageV> {
    Seq::new(v.len(), |i: int| v[i]@)
}

/// The last message is the user's and holds the result of a tool.
pub open spec fn follows_tool_result(messages: Seq<MessageV>) -> bool {
    &&& messages.len() > 0
    &&& messages.last().role == "user"@
    &&& match messages.last().content {
        JsonV::Array(blocks) => exists|i: int|
            0 <= i < blocks.len() && (#[trigger] blocks[i]).text_field("type"@) == Some(
                "tool_result"@,
            ),
        _ => false,
    }
}

/// Whether the last message is the user's and holds the result of a tool.
pub fn last_message_has_tool_result(messages: &Vec<Message>) -> (r: bool)
    ensures
        r == follows_tool_result(messages_view(messages@)),
{
    if messages.len() == 0 {
        return false;
    }
    let last = &messages[messages.len() - 1];
    assert(messages_view(messages@).last() == last@);
    if !same_text(last.role.as_str(), "user") {
        return false;
    }
    match &last.content {
        Json::Array(items) => {
            let ghost blocks = last@.content->Array_0;
            proof {
                crate::json::lemma_items_view(*items, items@.len());
            }
            let mut i: usize = 0;
            while i < items.len()
                invariant
                    i <= items@.len(),
                    last@.content == JsonV::Array(blocks),
                    messages_view(messages@).len() > 0,
                    messages_view(messages@).last() == last@,
                    last@.role == "user"@,
                    blocks.len() == items@.len(),
                    forall|k: int| 0 <= k < items@.len() ==> #[trigger] blocks[k] == items@[k]@,
                    forall|k: int|
                        0 <= k < i ==> (#[trigger] blocks[k]).text_field("type"@) != Some(
                            "tool_result"@,
                        ),
                decreases items.len() - i,
            {
                assert(blocks[i as int] == items@[i as int]@);
                match items[i].get_text("type") {
                    Some(t) => {
                        if same_text(t.as_str(), "tool_result") {
                            assert(blocks[i as int].text_field("type"@) == Some("tool_result"@));
                            return true;
                        }
                    },
                    None => {},
                }
                i = i + 1;
            }
            false
        },
        _ => false,
    }
}

/// What to do with a round that may be empty.
#[derive(Clone, Copy, Debug, PartialEq, Eq, Structural)]
pub enum EmptyToolResultDisposition {
    Accept,
    Retry,
    Fail,
}

/// The round does not answer the result of a tool: it has neither text nor a tool
/// call, and no reason to end there.
pub open spec fn is_empty_answer(messages: Seq<MessageV>, round: RoundV) -> bool {
    follows_tool_result(messages) && trimmed(round.text).len() == 0 && round.calls.len() == 0
        && round.stop_reason is None
}

pub open spec fn disposition(
    messages: Seq<MessageV>,
    round: RoundV,
    retries: int,
) -> EmptyToolResultDisposition {
    if !is_empty_answer(messages, round) {
        EmptyToolResultDisposition::Accept
    } else if retries < MAX_EMPTY_TOOL_RESULT_RETRIES {
        EmptyToolResultDisposition::Retry
    } else {
        EmptyToolResultDisposition::Fail
    }
}

/// What to do with a round after `retries` attempts that were empty.
pub fn empty_tool_result_disposition<R: ToolRestorer>(
    messages: &Vec<Message>,
    round: &RoundOutcome<R>,
    retries: usize,
) -> (r: EmptyToolResultDisposition)
    ensures
        r == disposition(messages_view(messages@), round@, retries as int),
{
    let empty = last_message_has_tool_result(messages) && is_blank(round.text.as_str())
        && round.tool_uses.len() == 0 && round.stop_reason_override.is_none();
    if !empty {
        EmptyToolResultDisposition::Accept
    } else if retries < MAX_EMPTY_TOOL_RESULT_RETRIES {
        EmptyToolResultDisposition::Retry
    } else {
        EmptyToolResultDisposition::Fail
    }
}

/// How a request ended, for the trace.
#[derive(Clone, Copy, Debug, PartialEq, Eq, Structural)]
pub enum TraceOutcome {
    BadRequest,
    StreamInterrupted,
    Unknown,
    /// As the last attempt at the upstream ended.
    LastAttempt,
}

/// Why a request cannot be put to the upstream.
#[derive(Debug)]
pub enum ConversionError {
    InvalidModel(String),
    EmptyMessages,
    UnsupportedToolMapping(String),
}

pub open spec fn conversion_message(e: ConversionError) -> Seq<char> {
    match e {
        ConversionError::InvalidModel(reason) => "invalid model id: "@ + reason@,
        ConversionError::EmptyMessages => "message list is empty"@,
        ConversionError::UnsupportedToolMapping(reason) => "unsupported tool mapping: "@ + reason@,
    }
}

/// A round that failed: what the client is told, what the trace says, and what
/// the round has cost nevertheless.
#[derive(Debug)]
pub struct RoundFailure {
    pub status: u16,
    pub client_error: String,
    pub client_message: String,
    pub trace: TraceOutcome,
    pub error_message: String,
    pub credential_id: u64,
    pub token_usage: Option<TokenUsage>,
    pub credits: Vec<Json>,
}

pub ghost struct FailureV {
    pub status: u16,
    pub client_error: Seq<char>,
    pub client_message: Seq<char>,
    pub trace: TraceOutcome,
    pub error_message: Seq<char>,
    pub credential_id: u64,
    pub token_usage: Option<TokenUsage>,
    pub metered: Seq<JsonV>,
}

impl View for RoundFailure {
    type V = FailureV;

    open spec fn view(&self) -> FailureV {
        FailureV {
            status: self.status,
            client_error: self.client_error@,
            client_message: self.client_message@,
            trace: self.trace,
            error_message: self.error_message@,
            credential_id: self.credential_id,
            token_usage: self.token_usage,
            metered: jsons(self.credits@),
        }
    }
}

/// A request that cannot be put to the upstream is the client's fault and costs
/// nothing.
pub fn conversion_failure(e: &ConversionError) -> (r: RoundFailure)
    ensures
        r@ == (FailureV {
            status: 400,
            client_error: "invalid_request_error"@,
            client_message: conversion_message(*e),
            trace: TraceOutcome::BadRequest,
            error_message: conversion_message(*e),
            credential_id: 0,
            token_usage: None,
            metered: Seq::empty(),
        }),
{
    let message = match e {
        ConversionError::InvalidModel(reason) => join2("invalid model id: ", reason.as_str()),
        ConversionError::EmptyMessages => "message list is empty".to_owned(),
        ConversionError::UnsupportedToolMapping(reason) => join2(
            "unsupported tool mapping: ",
            reason.as_str(),
        ),
    };
    let r = RoundFailure {
        status: 400,
        client_error: "invalid_request_error".to_owned(),
        client_message: message.clone(),
        trace: TraceOutcome::BadRequest,
        error_message: message,
        credential_id: 0,
        token_usage: None,
        credits: Vec::new(),
    };
    assert(r@.metered =~= Seq::<JsonV>::empty());
    r
}

/// A request that cannot be written down has not reached the upstream.
pub fn serialization_failure(error: &str) -> (r: RoundFailure)
    ensures
        r@ == (FailureV {
            status: 500,
            client_error: "internal_error"@,
            client_message: "failed to serialize request: "@ + error@,
            trace: TraceOutcome::Unknown,
            error_message: "failed to serialize request: "@ + error@,
            credential_id: 0,
            token_usage: None,
            metered: Seq::empty(),
        }),
{
    let message = join2("failed to serialize request: ", error);
    let r = RoundFailure {
        status: 500,
        client_error: "internal_error".to_owned(),
        client_message: message.clone(),
        trace: TraceOutcome::Unknown,
        error_message: message,
        credential_id: 0,
        token_usage: None,
        credits: Vec::new(),
    };
    assert(r@.metered =~= Seq::<JsonV>::empty());
    r
}

/// An upstream that refused the request is charged with its input. Status and
/// texts for the client are those that the error was mapped to.
pub fn provider_failure(
    error: &str,
    status: u16,
    client_error: &str,
    client_message: &str,
    fallback_input_tokens: i32,
) -> (r: RoundFailure)
    ensures
        r@ == (FailureV {
            status,
            client_error: client_error@,
            client_message: client_message@,
            trace: TraceOutcome::LastAttempt,
            error_message: error@,
            credential_id: 0,
            token_usage: Some(
                TokenUsage {
                    uncached_input_tokens: not_negative(fallback_input_tokens as int) as i32,
                    output_tokens: 0,
                    cache_read_input_tokens: 0,
                    cache_write_input_tokens: 0,
                },
            ),
            metered: Seq::empty(),
        }),
{
    let r = RoundFailure {
        status,
        client_error: client_error.to_owned(),
        client_message: client_message.to_owned(),
        trace: TraceOutcome::LastAttempt,
        error_message: error.to_owned(),
        credential_id: 0,
        token_usage: Some(
            TokenUsage {
                uncached_input_tokens: at_least_zero(fallback_input_tokens),
                output_tokens: 0,
                cache_read_input_tokens: 0,
                cache_write_input_tokens: 0,
            },
        ),
        credits: Vec::new(),
    };
    assert(r@.metered =~= Seq::<JsonV>::empty());
    r
}

pub open spec fn interrupted_message() -> Seq<char> {
    "Upstream response stream ended unexpectedly during the web_search loop."@
}

/// A round whose stream broke off is a failure; what was read of it still counts.
pub open spec fn checked_round(
    round: RoundV,
    credential_id: u64,
    fallback_input: int,
    estimated_output: i32,
) -> Option<FailureV> {
    match round.stream_error {
        Some(e) => Some(
            FailureV {
                status: 502,
                client_error: "upstream_error"@,
                client_message: interrupted_message(),
                trace: TraceOutcome::StreamInterrupted,
                error_message: e,
                credential_id,
                token_usage: Some(round.usage(fallback_input, estimated_output)),
                metered: round.metered,
            },
        ),
        None => None,
    }
}

/// The failure of a round whose stream broke off.
pub fn stream_failure<R: ToolRestorer>(
    round: &RoundOutcome<R>,
    credential_id: u64,
    fallback_input_tokens: i32,
    estimated_output_tokens: i32,
) -> (r: Option<RoundFailure>)
    ensures
        match r {
            Some(f) => checked_round(
                round@,
                credential_id,
                fallback_input_tokens as int,
                estimated_output_tokens,
            ) == Some(f@),
            None => checked_round(
                round@,
                credential_id,
                fallback_input_tokens as int,
                estimated_output_tokens,
            ) is None,
        },
{
    match &round.stream_error {
        Some(e) => Some(
            RoundFailure {
                status: 502,
                client_error: "upstream_error".to_owned(),
                client_message:
                    "Upstream response stream ended unexpectedly during the web_search loop.".to_owned(),
                trace: TraceOutcome::StreamInterrupted,
                error_message: e.clone(),
                credential_id,
                token_usage: Some(
                    round.resolved_token_usage(fallback_input_tokens, estimated_output_tokens),
                ),
                credits: copy_jsons(&round.credits),
            },
        ),
        None => None,
    }
}

/// A failed search that found nothing is no failure.
pub open spec fn found_nothing(message: Seq<char>) -> bool {
    crate::text::holds_text(message, "Tool returned no results"@)
}

/// Whether the error of a search says no more than that it found nothing.
pub fn is_no_results_mcp_error(message: &str) -> (r: bool)
    ensures
        r == found_nothing(message@),
{
    let v = chars_of(message);
    let pat = chars_of("Tool returned no results");
    crate::text::contains_text(v.as_slice(), pat.as_slice())
}

/// What was used and charged over all rounds, to be recorded once.
pub struct WebSearchUsageSettlement {
    pub credential_id: u64,
    pub usage: TokenUsage,
    /// What each round charged, event by event.
    pub credits: Vec<Vec<Json>>,
    pub settled: bool,
}

pub ghost struct SettlementV {
    pub credential_id: u64,
    pub usage: TokenUsage,
    pub metered: Seq<Seq<JsonV>>,
    pub settled: bool,
}

impl View for WebSearchUsageSettlement {
    type V = SettlementV;

    open spec fn view(&self) -> SettlementV {
        SettlementV {
            credential_id: self.credential_id,
            usage: self.usage,
            metered: charges(self.credits@),
            settled: self.settled,
        }
    }
}

/// What rounds charged.
pub open spec fn charges(v: Seq<Vec<Json>>) -> Seq<Seq<JsonV>> {
    Seq::new(v.len(), |i: int| jsons(v[i]@))
}

fn copy_charges(v: &Vec<Vec<Json>>) -> (r: Vec<Vec<Json>>)
    ensures
        charges(r@) == charges(v@),
{
    let mut out: Vec<Vec<Json>> = Vec::new();
    let mut i: usize = 0;
    while i < v.len()
        invariant
            i <= v@.len(),
            out@.len() == i,
            forall|k: int| 0 <= k < i ==> jsons((#[trigger] out@[k])@) == jsons(v@[k]@),
        decreases v.len() - i,
    {
        out.push(copy_jsons(&v[i]));
        i = i + 1;
    }
    assert(charges(out@) =~= charges(v@));
    out
}

/// How the rounds ended.
#[derive(Clone, Copy, Debug, PartialEq, Eq, Structural)]
pub enum SettlementStatus {
    Success,
    Error,
    Interrupted,
}

/// What is to be recorded.
pub struct SettlementRecord {
    pub credential_id: u64,
    pub usage: TokenUsage,
    /// What each round charged, event by event.
    pub credits: Vec<Vec<Json>>,
    pub status: SettlementStatus,
    pub error: Option<(TraceOutcome, String)>,
}

pub ghost struct RecordV {
    pub credential_id: u64,
    pub usage: TokenUsage,
    pub metered: Seq<Seq<JsonV>>,
    pub status: SettlementStatus,
    pub error: Option<(TraceOutcome, Seq<char>)>,
}

pub open spec fn opt_trace(e: Option<(TraceOutcome, String)>) -> Option<(TraceOutcome, Seq<char>)> {
    match e {
        Some((t, m)) => Some((t, m@)),
        None => None,
    }
}

impl View for SettlementRecord {
    type V = RecordV;

    open spec fn view(&self) -> RecordV {
        RecordV {
            credential_id: self.credential_id,
            usage: self.usage,
            metered: charges(self.credits@),
            status: self.status,
            error: opt_trace(self.error),
        }
    }
}

pub open spec fn opt_record(r: Option<SettlementRecord>) -> Option<RecordV> {
    match r {
        Some(x) => Some(x@),
        None => None,
    }
}

pub open spec fn no_usage() -> TokenUsage {
    TokenUsage {
        uncached_input_tokens: 0,
        output_tokens: 0,
        cache_read_input_tokens: 0,
        cache_write_input_tokens: 0,
    }
}

impl SettlementV {
    pub open spec fn fresh() -> SettlementV {
        SettlementV { credential_id: 0, usage: no_usage(), metered: Seq::empty(), settled: false }
    }

    /// A round is added; the last credential that is known stays.
    pub open spec fn with(
        self,
        credential_id: u64,
        usage: TokenUsage,
        metered: Seq<JsonV>,
    ) -> SettlementV {
        SettlementV {
            credential_id: if credential_id != 0 {
                credential_id
            } else {
                self.credential_id
            },
            usage: self.usage.plus(usage),
            metered: self.metered.push(metered),
            ..self
        }
    }

    /// The rounds have ended: what is to be recorded, the first time.
    pub open spec fn finished(
        self,
        status: SettlementStatus,
        error: Option<(TraceOutcome, Seq<char>)>,
    ) -> (SettlementV, Option<RecordV>) {
        (
            SettlementV { settled: true, ..self },
            if self.settled {
                None
            } else {
                Some(
                    RecordV {
                        credential_id: self.credential_id,
                        usage: self.usage.sane(),
                        metered: self.metered,
                        status,
                        error,
                    },
                )
            },
        )
    }
}

impl WebSearchUsageSettlement {
    pub fn new() -> (r: Self)
        ensures
            r@ == SettlementV::fresh(),
    {
        let r = WebSearchUsageSettlement {
            credential_id: 0,
            usage: TokenUsage {
                uncached_input_tokens: 0,
                output_tokens: 0,
                cache_read_input_tokens: 0,
                cache_write_input_tokens: 0,
            },
            credits: Vec::new(),
            settled: false,
        };
        assert(r@.metered =~= Seq::<Seq<JsonV>>::empty());
        r
    }

    /// Adds what a round used and charged.
    pub fn add(&mut self, credential_id: u64, usage: TokenUsage, credits: &Vec<Json>)
        ensures
            final(self)@ == old(self)@.with(credential_id, usage, jsons(credits@)),
    {
        if credential_id != 0 {
            self.credential_id = credential_id;
        }
        self.usage = self.usage.saturating_add(usage);
        let ghost before = self.credits@;
        self.credits.push(copy_jsons(credits));
        assert(charges(self.credits@) =~= charges(before).push(jsons(credits@)));
    }

    /// What all rounds used.
    pub fn usage(&self) -> (r: TokenUsage)
        ensures
            r == self@.usage.sane(),
    {
        self.usage.sanitized()
    }

    /// What is to be recorded, the first time.
    pub fn finish(&mut self, status: SettlementStatus, error: Option<(TraceOutcome, String)>) -> (r:
        Option<SettlementRecord>)
        ensures
            (final(self)@, opt_record(r)) == old(self)@.finished(status, opt_trace(error)),
    {
        if self.settled {
            return None;
        }
        self.settled = true;
        Some(
            SettlementRecord {
                credential_id: self.credential_id,
                usage: self.usage.sanitized(),
                credits: copy_charges(&self.credits),
                status,
                error,
            },
        )
    }

    /// What is to be recorded of rounds that were given up, unless it has been.
    pub fn cancel(&mut self) -> (r: Option<SettlementRecord>)
        ensures
            (final(self)@, opt_record(r)) == old(self)@.finished(
                SettlementStatus::Interrupted,
                Some(
                    (
                        TraceOutcome::StreamInterrupted,
                        "web_search loop was cancelled before completion"@,
                    ),
                ),
            ),
    {
        self.finish(
            SettlementStatus::Interrupted,
            Some(
                (
                    TraceOutcome::StreamInterrupted,
                    "web_search loop was cancelled before completion".to_owned(),
                ),
            ),
        )
    }
}

/// Usage is recorded exactly once: the first end gives a record and later ones
/// give none, in whatever way the rounds end.
pub proof fn usage_is_recorded_once(
    s: SettlementV,
    first: SettlementStatus,
    first_error: Option<(TraceOutcome, Seq<char>)>,
    second: SettlementStatus,
    second_error: Option<(TraceOutcome, Seq<char>)>,
)
    requires
        !s.settled,
    ensures
        s.finished(first, first_error).1 is Some,
        s.finished(first, first_error).0.finished(second, second_error).1 is None,
        s.finished(first, first_error).0.finished(second, second_error).0 == s.finished(
            first,
            first_error,
        ).0,
{
}

} // verus!
