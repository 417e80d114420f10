//! Turning a stream of upstream events into the events of one message.
use crate::fence::{advance_code_fence_state, fence_open_after, FenceV};
use crate::ids::{fresh_message_id, fresh_tool_id, is_message_id, is_tool_id};
use crate::invoke::{find_invoke_block_end, find_invoke_start, parse_invoke_block};
use crate::json::{Json, JsonV};
use crate::names::{IndexMap, NameMap, NameSet, ToolRestorer};
use crate::sse::{
    delta_json, emit_all, emit_one, emit_opt, emits, opt_metering, opt_seq, start_json, typed_json,
    Ev, ManagerV, MeteringEvent, SseEvent, SseStateManager, Usage,
};
use crate::stray::{find_lead, RepeatGuard};
use crate::stream_model::{
    followed, placeholder_signature, thought, thought_if_any, unfinished_tag, Draws, EventV, Step,
    StreamV,
};
use crate::text::{
    after_white, byte_length, chars_of, find_char, hold_back, is_blank, join2, lemma_blank,
    opt_text, rfind_char, same_text, text_between,
};
use crate::thinking::{closing_tag_position, end_tag_position, start_tag_position};
use crate::tokens::{at_least_zero, estimate_tokens, saturating, CacheUsage, TokenUsage};
use crate::tool_json::{
    CompletedToolUse, ToolJsonAccumulator, ToolJsonAccumulatorError, ToolUseEvent,
};
use crate::xml_leak::ToolUseXmlLeakFilter;
use vstd::prelude::*;
use vstd::slice::slice_subrange;

verus! {

/// Thinking that the upstream marks as such.
#[derive(Debug)]
pub struct ReasoningContentEvent {
    pub text: Option<String>,
    pub signature: Option<String>,
    pub redacted_content: Option<String>,
}

/// An event of the upstream.
#[derive(Debug)]
pub enum Event {
    AssistantResponse { content: String },
    ToolUse(ToolUseEvent),
    ReasoningContent(ReasoningContentEvent),
    Metadata { token_usage: Option<TokenUsage> },
    /// The tokens that the prompt takes up, and whether the context is full.
    ContextUsage { input_tokens: i32, exceeded: bool },
    Metering(MeteringEvent),
    Error { error_code: String, error_message: String },
    Exception { exception_type: String, message: String },
    Unknown,
}

impl View for Event {
    type V = EventV;

    open spec fn view(&self) -> EventV {
        match self {
            Event::AssistantResponse { content } => EventV::AssistantResponse(content@),
            Event::ToolUse(f) => EventV::ToolUse(f@),
            Event::ReasoningContent(r) => EventV::Reasoning {
                text: opt_text(r.text),
                signature: opt_text(r.signature),
                redacted: opt_text(r.redacted_content),
            },
            Event::Metadata { token_usage } => EventV::Metadata(*token_usage),
            Event::ContextUsage { input_tokens, exceeded } => EventV::ContextUsage {
                input_tokens: *input_tokens,
                exceeded: *exceeded,
            },
            Event::Metering(m) => EventV::Metering(m@),
            Event::Error { error_code, error_message } => EventV::Other,
            Event::Exception { exception_type, message } => EventV::Exception(exception_type@),
            Event::Unknown => EventV::Other,
        }
    }
}

pub open spec fn opt_index(i: Option<i32>) -> Option<int> {
    match i {
        Some(n) => Some(n as int),
        None => None,
    }
}

pub open spec fn opt_error(e: Option<ToolJsonAccumulatorError>) -> Option<
    crate::tool_json::ToolErrorV,
> {
    match e {
        Some(x) => Some(x@),
        None => None,
    }
}

pub open spec fn jsons(v: Seq<Json>) -> Seq<JsonV> {
    Seq::new(v.len(), |i: int| v[i]@)
}

/// The state of one stream.
pub struct StreamContext<R = NameMap> {
    pub state_manager: SseStateManager,
    pub model: String,
    pub message_id: String,
    pub input_tokens: i32,
    pub context_input_tokens: Option<i32>,
    pub provider_token_usage: Option<TokenUsage>,
    pub output_tokens: i32,
    pub tool_block_indices: IndexMap,
    pub tool_name_map: R,
    pub known_tool_names: NameSet,
    pub code_fence_open: bool,
    pub fence_scan_partial: String,
    pub thinking_enabled: bool,
    pub thinking_buffer: String,
    pub invoke_sniff_buffer: String,
    pub in_thinking_block: bool,
    pub thinking_extracted: bool,
    pub thinking_block_index: Option<i32>,
    pub pending_thinking_signature: Option<String>,
    pub text_block_index: Option<i32>,
    pub strip_thinking_leading_newline: bool,
    pub cache_usage: CacheUsage,
    /// What each metering event charged, in the order of the events.
    pub credits: Vec<Json>,
    pub metering: Option<MeteringEvent>,
    pub repeat_guard: RepeatGuard,
    pub tool_json_accumulator: ToolJsonAccumulator,
    pub tool_json_error: Option<ToolJsonAccumulatorError>,
    pub tool_use_xml_filter: ToolUseXmlLeakFilter,
    /// The identifiers that were drawn for tool calls found in plain text.
    pub issued: Ghost<Seq<Seq<char>>>,
}

impl<R: ToolRestorer> View for StreamContext<R> {
    type V = StreamV;

    open spec fn view(&self) -> StreamV {
        StreamV {
            manager: self.state_manager@,
            model: self.model@,
            message_id: self.message_id@,
            input_tokens: self.input_tokens as int,
            context_input_tokens: self.context_input_tokens,
            provider_token_usage: self.provider_token_usage,
            output_tokens: self.output_tokens as int,
            tool_blocks: self.tool_block_indices@,
            names: self.tool_name_map.restoring(),
            known: self.known_tool_names@,
            fence: FenceV { open: self.code_fence_open, partial: self.fence_scan_partial@ },
            thinking_enabled: self.thinking_enabled,
            thinking_buffer: self.thinking_buffer@,
            sniffed: self.invoke_sniff_buffer@,
            in_thinking: self.in_thinking_block,
            extracted: self.thinking_extracted,
            thinking_index: opt_index(self.thinking_block_index),
            signature: opt_text(self.pending_thinking_signature),
            text_index: opt_index(self.text_block_index),
            strip_newline: self.strip_thinking_leading_newline,
            cache_usage: self.cache_usage,
            metered: jsons(self.credits@),
            metering: opt_metering(self.metering),
            guard: self.repeat_guard@,
            pending: self.tool_json_accumulator@,
            tool_error: opt_error(self.tool_json_error),
            xml_buffer: self.tool_use_xml_filter.buffer@,
            xml_stripping: self.tool_use_xml_filter.stripping,
            drawn: self.issued@.len() as int,
        }
    }
}

/// `ids` gives the identifiers that were drawn.
pub open spec fn agrees(ids: Draws, log: Seq<Seq<char>>) -> bool {
    forall|n: int| 0 <= n < log.len() ==> #[trigger] ids(n) == log[n]
}

/// More identifiers may have been drawn, each of them that of a tool call.
pub open spec fn draws_more(before: Seq<Seq<char>>, after: Seq<Seq<char>>) -> bool {
    &&& before.len() <= after.len()
    &&& forall|n: int| 0 <= n < before.len() ==> before[n] == #[trigger] after[n]
    &&& forall|n: int| before.len() <= n < after.len() ==> is_tool_id(#[trigger] after[n])
}

pub proof fn lemma_agrees_before(ids: Draws, before: Seq<Seq<char>>, after: Seq<Seq<char>>)
    requires
        agrees(ids, after),
        draws_more(before, after),
    ensures
        agrees(ids, before),
{
    assert forall|n: int| 0 <= n < before.len() implies #[trigger] ids(n) == before[n] by {
        assert(before[n] == after[n]);
    }
}

pub proof fn lemma_draws_more_trans(a: Seq<Seq<char>>, b: Seq<Seq<char>>, c: Seq<Seq<char>>)
    requires
        draws_more(a, b),
        draws_more(b, c),
    ensures
        draws_more(a, c),
{
    assert forall|n: int| a.len() <= n < c.len() implies is_tool_id(#[trigger] c[n]) by {
        if n < b.len() {
            assert(b[n] == c[n]);
        }
    }
    assert forall|n: int| 0 <= n < a.len() implies a[n] == #[trigger] c[n] by {
        assert(b[n] == c[n]);
    }
}

impl StreamContext<NameMap> {
    /// A text that may be a call is held back up to this many bytes.
    pub const MAX_INVOKE_HOLD_BYTES: usize = 262_144;
}

impl<R: ToolRestorer> StreamContext<R> {
    /// The input that is not cached, that is written to the cache and that is
    /// read from it.
    pub fn resolved_usage(&self) -> (r: (i32, i32, i32))
        ensures
            (r.0 as int, r.1 as int, r.2 as int) == self@.usage(),
    {
        match self.provider_token_usage {
            Some(usage) => {
                let usage = usage.sanitized();
                (
                    usage.uncached_input_tokens,
                    usage.cache_write_input_tokens,
                    usage.cache_read_input_tokens,
                )
            },
            None => {
                let total: i32 = match self.context_input_tokens {
                    Some(n) => n,
                    None => self.input_tokens,
                };
                self.cache_usage.split_against_total(total)
            },
        }
    }

    /// The provider's count of output tokens, or else the estimate.
    pub fn resolved_output_tokens(&self) -> (r: i32)
        ensures
            r == self@.output(),
    {
        match self.provider_token_usage {
            Some(usage) => usage.sanitized().output_tokens,
            None => at_least_zero(self.output_tokens),
        }
    }

    /// The error that a tool call ran into, if one did.
    pub fn tool_json_error_message(&self) -> (r: Option<String>)
        ensures
            opt_text(r) == match self@.tool_error {
                Some(e) => Some(crate::tool_json::tool_error_message(e)),
                None => None,
            },
    {
        match &self.tool_json_error {
            Some(e) => Some(e.message()),
            None => None,
        }
    }

    /// The state of a stream that has not begun, under a fresh identifier.
    pub fn new_with_thinking(
        model: &str,
        input_tokens: i32,
        thinking_enabled: bool,
        tool_name_map: R,
        known_tool_names: NameSet,
    ) -> (r: Self)
        ensures
            is_message_id(r.message_id@),
            r@ == StreamV::fresh(
                model@,
                r.message_id@,
                input_tokens as int,
                thinking_enabled,
                tool_name_map.restoring(),
                known_tool_names@,
            ),
    {
        let r = StreamContext {
            state_manager: SseStateManager::new(),
            model: model.to_owned(),
            message_id: fresh_message_id(),
            input_tokens,
            context_input_tokens: None,
            provider_token_usage: None,
            output_tokens: 0,
            tool_block_indices: IndexMap::new(),
            tool_name_map,
            known_tool_names,
            code_fence_open: false,
            fence_scan_partial: String::new(),
            thinking_enabled,
            thinking_buffer: String::new(),
            invoke_sniff_buffer: String::new(),
            in_thinking_block: false,
            thinking_extracted: false,
            thinking_block_index: None,
            pending_thinking_signature: None,
            text_block_index: None,
            strip_thinking_leading_newline: false,
            cache_usage: CacheUsage::none(),
            credits: Vec::new(),
            metering: None,
            repeat_guard: RepeatGuard::new(),
            tool_json_accumulator: ToolJsonAccumulator::new(),
            tool_json_error: None,
            tool_use_xml_filter: ToolUseXmlLeakFilter::default(),
            issued: Ghost(Seq::empty()),
        };
        assert(r@.fence.partial =~= Seq::<char>::empty());
        assert(r@.thinking_buffer =~= Seq::<char>::empty());
        assert(r@.sniffed =~= Seq::<char>::empty());
        assert(r@.metered =~= Seq::<JsonV>::empty());
        r
    }

    /// The data of the event that opens the message.
    pub fn create_message_start_event(&self) -> (r: Json)
        ensures
            r@ == self@.message_start(),
    {
        let usage = crate::sse::usage_json(
            Usage {
                input_tokens: self.input_tokens,
                output_tokens: 1,
                cache_creation_input_tokens: 0,
                cache_read_input_tokens: 0,
            },
        );
        let content = Json::array(Vec::new());
        assert(content@->Array_0 =~= Seq::<JsonV>::empty());
        let message = Json::object().with("id", Json::text(self.message_id.as_str())).with(
            "type",
            Json::text("message"),
        ).with("role", Json::text("assistant")).with("content", content).with(
            "model",
            Json::text(self.model.as_str()),
        ).with("stop_reason", Json::Null).with("stop_sequence", Json::Null).with("usage", usage);
        typed_json("message_start").with("message", message)
    }

    fn open_text_block(&mut self) -> (r: Vec<SseEvent>)
        ensures
            final(self)@ == old(self)@.text_opened().0,
            emits(r@, old(self)@.text_opened().1),
            final(self).issued == old(self).issued,
            final(self)@.text_index is Some,
    {
        reveal(StreamV::text_opened);
        let index: i32 = self.state_manager.next_block_index();
        self.text_block_index = Some(index);
        let block = typed_json("text").with("text", Json::text(""));
        self.state_manager.handle_content_block_start(index, "text", start_json(index, block))
    }

    fn open_thinking_block(&mut self) -> (r: Vec<SseEvent>)
        ensures
            final(self)@ == old(self)@.thinking_opened().0,
            old(self)@.thinking_opened().0.thinking_index is Some,
            emits(r@, old(self)@.thinking_opened().1),
            final(self).issued == old(self).issued,
    {
        reveal(StreamV::thinking_opened);
        let index: i32 = self.state_manager.next_block_index();
        self.thinking_block_index = Some(index);
        let block = typed_json("thinking").with("thinking", Json::text(""));
        self.state_manager.handle_content_block_start(index, "thinking", start_json(index, block))
    }

    /// Opens the message and, unless thinking may come first, a block of text.
    pub fn generate_initial_events(&mut self) -> (r: Vec<SseEvent>)
        ensures
            final(self)@ == old(self)@.opened().0,
            emits(r@, old(self)@.opened().1),
            final(self).issued == old(self).issued,
    {
        let ghost started = self@.manager.message_started;
        let ghost v = self@;
        let mut events: Vec<SseEvent> = Vec::new();
        let start = self.create_message_start_event();
        let event = self.state_manager.handle_message_start(start);
        let ghost ev = if started {
            None
        } else {
            Some(Ev::MessageStart(v.message_start()))
        };
        emit_opt(&mut events, event, Ghost(Seq::empty()), Ghost(ev));
        let ghost evs = Seq::<Ev>::empty() + opt_seq(ev);
        assert(evs =~= opt_seq(ev));
        if self.thinking_enabled {
            return events;
        }
        let more = self.open_text_block();
        emit_all(
            &mut events,
            more,
            Ghost(evs),
            Ghost(
                StreamV {
                    manager: ManagerV { message_started: true, ..v.manager },
                    ..v
                }.text_opened().1,
            ),
        );
        events
    }

    /// Sends `text`, or what the guard lets through of it.
    fn emit_text_delta_raw(&mut self, text: &str) -> (r: Vec<SseEvent>)
        ensures
            final(self)@ == old(self)@.text_sent(text@).0,
            emits(r@, old(self)@.text_sent(text@).1),
            final(self).issued == old(self).issued,
    {
        reveal(StreamV::text_sent);
        reveal(StreamV::text_opened);
        let mut events: Vec<SseEvent> = Vec::new();
        let kept = self.repeat_guard.filter(text);
        if chars_of(kept.as_str()).len() == 0 {
            return events;
        }
        advance_code_fence_state(
            &mut self.code_fence_open,
            &mut self.fence_scan_partial,
            kept.as_str(),
        );
        match self.text_block_index {
            Some(i) => {
                if !self.state_manager.is_block_open_of_type(i, "text") {
                    self.text_block_index = None;
                }
            },
            None => {},
        }
        let ghost v = self@;
        let index: i32 = match self.text_block_index {
            Some(i) => i,
            None => {
                events = self.open_text_block();
                match self.text_block_index {
                    Some(i) => i,
                    None => 0,
                }
            },
        };
        let ghost evs = match v.text_index {
            Some(_) => Seq::empty(),
            None => v.text_opened().1,
        };
        let delta = typed_json("text_delta").with("text", Json::text(kept.as_str()));
        let ghost m = self@.manager;
        let ghost data = crate::sse::delta_data(
            index as int,
            crate::stream_model::text_delta(kept@),
        );
        let event = self.state_manager.handle_content_block_delta(index, delta_json(index, delta));
        emit_opt(&mut events, event, Ghost(evs), Ghost(m.delta(index as int, data)));
        events
    }

    /// Sends a complete tool call.
    pub fn emit_completed_tool_use(&mut self, completed: &CompletedToolUse) -> (r: Vec<SseEvent>)
        ensures
            final(self)@ == old(self)@.call_sent(completed@).0,
            emits(r@, old(self)@.call_sent(completed@).1),
            final(self).issued == old(self).issued,
    {
        reveal(StreamV::call_sent);
        self.state_manager.set_has_tool_use(true);
        let index: i32 = match self.tool_block_indices.get(completed.id.as_str()) {
            Some(i) => i,
            None => {
                let i: i32 = self.state_manager.next_block_index();
                self.tool_block_indices.insert(completed.id.as_str(), i);
                i
            },
        };
        let block = typed_json("tool_use").with("id", Json::text(completed.id.as_str())).with(
            "name",
            Json::text(completed.name.as_str()),
        ).with("input", Json::object());
        let ghost m = self@.manager;
        let ghost start = m.block_started(
            index as int,
            "tool_use"@,
            crate::sse::start_data(index as int, crate::stream_model::tool_block(completed@)),
        );
        let mut events = self.state_manager.handle_content_block_start(
            index,
            "tool_use",
            start_json(index, block),
        );
        let input = completed.input.to_text();
        self.output_tokens = saturating(self.output_tokens, estimate_tokens(input.as_str()));
        let delta = typed_json("input_json_delta").with("partial_json", Json::text(input.as_str()));
        let ghost data = crate::sse::delta_data(
            index as int,
            crate::stream_model::input_delta(input@),
        );
        let event = self.state_manager.handle_content_block_delta(index, delta_json(index, delta));
        let ghost delta_ev = start.0.delta(index as int, data);
        emit_opt(&mut events, event, Ghost(start.1), Ghost(delta_ev));
        let stop = self.state_manager.handle_content_block_stop(index);
        emit_opt(
            &mut events,
            stop,
            Ghost(start.1 + opt_seq(delta_ev)),
            Ghost(start.0.block_stopped(index as int).1),
        );
        events
    }

    /// Runs the complete block `buf[start..end]` as a tool call, or sends it as
    /// text with all that precedes it.
    fn take_block(&mut self, buf: &[char], start: usize, end: usize) -> (r: Vec<SseEvent>)
        requires
            start < end <= buf@.len(),
        ensures
            draws_more(old(self).issued@, final(self).issued@),
            took(
                *final(self),
                r@,
                old(self)@.block_taken(
                    buf@,
                    start as int,
                    end as int,
                    log_draws(final(self).issued@),
                ),
            ),
            forall|ids: Draws|
                agrees(ids, final(self).issued@) ==> (#[trigger] old(self)@.block_taken(
                    buf@,
                    start as int,
                    end as int,
                    ids,
                )) == old(self)@.block_taken(
                    buf@,
                    start as int,
                    end as int,
                    log_draws(final(self).issued@),
                ),
    {
        reveal(StreamV::block_taken);
        let ghost v = self@;
        let ghost log = self.issued@;
        let head = slice_subrange(buf, 0, start);
        assert(head@ =~= buf@.take(start as int));
        let (cut, at_start) = find_lead(self.fence_scan_partial.as_str(), head);
        let block = slice_subrange(buf, start, end);
        let before = text_between(head, 0, cut);
        assert(before@ =~= crate::stray::lead(v.fence.partial, head@));
        let fenced = fence_open_after(
            self.code_fence_open,
            self.fence_scan_partial.as_str(),
            before.as_str(),
        );
        let parsed = parse_invoke_block(block);
        let leak = at_start && !fenced;
        match parsed {
            Some((name, input)) => {
                if leak && self.known_tool_names.contains(name.as_str()) {
                    let mut events = self.emit_text_delta_raw(before.as_str());
                    let id = fresh_tool_id();
                    let ghost w = self@;
                    self.issued = Ghost(self.issued@.push(id@));
                    let completed = CompletedToolUse::from_kiro(
                        id,
                        name.as_str(),
                        input,
                        &self.tool_name_map,
                    );
                    let more = self.emit_completed_tool_use(&completed);
                    let ghost first = v.text_sent(before@).1;
                    let ghost second = StreamV { drawn: w.drawn + 1, ..w }.call_sent(completed@).1;
                    emit_all(&mut events, more, Ghost(first), Ghost(second));
                    proof {
                        assert forall|ids: Draws| agrees(ids, self.issued@) implies (
                        #[trigger] v.block_taken(buf@, start as int, end as int, ids)) == (
                            self@,
                            first + second,
                        ) by {
                            assert(ids(log.len() as int) == self.issued@[log.len() as int]);
                        }
                        assert(agrees(log_draws(self.issued@), self.issued@));
                    }
                    return events;
                }
            },
            None => {},
        }
        let all = text_between(buf, 0, end);
        assert(all@ =~= buf@.take(end as int));
        self.emit_text_delta_raw(all.as_str())
    }

    /// Holds the unfinished block that begins at `start` back, or sends it.
    fn take_unclosed(&mut self, buf: &[char], start: usize, flush: bool) -> (r: Vec<SseEvent>)
        requires
            start < buf@.len(),
        ensures
            final(self)@ == old(self)@.unclosed_taken(buf@, start as int, flush).0,
            emits(r@, old(self)@.unclosed_taken(buf@, start as int, flush).1),
            final(self).issued == old(self).issued,
    {
        reveal(StreamV::unclosed_taken);
        let ghost v = self@;
        let head = slice_subrange(buf, 0, start);
        assert(head@ =~= buf@.take(start as int));
        let (cut, at_start) = find_lead(self.fence_scan_partial.as_str(), head);
        let before = text_between(head, 0, cut);
        assert(before@ =~= crate::stray::lead(v.fence.partial, head@));
        let fenced = fence_open_after(
            self.code_fence_open,
            self.fence_scan_partial.as_str(),
            before.as_str(),
        );
        if !at_start || fenced {
            let all = crate::text::text_of(buf);
            return self.emit_text_delta_raw(all.as_str());
        }
        let front = text_between(buf, 0, start);
        assert(front@ =~= buf@.take(start as int));
        let mut events = self.emit_text_delta_raw(front.as_str());
        let rest = text_between(buf, start, buf.len());
        assert(rest@ =~= buf@.skip(start as int));
        if flush || byte_length(rest.as_str()) > StreamContext::<NameMap>::MAX_INVOKE_HOLD_BYTES {
            let ghost w = self@;
            let more = self.emit_text_delta_raw(rest.as_str());
            emit_all(
                &mut events,
                more,
                Ghost(v.text_sent(front@).1),
                Ghost(w.text_sent(rest@).1),
            );
        } else {
            self.invoke_sniff_buffer = rest;
        }
        events
    }

    /// Takes the text `all`: runs the tool calls in it, sends the rest and, unless
    /// `flush` is set, holds back what may still become a tool call.
    fn drain(&mut self, all: &[char], flush: bool) -> (r: Vec<SseEvent>)
        ensures
            draws_more(old(self).issued@, final(self).issued@),
            took(
                *final(self),
                r@,
                old(self)@.drained(all@, flush, log_draws(final(self).issued@)),
            ),
            forall|ids: Draws|
                agrees(ids, final(self).issued@) ==> (#[trigger] old(self)@.drained(
                    all@,
                    flush,
                    ids,
                )) == old(self)@.drained(all@, flush, log_draws(final(self).issued@)),
    {
        let ghost v = self@;
        let ghost mut evs = Seq::<Ev>::empty();
        let mut events: Vec<SseEvent> = Vec::new();
        let mut pos: usize = 0;
        let n: usize = all.len();
        proof {
            assert(all@.skip(0) =~= all@);
            assert forall|ids: Draws| (#[trigger] v.drained(all@, flush, ids)).1 =~= evs
                + v.drained(all@, flush, ids).1 by {}
        }
        loop
            invariant
                pos <= n,
                n == all@.len(),
                draws_more(old(self).issued@, self.issued@),
                emits(events@, evs),
                v == old(self)@,
                forall|ids: Draws|
                    agrees(ids, self.issued@) ==> (#[trigger] v.drained(all@, flush, ids))
                        == followed(evs, self@.drained(all@.skip(pos as int), flush, ids)),
            decreases n - pos,
        {
            let buf = slice_subrange(all, pos, n);
            assert(buf@ =~= all@.skip(pos as int));
            let ghost w = self@;
            let ghost log = self.issued@;
            let ghost evs0 = evs;
            proof {
                lemma_log_draws(self.issued@);
            }
            match find_invoke_start(buf) {
                Some(start) => {
                    match find_invoke_block_end(buf, start) {
                        Some(end) => {
                            let more = self.take_block(buf, start, end);
                            let ghost step = w.block_taken(
                                buf@,
                                start as int,
                                end as int,
                                log_draws(self.issued@),
                            );
                            proof {
                                lemma_draws_more_trans(old(self).issued@, log, self.issued@);
                                evs = evs0 + step.1;
                            }
                            emit_all(&mut events, more, Ghost(evs0), Ghost(step.1));
                            assert(buf@.skip(end as int) =~= all@.skip(pos + end));
                            pos = pos + end;
                            proof {
                                assert forall|ids: Draws| agrees(ids, self.issued@) implies (
                                #[trigger] v.drained(all@, flush, ids)) == followed(
                                    evs,
                                    self@.drained(all@.skip(pos as int), flush, ids),
                                ) by {
                                    lemma_agrees_before(ids, log, self.issued@);
                                    assert(w.block_taken(buf@, start as int, end as int, ids)
                                        == step);
                                    let rest = self@.drained(all@.skip(pos as int), flush, ids);
                                    assert(evs0 + (step.1 + rest.1) =~= evs + rest.1);
                                }
                            }
                        },
                        None => {
                            let more = self.take_unclosed(buf, start, flush);
                            emit_all(
                                &mut events,
                                more,
                                Ghost(evs0),
                                Ghost(w.unclosed_taken(buf@, start as int, flush).1),
                            );
                            return events;
                        },
                    }
                },
                None => {
                    let split: usize = if flush {
                        buf.len()
                    } else {
                        unfinished_tag_position(buf)
                    };
                    let head = text_between(buf, 0, split);
                    assert(head@ =~= buf@.take(split as int));
                    assert(flush ==> head@ =~= buf@);
                    let more = self.emit_text_delta_raw(head.as_str());
                    emit_all(&mut events, more, Ghost(evs0), Ghost(w.text_sent(head@).1));
                    if !flush {
                        self.invoke_sniff_buffer = text_between(buf, split, buf.len());
                        assert(self.invoke_sniff_buffer@ =~= buf@.skip(split as int));
                    }
                    return events;
                },
            }
        }
    }
}

impl<R: ToolRestorer> StreamContext<R> {
    /// Looks through what is held back as a possible tool call: runs the tool calls in
    /// it, sends the rest and, unless `flush` is set, holds back what may still become
    /// a tool call.
    pub fn drain_invoke_sniff_buffer(&mut self, flush: bool) -> (r: Vec<SseEvent>)
        ensures
            draws_more(old(self).issued@, final(self).issued@),
            took(
                *final(self),
                r@,
                old(self)@.held_drained(flush, log_draws(final(self).issued@)),
            ),
            forall|ids: Draws|
                agrees(ids, final(self).issued@) ==> (#[trigger] old(self)@.held_drained(
                    flush,
                    ids,
                )) == old(self)@.held_drained(flush, log_draws(final(self).issued@)),
    {
        let all = chars_of(self.invoke_sniff_buffer.as_str());
        self.invoke_sniff_buffer = String::new();
        assert(self.invoke_sniff_buffer@ =~= Seq::<char>::empty());
        self.drain(all.as_slice(), flush)
    }

    /// Sends `text` the way of plain text, behind what is held back.
    pub fn create_text_delta_events(&mut self, text: &str) -> (r: Vec<SseEvent>)
        ensures
            draws_more(old(self).issued@, final(self).issued@),
            took(*final(self), r@, old(self)@.text_added(text@, log_draws(final(self).issued@))),
            forall|ids: Draws|
                agrees(ids, final(self).issued@) ==> (#[trigger] old(self)@.text_added(text@, ids))
                    == old(self)@.text_added(text@, log_draws(final(self).issued@)),
    {
        reveal(StreamV::text_added);
        if chars_of(text).len() == 0 {
            return Vec::new();
        }
        let ghost v = self@;
        self.invoke_sniff_buffer = join2(self.invoke_sniff_buffer.as_str(), text);
        let ghost w = self@;
        assert forall|ids: Draws| #[trigger]
            v.text_added(text@, ids) == w.held_drained(false, ids) by {}
        self.drain_invoke_sniff_buffer(false)
    }

    /// A delta of thinking.
    fn create_thinking_delta_event(&self, index: i32, thinking: &str) -> (r: SseEvent)
        ensures
            emits(seq![r], thought(Some(index as int), thinking@)),
    {
        let delta = typed_json("thinking_delta").with("thinking", Json::text(thinking));
        SseEvent::new("content_block_delta", delta_json(index, delta))
    }

    fn thinking_deltas(&self, thinking: &str) -> (r: Vec<SseEvent>)
        ensures
            emits(r@, thought(self@.thinking_index, thinking@)),
    {
        let mut events: Vec<SseEvent> = Vec::new();
        match self.thinking_block_index {
            Some(index) => {
                let e = self.create_thinking_delta_event(index, thinking);
                assert(seq![e][0] == e);
                events.push(e);
            },
            None => {},
        }
        events
    }

    fn thinking_deltas_if_any(&self, thinking: &str) -> (r: Vec<SseEvent>)
        ensures
            emits(r@, thought_if_any(self@.thinking_index, thinking@)),
    {
        if chars_of(thinking).len() == 0 {
            Vec::new()
        } else {
            self.thinking_deltas(thinking)
        }
    }

    /// Ends the block of thinking under that signature.
    fn end_thinking(&mut self, signature: &str) -> (r: Vec<SseEvent>)
        ensures
            took(*final(self), r@, old(self)@.thinking_ended(signature@)),
            final(self).issued == old(self).issued,
    {
        match self.thinking_block_index {
            Some(index) => {
                let mut events = self.thinking_deltas("");
                proof {
                    reveal_strlit("");
                    assert(""@ =~= Seq::<char>::empty());
                }
                let delta = typed_json("signature_delta").with("signature", Json::text(signature));
                let event = SseEvent::new("content_block_delta", delta_json(index, delta));
                let ghost first = thought(Some(index as int), Seq::<char>::empty());
                let ghost ev = Ev::Delta(
                    index as int,
                    crate::sse::delta_data(
                        index as int,
                        crate::stream_model::signature_delta(signature@),
                    ),
                );
                emit_one(&mut events, event, Ghost(first), Ghost(ev));
                let ghost stop_ev = self@.manager.block_stopped(index as int).1;
                let stop = self.state_manager.handle_content_block_stop(index);
                emit_opt(&mut events, stop, Ghost(first.push(ev)), Ghost(stop_ev));
                events
            },
            None => Vec::new(),
        }
    }

    /// Ends thinking that a tag ends, `content` being what precedes the tag.
    fn finish_thinking(&mut self, content: &str) -> (r: Vec<SseEvent>)
        ensures
            took(*final(self), r@, old(self)@.thinking_finished(content@)),
            final(self).issued == old(self).issued,
    {
        reveal(StreamV::thinking_finished);
        let ghost v = StreamV { in_thinking: false, extracted: true, ..self@ };
        let mut events = self.thinking_deltas_if_any(content);
        self.in_thinking_block = false;
        self.thinking_extracted = true;
        assert(self@ == v);
        let more = self.end_thinking("kiro-rs-thinking-signature");
        emit_all(
            &mut events,
            more,
            Ghost(thought_if_any(v.thinking_index, content@)),
            Ghost(v.thinking_ended(placeholder_signature()).1),
        );
        events
    }

    fn text_unless_white(&mut self, text: &str) -> (r: Vec<SseEvent>)
        ensures
            draws_more(old(self).issued@, final(self).issued@),
            took(
                *final(self),
                r@,
                old(self)@.text_added_unless_white(
                    text@,
                    log_draws(final(self).issued@),
                ),
            ),
            forall|ids: Draws|
                agrees(ids, final(self).issued@) ==> (#[trigger] old(self)@.text_added_unless_white(
                    text@,
                    ids,
                ))
                    == old(self)@.text_added_unless_white(text@, log_draws(final(self).issued@)),
    {
        proof {
            lemma_blank(text@);
        }
        if is_blank(text) {
            Vec::new()
        } else {
            self.create_text_delta_events(text)
        }
    }

    /// Looks for the start tag of thinking.
    fn seek_start(&mut self) -> (r: Vec<SseEvent>)
        ensures
            draws_more(old(self).issued@, final(self).issued@),
            took(*final(self), r@, old(self)@.start_sought(log_draws(final(self).issued@))),
            forall|ids: Draws|
                agrees(ids, final(self).issued@) ==> (#[trigger] old(self)@.start_sought(ids))
                    == old(self)@.start_sought(log_draws(final(self).issued@)),
    {
        reveal(StreamV::start_sought);
        let buf = chars_of(self.thinking_buffer.as_str());
        let s = buf.as_slice();
        let n: usize = s.len();
        match start_tag_position(s) {
            Some(at) => {
                let before = text_between(s, 0, at);
                assert(before@ =~= s@.take(at as int));
                let mut events = self.text_unless_white(before.as_str());
                let ghost log = self.issued@;
                let ghost w = self@;
                let ghost first = old(self)@.text_added_unless_white(before@, log_draws(log)).1;
                self.in_thinking_block = true;
                self.strip_thinking_leading_newline = true;
                self.thinking_buffer = text_between(s, at + 10, n);
                assert(self.thinking_buffer@ =~= s@.skip(at + 10));
                let ghost x = self@;
                let more = self.open_thinking_block();
                emit_all(&mut events, more, Ghost(first), Ghost(x.thinking_opened().1));
                events
            },
            None => {
                let safe: usize = hold_back(self.thinking_buffer.as_str(), 10);
                let head = text_between(s, 0, safe);
                assert(head@ =~= s@.take(safe as int));
                proof {
                    lemma_blank(head@);
                }
                if is_blank(head.as_str()) {
                    return Vec::new();
                }
                let events = self.create_text_delta_events(head.as_str());
                self.thinking_buffer = text_between(s, safe, n);
                assert(self.thinking_buffer@ =~= s@.skip(safe as int));
                events
            },
        }
    }

    /// Looks for the end tag of thinking.
    fn seek_end(&mut self) -> (r: Vec<SseEvent>)
        ensures
            took(*final(self), r@, old(self)@.end_sought()),
            final(self).issued == old(self).issued,
    {
        reveal(StreamV::end_sought);
        let raw = chars_of(self.thinking_buffer.as_str());
        if self.strip_thinking_leading_newline && raw.len() > 0 {
            self.strip_thinking_leading_newline = false;
            if raw[0] == '\n' {
                self.thinking_buffer = text_between(raw.as_slice(), 1, raw.len());
                assert(self.thinking_buffer@ =~= raw@.skip(1));
            }
        }
        assert(self@ == old(self)@.newline_stripped());
        let ghost v = self@;
        let buf = chars_of(self.thinking_buffer.as_str());
        let s = buf.as_slice();
        let n: usize = s.len();
        match end_tag_position(s) {
            Some(at) => {
                let content = text_between(s, 0, at);
                assert(content@ =~= s@.take(at as int));
                let events = self.finish_thinking(content.as_str());
                self.thinking_buffer = text_between(s, at + 13, n);
                assert(self.thinking_buffer@ =~= s@.skip(at + 13));
                events
            },
            None => {
                let safe: usize = hold_back(self.thinking_buffer.as_str(), 13);
                let head = text_between(s, 0, safe);
                assert(head@ =~= s@.take(safe as int));
                let events = self.thinking_deltas_if_any(head.as_str());
                self.thinking_buffer = text_between(s, safe, n);
                assert(self.thinking_buffer@ =~= s@.skip(safe as int));
                events
            },
        }
    }

    /// Sends what is buffered as plain text.
    fn send_rest(&mut self) -> (r: Vec<SseEvent>)
        ensures
            draws_more(old(self).issued@, final(self).issued@),
            took(*final(self), r@, old(self)@.rest_sent(log_draws(final(self).issued@))),
            forall|ids: Draws|
                agrees(ids, final(self).issued@) ==> (#[trigger] old(self)@.rest_sent(ids))
                    == old(self)@.rest_sent(log_draws(final(self).issued@)),
    {
        reveal(StreamV::rest_sent);
        let rest = self.thinking_buffer.clone();
        self.thinking_buffer = String::new();
        assert(self.thinking_buffer@ =~= Seq::<char>::empty());
        self.create_text_delta_events(rest.as_str())
    }
}

impl<R: ToolRestorer> StreamContext<R> {
    /// Sends text that may hold thinking.
    fn process_content_with_thinking(&mut self, content: &str) -> (r: Vec<SseEvent>)
        ensures
            draws_more(old(self).issued@, final(self).issued@),
            took(
                *final(self),
                r@,
                old(self)@.content_added(
                    content@,
                    log_draws(final(self).issued@),
                ),
            ),
            forall|ids: Draws|
                agrees(ids, final(self).issued@) ==> (#[trigger] old(self)@.content_added(
                    content@,
                    ids,
                ))
                    == old(self)@.content_added(content@, log_draws(final(self).issued@)),
    {
        reveal(StreamV::content_added);
        let all = join2(self.thinking_buffer.as_str(), content);
        self.thinking_buffer = all;
        let ghost v = self@;
        let ghost none = Seq::<Ev>::empty();
        let mut events: Vec<SseEvent> = Vec::new();
        if !self.in_thinking_block && !self.thinking_extracted {
            events = self.seek_start();
        }
        let ghost log1 = self.issued@;
        let ghost v1 = self@;
        let ghost e1 = if !v.in_thinking && !v.extracted {
            v.start_sought(log_draws(log1)).1
        } else {
            none
        };
        let mut more: Vec<SseEvent> = Vec::new();
        if self.in_thinking_block {
            more = self.seek_end();
        }
        let ghost v2 = self@;
        let ghost e2 = if v1.in_thinking {
            v1.end_sought().1
        } else {
            none
        };
        emit_all(&mut events, more, Ghost(e1), Ghost(e2));
        let mut last: Vec<SseEvent> = Vec::new();
        if !self.in_thinking_block && self.thinking_extracted {
            last = self.send_rest();
        }
        let ghost log3 = self.issued@;
        let ghost e3 = if !v2.in_thinking && v2.extracted {
            v2.rest_sent(log_draws(log3)).1
        } else {
            none
        };
        emit_all(&mut events, last, Ghost(e1 + e2), Ghost(e3));
        proof {
            lemma_draws_more_trans(old(self).issued@, log1, log3);
            lemma_log_draws(log3);
            assert forall|ids: Draws| agrees(ids, log3) implies (
            #[trigger] old(self)@.content_added(content@, ids)) == (self@, e1 + e2 + e3) by {
                lemma_agrees_before(ids, log1, log3);
                if !v.in_thinking && !v.extracted {
                    assert(v.start_sought(ids) == v.start_sought(log_draws(log1)));
                }
                if !v2.in_thinking && v2.extracted {
                    assert(v2.rest_sent(ids) == v2.rest_sent(log_draws(log3)));
                }
            }
        }
        events
    }

    fn is_thinking_block_open(&self) -> (r: bool)
        ensures
            r == self@.thinking_open(),
    {
        match self.thinking_block_index {
            Some(index) => self.state_manager.is_block_open_of_type(index, "thinking"),
            None => false,
        }
    }

    /// Closes an open block of text.
    fn close_open_text_block(&mut self) -> (r: Vec<SseEvent>)
        ensures
            took(*final(self), r@, old(self)@.text_closed()),
            final(self).issued == old(self).issued,
    {
        reveal(StreamV::text_closed);
        let mut events: Vec<SseEvent> = Vec::new();
        match self.text_block_index {
            Some(index) => {
                if self.state_manager.is_block_open_of_type(index, "text") {
                    let ghost ev = self@.manager.block_stopped(index as int).1;
                    let stop = self.state_manager.handle_content_block_stop(index);
                    emit_opt(&mut events, stop, Ghost(Seq::empty()), Ghost(ev));
                    assert(Seq::<Ev>::empty() + opt_seq(ev) =~= opt_seq(ev));
                }
            },
            None => {},
        }
        self.text_block_index = None;
        events
    }

    /// Closes an open block of thinking under its signature or the placeholder.
    fn close_open_thinking_block(&mut self) -> (r: Vec<SseEvent>)
        ensures
            took(*final(self), r@, old(self)@.thinking_closed()),
            final(self).issued == old(self).issued,
    {
        if !self.is_thinking_block_open() {
            return Vec::new();
        }
        let signature = match &self.pending_thinking_signature {
            Some(s) => s.clone(),
            None => "kiro-rs-thinking-signature".to_owned(),
        };
        self.pending_thinking_signature = None;
        self.end_thinking(signature.as_str())
    }

    /// Closes a block of thinking that the upstream opened itself.
    fn close_native_thinking(&mut self) -> (r: Vec<SseEvent>)
        ensures
            took(*final(self), r@, old(self)@.native_thinking_closed()),
            final(self).issued == old(self).issued,
    {
        if self.in_thinking_block {
            Vec::new()
        } else {
            self.close_open_thinking_block()
        }
    }

    /// Sees to it that a block of thinking is open.
    fn ensure_thinking_block(&mut self) -> (r: Vec<SseEvent>)
        ensures
            draws_more(old(self).issued@, final(self).issued@),
            took(*final(self), r@, old(self)@.thinking_ensured(log_draws(final(self).issued@))),
            forall|ids: Draws|
                agrees(ids, final(self).issued@) ==> (#[trigger] old(self)@.thinking_ensured(ids))
                    == old(self)@.thinking_ensured(log_draws(final(self).issued@)),
    {
        reveal(StreamV::thinking_ensured);
        if self.is_thinking_block_open() {
            return Vec::new();
        }
        let buffered = self.thinking_buffer.clone();
        self.thinking_buffer = String::new();
        assert(self.thinking_buffer@ =~= Seq::<char>::empty());
        let ghost v = self@;
        let mut events = self.text_unless_white(buffered.as_str());
        let ghost v1 = self@;
        let ghost log = self.issued@;
        let ghost e1 = v.text_added_unless_white(buffered@, log_draws(log)).1;
        let more = self.close_open_text_block();
        let ghost e2 = v1.text_closed().1;
        emit_all(&mut events, more, Ghost(e1), Ghost(e2));
        self.thinking_extracted = true;
        let ghost v3 = self@;
        let last = self.open_thinking_block();
        let ghost e3 = v3.thinking_opened().1;
        emit_all(&mut events, last, Ghost(e1 + e2), Ghost(e3));
        proof {
            lemma_log_draws(log);
            assert forall|ids: Draws| agrees(ids, log) implies (
            #[trigger] old(self)@.thinking_ensured(ids)) == (self@, e1 + e2 + e3) by {
                assert(v.text_added_unless_white(buffered@, ids) == v.text_added_unless_white(
                    buffered@,
                    log_draws(log),
                ));
            }
        }
        events
    }

    /// Ends thinking between tags that no tag has ended.
    fn end_tagged_thinking(&mut self) -> (r: Vec<SseEvent>)
        ensures
            took(*final(self), r@, old(self)@.tagged_thinking_ended()),
            final(self).issued == old(self).issued,
    {
        reveal(StreamV::tagged_thinking_ended);
        let buf = chars_of(self.thinking_buffer.as_str());
        let end: usize = match closing_tag_position(buf.as_slice()) {
            Some(at) => at,
            None => buf.len(),
        };
        let content = text_between(buf.as_slice(), 0, end);
        assert(buf@.take(buf@.len() as int) =~= buf@);
        assert(content@ =~= buf@.take(end as int));
        let events = self.finish_thinking(content.as_str());
        self.thinking_buffer = String::new();
        assert(self.thinking_buffer@ =~= Seq::<char>::empty());
        events
    }

    /// Ends thinking between tags at the end of the stream.
    fn cut_tagged_thinking(&mut self) -> (r: Vec<SseEvent>)
        ensures
            took(*final(self), r@, old(self)@.tagged_thinking_cut()),
            final(self).issued == old(self).issued,
    {
        reveal(StreamV::tagged_thinking_cut);
        let buf = chars_of(self.thinking_buffer.as_str());
        if closing_tag_position(buf.as_slice()).is_some() {
            return self.end_tagged_thinking();
        }
        if buf.len() == 0 && !self.is_thinking_block_open() {
            return Vec::new();
        }
        let in_thinking = self.in_thinking_block;
        let extracted = self.thinking_extracted;
        let events = self.end_tagged_thinking();
        self.in_thinking_block = in_thinking;
        self.thinking_extracted = extracted;
        events
    }

    /// Sends thinking that must not be shown.
    fn create_redacted_thinking_events(&mut self, data: &str) -> (r: Vec<SseEvent>)
        ensures
            took(*final(self), r@, old(self)@.redacted_sent(data@)),
            final(self).issued == old(self).issued,
    {
        reveal(StreamV::redacted_sent);
        let ghost v = self@;
        let mut events = if self.in_thinking_block {
            self.end_tagged_thinking()
        } else {
            self.close_open_thinking_block()
        };
        let ghost v1 = self@;
        let ghost e1 = if v.in_thinking {
            v.tagged_thinking_ended().1
        } else {
            v.thinking_closed().1
        };
        let more = self.close_open_text_block();
        let ghost e2 = v1.text_closed().1;
        emit_all(&mut events, more, Ghost(e1), Ghost(e2));
        let index: i32 = self.state_manager.next_block_index();
        let block = typed_json("redacted_thinking").with("data", Json::text(data));
        let ghost step = self@.manager.block_started(
            index as int,
            "redacted_thinking"@,
            crate::sse::start_data(index as int, crate::stream_model::redacted_block(data@)),
        );
        let start = self.state_manager.handle_content_block_start(
            index,
            "redacted_thinking",
            start_json(index, block),
        );
        emit_all(&mut events, start, Ghost(e1 + e2), Ghost(step.1));
        let stop = self.state_manager.handle_content_block_stop(index);
        emit_opt(
            &mut events,
            stop,
            Ghost(e1 + e2 + step.1),
            Ghost(step.0.block_stopped(index as int).1),
        );
        events
    }

    fn add_tokens(&mut self, n: i32)
        ensures
            final(self)@ == old(self)@.tokens_added(n as int),
            final(self).issued == old(self).issued,
    {
        self.output_tokens = saturating(self.output_tokens, n);
    }

    /// A text of the answer.
    fn process_assistant_response(&mut self, content: &str) -> (r: Vec<SseEvent>)
        ensures
            draws_more(old(self).issued@, final(self).issued@),
            took(*final(self), r@, old(self)@.answered(content@, log_draws(final(self).issued@))),
            forall|ids: Draws|
                agrees(ids, final(self).issued@) ==> (#[trigger] old(self)@.answered(content@, ids))
                    == old(self)@.answered(content@, log_draws(final(self).issued@)),
    {
        reveal(StreamV::answered);
        let out = self.tool_use_xml_filter.filter(content);
        if chars_of(out.as_str()).len() == 0 {
            return Vec::new();
        }
        let ghost v = self@;
        let mut events = self.close_native_thinking();
        let ghost e1 = v.native_thinking_closed().1;
        self.add_tokens(estimate_tokens(out.as_str()));
        let ghost w = self@;
        let more = if self.thinking_enabled {
            self.process_content_with_thinking(out.as_str())
        } else {
            self.create_text_delta_events(out.as_str())
        };
        let ghost e2 = if w.thinking_enabled {
            w.content_added(out@, log_draws(self.issued@)).1
        } else {
            w.text_added(out@, log_draws(self.issued@)).1
        };
        emit_all(&mut events, more, Ghost(e1), Ghost(e2));
        events
    }

    /// Thinking that the upstream marks as such.
    #[verifier::rlimit(40)]
    fn process_reasoning_content(&mut self, reasoning: &ReasoningContentEvent) -> (r: Vec<SseEvent>)
        ensures
            draws_more(old(self).issued@, final(self).issued@),
            took(
                *final(self),
                r@,
                old(self)@.reasoned(
                    opt_text(reasoning.text),
                    opt_text(reasoning.signature),
                    opt_text(reasoning.redacted_content),
                    log_draws(final(self).issued@),
                ),
            ),
            forall|ids: Draws|
                agrees(ids, final(self).issued@) ==> (#[trigger] old(self)@.reasoned(
                    opt_text(reasoning.text),
                    opt_text(reasoning.signature),
                    opt_text(reasoning.redacted_content),
                    ids,
                )) == old(self)@.reasoned(
                    opt_text(reasoning.text),
                    opt_text(reasoning.signature),
                    opt_text(reasoning.redacted_content),
                    log_draws(final(self).issued@),
                ),
    {
        reveal(StreamV::reasoned);
        if !self.thinking_enabled {
            if let Some(text) = &reasoning.text {
                if chars_of(text.as_str()).len() > 0 {
                    self.add_tokens(estimate_tokens(text.as_str()));
                    return self.create_text_delta_events(text.as_str());
                }
            }
            return Vec::new();
        }
        if let Some(signature) = &reasoning.signature {
            if chars_of(signature.as_str()).len() > 0 {
                self.pending_thinking_signature = Some(signature.clone());
            }
        }
        let ghost v = self@;
        let ghost log0 = self.issued@;
        let ghost mut e1 = Seq::<Ev>::empty();
        let mut events: Vec<SseEvent> = Vec::new();
        if let Some(text) = &reasoning.text {
            if chars_of(text.as_str()).len() > 0 {
                self.add_tokens(estimate_tokens(text.as_str()));
                let ghost w = self@;
                events = self.ensure_thinking_block();
                let ghost first = w.thinking_ensured(log_draws(self.issued@)).1;
                let more = self.thinking_deltas(text.as_str());
                let ghost second = thought(self@.thinking_index, text@);
                emit_all(&mut events, more, Ghost(first), Ghost(second));
                proof {
                    e1 = first + second;
                }
            }
        }
        if let Some(redacted) = &reasoning.redacted_content {
            if chars_of(redacted.as_str()).len() > 0 {
                self.add_tokens(8);
                let ghost w = self@;
                let more = self.create_redacted_thinking_events(redacted.as_str());
                emit_all(&mut events, more, Ghost(e1), Ghost(w.redacted_sent(redacted@).1));
            }
        }
        events
    }

    /// Ends thinking where an end tag stands at the end of what is buffered.
    fn take_end_tag_at_end(&mut self) -> (r: Vec<SseEvent>)
        ensures
            draws_more(old(self).issued@, final(self).issued@),
            took(*final(self), r@, old(self)@.end_tag_at_end_taken(log_draws(final(self).issued@))),
            forall|ids: Draws|
                agrees(ids, final(self).issued@) ==> (#[trigger] old(self)@.end_tag_at_end_taken(
                    ids,
                )) == old(self)@.end_tag_at_end_taken(log_draws(final(self).issued@)),
    {
        reveal(StreamV::end_tag_at_end_taken);
        let buf = chars_of(self.thinking_buffer.as_str());
        let s = buf.as_slice();
        let n: usize = s.len();
        match closing_tag_position(s) {
            Some(at) => {
                let content = text_between(s, 0, at);
                assert(content@ =~= s@.take(at as int));
                let ghost v = self@;
                let mut events = self.finish_thinking(content.as_str());
                let ghost e1 = v.thinking_finished(content@).1;
                let tail = slice_subrange(s, at + 11, n);
                assert(tail@ =~= s@.skip(at + 11));
                let from: usize = after_white(tail, 0);
                let rest = text_between(tail, from, tail.len());
                assert(rest@ =~= crate::text::trimmed_start(tail@));
                self.thinking_buffer = String::new();
                assert(self.thinking_buffer@ =~= Seq::<char>::empty());
                let ghost w = self@;
                let more = self.create_text_delta_events(rest.as_str());
                emit_all(
                    &mut events,
                    more,
                    Ghost(e1),
                    Ghost(w.text_added(rest@, log_draws(self.issued@)).1),
                );
                events
            },
            None => Vec::new(),
        }
    }

    /// Sends the texts that precede a tool call.
    fn settle_before_call(&mut self) -> (r: Vec<SseEvent>)
        ensures
            draws_more(old(self).issued@, final(self).issued@),
            took(*final(self), r@, old(self)@.settled_before_call(log_draws(final(self).issued@))),
            forall|ids: Draws|
                agrees(ids, final(self).issued@) ==> (#[trigger] old(self)@.settled_before_call(
                    ids,
                ))
                    == old(self)@.settled_before_call(log_draws(final(self).issued@)),
    {
        reveal(StreamV::settled_before_call);
        self.state_manager.set_has_tool_use(true);
        let ghost v = self@;
        let mut events = self.close_native_thinking();
        let ghost v1 = self@;
        let ghost e1 = v.native_thinking_closed().1;
        let mut more: Vec<SseEvent> = Vec::new();
        if self.thinking_enabled && self.in_thinking_block {
            more = self.take_end_tag_at_end();
        }
        let ghost v2 = self@;
        let ghost log2 = self.issued@;
        let ghost e2 = if v1.thinking_enabled && v1.in_thinking {
            v1.end_tag_at_end_taken(log_draws(log2)).1
        } else {
            Seq::empty()
        };
        emit_all(&mut events, more, Ghost(e1), Ghost(e2));
        let mut last: Vec<SseEvent> = Vec::new();
        if self.thinking_enabled && !self.in_thinking_block && !self.thinking_extracted {
            last = self.send_rest();
        }
        let ghost log3 = self.issued@;
        let ghost e3 = if v2.thinking_enabled && !v2.in_thinking && !v2.extracted {
            v2.rest_sent(log_draws(log3)).1
        } else {
            Seq::empty()
        };
        emit_all(&mut events, last, Ghost(e1 + e2), Ghost(e3));
        proof {
            lemma_draws_more_trans(old(self).issued@, log2, log3);
            lemma_log_draws(log3);
            assert forall|ids: Draws| agrees(ids, log3) implies (
            #[trigger] old(self)@.settled_before_call(ids)) == (self@, e1 + e2 + e3) by {
                lemma_agrees_before(ids, log2, log3);
                if v1.thinking_enabled && v1.in_thinking {
                    assert(v1.end_tag_at_end_taken(ids) == v1.end_tag_at_end_taken(
                        log_draws(log2),
                    ));
                }
                if v2.thinking_enabled && !v2.in_thinking && !v2.extracted {
                    assert(v2.rest_sent(ids) == v2.rest_sent(log_draws(log3)));
                }
            }
        }
        events
    }

    /// A fragment of a tool call.
    fn process_tool_use(&mut self, tool_use: &ToolUseEvent) -> (r: Vec<SseEvent>)
        ensures
            draws_more(old(self).issued@, final(self).issued@),
            took(
                *final(self),
                r@,
                old(self)@.call_fragment(
                    tool_use@,
                    log_draws(final(self).issued@),
                ),
            ),
            forall|ids: Draws|
                agrees(ids, final(self).issued@) ==> (#[trigger] old(self)@.call_fragment(
                    tool_use@,
                    ids,
                ))
                    == old(self)@.call_fragment(tool_use@, log_draws(final(self).issued@)),
    {
        reveal(StreamV::call_fragment);
        let mut events = self.settle_before_call();
        let ghost e1 = old(self)@.settled_before_call(log_draws(self.issued@)).1;
        match self.tool_json_accumulator.push(tool_use, &self.tool_name_map) {
            Ok(Some(call)) => {
                let ghost w = self@;
                let more = self.emit_completed_tool_use(&call);
                emit_all(&mut events, more, Ghost(e1), Ghost(w.call_sent(call@).1));
            },
            Ok(None) => {},
            Err(e) => {
                self.tool_json_error = Some(e);
                self.state_manager.set_stop_reason("error");
            },
        }
        events
    }

    /// What an upstream event leads to.
    pub fn process_kiro_event(&mut self, event: &Event) -> (r: Vec<SseEvent>)
        ensures
            draws_more(old(self).issued@, final(self).issued@),
            took(*final(self), r@, old(self)@.processed(event@, log_draws(final(self).issued@))),
            forall|ids: Draws|
                agrees(ids, final(self).issued@) ==> (#[trigger] old(self)@.processed(event@, ids))
                    == old(self)@.processed(event@, log_draws(final(self).issued@)),
    {
        match event {
            Event::AssistantResponse { content } => self.process_assistant_response(
                content.as_str(),
            ),
            Event::ToolUse(tool_use) => self.process_tool_use(tool_use),
            Event::ReasoningContent(reasoning) => self.process_reasoning_content(reasoning),
            Event::Metadata { token_usage } => {
                match token_usage {
                    Some(usage) => {
                        self.provider_token_usage = Some(usage.sanitized());
                    },
                    None => {},
                }
                Vec::new()
            },
            Event::ContextUsage { input_tokens, exceeded } => {
                self.context_input_tokens = Some(*input_tokens);
                if *exceeded {
                    self.state_manager.set_stop_reason("model_context_window_exceeded");
                }
                Vec::new()
            },
            Event::Metering(metering) => {
                self.credits.push(metering.usage.copy());
                self.metering = Some(metering.copy());
                assert(jsons(self.credits@) =~= jsons(old(self).credits@).push(metering@.usage));
                Vec::new()
            },
            Event::Error { error_code, error_message } => Vec::new(),
            Event::Exception { exception_type, message } => {
                if same_text(exception_type.as_str(), "ContentLengthExceededException") {
                    self.state_manager.set_stop_reason("max_tokens");
                }
                Vec::new()
            },
            Event::Unknown => Vec::new(),
        }
    }

    fn send_leftover(&mut self) -> (r: Vec<SseEvent>)
        ensures
            draws_more(old(self).issued@, final(self).issued@),
            took(*final(self), r@, old(self)@.leftover_sent(log_draws(final(self).issued@))),
            forall|ids: Draws|
                agrees(ids, final(self).issued@) ==> (#[trigger] old(self)@.leftover_sent(ids))
                    == old(self)@.leftover_sent(log_draws(final(self).issued@)),
    {
        reveal(StreamV::leftover_sent);
        let leftover = self.tool_use_xml_filter.finish();
        if chars_of(leftover.as_str()).len() == 0 {
            Vec::new()
        } else if self.thinking_enabled {
            self.process_content_with_thinking(leftover.as_str())
        } else {
            self.create_text_delta_events(leftover.as_str())
        }
    }

    /// Sends what is buffered in search of tags.
    fn send_buffer(&mut self) -> (r: Vec<SseEvent>)
        ensures
            draws_more(old(self).issued@, final(self).issued@),
            took(*final(self), r@, old(self)@.buffer_sent(log_draws(final(self).issued@))),
            forall|ids: Draws|
                agrees(ids, final(self).issued@) ==> (#[trigger] old(self)@.buffer_sent(ids))
                    == old(self)@.buffer_sent(log_draws(final(self).issued@)),
    {
        reveal(StreamV::buffer_sent);
        if !self.thinking_enabled {
            return Vec::new();
        }
        if self.in_thinking_block {
            return self.cut_tagged_thinking();
        }
        self.send_rest()
    }

    /// Supplies a text where the answer consists of thinking alone.
    fn supply_text(&mut self) -> (r: Vec<SseEvent>)
        ensures
            draws_more(old(self).issued@, final(self).issued@),
            took(*final(self), r@, old(self)@.text_supplied(log_draws(final(self).issued@))),
            forall|ids: Draws|
                agrees(ids, final(self).issued@) ==> (#[trigger] old(self)@.text_supplied(ids))
                    == old(self)@.text_supplied(log_draws(final(self).issued@)),
    {
        reveal(StreamV::text_supplied);
        if self.thinking_enabled && self.thinking_block_index.is_some()
            && !self.state_manager.has_non_thinking_blocks() {
            self.state_manager.set_stop_reason("max_tokens");
            self.create_text_delta_events(" ")
        } else {
            Vec::new()
        }
    }

    /// Sends what is held back as a possible tool call.
    fn send_held(&mut self) -> (r: Vec<SseEvent>)
        ensures
            draws_more(old(self).issued@, final(self).issued@),
            took(*final(self), r@, old(self)@.held_sent(log_draws(final(self).issued@))),
            forall|ids: Draws|
                agrees(ids, final(self).issued@) ==> (#[trigger] old(self)@.held_sent(ids))
                    == old(self)@.held_sent(log_draws(final(self).issued@)),
    {
        reveal(StreamV::held_sent);
        self.drain_invoke_sniff_buffer(true)
    }

    /// Sends everything that is buffered.
    fn flush(&mut self) -> (r: Vec<SseEvent>)
        ensures
            draws_more(old(self).issued@, final(self).issued@),
            took(*final(self), r@, old(self)@.flushed(log_draws(final(self).issued@))),
            forall|ids: Draws|
                agrees(ids, final(self).issued@) ==> (#[trigger] old(self)@.flushed(ids))
                    == old(self)@.flushed(log_draws(final(self).issued@)),
    {
        reveal(StreamV::flushed);
        let ghost v = self@;
        let ghost log0 = self.issued@;
        let mut events = self.send_leftover();
        let ghost v1 = self@;
        let ghost log1 = self.issued@;
        let ghost e1 = v.leftover_sent(log_draws(log1)).1;
        let more = self.close_native_thinking();
        let ghost v2 = self@;
        let ghost e2 = v1.native_thinking_closed().1;
        emit_all(&mut events, more, Ghost(e1), Ghost(e2));
        let more = self.send_buffer();
        let ghost v3 = self@;
        let ghost log3 = self.issued@;
        let ghost e3 = v2.buffer_sent(log_draws(log3)).1;
        emit_all(&mut events, more, Ghost(e1 + e2), Ghost(e3));
        let more = self.send_held();
        let ghost v4 = self@;
        let ghost log4 = self.issued@;
        let ghost e4 = v3.held_sent(log_draws(log4)).1;
        emit_all(&mut events, more, Ghost(e1 + e2 + e3), Ghost(e4));
        let more = self.supply_text();
        let ghost log5 = self.issued@;
        let ghost e5 = v4.text_supplied(log_draws(log5)).1;
        emit_all(&mut events, more, Ghost(e1 + e2 + e3 + e4), Ghost(e5));
        proof {
            lemma_draws_more_trans(log0, log1, log3);
            lemma_draws_more_trans(log0, log3, log4);
            lemma_draws_more_trans(log0, log4, log5);
            lemma_draws_more_trans(log3, log4, log5);
            lemma_draws_more_trans(log1, log3, log5);
            lemma_log_draws(log5);
            assert forall|ids: Draws| agrees(ids, log5) implies (#[trigger] v.flushed(ids)) == (
                self@,
                e1 + e2 + e3 + e4 + e5,
            ) by {
                lemma_agrees_before(ids, log1, log5);
                lemma_agrees_before(ids, log3, log5);
                lemma_agrees_before(ids, log4, log5);
                assert(v.leftover_sent(ids) == v.leftover_sent(log_draws(log1)));
                assert(v2.buffer_sent(ids) == v2.buffer_sent(log_draws(log3)));
                assert(v3.held_sent(ids) == v3.held_sent(log_draws(log4)));
                assert(v4.text_supplied(ids) == v4.text_supplied(log_draws(log5)));
            }
        }
        events
    }

    fn finish_calls(&mut self)
        ensures
            final(self)@ == old(self)@.calls_finished(),
            final(self).issued == old(self).issued,
    {
        if self.tool_json_error.is_some() {
            return;
        }
        match self.tool_json_accumulator.finish() {
            Ok(_) => {},
            Err(e) => {
                self.tool_json_error = Some(e);
                self.state_manager.set_stop_reason("error");
            },
        }
    }

    /// Ends the message after the upstream has ended: sends what is buffered and
    /// closes the message, with an error if a tool call could not be read.
    pub fn generate_final_events(&mut self) -> (r: Vec<SseEvent>)
        ensures
            draws_more(old(self).issued@, final(self).issued@),
            took(*final(self), r@, old(self)@.ended(log_draws(final(self).issued@))),
            forall|ids: Draws|
                agrees(ids, final(self).issued@) ==> (#[trigger] old(self)@.ended(ids))
                    == old(self)@.ended(log_draws(final(self).issued@)),
    {
        reveal(StreamV::ended);
        let mut events = self.flush();
        let ghost e1 = old(self)@.flushed(log_draws(self.issued@)).1;
        self.finish_calls();
        let failure = match &self.tool_json_error {
            Some(e) => Some((e.error_type(), e.message())),
            None => None,
        };
        let ghost w = self@;
        match failure {
            Some((error_type, message)) => {
                let more = self.generate_error_events(error_type, message.as_str());
                emit_all(
                    &mut events,
                    more,
                    Ghost(e1),
                    Ghost(w.failed(error_type@, message@).1),
                );
            },
            None => {
                let (input, creation, read) = self.resolved_usage();
                let output: i32 = self.resolved_output_tokens();
                let ghost usage = Usage {
                    input_tokens: input,
                    output_tokens: output,
                    cache_creation_input_tokens: creation,
                    cache_read_input_tokens: read,
                };
                let more = self.state_manager.generate_final_events(
                    input,
                    output,
                    creation,
                    read,
                    &self.metering,
                );
                emit_all(
                    &mut events,
                    more,
                    Ghost(e1),
                    Ghost(w.manager.finished(usage, w.metering).1),
                );
            },
        }
        events
    }

    /// Ends the message after the upstream has failed: what is buffered may be
    /// cut off and is not sent.
    pub fn generate_error_events(&mut self, error_type: &str, message: &str) -> (r: Vec<SseEvent>)
        ensures
            took(*final(self), r@, old(self)@.failed(error_type@, message@)),
            final(self).issued == old(self).issued,
    {
        reveal(StreamV::failed);
        let mut events = self.close_open_thinking_block();
        let ghost e1 = old(self)@.thinking_closed().1;
        let ghost m = self@.manager;
        let more = self.state_manager.generate_error_events(error_type, message);
        emit_all(&mut events, more, Ghost(e1), Ghost(m.failed(error_type@, message@).1));
        events
    }
}

/// The state and the events after a step.
pub open spec fn took<R: ToolRestorer>(c: StreamContext<R>, r: Seq<SseEvent>, step: Step) -> bool {
    c@ == step.0 && emits(r, step.1)
}

/// The draws of a log.
pub open spec fn log_draws(log: Seq<Seq<char>>) -> Draws {
    |n: int| log[n]
}

proof fn lemma_log_draws(log: Seq<Seq<char>>)
    ensures
        agrees(log_draws(log), log),
{
}

fn unfinished_tag_position(s: &[char]) -> (r: usize)
    ensures
        r == unfinished_tag(s@),
        r <= s@.len(),
{
    match rfind_char(s, '<', s.len()) {
        Some(lt) => match find_char(s, '>', lt) {
            Some(_) => s.len(),
            None => lt,
        },
        None => s.len(),
    }
}

} // verus!
