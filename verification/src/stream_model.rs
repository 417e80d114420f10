//! What a stream of upstream events is turned into, mathematically.
//!
//! [`StreamV`] is the state of a stream. Each function on it gives the next
//! state and the events that are sent meanwhile. Identifiers of tool calls that
//! were written into plain text are drawn at random; `ids` stands for the draws,
//! the state counts them.
use crate::fence::{fence_after, FenceV};
use crate::invoke::{invoke_end, invoke_parsed, invoke_start};
use crate::json::{json_printed, JsonV};
use crate::names::Restoring;
use crate::sse::{delta_data, opt_seq, start_data, typed, Ev, ManagerV, MeteringV, Usage};
use crate::stray::{at_line_start, fresh_guard, guard_filter, lead, GuardV};
use crate::text::{all_white, byte_len, char_before, char_from, held_back, trimmed_start};
use crate::thinking::{closing_tag, end_tag, start_tag};
use crate::tokens::{not_negative, sat_add, token_estimate, CacheUsage, TokenUsage};
use crate::tool_json::{
    finished, pushed, restored_call, tool_error_message, tool_error_type, CallV, FragmentV,
    PendingV, ToolErrorV,
};
use crate::xml_leak::{xml_scan, xml_stripped};
use vstd::prelude::*;

verus! {

/// The identifiers that are drawn, by their number.
pub type Draws = spec_fn(int) -> Seq<char>;

/// What is sent as the signature of thinking that the upstream did not sign.
pub open spec fn placeholder_signature() -> Seq<char> {
    "kiro-rs-thinking-signature"@
}

/// A text that may be a call is held back up to this many bytes.
pub open spec fn most_held() -> int {
    262_144
}

pub ghost struct StreamV {
    pub manager: ManagerV,
    pub model: Seq<char>,
    pub message_id: Seq<char>,
    pub input_tokens: int,
    pub context_input_tokens: Option<i32>,
    pub provider_token_usage: Option<TokenUsage>,
    pub output_tokens: int,
    pub tool_blocks: Map<Seq<char>, int>,
    pub names: Restoring,
    pub known: Set<Seq<char>>,
    pub fence: FenceV,
    pub thinking_enabled: bool,
    pub thinking_buffer: Seq<char>,
    pub sniffed: Seq<char>,
    pub in_thinking: bool,
    pub extracted: bool,
    pub thinking_index: Option<int>,
    pub signature: Option<Seq<char>>,
    pub text_index: Option<int>,
    pub strip_newline: bool,
    pub cache_usage: CacheUsage,
    pub metered: Seq<JsonV>,
    pub metering: Option<MeteringV>,
    pub guard: GuardV,
    pub pending: Seq<PendingV>,
    pub tool_error: Option<ToolErrorV>,
    pub xml_buffer: Seq<char>,
    pub xml_stripping: bool,
    pub drawn: int,
}

/// An upstream event, mathematically.
pub ghost enum EventV {
    AssistantResponse(Seq<char>),
    ToolUse(FragmentV),
    Reasoning { text: Option<Seq<char>>, signature: Option<Seq<char>>, redacted: Option<Seq<char>> },
    Metadata(Option<TokenUsage>),
    ContextUsage { input_tokens: i32, exceeded: bool },
    Metering(MeteringV),
    Exception(Seq<char>),
    Other,
}

pub type Step = (StreamV, Seq<Ev>);

/// One step after the other.
pub open spec fn followed(first: Seq<Ev>, second: Step) -> Step {
    (second.0, first + second.1)
}

pub open spec fn text_block() -> JsonV {
    typed("text"@).put("text"@, JsonV::Text(""@))
}

pub open spec fn thinking_block() -> JsonV {
    typed("thinking"@).put("thinking"@, JsonV::Text(""@))
}

pub open spec fn redacted_block(data: Seq<char>) -> JsonV {
    typed("redacted_thinking"@).put("data"@, JsonV::Text(data))
}

pub open spec fn tool_block(call: CallV) -> JsonV {
    typed("tool_use"@).put("id"@, JsonV::Text(call.id)).put("name"@, JsonV::Text(call.name)).put(
        "input"@,
        JsonV::object(),
    )
}

pub open spec fn text_delta(text: Seq<char>) -> JsonV {
    typed("text_delta"@).put("text"@, JsonV::Text(text))
}

pub open spec fn thinking_delta(text: Seq<char>) -> JsonV {
    typed("thinking_delta"@).put("thinking"@, JsonV::Text(text))
}

pub open spec fn signature_delta(signature: Seq<char>) -> JsonV {
    typed("signature_delta"@).put("signature"@, JsonV::Text(signature))
}

pub open spec fn input_delta(input: Seq<char>) -> JsonV {
    typed("input_json_delta"@).put("partial_json"@, JsonV::Text(input))
}

/// A delta of thinking for a block, if there is one.
pub open spec fn thought(index: Option<int>, text: Seq<char>) -> Seq<Ev> {
    match index {
        Some(i) => seq![Ev::Delta(i, delta_data(i, thinking_delta(text)))],
        None => Seq::empty(),
    }
}

/// A delta of thinking that is not empty.
pub open spec fn thought_if_any(index: Option<int>, text: Seq<char>) -> Seq<Ev> {
    if text.len() == 0 {
        Seq::empty()
    } else {
        thought(index, text)
    }
}

/// Where the end of a text begins that may be an unfinished tag.
pub open spec fn unfinished_tag(s: Seq<char>) -> int {
    match char_before(s, '<', s.len() as int) {
        Some(lt) => if char_from(s, '>', lt) is None {
            lt
        } else {
            s.len() as int
        },
        None => s.len() as int,
    }
}

impl StreamV {
    /// The state at the beginning.
    pub open spec fn fresh(
        model: Seq<char>,
        message_id: Seq<char>,
        input_tokens: int,
        thinking_enabled: bool,
        names: Restoring,
        known: Set<Seq<char>>,
    ) -> StreamV {
        StreamV {
            manager: ManagerV::fresh(),
            model,
            message_id,
            input_tokens,
            context_input_tokens: None,
            provider_token_usage: None,
            output_tokens: 0,
            tool_blocks: Map::empty(),
            names,
            known,
            fence: FenceV { open: false, partial: Seq::empty() },
            thinking_enabled,
            thinking_buffer: Seq::empty(),
            sniffed: Seq::empty(),
            in_thinking: false,
            extracted: false,
            thinking_index: None,
            signature: None,
            text_index: None,
            strip_newline: false,
            cache_usage: CacheUsage { cache_read: 0, cache_covered_est: 0, prompt_total_est: 0 },
            metered: Seq::empty(),
            metering: None,
            guard: fresh_guard(),
            pending: Seq::empty(),
            tool_error: None,
            xml_buffer: Seq::empty(),
            xml_stripping: false,
            drawn: 0,
        }
    }

    /// The provider's figures where it gave any; otherwise the best total known,
    /// split in the proportions of the cache model.
    pub open spec fn usage(self) -> (int, int, int) {
        match self.provider_token_usage {
            Some(u) => (
                u.sane().uncached_input_tokens as int,
                u.sane().cache_write_input_tokens as int,
                u.sane().cache_read_input_tokens as int,
            ),
            None => self.cache_usage.split(
                match self.context_input_tokens {
                    Some(n) => n as int,
                    None => self.input_tokens,
                },
            ),
        }
    }

    /// The provider's figure where it gave one, otherwise the estimate.
    pub open spec fn output(self) -> int {
        match self.provider_token_usage {
            Some(u) => u.sane().output_tokens as int,
            None => not_negative(self.output_tokens),
        }
    }

    pub open spec fn message_start(self) -> JsonV {
        typed("message_start"@).put(
            "message"@,
            JsonV::object().put("id"@, JsonV::Text(self.message_id)).put(
                "type"@,
                JsonV::Text("message"@),
            ).put("role"@, JsonV::Text("assistant"@)).put("content"@, JsonV::Array(Seq::empty())).put(
                "model"@,
                JsonV::Text(self.model),
            ).put("stop_reason"@, JsonV::Null).put("stop_sequence"@, JsonV::Null).put(
                "usage"@,
                crate::sse::usage_data(
                    Usage {
                        input_tokens: self.input_tokens as i32,
                        output_tokens: 1,
                        cache_creation_input_tokens: 0,
                        cache_read_input_tokens: 0,
                    },
                ),
            ),
        )
    }

    /// The message is opened and, where no thinking can come first, a block of text.
    pub open spec fn opened(self) -> Step {
        let evs = if self.manager.message_started {
            Seq::empty()
        } else {
            seq![Ev::MessageStart(self.message_start())]
        };
        let v = StreamV { manager: ManagerV { message_started: true, ..self.manager }, ..self };
        if self.thinking_enabled {
            (v, evs)
        } else {
            followed(evs, v.text_opened())
        }
    }

    /// A new block of text is opened.
    #[verifier::opaque]
    pub open spec fn text_opened(self) -> Step {
        let index = self.manager.next_block_index;
        let (m, evs) = self.manager.index_taken().block_started(
            index,
            "text"@,
            start_data(index, text_block()),
        );
        (StreamV { manager: m, text_index: Some(index), ..self }, evs)
    }

    /// A new block of thinking is opened.
    #[verifier::opaque]
    pub open spec fn thinking_opened(self) -> Step {
        let index = self.manager.next_block_index;
        let (m, evs) = self.manager.index_taken().block_started(
            index,
            "thinking"@,
            start_data(index, thinking_block()),
        );
        (StreamV { manager: m, thinking_index: Some(index), ..self }, evs)
    }

    /// The text block to go on with, if the last one is still open.
    pub open spec fn open_text_index(self) -> Option<int> {
        match self.text_index {
            Some(i) => if self.manager.is_open(i, "text"@) {
                Some(i)
            } else {
                None
            },
            None => None,
        }
    }

    /// Text goes to the client: what the guard lets through of it, in the open
    /// block of text or in a new one.
    #[verifier::opaque]
    pub open spec fn text_sent(self, text: Seq<char>) -> Step {
        let (guard, kept) = guard_filter(self.guard, text);
        let v = StreamV { guard, ..self };
        if kept.len() == 0 {
            (v, Seq::empty())
        } else {
            let v = StreamV {
                fence: fence_after(v.fence, kept),
                text_index: v.open_text_index(),
                ..v
            };
            let (v, evs) = match v.text_index {
                Some(_) => (v, Seq::empty()),
                None => v.text_opened(),
            };
            let index = v.text_index->Some_0;
            (v, evs + opt_seq(v.manager.delta(index, delta_data(index, text_delta(kept)))))
        }
    }

    /// A complete tool call goes to the client, in the block of its identifier.
    #[verifier::opaque]
    pub open spec fn call_sent(self, call: CallV) -> Step {
        let m = ManagerV { has_tool_use: true, ..self.manager };
        let known = self.tool_blocks.dom().contains(call.id);
        let index = if known {
            self.tool_blocks[call.id]
        } else {
            m.next_block_index
        };
        let m = if known {
            m
        } else {
            m.index_taken()
        };
        let tool_blocks = if known {
            self.tool_blocks
        } else {
            self.tool_blocks.insert(call.id, index)
        };
        let input = json_printed(call.input);
        let (m1, start) = m.block_started(index, "tool_use"@, start_data(index, tool_block(call)));
        let delta = m1.delta(index, delta_data(index, input_delta(input)));
        let (m2, stop) = m1.block_stopped(index);
        (
            StreamV {
                manager: m2,
                tool_blocks,
                output_tokens: sat_add(self.output_tokens, token_estimate(input)),
                ..self
            },
            start + opt_seq(delta) + opt_seq(stop),
        )
    }

    /// What stands behind `text` may be a tool call: it stands at the beginning of a
    /// line, the line that was begun by what was sent before counted in, and outside
    /// of a code fence.
    pub open spec fn callable_behind(self, text: Seq<char>) -> bool {
        &&& at_line_start(self.fence.partial, text)
        &&& !fence_after(self.fence, lead(self.fence.partial, text)).open
    }

    /// A block that was written into plain text behind `text` may be run as a tool
    /// call: it stands where one may be, and names a tool that the request declares.
    pub open spec fn reclaimable(self, text: Seq<char>, block: Seq<char>) -> bool {
        &&& self.callable_behind(text)
        &&& match invoke_parsed(block) {
            Some((name, _)) => self.known.contains(name),
            None => false,
        }
    }

    /// A tool call that was written into plain text goes to the client, with the
    /// text before it.
    pub open spec fn reclaimed(self, before: Seq<char>, block: Seq<char>, ids: Draws) -> Step {
        let (name, input) = invoke_parsed(block)->Some_0;
        let (v, evs) = self.text_sent(before);
        let call = restored_call(ids(v.drawn), name, input, v.names);
        followed(evs, StreamV { drawn: v.drawn + 1, ..v }.call_sent(call))
    }

    /// The complete block `buf[start..end]` is run as a tool call, or sent as text
    /// with all that precedes it.
    #[verifier::opaque]
    pub open spec fn block_taken(self, buf: Seq<char>, start: int, end: int, ids: Draws) -> Step {
        let text = buf.take(start);
        let block = buf.subrange(start, end);
        if self.reclaimable(text, block) {
            self.reclaimed(lead(self.fence.partial, text), block, ids)
        } else {
            self.text_sent(buf.take(end))
        }
    }

    /// The block that begins at `start` is not complete: it is held back if it
    /// may become a tool call and is not too long, and sent as text otherwise.
    #[verifier::opaque]
    pub open spec fn unclosed_taken(self, buf: Seq<char>, start: int, flush: bool) -> Step {
        if !self.callable_behind(buf.take(start)) {
            self.text_sent(buf)
        } else {
            let (v, evs) = self.text_sent(buf.take(start));
            let rest = buf.skip(start);
            if flush || byte_len(rest) > most_held() {
                followed(evs, v.text_sent(rest))
            } else {
                (StreamV { sniffed: rest, ..v }, evs)
            }
        }
    }

    /// The text `buf` has arrived. Complete blocks are run as tool calls or sent
    /// as text; an unfinished one at the beginning of a line is held back, and so
    /// is the beginning of a tag at the end. With `flush` nothing is held back.
    pub open spec fn drained(self, buf: Seq<char>, flush: bool, ids: Draws) -> Step
        decreases buf.len(),
    {
        match invoke_start(buf) {
            Some(start) => match invoke_end(buf, start) {
                Some(end) => if end <= 0 || end > buf.len() {
                    (self, Seq::empty())
                } else {
                    let (v, evs) = self.block_taken(buf, start, end, ids);
                    followed(evs, v.drained(buf.skip(end), flush, ids))
                },
                None => self.unclosed_taken(buf, start, flush),
            },
            None => if flush {
                self.text_sent(buf)
            } else {
                let split = unfinished_tag(buf);
                let (v, evs) = self.text_sent(buf.take(split));
                (StreamV { sniffed: buf.skip(split), ..v }, evs)
            },
        }
    }

    /// What is held back as a possible tool call is looked through again.
    pub open spec fn held_drained(self, flush: bool, ids: Draws) -> Step {
        StreamV { sniffed: Seq::empty(), ..self }.drained(self.sniffed, flush, ids)
    }

    /// What is held back and then `text` go the way of plain text.
    #[verifier::opaque]
    pub open spec fn text_added(self, text: Seq<char>, ids: Draws) -> Step {
        if text.len() == 0 {
            (self, Seq::empty())
        } else {
            StreamV { sniffed: Seq::empty(), ..self }.drained(self.sniffed + text, false, ids)
        }
    }

    /// Text that is not all white space goes the way of plain text.
    pub open spec fn text_added_unless_white(self, text: Seq<char>, ids: Draws) -> Step {
        if all_white(text) {
            (self, Seq::empty())
        } else {
            self.text_added(text, ids)
        }
    }

    /// The block of thinking ends: an empty delta, the signature, the stop.
    pub open spec fn thinking_ended(self, signature: Seq<char>) -> Step {
        match self.thinking_index {
            Some(i) => {
                let (m, stop) = self.manager.block_stopped(i);
                (
                    StreamV { manager: m, ..self },
                    thought(Some(i), Seq::empty()).push(
                        Ev::Delta(i, delta_data(i, signature_delta(signature))),
                    ) + opt_seq(stop),
                )
            },
            None => (self, Seq::empty()),
        }
    }

    /// Thinking that ends with a tag: what precedes the tag is sent and the
    /// block closed.
    #[verifier::opaque]
    pub open spec fn thinking_finished(self, content: Seq<char>) -> Step {
        let v = StreamV { in_thinking: false, extracted: true, ..self };
        followed(
            thought_if_any(v.thinking_index, content),
            v.thinking_ended(placeholder_signature()),
        )
    }

    /// Looking for a start tag: with one, the text before it is sent and a block
    /// of thinking opened; without one, as much is sent as cannot belong to a tag.
    #[verifier::opaque]
    pub open spec fn start_sought(self, ids: Draws) -> Step {
        let buf = self.thinking_buffer;
        match start_tag(buf) {
            Some(at) => {
                let (v, evs) = self.text_added_unless_white(buf.take(at), ids);
                let v = StreamV {
                    in_thinking: true,
                    strip_newline: true,
                    thinking_buffer: buf.skip(at + 10),
                    ..v
                };
                followed(evs, v.thinking_opened())
            },
            None => {
                let safe = held_back(buf, 10);
                let head = buf.take(safe);
                if all_white(head) {
                    (self, Seq::empty())
                } else {
                    let (v, evs) = self.text_added(head, ids);
                    (StreamV { thinking_buffer: buf.skip(safe), ..v }, evs)
                }
            },
        }
    }

    /// A line break right behind the start tag is dropped.
    pub open spec fn newline_stripped(self) -> StreamV {
        if self.strip_newline && self.thinking_buffer.len() > 0 {
            StreamV {
                strip_newline: false,
                thinking_buffer: crate::thinking::without_newline(self.thinking_buffer),
                ..self
            }
        } else {
            self
        }
    }

    /// Looking for an end tag: with one, the thinking ends there; without one, as
    /// much is sent as cannot belong to a tag.
    #[verifier::opaque]
    pub open spec fn end_sought(self) -> Step {
        let v = self.newline_stripped();
        let buf = v.thinking_buffer;
        match end_tag(buf) {
            Some(at) => {
                let (w, evs) = v.thinking_finished(buf.take(at));
                (StreamV { thinking_buffer: buf.skip(at + 13), ..w }, evs)
            },
            None => {
                let safe = held_back(buf, 13);
                (
                    StreamV { thinking_buffer: buf.skip(safe), ..v },
                    thought_if_any(v.thinking_index, buf.take(safe)),
                )
            },
        }
    }

    /// What follows the thinking is plain text.
    #[verifier::opaque]
    pub open spec fn rest_sent(self, ids: Draws) -> Step {
        StreamV { thinking_buffer: Seq::empty(), ..self }.text_added(self.thinking_buffer, ids)
    }

    /// Text that may hold thinking: the start tag is sought, then the end tag,
    /// then the rest is sent.
    #[verifier::opaque]
    pub open spec fn content_added(self, content: Seq<char>, ids: Draws) -> Step {
        let v = StreamV { thinking_buffer: self.thinking_buffer + content, ..self };
        let (v, e1) = if !v.in_thinking && !v.extracted {
            v.start_sought(ids)
        } else {
            (v, Seq::empty())
        };
        let (v, e2) = if v.in_thinking {
            v.end_sought()
        } else {
            (v, Seq::empty())
        };
        let (v, e3) = if !v.in_thinking && v.extracted {
            v.rest_sent(ids)
        } else {
            (v, Seq::empty())
        };
        (v, e1 + e2 + e3)
    }

    pub open spec fn thinking_open(self) -> bool {
        match self.thinking_index {
            Some(i) => self.manager.is_open(i, "thinking"@),
            None => false,
        }
    }

    /// An open block of thinking is closed with its signature, or with the
    /// placeholder.
    pub open spec fn thinking_closed(self) -> Step {
        if self.thinking_open() {
            StreamV { signature: None, ..self }.thinking_ended(
                match self.signature {
                    Some(s) => s,
                    None => placeholder_signature(),
                },
            )
        } else {
            (self, Seq::empty())
        }
    }

    /// A block of thinking that the upstream opened itself is closed.
    pub open spec fn native_thinking_closed(self) -> Step {
        if self.in_thinking {
            (self, Seq::empty())
        } else {
            self.thinking_closed()
        }
    }

    /// An open block of text is closed.
    #[verifier::opaque]
    pub open spec fn text_closed(self) -> Step {
        match self.open_text_index() {
            Some(i) => {
                let (m, stop) = self.manager.block_stopped(i);
                (StreamV { manager: m, text_index: None, ..self }, opt_seq(stop))
            },
            None => (StreamV { text_index: None, ..self }, Seq::empty()),
        }
    }

    /// A block of thinking is open from here on.
    #[verifier::opaque]
    pub open spec fn thinking_ensured(self, ids: Draws) -> Step {
        if self.thinking_open() {
            (self, Seq::empty())
        } else {
            let v = StreamV { thinking_buffer: Seq::empty(), ..self };
            let (v, e1) = v.text_added_unless_white(self.thinking_buffer, ids);
            let (v, e2) = v.text_closed();
            let (v, e3) = StreamV { extracted: true, ..v }.thinking_opened();
            (v, e1 + e2 + e3)
        }
    }

    /// Thinking between tags is over though no tag has ended it: what is buffered of it
    /// is sent, but for an end tag behind it, and its block closed.
    #[verifier::opaque]
    pub open spec fn tagged_thinking_ended(self) -> Step {
        let buf = self.thinking_buffer;
        let content = match closing_tag(buf) {
            Some(at) => buf.take(at),
            None => buf,
        };
        let (v, evs) = self.thinking_finished(content);
        (StreamV { thinking_buffer: Seq::empty(), ..v }, evs)
    }

    /// The stream is over within thinking between tags: what is buffered of it is sent
    /// and its block closed. The notes on thinking change only where an end tag stands
    /// behind it; of thinking that was cut off so before, nothing is left to do.
    #[verifier::opaque]
    pub open spec fn tagged_thinking_cut(self) -> Step {
        let (v, evs) = self.tagged_thinking_ended();
        if closing_tag(self.thinking_buffer) is Some {
            (v, evs)
        } else if self.thinking_buffer.len() == 0 && !self.thinking_open() {
            (self, Seq::empty())
        } else {
            (StreamV { in_thinking: self.in_thinking, extracted: self.extracted, ..v }, evs)
        }
    }

    /// Thinking that must not be shown is a block of its own; thinking that is under
    /// way is over then.
    #[verifier::opaque]
    pub open spec fn redacted_sent(self, data: Seq<char>) -> Step {
        let (v, e1) = if self.in_thinking {
            self.tagged_thinking_ended()
        } else {
            self.thinking_closed()
        };
        let (v, e2) = v.text_closed();
        let index = v.manager.next_block_index;
        let (m1, e3) = v.manager.index_taken().block_started(
            index,
            "redacted_thinking"@,
            start_data(index, redacted_block(data)),
        );
        let (m2, stop) = m1.block_stopped(index);
        (StreamV { manager: m2, ..v }, e1 + e2 + e3 + opt_seq(stop))
    }

    pub open spec fn tokens_added(self, n: int) -> StreamV {
        StreamV { output_tokens: sat_add(self.output_tokens, n), ..self }
    }

    /// A text of the answer has arrived.
    #[verifier::opaque]
    pub open spec fn answered(self, content: Seq<char>, ids: Draws) -> Step {
        let scan = xml_scan(self.xml_stripping, self.xml_buffer + content);
        let v = StreamV { xml_buffer: scan.buffer, xml_stripping: scan.stripping, ..self };
        if scan.out.len() == 0 {
            (v, Seq::empty())
        } else {
            let (v, evs) = v.native_thinking_closed();
            let v = v.tokens_added(token_estimate(scan.out));
            followed(
                evs,
                if v.thinking_enabled {
                    v.content_added(scan.out, ids)
                } else {
                    v.text_added(scan.out, ids)
                },
            )
        }
    }

    /// Thinking that the upstream marks as such has arrived.
    #[verifier::opaque]
    pub open spec fn reasoned(
        self,
        text: Option<Seq<char>>,
        signature: Option<Seq<char>>,
        redacted: Option<Seq<char>>,
        ids: Draws,
    ) -> Step {
        if !self.thinking_enabled {
            match text {
                Some(t) => if t.len() == 0 {
                    (self, Seq::empty())
                } else {
                    self.tokens_added(token_estimate(t)).text_added(t, ids)
                },
                None => (self, Seq::empty()),
            }
        } else {
            let v = match signature {
                Some(s) => if s.len() == 0 {
                    self
                } else {
                    StreamV { signature: Some(s), ..self }
                },
                None => self,
            };
            let (v, e1) = match text {
                Some(t) => if t.len() == 0 {
                    (v, Seq::empty())
                } else {
                    let (w, evs) = v.tokens_added(token_estimate(t)).thinking_ensured(ids);
                    (w, evs + thought(w.thinking_index, t))
                },
                None => (v, Seq::empty()),
            };
            match redacted {
                Some(r) => if r.len() == 0 {
                    (v, e1)
                } else {
                    followed(e1, v.tokens_added(8).redacted_sent(r))
                },
                None => (v, e1),
            }
        }
    }

    /// Thinking that is still open ends where an end tag stands at the end of
    /// what is buffered.
    #[verifier::opaque]
    pub open spec fn end_tag_at_end_taken(self, ids: Draws) -> Step {
        match closing_tag(self.thinking_buffer) {
            Some(at) => {
                let buf = self.thinking_buffer;
                let (v, evs) = self.thinking_finished(buf.take(at));
                followed(
                    evs,
                    StreamV { thinking_buffer: Seq::empty(), ..v }.text_added(
                        trimmed_start(buf.skip(at + 11)),
                        ids,
                    ),
                )
            },
            None => (self, Seq::empty()),
        }
    }

    /// The texts that precede a tool call are sent.
    #[verifier::opaque]
    pub open spec fn settled_before_call(self, ids: Draws) -> Step {
        let v = StreamV { manager: ManagerV { has_tool_use: true, ..self.manager }, ..self };
        let (v, e1) = v.native_thinking_closed();
        let (v, e2) = if v.thinking_enabled && v.in_thinking {
            v.end_tag_at_end_taken(ids)
        } else {
            (v, Seq::empty())
        };
        let (v, e3) = if v.thinking_enabled && !v.in_thinking && !v.extracted {
            v.rest_sent(ids)
        } else {
            (v, Seq::empty())
        };
        (v, e1 + e2 + e3)
    }

    /// A fragment of a tool call has arrived.
    #[verifier::opaque]
    pub open spec fn call_fragment(self, f: FragmentV, ids: Draws) -> Step {
        let (v, evs) = self.settled_before_call(ids);
        let (pending, outcome) = pushed(v.pending, f, v.names);
        let v = StreamV { pending, ..v };
        match outcome {
            Ok(Some(call)) => followed(evs, v.call_sent(call)),
            Ok(None) => (v, evs),
            Err(e) => (
                StreamV { tool_error: Some(e), manager: v.manager.with_reason("error"@), ..v },
                evs,
            ),
        }
    }

    /// What an upstream event leads to.
    pub open spec fn processed(self, event: EventV, ids: Draws) -> Step {
        match event {
            EventV::AssistantResponse(content) => self.answered(content, ids),
            EventV::ToolUse(f) => self.call_fragment(f, ids),
            EventV::Reasoning { text, signature, redacted } => self.reasoned(
                text,
                signature,
                redacted,
                ids,
            ),
            EventV::Metadata(usage) => match usage {
                Some(u) => (StreamV { provider_token_usage: Some(u.sane()), ..self }, Seq::empty()),
                None => (self, Seq::empty()),
            },
            EventV::ContextUsage { input_tokens, exceeded } => {
                let v = StreamV { context_input_tokens: Some(input_tokens), ..self };
                if exceeded {
                    (
                        StreamV {
                            manager: v.manager.with_reason("model_context_window_exceeded"@),
                            ..v
                        },
                        Seq::empty(),
                    )
                } else {
                    (v, Seq::empty())
                }
            },
            EventV::Metering(m) => (
                StreamV { metered: self.metered.push(m.usage), metering: Some(m), ..self },
                Seq::empty(),
            ),
            EventV::Exception(kind) => if kind == "ContentLengthExceededException"@ {
                (StreamV { manager: self.manager.with_reason("max_tokens"@), ..self }, Seq::empty())
            } else {
                (self, Seq::empty())
            },
            EventV::Other => (self, Seq::empty()),
        }
    }

    /// What the filter for leaked markup has kept is sent.
    #[verifier::opaque]
    pub open spec fn leftover_sent(self, ids: Draws) -> Step {
        let leftover = xml_stripped(self.xml_buffer);
        let v = StreamV { xml_buffer: Seq::empty(), xml_stripping: false, ..self };
        if leftover.len() == 0 {
            (v, Seq::empty())
        } else if v.thinking_enabled {
            v.content_added(leftover, ids)
        } else {
            v.text_added(leftover, ids)
        }
    }

    /// What is buffered in search of tags is sent.
    #[verifier::opaque]
    pub open spec fn buffer_sent(self, ids: Draws) -> Step {
        if !self.thinking_enabled {
            (self, Seq::empty())
        } else if self.in_thinking {
            self.tagged_thinking_cut()
        } else {
            self.rest_sent(ids)
        }
    }

    /// An answer of thinking alone gets a text and counts as cut off.
    #[verifier::opaque]
    pub open spec fn text_supplied(self, ids: Draws) -> Step {
        if self.thinking_enabled && self.thinking_index is Some
            && !self.manager.has_other_than_thinking() {
            StreamV { manager: self.manager.with_reason("max_tokens"@), ..self }.text_added(
                " "@,
                ids,
            )
        } else {
            (self, Seq::empty())
        }
    }

    /// What is held back as a possible tool call is sent.
    #[verifier::opaque]
    pub open spec fn held_sent(self, ids: Draws) -> Step {
        self.held_drained(true, ids)
    }

    /// Everything that is buffered is sent.
    #[verifier::opaque]
    pub open spec fn flushed(self, ids: Draws) -> Step {
        let (v, e1) = self.leftover_sent(ids);
        let (v, e2) = v.native_thinking_closed();
        let (v, e3) = v.buffer_sent(ids);
        let (v, e4) = v.held_sent(ids);
        let (v, e5) = v.text_supplied(ids);
        (v, e1 + e2 + e3 + e4 + e5)
    }

    /// A tool call that is still pending is an error, unless there is one already.
    pub open spec fn calls_finished(self) -> StreamV {
        if self.tool_error is Some {
            self
        } else {
            let (pending, error) = finished(self.pending);
            match error {
                Some(e) => StreamV {
                    pending,
                    tool_error: Some(e),
                    manager: self.manager.with_reason("error"@),
                    ..self
                },
                None => StreamV { pending, ..self },
            }
        }
    }

    #[verifier::opaque]
    pub open spec fn failed(self, error_type: Seq<char>, message: Seq<char>) -> Step {
        let (v, e1) = self.thinking_closed();
        let (m, e2) = v.manager.failed(error_type, message);
        (StreamV { manager: m, ..v }, e1 + e2)
    }

    /// The stream has ended: everything buffered is sent, then the message ends,
    /// with an error if a tool call could not be read.
    #[verifier::opaque]
    pub open spec fn ended(self, ids: Draws) -> Step {
        let (v, evs) = self.flushed(ids);
        let v = v.calls_finished();
        match v.tool_error {
            Some(e) => followed(evs, v.failed(tool_error_type(), tool_error_message(e))),
            None => {
                let (input, creation, read) = v.usage();
                let usage = Usage {
                    input_tokens: input as i32,
                    output_tokens: v.output() as i32,
                    cache_creation_input_tokens: creation as i32,
                    cache_read_input_tokens: read as i32,
                };
                let (m, end) = v.manager.finished(usage, v.metering);
                (StreamV { manager: m, ..v }, evs + end)
            },
        }
    }
}

} // verus!
