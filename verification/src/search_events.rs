//! The events of an answer that web searches go into.
//!
//! While the searches run, the client is shown each of them; at the end it gets
//! the rest of the content. All of it is one message with one run of indices.
use crate::ids::{fresh_message_id, fresh_short_message_id, is_message_id, is_short_message_id};
use crate::json::{json_parsed, json_printed, Json, JsonV};
use crate::search_content::{
    opt_results, search_result_block, search_result_json, search_use_block, search_use_json, PageV,
    WebSearchResults,
};
use crate::sse::{
    delta_data, delta_json, emit_all, emit_one, emits, error_data, error_event, message_stop_event,
    metered_usage, metered_usage_json, opt_metering, start_data, start_json, stop_event, typed,
    typed_json, usage_data, usage_json, Ev, MeteringEvent, MeteringV, SseEvent, Usage,
};
use crate::stream::jsons;
use crate::stream_model::{input_delta, text_block, text_delta};
use crate::text::{chars_of, join2, same_text};
use crate::tokens::{at_least_zero, not_negative, TokenUsage};
use vstd::prelude::*;

verus! {

/// The text under `key`, or an empty one.
pub open spec fn text_or_empty(block: JsonV, key: Seq<char>) -> Seq<char> {
    match block.text_field(key) {
        Some(t) => t,
        None => ""@,
    }
}

fn text_field_or_empty(block: &Json, key: &str) -> (r: String)
    ensures
        r@ == text_or_empty(block@, key@),
{
    match block.get_text(key) {
        Some(t) => t.clone(),
        None => "".to_owned(),
    }
}

pub open spec fn next_index(i: int) -> int {
    if i < i32::MAX {
        i + 1
    } else {
        i
    }
}

fn index_after(i: i32) -> (r: i32)
    ensures
        r == next_index(i as int),
{
    if i < i32::MAX {
        i + 1
    } else {
        i
    }
}

/// The block that announces a tool call.
pub open spec fn call_start(block: JsonV) -> JsonV {
    typed("tool_use"@).put("id"@, JsonV::Text(text_or_empty(block, "id"@))).put(
        "name"@,
        JsonV::Text(text_or_empty(block, "name"@)),
    ).put("input"@, JsonV::object())
}

/// The input of a tool call, an object without members where there is none.
pub open spec fn call_input(block: JsonV) -> JsonV {
    match block.field("input"@) {
        Some(v) => v,
        None => JsonV::object(),
    }
}

/// The events of a content block: text and tool calls with a delta, searches and
/// their results without; nothing for other blocks.
pub open spec fn block_events(block: JsonV, index: int) -> Seq<Ev> {
    let kind = text_or_empty(block, "type"@);
    if kind == "text"@ {
        seq![
            Ev::BlockStart(index, kind, start_data(index, text_block())),
            Ev::Delta(index, delta_data(index, text_delta(text_or_empty(block, "text"@)))),
            Ev::BlockStop(index),
        ]
    } else if kind == "tool_use"@ {
        seq![
            Ev::BlockStart(index, kind, start_data(index, call_start(block))),
            Ev::Delta(index, delta_data(index, input_delta(json_printed(call_input(block))))),
            Ev::BlockStop(index),
        ]
    } else if kind == "server_tool_use"@ || kind == "web_search_tool_result"@ {
        seq![Ev::BlockStart(index, kind, start_data(index, block)), Ev::BlockStop(index)]
    } else {
        Seq::empty()
    }
}

/// The events of the first `n` content blocks, numbered from `from`, and the
/// index that follows.
pub open spec fn content_events(content: Seq<JsonV>, from: int, n: int) -> (Seq<Ev>, int)
    decreases n,
{
    if n <= 0 {
        (Seq::empty(), from)
    } else {
        let (evs, index) = content_events(content, from, n - 1);
        let more = block_events(content[n - 1], index);
        (
            evs + more,
            if more.len() == 0 {
                index
            } else {
                next_index(index)
            },
        )
    }
}

fn block_event_list(block: &Json, index: i32) -> (r: Vec<SseEvent>)
    ensures
        emits(r@, block_events(block@, index as int)),
{
    let kind = text_field_or_empty(block, "type");
    let mut events: Vec<SseEvent> = Vec::new();
    if same_text(kind.as_str(), "text") {
        let text = text_field_or_empty(block, "text");
        let start = typed_json("text").with("text", Json::text(""));
        events.push(SseEvent::new("content_block_start", start_json(index, start)));
        let delta = typed_json("text_delta").with("text", Json::text(text.as_str()));
        events.push(SseEvent::new("content_block_delta", delta_json(index, delta)));
        events.push(stop_event(index));
    } else if same_text(kind.as_str(), "tool_use") {
        let id = text_field_or_empty(block, "id");
        let name = text_field_or_empty(block, "name");
        let input = match block.get("input") {
            Some(v) => v.to_text(),
            None => Json::object().to_text(),
        };
        let start = typed_json("tool_use").with("id", Json::text(id.as_str())).with(
            "name",
            Json::text(name.as_str()),
        ).with("input", Json::object());
        events.push(SseEvent::new("content_block_start", start_json(index, start)));
        let delta = typed_json("input_json_delta").with("partial_json", Json::text(input.as_str()));
        events.push(SseEvent::new("content_block_delta", delta_json(index, delta)));
        events.push(stop_event(index));
    } else if same_text(kind.as_str(), "server_tool_use") || same_text(
        kind.as_str(),
        "web_search_tool_result",
    ) {
        events.push(SseEvent::new("content_block_start", start_json(index, block.copy())));
        events.push(stop_event(index));
    }
    events
}

/// The events of content blocks, numbered from `start_index`, and the index that
/// follows.
pub fn build_sse_content_events(content: &Vec<Json>, start_index: i32) -> (r: (Vec<SseEvent>, i32))
    ensures
        emits(r.0@, content_events(jsons(content@), start_index as int, content@.len() as int).0),
        r.1 == content_events(jsons(content@), start_index as int, content@.len() as int).1,
{
    let ghost all = jsons(content@);
    let mut events: Vec<SseEvent> = Vec::new();
    let mut index: i32 = start_index;
    let mut i: usize = 0;
    while i < content.len()
        invariant
            i <= content@.len(),
            all == jsons(content@),
            emits(events@, content_events(all, start_index as int, i as int).0),
            index == content_events(all, start_index as int, i as int).1,
        decreases content.len() - i,
    {
        assert(all[i as int] == content@[i as int]@);
        let more = block_event_list(&content[i], index);
        let any = more.len() > 0;
        emit_all(
            &mut events,
            more,
            Ghost(content_events(all, start_index as int, i as int).0),
            Ghost(block_events(all[i as int], index as int)),
        );
        if any {
            index = index_after(index);
        }
        i = i + 1;
    }
    (events, index)
}

/// The counts of a provider in the form that the client gets.
pub open spec fn client_usage(u: TokenUsage) -> Usage {
    Usage {
        input_tokens: u.sane().uncached_input_tokens,
        output_tokens: u.sane().output_tokens,
        cache_creation_input_tokens: u.sane().cache_write_input_tokens,
        cache_read_input_tokens: u.sane().cache_read_input_tokens,
    }
}

pub fn to_client_usage(u: TokenUsage) -> (r: Usage)
    ensures
        r == client_usage(u),
{
    let u = u.sanitized();
    Usage {
        input_tokens: u.uncached_input_tokens,
        output_tokens: u.output_tokens,
        cache_creation_input_tokens: u.cache_write_input_tokens,
        cache_read_input_tokens: u.cache_read_input_tokens,
    }
}

/// The data of the event that opens the message.
pub open spec fn opening_data(id: Seq<char>, model: Seq<char>, usage: Usage) -> JsonV {
    typed("message_start"@).put(
        "message"@,
        JsonV::object().put("id"@, JsonV::Text(id)).put("type"@, JsonV::Text("message"@)).put(
            "role"@,
            JsonV::Text("assistant"@),
        ).put("model"@, JsonV::Text(model)).put("content"@, JsonV::Array(Seq::empty())).put(
            "stop_reason"@,
            JsonV::Null,
        ).put("stop_sequence"@, JsonV::Null).put("usage"@, usage_data(usage)),
    )
}

/// The event that opens the message `id`.
pub fn opening_event(id: &str, model: &str, usage: Usage) -> (r: SseEvent)
    ensures
        r@ == Ev::MessageStart(opening_data(id@, model@, usage)).render(),
{
    let content = Json::array(Vec::new());
    assert(content@->Array_0 =~= Seq::<JsonV>::empty());
    let message = Json::object().with("id", Json::text(id)).with("type", Json::text("message")).with(
        "role",
        Json::text("assistant"),
    ).with("model", Json::text(model)).with("content", content).with("stop_reason", Json::Null).with(
        "stop_sequence",
        Json::Null,
    ).with("usage", usage_json(usage));
    SseEvent::new("message_start", typed_json("message_start").with("message", message))
}

pub open spec fn opening_usage(input_tokens: i32) -> Usage {
    Usage {
        input_tokens: not_negative(input_tokens as int) as i32,
        output_tokens: 0,
        cache_creation_input_tokens: 0,
        cache_read_input_tokens: 0,
    }
}

/// The event that opens a message with searches, under a fresh identifier.
pub fn initial_stream_event(model: &str, input_tokens: i32) -> (r: SseEvent)
    ensures
        exists|id: Seq<char>|
            is_short_message_id(id) && r@ == Ev::MessageStart(
                #[trigger] opening_data(id, model@, opening_usage(input_tokens)),
            ).render(),
{
    let id = fresh_short_message_id();
    let usage = Usage {
        input_tokens: at_least_zero(input_tokens),
        output_tokens: 0,
        cache_creation_input_tokens: 0,
        cache_read_input_tokens: 0,
    };
    let event = opening_event(id.as_str(), model, usage);
    assert(event@ == Ev::MessageStart(
        opening_data(id@, model@, opening_usage(input_tokens)),
    ).render());
    event
}

/// The data of the event that closes the message.
pub open spec fn closing_data(stop_reason: Seq<char>, usage: JsonV) -> JsonV {
    typed("message_delta"@).put(
        "delta"@,
        JsonV::object().put("stop_reason"@, JsonV::Text(stop_reason)),
    ).put("usage"@, usage)
}

fn closing_json(stop_reason: &str, usage: Json) -> (r: Json)
    ensures
        r@ == closing_data(stop_reason@, usage@),
{
    typed_json("message_delta").with(
        "delta",
        Json::object().with("stop_reason", Json::text(stop_reason)),
    ).with("usage", usage)
}

/// The output count, with the cost where the upstream reported it.
pub open spec fn output_usage(output_tokens: i32, m: Option<MeteringV>) -> JsonV {
    let usage = JsonV::object().put("output_tokens"@, JsonV::of_int(output_tokens as i64));
    match m {
        Some(x) => usage.put("credit_usage"@, x.usage).put("credit_unit"@, JsonV::Text(x.unit)).put(
            "credit_unit_plural"@,
            JsonV::Text(x.unit_plural),
        ),
        None => usage,
    }
}

fn output_usage_json(output_tokens: i32, m: &Option<MeteringEvent>) -> (r: Json)
    ensures
        r@ == output_usage(output_tokens, opt_metering(*m)),
{
    let usage = Json::object().with("output_tokens", Json::of_int(output_tokens as i64));
    match m {
        Some(x) => usage.with("credit_usage", x.usage.copy()).with(
            "credit_unit",
            Json::text(x.unit.as_str()),
        ).with("credit_unit_plural", Json::text(x.unit_plural.as_str())),
        None => usage,
    }
}

/// The events of a complete message.
pub open spec fn message_events(
    id: Seq<char>,
    model: Seq<char>,
    content: Seq<JsonV>,
    stop_reason: Seq<char>,
    usage: TokenUsage,
    metering: Option<MeteringV>,
) -> Seq<Ev> {
    let opening = Usage { output_tokens: 0, ..client_usage(usage) };
    seq![Ev::MessageStart(opening_data(id, model, opening))] + content_events(
        content,
        0,
        content.len() as int,
    ).0 + seq![
        Ev::MessageDelta(
            closing_data(stop_reason, output_usage(client_usage(usage).output_tokens, metering)),
        ),
        Ev::MessageStop,
    ]
}

/// The events of a complete message `id`.
pub fn sse_events_of(
    id: &str,
    model: &str,
    content: &Vec<Json>,
    stop_reason: &str,
    token_usage: TokenUsage,
    metering: &Option<MeteringEvent>,
) -> (r: Vec<SseEvent>)
    ensures
        emits(
            r@,
            message_events(
                id@,
                model@,
                jsons(content@),
                stop_reason@,
                token_usage,
                opt_metering(*metering),
            ),
        ),
{
    let usage = to_client_usage(token_usage);
    let opening = Usage { output_tokens: 0, ..usage };
    let mut events: Vec<SseEvent> = Vec::new();
    let ghost first = seq![Ev::MessageStart(opening_data(id@, model@, opening))];
    events.push(opening_event(id, model, opening));
    let (more, _) = build_sse_content_events(content, 0);
    let ghost e1 = content_events(jsons(content@), 0, content@.len() as int).0;
    emit_all(&mut events, more, Ghost(first), Ghost(e1));
    let delta = closing_json(stop_reason, output_usage_json(usage.output_tokens, metering));
    let mut last: Vec<SseEvent> = Vec::new();
    last.push(SseEvent::new("message_delta", delta));
    last.push(message_stop_event());
    let ghost e2 = seq![
        Ev::MessageDelta(
            closing_data(stop_reason@, output_usage(usage.output_tokens, opt_metering(*metering))),
        ),
        Ev::MessageStop,
    ];
    emit_all(&mut events, last, Ghost(first + e1), Ghost(e2));
    assert(content@.len() == jsons(content@).len());
    events
}

/// The events of a complete message, under a fresh identifier.
pub fn build_sse_events(
    model: &str,
    content: &Vec<Json>,
    stop_reason: &str,
    token_usage: TokenUsage,
    metering: &Option<MeteringEvent>,
) -> (r: Vec<SseEvent>)
    ensures
        exists|id: Seq<char>|
            is_short_message_id(id) && emits(
                r@,
                #[trigger] message_events(
                    id,
                    model@,
                    jsons(content@),
                    stop_reason@,
                    token_usage,
                    opt_metering(*metering),
                ),
            ),
{
    let id = fresh_short_message_id();
    sse_events_of(id.as_str(), model, content, stop_reason, token_usage, metering)
}

/// A complete message as one value.
pub open spec fn message_body(
    id: Seq<char>,
    model: Seq<char>,
    content: Seq<JsonV>,
    stop_reason: Seq<char>,
    usage: TokenUsage,
    thinking: Seq<char>,
    metering: Option<MeteringV>,
) -> JsonV {
    let body = JsonV::object().put("id"@, JsonV::Text(id)).put("type"@, JsonV::Text("message"@)).put(
        "role"@,
        JsonV::Text("assistant"@),
    ).put("content"@, JsonV::Array(content)).put("model"@, JsonV::Text(model)).put(
        "stop_reason"@,
        JsonV::Text(stop_reason),
    ).put("stop_sequence"@, JsonV::Null).put(
        "usage"@,
        metered_usage(client_usage(usage), metering),
    );
    if thinking.len() == 0 {
        body
    } else {
        body.put("kiro_thinking"@, JsonV::Text(thinking))
    }
}

/// The complete message `id` as one value.
pub fn message_json(
    id: &str,
    model: &str,
    content: Vec<Json>,
    stop_reason: &str,
    token_usage: TokenUsage,
    thinking: &str,
    metering: &Option<MeteringEvent>,
) -> (r: Json)
    ensures
        r@ == message_body(
            id@,
            model@,
            jsons(content@),
            stop_reason@,
            token_usage,
            thinking@,
            opt_metering(*metering),
        ),
{
    let ghost all = jsons(content@);
    let items = Json::array(content);
    assert(items@->Array_0 =~= all);
    let body = Json::object().with("id", Json::text(id)).with("type", Json::text("message")).with(
        "role",
        Json::text("assistant"),
    ).with("content", items).with("model", Json::text(model)).with(
        "stop_reason",
        Json::text(stop_reason),
    ).with("stop_sequence", Json::Null).with(
        "usage",
        metered_usage_json(to_client_usage(token_usage), metering),
    );
    if chars_of(thinking).len() == 0 {
        body
    } else {
        body.with("kiro_thinking", Json::text(thinking))
    }
}

/// A complete message as one value, under a fresh identifier.
pub fn render_json(
    model: &str,
    content: Vec<Json>,
    stop_reason: &str,
    token_usage: TokenUsage,
    thinking: &str,
    metering: &Option<MeteringEvent>,
) -> (r: Json)
    ensures
        exists|id: Seq<char>|
            is_message_id(id) && r@ == #[trigger] message_body(
                id,
                model@,
                jsons(content@),
                stop_reason@,
                token_usage,
                thinking@,
                opt_metering(*metering),
            ),
{
    let id = fresh_message_id();
    message_json(id.as_str(), model, content, stop_reason, token_usage, thinking, metering)
}

/// A block shows a search that the client has been shown before.
pub open spec fn is_presentation(block: JsonV) -> bool {
    block.text_field("type"@) == Some("server_tool_use"@) || block.text_field("type"@) == Some(
        "web_search_tool_result"@,
    )
}

/// The first `n` blocks without those that show searches.
pub open spec fn without_presentation(content: Seq<JsonV>, n: int) -> Seq<JsonV>
    decreases n,
{
    if n <= 0 {
        Seq::empty()
    } else {
        let before = without_presentation(content, n - 1);
        if is_presentation(content[n - 1]) {
            before
        } else {
            before.push(content[n - 1])
        }
    }
}

/// The content without the blocks that show searches.
pub fn without_web_search_presentation(content: &Vec<Json>) -> (r: Vec<Json>)
    ensures
        jsons(r@) == without_presentation(jsons(content@), content@.len() as int),
{
    let ghost all = jsons(content@);
    let mut out: Vec<Json> = Vec::new();
    let mut i: usize = 0;
    assert(jsons(out@) =~= without_presentation(all, 0));
    while i < content.len()
        invariant
            i <= content@.len(),
            all == jsons(content@),
            jsons(out@) == without_presentation(all, i as int),
        decreases content.len() - i,
    {
        let shown = match content[i].get_text("type") {
            Some(t) => same_text(t.as_str(), "server_tool_use") || same_text(
                t.as_str(),
                "web_search_tool_result",
            ),
            None => false,
        };
        assert(all[i as int] == content@[i as int]@);
        if !shown {
            let ghost before = jsons(out@);
            let block = content[i].copy();
            out.push(block);
            assert(jsons(out@) =~= before.push(block@));
        }
        i = i + 1;
    }
    out
}

/// The type and the text of the error that a response reports.
pub open spec fn error_details(body: JsonV, status: Seq<char>) -> (Seq<char>, Seq<char>) {
    let error = match body.field("error"@) {
        Some(e) => e,
        None => JsonV::Null,
    };
    (
        match error.text_field("type"@) {
            Some(t) => t,
            None => "api_error"@,
        },
        match error.text_field("message"@) {
            Some(m) => m,
            None => "web_search agentic loop failed with HTTP "@ + status,
        },
    )
}

/// The value of a body; `null` where it is not valid JSON.
pub open spec fn body_value(body: Seq<char>) -> JsonV {
    match json_parsed(body) {
        Ok(v) => v,
        Err(_) => JsonV::Null,
    }
}

/// The type and the text of the error that a value reports.
pub fn reported_error(value: &Json, status: &str) -> (r: (String, String))
    ensures
        (r.0@, r.1@) == error_details(value@, status@),
{
    let none = Json::Null;
    let error = match value.get("error") {
        Some(e) => e,
        None => &none,
    };
    let error_type = match error.get_text("type") {
        Some(t) => t.clone(),
        None => "api_error".to_owned(),
    };
    let message = match error.get_text("message") {
        Some(m) => m.clone(),
        None => join2("web_search agentic loop failed with HTTP ", status),
    };
    (error_type, message)
}

/// The type and the text of the error that a response body reports.
pub fn response_error_details(body: &str, status: &str) -> (r: (String, String))
    ensures
        (r.0@, r.1@) == error_details(body_value(body@), status@),
{
    match Json::parse(body) {
        Ok(v) => reported_error(&v, status),
        Err(_) => reported_error(&Json::Null, status),
    }
}

/// What has been shown of a message with searches.
pub ghost struct EmitterV {
    pub next_index: int,
    pub active: Seq<int>,
    pub terminal: bool,
}

/// A search block that is open.
pub struct PendingWebSearch {
    pub block_index: i32,
}

/// Shows searches as they run, and the rest of the content at the end.
pub struct WebSearchSseEmitter {
    pub next_block_index: i32,
    pub active_blocks: Vec<i32>,
    pub terminal: bool,
}

impl View for WebSearchSseEmitter {
    type V = EmitterV;

    open spec fn view(&self) -> EmitterV {
        EmitterV {
            next_index: self.next_block_index as int,
            active: Seq::new(self.active_blocks@.len(), |i: int| self.active_blocks@[i] as int),
            terminal: self.terminal,
        }
    }
}

/// The indices without `i`.
pub open spec fn indices_without(s: Seq<int>, i: int) -> Seq<int>
    decreases s.len(),
{
    if s.len() == 0 {
        s
    } else {
        let before = indices_without(s.drop_last(), i);
        if s.last() == i {
            before
        } else {
            before.push(s.last())
        }
    }
}

/// The events that stop the blocks, in their order.
pub open spec fn stops(s: Seq<int>) -> Seq<Ev> {
    Seq::new(s.len(), |i: int| Ev::BlockStop(s[i]))
}

/// The first event with the thinking attached.
pub open spec fn thinking_attached(evs: Seq<Ev>, thinking: Seq<char>) -> Seq<Ev> {
    if thinking.len() == 0 || evs.len() == 0 {
        evs
    } else {
        evs.update(
            0,
            match evs[0] {
                Ev::BlockStart(i, kind, data) => Ev::BlockStart(
                    i,
                    kind,
                    data.put("kiro_thinking"@, JsonV::Text(thinking)),
                ),
                other => other,
            },
        )
    }
}

impl EmitterV {
    pub open spec fn fresh() -> EmitterV {
        EmitterV { next_index: 0, active: Seq::empty(), terminal: false }
    }

    /// A search begins: its block is announced.
    pub open spec fn begun(self, id: Seq<char>, query: Seq<char>) -> (EmitterV, Seq<Ev>) {
        let i = self.next_index;
        (
            EmitterV { next_index: next_index(i), active: self.active.push(i), ..self },
            seq![Ev::BlockStart(i, "server_tool_use"@, start_data(i, search_use_block(id, query)))],
        )
    }

    /// A search has failed: its block stops.
    pub open spec fn aborted(self, i: int) -> (EmitterV, Seq<Ev>) {
        (EmitterV { active: indices_without(self.active, i), ..self }, seq![Ev::BlockStop(i)])
    }

    /// A search is over: its block stops, and what it found is shown.
    pub open spec fn completed(self, i: int, results: Option<Seq<PageV>>) -> (EmitterV, Seq<Ev>) {
        let j = self.next_index;
        (
            EmitterV {
                next_index: next_index(j),
                active: indices_without(self.active, i),
                ..self
            },
            seq![
                Ev::BlockStop(i),
                Ev::BlockStart(
                    j,
                    "web_search_tool_result"@,
                    start_data(j, search_result_block(results)),
                ),
                Ev::BlockStop(j),
            ],
        )
    }

    /// The rest of the content, the counts and the end.
    pub open spec fn finished(
        self,
        content: Seq<JsonV>,
        stop_reason: Seq<char>,
        usage: TokenUsage,
        thinking: Seq<char>,
        metering: Option<MeteringV>,
    ) -> (EmitterV, Seq<Ev>) {
        let rest = without_presentation(content, content.len() as int);
        let (evs, next) = content_events(rest, self.next_index, rest.len() as int);
        let closing = closing_data(stop_reason, metered_usage(client_usage(usage), metering));
        (
            EmitterV { next_index: next, terminal: true, ..self },
            thinking_attached(evs, thinking) + seq![
                Ev::MessageDelta(
                    if evs.len() == 0 && thinking.len() > 0 {
                        closing.put("kiro_thinking"@, JsonV::Text(thinking))
                    } else {
                        closing
                    },
                ),
                Ev::MessageStop,
            ],
        )
    }

    /// A failure, unless the message has ended: what is open stops, and the error
    /// is reported.
    pub open spec fn failed(self, error_type: Seq<char>, message: Seq<char>) -> (
        EmitterV,
        Seq<Ev>,
    ) {
        if self.terminal {
            (self, Seq::empty())
        } else {
            (
                EmitterV { active: Seq::empty(), terminal: true, ..self },
                stops(self.active).push(Ev::Error(error_data(error_type, message))),
            )
        }
    }
}

impl WebSearchSseEmitter {
    pub fn new() -> (r: Self)
        ensures
            r@ == EmitterV::fresh(),
    {
        let r = WebSearchSseEmitter {
            next_block_index: 0,
            active_blocks: Vec::new(),
            terminal: false,
        };
        assert(r@.active =~= Seq::<int>::empty());
        r
    }

    fn deactivate(&mut self, index: i32)
        ensures
            final(self)@ == (EmitterV {
                active: indices_without(old(self)@.active, index as int),
                ..old(self)@
            }),
    {
        let ghost all = self@.active;
        let mut out: Vec<i32> = Vec::new();
        let mut i: usize = 0;
        assert(Seq::new(out@.len(), |k: int| out@[k] as int) =~= indices_without(
            all.take(0),
            index as int,
        ));
        while i < self.active_blocks.len()
            invariant
                i <= self.active_blocks@.len(),
                *self == *old(self),
                all == self@.active,
                Seq::new(out@.len(), |k: int| out@[k] as int) == indices_without(
                    all.take(i as int),
                    index as int,
                ),
            decreases self.active_blocks.len() - i,
        {
            assert(all.take(i + 1).drop_last() =~= all.take(i as int));
            let ghost before = Seq::new(out@.len(), |k: int| out@[k] as int);
            let b: i32 = self.active_blocks[i];
            assert(all[i as int] == b);
            if b != index {
                out.push(b);
                assert(Seq::new(out@.len(), |k: int| out@[k] as int) =~= before.push(b as int));
            }
            i = i + 1;
        }
        assert(all.take(i as int) =~= all);
        self.active_blocks = out;
        assert(self@.active =~= indices_without(all, index as int));
    }

    /// Shows that a search begins.
    pub fn begin_search(&mut self, id: &str, query: &str) -> (r: (PendingWebSearch, Vec<SseEvent>))
        ensures
            final(self)@ == old(self)@.begun(id@, query@).0,
            emits(r.1@, old(self)@.begun(id@, query@).1),
            r.0.block_index == old(self)@.next_index,
    {
        let index: i32 = self.next_block_index;
        self.next_block_index = index_after(index);
        self.active_blocks.push(index);
        assert(self@.active =~= old(self)@.active.push(index as int));
        let mut events: Vec<SseEvent> = Vec::new();
        events.push(
            SseEvent::new("content_block_start", start_json(index, search_use_json(id, query))),
        );
        (PendingWebSearch { block_index: index }, events)
    }

    /// Stops the block of a search that has failed.
    pub fn abort_search(&mut self, pending: PendingWebSearch) -> (r: Vec<SseEvent>)
        ensures
            final(self)@ == old(self)@.aborted(pending.block_index as int).0,
            emits(r@, old(self)@.aborted(pending.block_index as int).1),
    {
        self.deactivate(pending.block_index);
        let mut events: Vec<SseEvent> = Vec::new();
        events.push(stop_event(pending.block_index));
        events
    }

    /// Stops the block of a search and shows what it found.
    pub fn complete_search(
        &mut self,
        pending: PendingWebSearch,
        results: &Option<WebSearchResults>,
    ) -> (r: Vec<SseEvent>)
        ensures
            final(self)@ == old(self)@.completed(
                pending.block_index as int,
                opt_results(*results),
            ).0,
            emits(
                r@,
                old(self)@.completed(pending.block_index as int, opt_results(*results)).1,
            ),
    {
        self.deactivate(pending.block_index);
        let index: i32 = self.next_block_index;
        self.next_block_index = index_after(index);
        let mut events: Vec<SseEvent> = Vec::new();
        events.push(stop_event(pending.block_index));
        events.push(
            SseEvent::new("content_block_start", start_json(index, search_result_json(results))),
        );
        events.push(stop_event(index));
        events
    }

    /// Sends the rest of the content and ends the message.
    pub fn finish(
        &mut self,
        content: &Vec<Json>,
        stop_reason: &str,
        token_usage: TokenUsage,
        thinking: &str,
        metering: &Option<MeteringEvent>,
    ) -> (r: Vec<SseEvent>)
        ensures
            ({
                let s = old(self)@.finished(
                    jsons(content@),
                    stop_reason@,
                    token_usage,
                    thinking@,
                    opt_metering(*metering),
                );
                final(self)@ == s.0 && emits(r@, s.1)
            }),
    {
        let rest = without_web_search_presentation(content);
        let ghost all = without_presentation(jsons(content@), content@.len() as int);
        let (mut events, next) = build_sse_content_events(&rest, self.next_block_index);
        let ghost evs = content_events(all, self@.next_index, all.len() as int).0;
        assert(rest@.len() == all.len()) by {
            assert(jsons(rest@).len() == all.len());
        }
        self.next_block_index = next;
        let thinks = chars_of(thinking).len() > 0;
        let attached = thinks && events.len() > 0;
        if attached {
            let data = events[0].data.copy().with("kiro_thinking", Json::text(thinking));
            let event = events[0].event.clone();
            let ghost first = events@[0];
            proof {
                lemma_first_is_start(all, old(self)@.next_index, all.len() as int);
            }
            events.set(0, SseEvent { event, data });
        }
        assert(emits(events@, thinking_attached(evs, thinking@)));
        let usage = metered_usage_json(to_client_usage(token_usage), metering);
        let mut delta = closing_json(stop_reason, usage);
        if thinks && !attached {
            delta = delta.with("kiro_thinking", Json::text(thinking));
        }
        let mut last: Vec<SseEvent> = Vec::new();
        let ghost data = delta@;
        last.push(SseEvent::new("message_delta", delta));
        last.push(message_stop_event());
        let ghost ending = seq![Ev::MessageDelta(data), Ev::MessageStop];
        emit_all(&mut events, last, Ghost(thinking_attached(evs, thinking@)), Ghost(ending));
        self.terminal = true;
        events
    }

    /// Ends the message with an error, once.
    pub fn fail(&mut self, error_type: &str, message: &str) -> (r: Vec<SseEvent>)
        ensures
            final(self)@ == old(self)@.failed(error_type@, message@).0,
            emits(r@, old(self)@.failed(error_type@, message@).1),
    {
        let mut events: Vec<SseEvent> = Vec::new();
        if self.terminal {
            return events;
        }
        let ghost all = self@.active;
        let mut i: usize = 0;
        while i < self.active_blocks.len()
            invariant
                i <= self.active_blocks@.len(),
                *self == *old(self),
                all == self@.active,
                emits(events@, stops(all.take(i as int))),
            decreases self.active_blocks.len() - i,
        {
            let b: i32 = self.active_blocks[i];
            emit_one(
                &mut events,
                stop_event(b),
                Ghost(stops(all.take(i as int))),
                Ghost(Ev::BlockStop(b as int)),
            );
            assert(stops(all.take(i + 1)) =~= stops(all.take(i as int)).push(
                Ev::BlockStop(b as int),
            ));
            i = i + 1;
        }
        assert(all.take(i as int) =~= all);
        self.active_blocks = Vec::new();
        assert(self@.active =~= Seq::<int>::empty());
        self.terminal = true;
        emit_one(
            &mut events,
            error_event(error_type, message),
            Ghost(stops(all)),
            Ghost(Ev::Error(error_data(error_type@, message@))),
        );
        events
    }
}

/// The first event of some content, if there is any, announces a block.
proof fn lemma_first_is_start(content: Seq<JsonV>, from: int, n: int)
    ensures
        content_events(content, from, n).0.len() > 0 ==> content_events(content, from, n).0[0]
            is BlockStart,
    decreases n,
{
    if n > 0 {
        lemma_first_is_start(content, from, n - 1);
    }
}

} // verus!
