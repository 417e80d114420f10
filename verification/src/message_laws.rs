//! Laws on the events and messages that the client gets, member by member.
use crate::json::{int_number, json_printed, JsonV};
use crate::search_events::{
    block_events, client_usage, content_events, error_details, is_presentation, message_body,
    message_events, next_index, opening_data, opening_usage, output_usage, stops, thinking_attached,
    without_presentation, EmitterV,
};
use crate::search_content::PageV;
use crate::sse::{
    delta_data, error_data, message_delta_data, metered_usage, start_data, usage_data, Ev,
    MeteringV, SseV, Usage,
};
use crate::stream_model::{
    input_delta, redacted_block, signature_delta, text_block, text_delta, thinking_block,
    thinking_delta, tool_block, StreamV,
};
use crate::tokens::TokenUsage;
use crate::tool_json::CallV;
use vstd::prelude::*;

verus! {

/// A whole number.
pub open spec fn number(n: int) -> JsonV {
    JsonV::Number(int_number(n as i64))
}

/// An object with the members that say which block of the message an event concerns.
pub open spec fn block_event(kind: Seq<char>, index: int) -> Map<Seq<char>, JsonV> {
    map!["type"@ => JsonV::Text(kind), "index"@ => number(index)]
}

/// Each event goes out under its own name; one that concerns a block says which, and holds
/// the block that starts or the delta that is added to it.
pub proof fn events_say_what_they_concern(
    index: int,
    kind: Seq<char>,
    block: JsonV,
    delta: JsonV,
    data: JsonV,
    error_type: Seq<char>,
    message: Seq<char>,
)
    ensures
        Ev::BlockStart(index, kind, start_data(index, block)).render() == (SseV {
            event: "content_block_start"@,
            data: JsonV::Object(
                block_event("content_block_start"@, index).insert("content_block"@, block),
            ),
        }),
        Ev::Delta(index, delta_data(index, delta)).render() == (SseV {
            event: "content_block_delta"@,
            data: JsonV::Object(block_event("content_block_delta"@, index).insert("delta"@, delta)),
        }),
        Ev::BlockStop(index).render() == (SseV {
            event: "content_block_stop"@,
            data: JsonV::Object(block_event("content_block_stop"@, index)),
        }),
        Ev::MessageStart(data).render() == (SseV { event: "message_start"@, data }),
        Ev::MessageDelta(data).render() == (SseV { event: "message_delta"@, data }),
        Ev::MessageStop.render() == (SseV {
            event: "message_stop"@,
            data: JsonV::Object(map!["type"@ => JsonV::Text("message_stop"@)]),
        }),
        Ev::Error(error_data(error_type, message)).render() == (SseV {
            event: "error"@,
            data: JsonV::Object(
                map![
                    "type"@ => JsonV::Text("error"@),
                    "error"@ => JsonV::Object(
                        map![
                            "type"@ => JsonV::Text(error_type),
                            "message"@ => JsonV::Text(message),
                        ],
                    ),
                ],
            ),
        }),
{
}

/// Blocks start empty, but for the name and the identifier of a call and for thinking that
/// must not be shown; deltas hold the text that is added, character for character.
pub proof fn blocks_and_deltas_hold_what_they_are_given(
    text: Seq<char>,
    call: CallV,
)
    ensures
        text_block() == JsonV::Object(
            map!["type"@ => JsonV::Text("text"@), "text"@ => JsonV::Text(""@)],
        ),
        thinking_block() == JsonV::Object(
            map!["type"@ => JsonV::Text("thinking"@), "thinking"@ => JsonV::Text(""@)],
        ),
        redacted_block(text) == JsonV::Object(
            map!["type"@ => JsonV::Text("redacted_thinking"@), "data"@ => JsonV::Text(text)],
        ),
        tool_block(call) == JsonV::Object(
            map![
                "type"@ => JsonV::Text("tool_use"@),
                "id"@ => JsonV::Text(call.id),
                "name"@ => JsonV::Text(call.name),
                "input"@ => JsonV::Object(Map::empty()),
            ],
        ),
        text_delta(text) == JsonV::Object(
            map!["type"@ => JsonV::Text("text_delta"@), "text"@ => JsonV::Text(text)],
        ),
        thinking_delta(text) == JsonV::Object(
            map!["type"@ => JsonV::Text("thinking_delta"@), "thinking"@ => JsonV::Text(text)],
        ),
        signature_delta(text) == JsonV::Object(
            map!["type"@ => JsonV::Text("signature_delta"@), "signature"@ => JsonV::Text(text)],
        ),
        input_delta(text) == JsonV::Object(
            map![
                "type"@ => JsonV::Text("input_json_delta"@),
                "partial_json"@ => JsonV::Text(text),
            ],
        ),
{
}

/// The members of the four counts.
pub open spec fn counts(u: Usage) -> Map<Seq<char>, JsonV> {
    map![
        "input_tokens"@ => number(u.input_tokens as int),
        "output_tokens"@ => number(u.output_tokens as int),
        "cache_creation_input_tokens"@ => number(u.cache_creation_input_tokens as int),
        "cache_read_input_tokens"@ => number(u.cache_read_input_tokens as int),
    ]
}

/// The members of the cost, where the upstream reported it.
pub open spec fn with_cost(
    members: Map<Seq<char>, JsonV>,
    m: Option<MeteringV>,
) -> Map<Seq<char>, JsonV> {
    match m {
        Some(x) => members.insert("credit_usage"@, x.usage).insert(
            "credit_unit"@,
            JsonV::Text(x.unit),
        ).insert("credit_unit_plural"@, JsonV::Text(x.unit_plural)),
        None => members,
    }
}

/// The larger of a figure and zero.
pub open spec fn floored(n: i32) -> i32 {
    if n < 0 {
        0
    } else {
        n
    }
}

/// The client is told each count under its own name, and the cost that the upstream
/// reported.
pub proof fn counts_and_cost_are_told_by_name(
    u: Usage,
    m: Option<MeteringV>,
    reason: Seq<char>,
    figures: TokenUsage,
    output: i32,
    input: i32,
)
    ensures
        usage_data(u) == JsonV::Object(counts(u)),
        metered_usage(u, m) == JsonV::Object(with_cost(counts(u), m)),
        output_usage(output, m) == JsonV::Object(
            with_cost(map!["output_tokens"@ => number(output as int)], m),
        ),
        message_delta_data(reason, metered_usage(u, m)) == JsonV::Object(
            map![
                "type"@ => JsonV::Text("message_delta"@),
                "delta"@ => JsonV::Object(
                    map![
                        "stop_reason"@ => JsonV::Text(reason),
                        "stop_sequence"@ => JsonV::Null,
                    ],
                ),
                "usage"@ => JsonV::Object(with_cost(counts(u), m)),
            ],
        ),
        client_usage(figures) == (Usage {
            input_tokens: floored(figures.uncached_input_tokens),
            output_tokens: floored(figures.output_tokens),
            cache_creation_input_tokens: floored(figures.cache_write_input_tokens),
            cache_read_input_tokens: floored(figures.cache_read_input_tokens),
        }),
        opening_usage(input) == (Usage {
            input_tokens: floored(input),
            output_tokens: 0,
            cache_creation_input_tokens: 0,
            cache_read_input_tokens: 0,
        }),
{
}

/// A message opens with its identifier, its model and what is known of its input, and
/// without content and reason to stop.
pub proof fn a_message_opens_with_its_identity(
    v: StreamV,
    id: Seq<char>,
    model: Seq<char>,
    usage: Usage,
)
    ensures
        opening_data(id, model, usage) == JsonV::Object(
            map![
                "type"@ => JsonV::Text("message_start"@),
                "message"@ => JsonV::Object(
                    map![
                        "id"@ => JsonV::Text(id),
                        "type"@ => JsonV::Text("message"@),
                        "role"@ => JsonV::Text("assistant"@),
                        "model"@ => JsonV::Text(model),
                        "content"@ => JsonV::Array(Seq::empty()),
                        "stop_reason"@ => JsonV::Null,
                        "stop_sequence"@ => JsonV::Null,
                        "usage"@ => JsonV::Object(counts(usage)),
                    ],
                ),
            ],
        ),
        v.message_start() == JsonV::Object(
            map![
                "type"@ => JsonV::Text("message_start"@),
                "message"@ => JsonV::Object(
                    map![
                        "id"@ => JsonV::Text(v.message_id),
                        "type"@ => JsonV::Text("message"@),
                        "role"@ => JsonV::Text("assistant"@),
                        "content"@ => JsonV::Array(Seq::empty()),
                        "model"@ => JsonV::Text(v.model),
                        "stop_reason"@ => JsonV::Null,
                        "stop_sequence"@ => JsonV::Null,
                        "usage"@ => JsonV::Object(
                            counts(
                                Usage {
                                    input_tokens: v.input_tokens as i32,
                                    output_tokens: 1,
                                    cache_creation_input_tokens: 0,
                                    cache_read_input_tokens: 0,
                                },
                            ),
                        ),
                    ],
                ),
            ],
        ),
{
}

/// A message that is sent as one value holds all of its content, its reason to stop, its
/// counts and cost and, if there was any, its thinking.
pub proof fn a_message_holds_all_of_its_content(
    id: Seq<char>,
    model: Seq<char>,
    content: Seq<JsonV>,
    reason: Seq<char>,
    figures: TokenUsage,
    thinking: Seq<char>,
    m: Option<MeteringV>,
)
    ensures
        ({
            let members = map![
                "id"@ => JsonV::Text(id),
                "type"@ => JsonV::Text("message"@),
                "role"@ => JsonV::Text("assistant"@),
                "content"@ => JsonV::Array(content),
                "model"@ => JsonV::Text(model),
                "stop_reason"@ => JsonV::Text(reason),
                "stop_sequence"@ => JsonV::Null,
                "usage"@ => JsonV::Object(
                    with_cost(
                        counts(
                            Usage {
                                input_tokens: floored(figures.uncached_input_tokens),
                                output_tokens: floored(figures.output_tokens),
                                cache_creation_input_tokens: floored(
                                    figures.cache_write_input_tokens,
                                ),
                                cache_read_input_tokens: floored(figures.cache_read_input_tokens),
                            },
                        ),
                        m,
                    ),
                ),
            ];
            message_body(id, model, content, reason, figures, thinking, m) == JsonV::Object(
                if thinking.len() > 0 {
                    members.insert("kiro_thinking"@, JsonV::Text(thinking))
                } else {
                    members
                },
            )
        }),
{
}

/// A block has the text `value` under `key`.
pub open spec fn says(m: Map<Seq<char>, JsonV>, key: Seq<char>, value: Seq<char>) -> bool {
    m.dom().contains(key) && m[key] == JsonV::Text(value)
}

proof fn lemma_kinds()
    ensures
        "text"@ != "tool_use"@,
        "text"@ != "server_tool_use"@,
        "text"@ != "web_search_tool_result"@,
        "tool_use"@ != "server_tool_use"@,
        "tool_use"@ != "web_search_tool_result"@,
        "server_tool_use"@ != "web_search_tool_result"@,
{
    reveal_strlit("text");
    reveal_strlit("tool_use");
    reveal_strlit("server_tool_use");
    reveal_strlit("web_search_tool_result");
    assert("text"@.len() == 4);
    assert("tool_use"@.len() == 8);
    assert("server_tool_use"@.len() == 15);
    assert("web_search_tool_result"@.len() == 22);
}

/// A block of text is sent as a block to which its whole text is added; a call as one to
/// which the text of its whole input is added; a search and what it found as the block
/// itself. Nothing else is sent.
pub proof fn a_block_is_sent_whole(
    m: Map<Seq<char>, JsonV>,
    index: int,
    text: Seq<char>,
    id: Seq<char>,
    name: Seq<char>,
)
    ensures
        says(m, "type"@, "text"@) && says(m, "text"@, text) ==> block_events(
            JsonV::Object(m),
            index,
        ) == seq![
            Ev::BlockStart(index, "text"@, start_data(index, text_block())),
            Ev::Delta(index, delta_data(index, text_delta(text))),
            Ev::BlockStop(index),
        ],
        says(m, "type"@, "tool_use"@) && says(m, "id"@, id) && says(m, "name"@, name)
            && m.dom().contains("input"@) ==> block_events(JsonV::Object(m), index) == seq![
            Ev::BlockStart(
                index,
                "tool_use"@,
                start_data(index, tool_block(CallV { id, name, input: m["input"@] })),
            ),
            Ev::Delta(index, delta_data(index, input_delta(json_printed(m["input"@])))),
            Ev::BlockStop(index),
        ],
        says(m, "type"@, "server_tool_use"@) ==> block_events(JsonV::Object(m), index) == seq![
            Ev::BlockStart(index, "server_tool_use"@, start_data(index, JsonV::Object(m))),
            Ev::BlockStop(index),
        ],
        says(m, "type"@, "web_search_tool_result"@) ==> block_events(JsonV::Object(m), index)
            == seq![
            Ev::BlockStart(index, "web_search_tool_result"@, start_data(index, JsonV::Object(m))),
            Ev::BlockStop(index),
        ],
        !says(m, "type"@, "text"@) && !says(m, "type"@, "tool_use"@) && !says(
            m,
            "type"@,
            "server_tool_use"@,
        ) && !says(m, "type"@, "web_search_tool_result"@) ==> block_events(
            JsonV::Object(m),
            index,
        ).len() == 0,
{
    lemma_kinds();
    reveal_strlit("");
    assert(""@.len() == 0);
    reveal_strlit("text");
    reveal_strlit("tool_use");
    reveal_strlit("server_tool_use");
    reveal_strlit("web_search_tool_result");
}

/// The block is sent to the client.
pub open spec fn is_sent(block: JsonV) -> bool {
    match block {
        JsonV::Object(m) => says(m, "type"@, "text"@) || says(m, "type"@, "tool_use"@) || says(
            m,
            "type"@,
            "server_tool_use"@,
        ) || says(m, "type"@, "web_search_tool_result"@),
        _ => false,
    }
}

/// How many of the first `n` blocks are sent.
pub open spec fn sent_among(content: Seq<JsonV>, n: int) -> int
    decreases n,
{
    if n <= 0 {
        0
    } else {
        sent_among(content, n - 1) + if is_sent(content[n - 1]) {
            1int
        } else {
            0
        }
    }
}

proof fn lemma_sent(block: JsonV, index: int)
    ensures
        (block_events(block, index).len() > 0) == is_sent(block),
{
    lemma_kinds();
    reveal_strlit("");
    reveal_strlit("text");
    reveal_strlit("tool_use");
    reveal_strlit("server_tool_use");
    reveal_strlit("web_search_tool_result");
    let kind = crate::search_events::text_or_empty(block, "type"@);
    assert(""@.len() == 0);
    if let JsonV::Object(m) = block {
        if m.dom().contains("type"@) {
            if let JsonV::Text(t) = m["type"@] {
                assert(kind == t);
            } else {
                assert(kind == ""@);
            }
        } else {
            assert(kind == ""@);
        }
    } else {
        assert(kind == ""@);
    }
    assert("text"@.len() == 4 && "tool_use"@.len() == 8);
}

/// Content is sent block by block, from the first to the last: the events of one part are
/// followed by those of the next, and the blocks that are sent are numbered without a gap.
pub proof fn content_is_sent_block_by_block(a: Seq<JsonV>, b: Seq<JsonV>, from: int)
    ensures
        content_events(a + b, from, (a + b).len() as int).0 == content_events(
            a,
            from,
            a.len() as int,
        ).0 + content_events(b, content_events(a, from, a.len() as int).1, b.len() as int).0,
        content_events(a + b, from, (a + b).len() as int).1 == content_events(
            b,
            content_events(a, from, a.len() as int).1,
            b.len() as int,
        ).1,
        content_events(seq![], from, 0) == (Seq::<Ev>::empty(), from),
        b.len() == 1 ==> content_events(b, from, 1).0 == block_events(b[0], from),
        from + a.len() < i32::MAX ==> content_events(a, from, a.len() as int).1 == from
            + sent_among(a, a.len() as int),
{
    lemma_content_same(a + b, a, from, a.len() as int);
    lemma_content_split(a, b, from, b.len() as int);
    if b.len() == 1 {
        reveal_with_fuel(content_events, 2);
        assert(Seq::<Ev>::empty() + block_events(b[0], from) =~= block_events(b[0], from));
    }
    if from + a.len() < i32::MAX {
        lemma_numbered(a, from, a.len() as int);
    }
}

proof fn lemma_numbered(a: Seq<JsonV>, from: int, n: int)
    requires
        0 <= n <= a.len(),
        from + n < i32::MAX,
    ensures
        content_events(a, from, n).1 == from + sent_among(a, n),
        sent_among(a, n) <= n,
    decreases n,
{
    if n > 0 {
        lemma_numbered(a, from, n - 1);
        lemma_sent(a[n - 1], content_events(a, from, n - 1).1);
    }
}

proof fn lemma_content_same(x: Seq<JsonV>, y: Seq<JsonV>, from: int, n: int)
    requires
        n <= x.len(),
        n <= y.len(),
        forall|i: int| 0 <= i < n ==> x[i] == y[i],
    ensures
        content_events(x, from, n) == content_events(y, from, n),
    decreases n,
{
    if n > 0 {
        lemma_content_same(x, y, from, n - 1);
    }
}

proof fn lemma_content_split(a: Seq<JsonV>, b: Seq<JsonV>, from: int, n: int)
    requires
        0 <= n <= b.len(),
    ensures
        ({
            let x = content_events(a, from, a.len() as int);
            let y = content_events(b, x.1, n);
            content_events(a + b, from, a.len() + n) == (x.0 + y.0, y.1)
        }),
    decreases n,
{
    let x = content_events(a, from, a.len() as int);
    if n == 0 {
        lemma_content_same(a + b, a, from, a.len() as int);
        assert(x.0 + Seq::<Ev>::empty() =~= x.0);
    } else {
        lemma_content_split(a, b, from, n - 1);
        let y = content_events(b, x.1, n - 1);
        let more = block_events(b[n - 1], y.1);
        assert((a + b)[a.len() + n - 1] == b[n - 1]);
        assert((x.0 + y.0) + more =~= x.0 + (y.0 + more));
    }
}

/// The events of a complete message: it opens, all of its content follows, and it ends with
/// its reason to stop and its output count.
pub proof fn a_complete_message_is_sent_in_its_order(
    id: Seq<char>,
    model: Seq<char>,
    content: Seq<JsonV>,
    reason: Seq<char>,
    figures: TokenUsage,
    m: Option<MeteringV>,
)
    ensures
        ({
            let evs = message_events(id, model, content, reason, figures, m);
            let inner = content_events(content, 0, content.len() as int).0;
            let opening = Usage {
                input_tokens: floored(figures.uncached_input_tokens),
                output_tokens: 0,
                cache_creation_input_tokens: floored(figures.cache_write_input_tokens),
                cache_read_input_tokens: floored(figures.cache_read_input_tokens),
            };
            &&& evs.len() == inner.len() + 3
            &&& evs[0] == Ev::MessageStart(opening_data(id, model, opening))
            &&& evs.subrange(1, evs.len() - 2) == inner
            &&& evs[evs.len() - 2] == Ev::MessageDelta(
                JsonV::Object(
                    map![
                        "type"@ => JsonV::Text("message_delta"@),
                        "delta"@ => JsonV::Object(map!["stop_reason"@ => JsonV::Text(reason)]),
                        "usage"@ => JsonV::Object(
                            with_cost(
                                map!["output_tokens"@ => number(
                                    floored(figures.output_tokens) as int,
                                )],
                                m,
                            ),
                        ),
                    ],
                ),
            )
            &&& evs[evs.len() - 1] == Ev::MessageStop
        }),
{
    let evs = message_events(id, model, content, reason, figures, m);
    let inner = content_events(content, 0, content.len() as int).0;
    assert(evs.subrange(1, evs.len() - 2) =~= inner);
}

/// The block shows a search or what it found.
pub open spec fn shows_a_search(block: JsonV) -> bool {
    match block {
        JsonV::Object(m) => says(m, "type"@, "server_tool_use"@) || says(
            m,
            "type"@,
            "web_search_tool_result"@,
        ),
        _ => false,
    }
}

/// How many of the first `n` blocks show searches.
pub open spec fn searches_shown_among(content: Seq<JsonV>, n: int) -> int
    decreases n,
{
    if n <= 0 {
        0
    } else {
        searches_shown_among(content, n - 1) + if shows_a_search(content[n - 1]) {
            1int
        } else {
            0
        }
    }
}

proof fn lemma_searches_shown(content: Seq<JsonV>, i: int, n: int)
    requires
        0 <= i <= n,
    ensures
        0 <= searches_shown_among(content, i) <= i,
        i < n && !shows_a_search(content[i]) ==> searches_shown_among(content, n)
            - searches_shown_among(content, i) < n - i,
        searches_shown_among(content, n) - searches_shown_among(content, i) <= n - i,
    decreases n, i,
{
    if i < n {
        lemma_searches_shown(content, i, n - 1);
    } else if n > 0 {
        lemma_searches_shown(content, n - 1, n - 1);
    }
}

/// What was shown while the searches ran is not sent again, and everything else is, in its
/// order.
pub proof fn only_searches_are_left_out_at_the_end(content: Seq<JsonV>, n: int)
    requires
        0 <= n <= content.len(),
    ensures
        without_presentation(content, n).len() == n - searches_shown_among(content, n),
        forall|i: int|
            0 <= i < n && !shows_a_search(#[trigger] content[i]) ==> without_presentation(
                content,
                n,
            )[i - searches_shown_among(content, i)] == content[i],
    decreases n,
{
    if n > 0 {
        only_searches_are_left_out_at_the_end(content, n - 1);
        let before = without_presentation(content, n - 1);
        let after = without_presentation(content, n);
        assert(is_presentation(content[n - 1]) == shows_a_search(content[n - 1]));
        assert forall|i: int| 0 <= i < n && !shows_a_search(#[trigger] content[i]) implies after[i
            - searches_shown_among(content, i)] == content[i] by {
            let at = i - searches_shown_among(content, i);
            if i < n - 1 {
                lemma_searches_shown(content, i, n - 1);
                assert(after[at] == before[at]);
            }
        }
    }
}

/// The end of a streamed message with searches: what was not shown of the content, numbered
/// on from what was, the thinking on the first of its events or else on the counts, the
/// reason to stop, the counts and the end.
pub proof fn the_end_sends_what_was_not_shown(
    e: EmitterV,
    content: Seq<JsonV>,
    reason: Seq<char>,
    figures: TokenUsage,
    thinking: Seq<char>,
    m: Option<MeteringV>,
)
    ensures
        ({
            let evs = e.finished(content, reason, figures, thinking, m).1;
            let rest = without_presentation(content, content.len() as int);
            let inner = content_events(rest, e.next_index, rest.len() as int).0;
            let n = inner.len() as int;
            let closing = map![
                "type"@ => JsonV::Text("message_delta"@),
                "delta"@ => JsonV::Object(map!["stop_reason"@ => JsonV::Text(reason)]),
                "usage"@ => JsonV::Object(
                    with_cost(
                        counts(
                            Usage {
                                input_tokens: floored(figures.uncached_input_tokens),
                                output_tokens: floored(figures.output_tokens),
                                cache_creation_input_tokens: floored(
                                    figures.cache_write_input_tokens,
                                ),
                                cache_read_input_tokens: floored(figures.cache_read_input_tokens),
                            },
                        ),
                        m,
                    ),
                ),
            ];
            &&& evs.len() == n + 2
            &&& forall|i: int| 0 < i < n ==> #[trigger] evs[i] == inner[i]
            &&& n > 0 && thinking.len() == 0 ==> evs[0] == inner[0]
            &&& n > 0 && thinking.len() > 0 ==> (inner[0] matches Ev::BlockStart(
                index,
                kind,
                JsonV::Object(data),
            ) ==> evs[0] == Ev::BlockStart(
                index,
                kind,
                JsonV::Object(data.insert("kiro_thinking"@, JsonV::Text(thinking))),
            ))
            &&& evs[n] == Ev::MessageDelta(
                JsonV::Object(
                    if n == 0 && thinking.len() > 0 {
                        closing.insert("kiro_thinking"@, JsonV::Text(thinking))
                    } else {
                        closing
                    },
                ),
            )
            &&& evs[n + 1] == Ev::MessageStop
        }),
{
    let rest = without_presentation(content, content.len() as int);
    let inner = content_events(rest, e.next_index, rest.len() as int).0;
    let first = thinking_attached(inner, thinking);
    assert(first.len() == inner.len());
}

/// The error that a response reports is told with its type and its text; where it reports
/// none, it is told that the search failed and under which status.
pub proof fn a_reported_error_is_told(
    body: Map<Seq<char>, JsonV>,
    error: Map<Seq<char>, JsonV>,
    kind: Seq<char>,
    message: Seq<char>,
    status: Seq<char>,
)
    ensures
        body.dom().contains("error"@) && body["error"@] == JsonV::Object(error) && says(
            error,
            "type"@,
            kind,
        ) && says(error, "message"@, message) ==> error_details(JsonV::Object(body), status) == (
            kind,
            message,
        ),
        !body.dom().contains("error"@) ==> error_details(JsonV::Object(body), status) == (
            "api_error"@,
            "web_search agentic loop failed with HTTP "@ + status,
        ),
        error_details(JsonV::Null, status) == (
            "api_error"@,
            "web_search agentic loop failed with HTTP "@ + status,
        ),
{
}

/// While a search runs, its block is open under the next free index; when it is over, the
/// block stops and what it found is shown whole in a block of its own; when it fails, the
/// block stops. An error stops every block that is open and comes last, once.
pub proof fn searches_are_shown_as_they_run(
    e: EmitterV,
    id: Seq<char>,
    query: Seq<char>,
    i: int,
    results: Option<Seq<PageV>>,
    error_type: Seq<char>,
    message: Seq<char>,
)
    ensures
        e.begun(id, query).1 == seq![
            Ev::BlockStart(
                e.next_index,
                "server_tool_use"@,
                start_data(
                    e.next_index,
                    crate::search_content::search_use_block(id, query),
                ),
            ),
        ],
        e.next_index < i32::MAX ==> e.begun(id, query).0.next_index == e.next_index + 1,
        e.begun(id, query).0.active == e.active + seq![e.next_index],
        e.completed(i, results).1 == seq![
            Ev::BlockStop(i),
            Ev::BlockStart(
                e.next_index,
                "web_search_tool_result"@,
                start_data(e.next_index, crate::search_content::search_result_block(results)),
            ),
            Ev::BlockStop(e.next_index),
        ],
        e.next_index < i32::MAX ==> e.completed(i, results).0.next_index == e.next_index + 1,
        e.aborted(i).1 == seq![Ev::BlockStop(i)],
        forall|k: int| #[trigger] e.completed(i, results).0.active.contains(k) <==> (
        e.active.contains(k) && k != i),
        forall|k: int| #[trigger] e.aborted(i).0.active.contains(k) <==> (e.active.contains(k) && k
            != i),
        !e.terminal ==> e.failed(error_type, message).1 == Seq::new(
            e.active.len(),
            |k: int| Ev::BlockStop(e.active[k]),
        ) + seq![Ev::Error(error_data(error_type, message))],
        e.terminal ==> e.failed(error_type, message).1.len() == 0,
        e.failed(error_type, message).0.terminal,
{
    assert(e.active.push(e.next_index) =~= e.active + seq![e.next_index]);
    lemma_without(e.active, i);
    if !e.terminal {
        assert(e.failed(error_type, message).1 =~= Seq::new(
            e.active.len(),
            |k: int| Ev::BlockStop(e.active[k]),
        ) + seq![Ev::Error(error_data(error_type, message))]);
    }
}

proof fn lemma_without(s: Seq<int>, i: int)
    ensures
        forall|k: int|
            #[trigger] crate::search_events::indices_without(s, i).contains(k) <==> (s.contains(k)
                && k != i),
    decreases s.len(),
{
    let t = crate::search_events::indices_without(s, i);
    if s.len() > 0 {
        let head = s.drop_last();
        lemma_without(head, i);
        let u = crate::search_events::indices_without(head, i);
        assert forall|k: int| #[trigger] t.contains(k) <==> (s.contains(k) && k != i) by {
            if u.contains(k) {
                let j = choose|j: int| 0 <= j < u.len() && u[j] == k;
                assert(t[j] == k);
                let h = choose|h: int| 0 <= h < head.len() && head[h] == k;
                assert(s[h] == k);
            }
            if t.contains(k) {
                let j = choose|j: int| 0 <= j < t.len() && t[j] == k;
                if j < u.len() {
                    assert(u[j] == k);
                } else {
                    assert(s[s.len() - 1] == k);
                }
            }
            if s.contains(k) && k != i {
                let h = choose|h: int| 0 <= h < s.len() && s[h] == k;
                if h < s.len() - 1 {
                    assert(head[h] == k);
                    assert(u.contains(k));
                } else {
                    assert(t[t.len() - 1] == k);
                }
            }
        }
    }
}

} // verus!
