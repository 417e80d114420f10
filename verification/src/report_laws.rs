//! Laws on what a stream reports in the end, counts, cost and errors, and on the calls whose
//! arguments arrive in fragments.
use crate::json::{json_parsed, JsonV};
use crate::loop_laws::is_blank_text;
use crate::message_laws::{block_event, counts, with_cost};
use crate::names::Restoring;
use crate::round_laws::no_figure_below_zero;
use crate::sse::{
    all_closed, block_at, closing_events, start_data, BlockV, Ev, ManagerV, MeteringV, Usage,
};
use crate::stream_laws::{
    fed, lemma_answered_framed, lemma_call_sent_calm, lemma_flushed_framed, lemma_reasoned_framed,
    lemma_settled_framed, same_request,
};
use crate::stream_model::{text_block, Draws, EventV, StreamV};
use crate::text::{byte_len, decimal_text};
use crate::tokens::TokenUsage;
use crate::tool_json::{
    finished, longest, pending_at, pushed, tool_error_message, with_fragment, CallV, FragmentV,
    PendingV, ToolErrorV,
};
use vstd::prelude::*;

verus! {

/// The figures of the provider are believed before any estimate: each count is the one that
/// it gave, and nothing where it gave less.
pub proof fn the_provider_is_believed_first(v: StreamV, u: TokenUsage)
    requires
        v.provider_token_usage == Some(u),
    ensures
        ({
            let f = no_figure_below_zero(u);
            &&& v.usage() == (
                f.uncached_input_tokens as int,
                f.cache_write_input_tokens as int,
                f.cache_read_input_tokens as int,
            )
            &&& v.output() == f.output_tokens
        }),
{
}

/// Without figures of the provider the whole of the input is that of the context, where it
/// was reported, and the estimate otherwise, and the output is what was counted. Without a
/// cache nothing of the input is cached.
pub proof fn without_the_provider_the_context_counts(v: StreamV, n: i32)
    requires
        v.provider_token_usage is None,
        v.context_input_tokens == Some(n) || (v.context_input_tokens is None && v.input_tokens
            == n),
    ensures
        v.usage() == v.cache_usage.split(n as int),
        v.cache_usage.prompt_total_est <= 0 ==> v.usage() == (
            if n < 0 {
                0int
            } else {
                n as int
            },
            0int,
            0int,
        ),
        v.output_tokens >= 0 ==> v.output() == v.output_tokens,
        v.output_tokens < 0 ==> v.output() == 0,
{
}

/// The figures that events report, the last that there are.
pub open spec fn figures_in(events: Seq<EventV>) -> Option<TokenUsage>
    decreases events.len(),
{
    if events.len() == 0 {
        None
    } else {
        match events.last() {
            EventV::Metadata(Some(u)) => Some(u),
            _ => figures_in(events.drop_last()),
        }
    }
}

/// The size of the context that events report, the last one.
pub open spec fn context_in(events: Seq<EventV>) -> Option<i32>
    decreases events.len(),
{
    if events.len() == 0 {
        None
    } else {
        match events.last() {
            EventV::ContextUsage { input_tokens, exceeded } => Some(input_tokens),
            _ => context_in(events.drop_last()),
        }
    }
}

/// The cost that events report, the last one.
pub open spec fn cost_in(events: Seq<EventV>) -> Option<MeteringV>
    decreases events.len(),
{
    if events.len() == 0 {
        None
    } else {
        match events.last() {
            EventV::Metering(m) => Some(m),
            _ => cost_in(events.drop_last()),
        }
    }
}

/// What events charge, each of them, in their order.
pub open spec fn charges_in(events: Seq<EventV>) -> Seq<JsonV>
    decreases events.len(),
{
    if events.len() == 0 {
        Seq::empty()
    } else {
        match events.last() {
            EventV::Metering(m) => charges_in(events.drop_last()).push(m.usage),
            _ => charges_in(events.drop_last()),
        }
    }
}

proof fn lemma_reports_kept(v: StreamV, event: EventV, ids: Draws)
    requires
        !(event is Metadata),
        !(event is ContextUsage),
        !(event is Metering),
    ensures
        same_request(v, v.processed(event, ids).0),
{
    match event {
        EventV::AssistantResponse(content) => {
            lemma_answered_framed(v, content, ids);
        },
        EventV::ToolUse(f) => {
            reveal(StreamV::call_fragment);
            lemma_settled_framed(v, ids);
            let a = v.settled_before_call(ids).0;
            let (pending, outcome) = pushed(a.pending, f, a.names);
            if let Ok(Some(call)) = outcome {
                lemma_call_sent_calm(StreamV { pending, ..a }, call);
            }
        },
        EventV::Reasoning { text, signature, redacted } => {
            lemma_reasoned_framed(v, text, signature, redacted, ids);
        },
        _ => {},
    }
}

/// Of the reports that come among the events of a stream the last counts, of its kind, and
/// stays until the next, whatever texts and calls come in between; all charges are kept, in
/// their order.
pub proof fn the_last_report_of_a_stream_counts(v: StreamV, events: Seq<EventV>, ids: Draws)
    ensures
        ({
            let w = fed(v, events, ids).0;
            &&& w.provider_token_usage == match figures_in(events) {
                Some(u) => Some(no_figure_below_zero(u)),
                None => v.provider_token_usage,
            }
            &&& w.context_input_tokens == match context_in(events) {
                Some(n) => Some(n),
                None => v.context_input_tokens,
            }
            &&& w.metering == match cost_in(events) {
                Some(m) => Some(m),
                None => v.metering,
            }
            &&& w.metered == v.metered + charges_in(events)
            &&& w.input_tokens == v.input_tokens
            &&& w.cache_usage == v.cache_usage
            &&& w.model == v.model
            &&& w.message_id == v.message_id
        }),
    decreases events.len(),
{
    if events.len() == 0 {
        assert(v.metered + charges_in(events) =~= v.metered);
    } else {
        let head = events.drop_last();
        the_last_report_of_a_stream_counts(v, head, ids);
        let a = fed(v, head, ids).0;
        let e = events.last();
        match e {
            EventV::Metadata(_) => {},
            EventV::ContextUsage { .. } => {},
            EventV::Metering(m) => {
                assert(a.metered.push(m.usage) =~= v.metered + charges_in(head).push(m.usage));
            },
            _ => {
                lemma_reports_kept(a, e, ids);
            },
        }
    }
}

/// The reports of a stream send nothing to the client.
pub proof fn reports_send_nothing(v: StreamV, event: EventV, ids: Draws)
    requires
        event is Metadata || event is ContextUsage || event is Metering || event is Exception,
    ensures
        v.processed(event, ids).1.len() == 0,
        v.processed(event, ids).0.manager.stop_reason == match event {
            EventV::ContextUsage { input_tokens, exceeded } => if exceeded {
                Some("model_context_window_exceeded"@)
            } else {
                v.manager.stop_reason
            },
            EventV::Exception(kind) => if kind == "ContentLengthExceededException"@ {
                Some("max_tokens"@)
            } else {
                v.manager.stop_reason
            },
            _ => v.manager.stop_reason,
        },
{
}

/// A message stops for the reason that was given, else for a call, if there was one, and
/// else because it is over.
pub proof fn a_stream_stops_for_its_reason(m: ManagerV, r: Seq<char>)
    ensures
        m.with_reason(r).reason() == r,
        m.stop_reason is None && m.has_tool_use ==> m.reason() == "tool_use"@,
        m.stop_reason is None && !m.has_tool_use ==> m.reason() == "end_turn"@,
{
}

/// A message that has not ended ends with what was reported: open blocks are stopped, then
/// the client is told the reason to stop, all four counts under their names and the cost,
/// and then that the message is over.
pub proof fn a_stream_ends_with_what_was_reported(v: StreamV, ids: Draws)
    requires
        ({
            let w = v.flushed(ids).0.calls_finished();
            w.tool_error is None && !w.manager.message_ended && !w.manager.message_delta_sent
        }),
    ensures
        ({
            let w = v.flushed(ids).0.calls_finished();
            let evs = v.ended(ids).1;
            let usage = Usage {
                input_tokens: v.usage().0 as i32,
                output_tokens: w.output() as i32,
                cache_creation_input_tokens: v.usage().1 as i32,
                cache_read_input_tokens: v.usage().2 as i32,
            };
            &&& v.provider_token_usage is Some ==> w.output() == v.output()
            &&& evs == v.flushed(ids).1 + closing_events(w.manager.blocks, false) + seq![
                Ev::MessageDelta(
                    JsonV::Object(
                        map![
                            "type"@ => JsonV::Text("message_delta"@),
                            "delta"@ => JsonV::Object(
                                map![
                                    "stop_reason"@ => JsonV::Text(w.manager.reason()),
                                    "stop_sequence"@ => JsonV::Null,
                                ],
                            ),
                            "usage"@ => JsonV::Object(with_cost(counts(usage), v.metering)),
                        ],
                    ),
                ),
                Ev::MessageStop,
            ]
        }),
{
    reveal(StreamV::ended);
    lemma_flushed_framed(v, ids);
    let w = v.flushed(ids).0.calls_finished();
    assert(w.usage() == v.usage());
    let usage = Usage {
        input_tokens: v.usage().0 as i32,
        output_tokens: w.output() as i32,
        cache_creation_input_tokens: v.usage().1 as i32,
        cache_read_input_tokens: v.usage().2 as i32,
    };
    crate::message_laws::counts_and_cost_are_told_by_name(
        usage,
        v.metering,
        w.manager.reason(),
        TokenUsage {
            uncached_input_tokens: 0,
            output_tokens: 0,
            cache_read_input_tokens: 0,
            cache_write_input_tokens: 0,
        },
        0,
        0,
    );
    let closing = closing_events(w.manager.blocks, false);
    let told = crate::sse::message_delta_data(
        w.manager.reason(),
        crate::sse::metered_usage(usage, v.metering),
    );
    assert(v.ended(ids).1 =~= v.flushed(ids).1 + closing + seq![
        Ev::MessageDelta(told),
        Ev::MessageStop,
    ]);
}

/// A stream with a call that could not be read ends with an error that says so, in place of
/// counts and of a regular end.
pub proof fn a_call_that_cannot_be_read_is_reported(v: StreamV, ids: Draws, e: ToolErrorV)
    requires
        v.flushed(ids).0.calls_finished().tool_error == Some(e),
    ensures
        v.ended(ids).1.len() > 0,
        v.ended(ids).1.last() == Ev::Error(
            JsonV::Object(
                map![
                    "type"@ => JsonV::Text("error"@),
                    "error"@ => JsonV::Object(
                        map![
                            "type"@ => JsonV::Text("upstream_tool_json_error"@),
                            "message"@ => JsonV::Text(tool_error_message(e)),
                        ],
                    ),
                ],
            ),
        ),
{
    reveal(StreamV::ended);
    reveal(StreamV::failed);
}

/// The text of such an error names the call and its tool, and says what was wrong with its
/// arguments or how many bytes of them there were.
pub proof fn such_an_error_names_its_call(
    id: Seq<char>,
    name: Seq<char>,
    message: Seq<char>,
    n: nat,
)
    ensures
        tool_error_message(ToolErrorV::InvalidJson { id, name, message })
            == "Upstream returned invalid JSON for tool_use "@ + (id + (" ("@ + (name + ("): "@
            + message)))),
        tool_error_message(ToolErrorV::IncompleteJson { id, name, bytes: n as int })
            == "Upstream ended before completing tool_use "@ + (id + (" ("@ + (name + (
        ") JSON input; buffered "@ + (decimal_text(n)
            + " bytes. The tool call was not forwarded to the client."@))))),
{
    assert(tool_error_message(ToolErrorV::InvalidJson { id, name, message })
        =~= "Upstream returned invalid JSON for tool_use "@ + (id + (" ("@ + (name + ("): "@
        + message)))));
    assert(tool_error_message(ToolErrorV::IncompleteJson { id, name, bytes: n as int })
        =~= "Upstream ended before completing tool_use "@ + (id + (" ("@ + (name + (
    ") JSON input; buffered "@ + (decimal_text(n)
        + " bytes. The tool call was not forwarded to the client."@))))));
}

proof fn lemma_longest(s: Seq<PendingV>, n: int)
    requires
        1 <= n <= s.len(),
    ensures
        0 <= longest(s, n) < n,
        forall|j: int|
            0 <= j < n ==> byte_len((#[trigger] s[j]).input) <= byte_len(s[longest(s, n)].input),
        forall|j: int|
            longest(s, n) < j < n ==> byte_len((#[trigger] s[j]).input) < byte_len(
                s[longest(s, n)].input,
            ),
    decreases n,
{
    if n > 1 {
        lemma_longest(s, n - 1);
    }
}

/// At the end of a stream no call may be pending. If there are any, the one with the most
/// bytes of arguments is reported, the last such one, with its identifier, its name and the
/// number of those bytes.
pub proof fn a_call_that_never_stopped_is_reported(s: Seq<PendingV>, i: int)
    requires
        0 <= i < s.len(),
        forall|j: int| 0 <= j < s.len() ==> byte_len((#[trigger] s[j]).input) <= byte_len(s[i].input),
        forall|j: int| i < j < s.len() ==> byte_len((#[trigger] s[j]).input) < byte_len(s[i].input),
    ensures
        finished(s).0 == s.remove(i),
        finished(s).1 == Some(
            ToolErrorV::IncompleteJson {
                id: s[i].id,
                name: s[i].name,
                bytes: byte_len(s[i].input),
            },
        ),
        finished(Seq::empty()) == (Seq::<PendingV>::empty(), None::<ToolErrorV>),
{
    lemma_longest(s, s.len() as int);
    let k = longest(s, s.len() as int);
    if k < i {
        assert(byte_len(s[i].input) < byte_len(s[k].input));
    } else if i < k {
        assert(byte_len(s[k].input) < byte_len(s[i].input));
    }
}

/// The arguments of fragments, one behind the other.
pub open spec fn put_together(fs: Seq<FragmentV>) -> Seq<char>
    decreases fs.len(),
{
    if fs.len() == 0 {
        Seq::empty()
    } else {
        put_together(fs.drop_last()) + fs.last().input
    }
}

/// The first name that fragments give.
pub open spec fn first_name(fs: Seq<FragmentV>) -> Seq<char>
    decreases fs.len(),
{
    if fs.len() == 0 {
        Seq::empty()
    } else if first_name(fs.drop_last()).len() > 0 {
        first_name(fs.drop_last())
    } else {
        fs.last().name
    }
}

/// Fragments arrive, none of which stops its call.
pub open spec fn all_pending(s: Seq<PendingV>, fs: Seq<FragmentV>, names: Restoring) -> Seq<PendingV>
    decreases fs.len(),
{
    if fs.len() == 0 {
        s
    } else {
        pushed(all_pending(s, fs.drop_last(), names), fs.last(), names).0
    }
}

proof fn lemma_all_pending(s: Seq<PendingV>, fs: Seq<FragmentV>, names: Restoring, id: Seq<char>)
    requires
        fs.len() > 0,
        pending_at(s, id, 0) is None,
        forall|k: int| 0 <= k < fs.len() ==> (#[trigger] fs[k]).id == id && !fs[k].stop,
    ensures
        all_pending(s, fs, names) == s.push(
            PendingV { id, name: first_name(fs), input: put_together(fs) },
        ),
    decreases fs.len(),
{
    let head = fs.drop_last();
    let f = fs.last();
    assert(fs[fs.len() - 1] == f);
    assert forall|k: int| 0 <= k < head.len() implies (#[trigger] head[k]).id == id
        && !head[k].stop by {
        assert(head[k] == fs[k]);
    }
    reveal_with_fuel(all_pending, 2);
    reveal_with_fuel(put_together, 2);
    reveal_with_fuel(first_name, 2);
    if head.len() == 0 {
        assert(put_together(fs) =~= f.input);
        assert(all_pending(s, head, names) == s);
    } else {
        lemma_all_pending(s, head, names, id);
        let mid = s.push(PendingV { id, name: first_name(head), input: put_together(head) });
        crate::tool_json::lemma_pending_at(s, id, 0);
        crate::tool_json::lemma_pending_at(mid, id, 0);
        assert(mid[s.len() as int].id == id);
        let j = pending_at(mid, id, 0)->Some_0;
        if j < s.len() {
            assert(mid[j] == s[j]);
        }
        assert(with_fragment(mid, f) =~= s.push(
            PendingV { id, name: first_name(fs), input: put_together(fs) },
        ));
    }
}

/// A call is complete when a fragment says so. Its arguments are then those of all of its
/// fragments, put together and read as JSON, or none where there is nothing but white space;
/// its name is the first that one of them gave; and other calls stay pending as they were.
/// Arguments that cannot be read are an error that names the call.
pub proof fn fragments_make_up_a_call(
    s: Seq<PendingV>,
    fs: Seq<FragmentV>,
    stop: FragmentV,
    names: Restoring,
    id: Seq<char>,
)
    requires
        pending_at(s, id, 0) is None,
        stop.id == id,
        stop.stop,
        forall|k: int| 0 <= k < fs.len() ==> (#[trigger] fs[k]).id == id && !fs[k].stop,
    ensures
        ({
            let all = fs.push(stop);
            let text = put_together(all);
            let name = first_name(all);
            let r = pushed(all_pending(s, fs, names), stop, names);
            let call = |v: JsonV| CallV { id, name: names(name, v).0, input: names(name, v).1 };
            &&& r.0 == s
            &&& is_blank_text(text) ==> r.1 == Ok::<Option<CallV>, ToolErrorV>(
                Some(call(JsonV::Object(Map::empty()))),
            )
            &&& !is_blank_text(text) ==> r.1 == match json_parsed(text) {
                Ok(v) => Ok::<Option<CallV>, ToolErrorV>(Some(call(v))),
                Err(message) => Err(ToolErrorV::InvalidJson { id, name, message }),
            }
        }),
{
    let all = fs.push(stop);
    let text = put_together(all);
    let name = first_name(all);
    assert(all.drop_last() =~= fs);
    assert(all.last() == stop);
    crate::text::lemma_blank(text);
    assert(is_blank_text(text) == crate::text::all_white(text));
    let before = all_pending(s, fs, names);
    let next = with_fragment(before, stop);
    let whole = s.push(PendingV { id, name, input: text });
    crate::tool_json::lemma_pending_at(s, id, 0);
    reveal_with_fuel(put_together, 2);
    reveal_with_fuel(first_name, 2);
    if fs.len() == 0 {
        assert(before == s);
        assert(text =~= stop.input);
        assert(next == whole);
    } else {
        lemma_all_pending(s, fs, names, id);
        crate::tool_json::lemma_pending_at(before, id, 0);
        assert(before[s.len() as int].id == id);
        let j = pending_at(before, id, 0)->Some_0;
        if j < s.len() {
            assert(before[j] == s[j]);
        }
        assert(next =~= whole);
    }
    crate::tool_json::lemma_pending_at(whole, id, 0);
    assert(whole[s.len() as int].id == id);
    let i = pending_at(whole, id, 0)->Some_0;
    if i < s.len() {
        assert(whole[i] == s[i]);
    }
    assert(whole.remove(i) =~= s);
}

/// A stream opens with one message, under the identifier and the model that it was given and
/// with the input that was estimated; where no thinking can come first, a block of text is
/// opened besides.
pub proof fn a_stream_opens_with_its_message(
    model: Seq<char>,
    message_id: Seq<char>,
    input_tokens: i32,
    thinking_enabled: bool,
    names: Restoring,
    known: Set<Seq<char>>,
)
    ensures
        ({
            let v = StreamV::fresh(
                model,
                message_id,
                input_tokens as int,
                thinking_enabled,
                names,
                known,
            );
            let evs = v.opened().1;
            let usage = Usage {
                input_tokens,
                output_tokens: 1,
                cache_creation_input_tokens: 0,
                cache_read_input_tokens: 0,
            };
            &&& evs.len() == if thinking_enabled {
                1int
            } else {
                2
            }
            &&& evs[0] == Ev::MessageStart(
                JsonV::Object(
                    map![
                        "type"@ => JsonV::Text("message_start"@),
                        "message"@ => JsonV::Object(
                            map![
                                "id"@ => JsonV::Text(message_id),
                                "type"@ => JsonV::Text("message"@),
                                "role"@ => JsonV::Text("assistant"@),
                                "content"@ => JsonV::Array(Seq::empty()),
                                "model"@ => JsonV::Text(model),
                                "stop_reason"@ => JsonV::Null,
                                "stop_sequence"@ => JsonV::Null,
                                "usage"@ => JsonV::Object(counts(usage)),
                            ],
                        ),
                    ],
                ),
            )
            &&& !thinking_enabled ==> evs[1] == Ev::BlockStart(
                0,
                "text"@,
                JsonV::Object(
                    block_event("content_block_start"@, 0).insert(
                        "content_block"@,
                        JsonV::Object(
                            map!["type"@ => JsonV::Text("text"@), "text"@ => JsonV::Text(""@)],
                        ),
                    ),
                ),
            )
            &&& v.known == known
            &&& v.names == names
            &&& v.input_tokens == input_tokens
            &&& v.output_tokens == 0
            &&& v.metered.len() == 0
            &&& v.provider_token_usage is None
            &&& v.opened().0.manager.message_started
        }),
{
    reveal(StreamV::text_opened);
    crate::stream_laws::lemma_kinds();
    let v = StreamV::fresh(model, message_id, input_tokens as int, thinking_enabled, names, known);
    let w = StreamV { manager: ManagerV { message_started: true, ..v.manager }, ..v };
    assert(block_at(w.manager.index_taken().blocks, 0, 0) is None);
    let start = Ev::BlockStart(0, "text"@, start_data(0, text_block()));
    assert(w.text_opened().1 =~= seq![start]);
    if !thinking_enabled {
        assert(v.opened().1 =~= seq![Ev::MessageStart(v.message_start()), start]);
    }
}

/// Closing blocks stops those that are open, each once and in their order, and no others;
/// where only texts are to be closed, thinking and calls stay open.
pub proof fn open_blocks_alone_are_closed(a: Seq<BlockV>, b: Seq<BlockV>, x: BlockV, only_text: bool)
    ensures
        closing_events(a + b, only_text) == closing_events(a, only_text) + closing_events(
            b,
            only_text,
        ),
        closing_events(seq![x], only_text) == if x.started && !x.stopped && (!only_text || x.kind
            == "text"@) {
            seq![Ev::BlockStop(x.index)]
        } else {
            Seq::empty()
        },
        all_closed(a, only_text).len() == a.len(),
        forall|i: int|
            0 <= i < a.len() ==> #[trigger] all_closed(a, only_text)[i] == (BlockV {
                stopped: a[i].stopped || (a[i].started && (!only_text || a[i].kind == "text"@)),
                ..a[i]
            }),
    decreases b.len(),
{
    reveal_with_fuel(closing_events, 2);
    assert(seq![x].drop_last() =~= Seq::<BlockV>::empty());
    assert(closing_events(Seq::empty(), only_text) =~= Seq::<Ev>::empty());
    if b.len() == 0 {
        assert(a + b =~= a);
        assert(closing_events(a, only_text) + closing_events(b, only_text) =~= closing_events(
            a,
            only_text,
        ));
    } else {
        open_blocks_alone_are_closed(a, b.drop_last(), x, only_text);
        assert((a + b).drop_last() =~= a + b.drop_last());
        assert(closing_events(a + b, only_text) =~= closing_events(a, only_text) + closing_events(
            b,
            only_text,
        ));
    }
}

/// A fragment that completes its call sends the call, behind the texts that precede it; one
/// that does not sends nothing of the call; and one whose call cannot be read sends nothing
/// of it either, and the error is kept.
pub proof fn a_call_is_sent_when_it_is_complete(
    v: StreamV,
    f: FragmentV,
    ids: Draws,
    call: CallV,
    e: ToolErrorV,
)
    ensures
        ({
            let a = v.settled_before_call(ids);
            let p = pushed(a.0.pending, f, a.0.names);
            let s = v.call_fragment(f, ids);
            let w = StreamV { pending: p.0, ..a.0 };
            &&& p.1 == Ok::<Option<CallV>, ToolErrorV>(Some(call)) ==> s.1 == a.1 + w.call_sent(
                call,
            ).1 && s.0 == w.call_sent(call).0
            &&& p.1 == Ok::<Option<CallV>, ToolErrorV>(None) ==> s == (w, a.1)
            &&& p.1 == Err::<Option<CallV>, ToolErrorV>(e) ==> s.1 == a.1 && s.0.tool_error == Some(
                e,
            ) && s.0.pending == p.0
        }),
{
    reveal(StreamV::call_fragment);
}

/// A call that is still pending at the end is an error, unless there was one before, which
/// stays; without pending calls there is none.
pub proof fn a_pending_call_is_an_error_at_the_end(v: StreamV, e: ToolErrorV)
    ensures
        v.tool_error == Some(e) ==> v.calls_finished().tool_error == Some(e),
        v.tool_error is None && v.pending.len() == 0 ==> v.calls_finished().tool_error is None,
        v.tool_error is None && v.pending.len() > 0 ==> v.calls_finished().tool_error is Some
            && v.calls_finished().tool_error == finished(v.pending).1,
        v.tool_error is None && v.pending.len() > 0 ==> v.calls_finished().manager.stop_reason
            == Some("error"@),
{
}

} // verus!
