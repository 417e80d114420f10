//! Laws on thinking that the upstream marks as such, and on what a stream counts as output.
use crate::json::{json_printed, JsonV};
use crate::message_laws::block_event;
use crate::markup_laws::{ends_all, tags_count_where_they_are_not_quoted};
use crate::passage::{
    has_tools, lemma_no_call, lemma_scan_plain, lemma_silent, lemma_text_added_told,
    lemma_told_append, no_invoke_tag, no_markup, told_all,
};
use crate::protocol::{run, ProtoV};
use crate::sse::{block_at, lemma_block_at, opt_seq, Ev, ManagerV};
use crate::stream_laws::{
    every_event_keeps_the_order, fed, in_order, indices_left, lemma_processed_monotone,
    lemma_tagged_ended, lemma_tagged_ended_framed, lemma_text_closed, lemma_text_closed_calm,
    lemma_thinking_closed, lemma_thinking_ensured, under_way,
};
use crate::stream_model::{placeholder_signature, thought, thought_if_any, Draws, EventV, StreamV};
use crate::text::{byte_len, lemma_first_such};
use crate::thinking::{closing_tag, closing_tag_here, start_tag};
use crate::thinking_laws::{
    all_thinking_told, lemma_text_added_thoughtless, lemma_thinking_append, lemma_thinking_deltas,
    lemma_thoughtless,
};
use crate::tokens::{sat_add, token_estimate};
use crate::tool_json::CallV;
use crate::xml_leak::xml_scan;
use vstd::prelude::*;

verus! {

proof fn lemma_ensured_thoughtless(v: StreamV, ids: Draws)
    ensures
        all_thinking_told(v.thinking_ensured(ids).1) == Seq::<char>::empty(),
{
    reveal(StreamV::thinking_ensured);
    let none = Seq::<char>::empty();
    if v.thinking_open() {
        lemma_thoughtless(Seq::empty());
    } else {
        let a = StreamV { thinking_buffer: Seq::empty(), ..v };
        let s1 = a.text_added_unless_white(v.thinking_buffer, ids);
        lemma_text_added_thoughtless(a, v.thinking_buffer, ids);
        lemma_thoughtless(Seq::empty());
        let s2 = s1.0.text_closed();
        let b = StreamV { extracted: true, ..s2.0 };
        let s3 = b.thinking_opened();
        assert(all_thinking_told(s2.1) == none) by {
            reveal(StreamV::text_closed);
            lemma_thoughtless(s2.1);
        }
        assert(all_thinking_told(s3.1) == none) by {
            reveal(StreamV::thinking_opened);
            crate::stream_laws::lemma_kinds();
            lemma_thoughtless(s3.1);
        }
        lemma_thinking_append(s1.1, s2.1);
        lemma_thinking_append(s1.1 + s2.1, s3.1);
        assert(none + none + none =~= none);
    }
}

/// Thinking that the upstream marks as such arrives as thinking, whole and unchanged.
pub proof fn marked_thinking_arrives(
    p: ProtoV,
    v: StreamV,
    t: Seq<char>,
    signature: Option<Seq<char>>,
    ids: Draws,
)
    requires
        in_order(p, v),
        v.thinking_enabled,
        indices_left(v.reasoned(Some(t), signature, None, ids).0),
    ensures
        all_thinking_told(v.reasoned(Some(t), signature, None, ids).1) == t,
{
    reveal(StreamV::reasoned);
    let a = match signature {
        Some(s) => if s.len() == 0 {
            v
        } else {
            StreamV { signature: Some(s), ..v }
        },
        None => v,
    };
    if t.len() == 0 {
        lemma_thoughtless(Seq::empty());
        assert(t =~= Seq::<char>::empty());
    } else {
        let b = a.tokens_added(token_estimate(t));
        assert(in_order(p, b));
        lemma_thinking_ensured(p, b, ids);
        let (w, evs) = b.thinking_ensured(ids);
        lemma_ensured_thoughtless(b, ids);
        let i = w.thinking_index->Some_0;
        let one = thought(w.thinking_index, t);
        lemma_thinking_deltas(i, t);
        assert(one.drop_last() =~= Seq::<Ev>::empty());
        lemma_thoughtless(Seq::empty());
        assert(all_thinking_told(one) =~= t);
        lemma_thinking_append(evs, one);
        assert(Seq::<char>::empty() + t =~= t);
    }
}

/// The texts of events of marked thinking, one behind the other.
pub open spec fn thinking_marked(events: Seq<EventV>) -> Seq<char>
    decreases events.len(),
{
    if events.len() == 0 {
        Seq::empty()
    } else {
        thinking_marked(events.drop_last()) + match events.last() {
            EventV::Reasoning { text: Some(t), .. } => t,
            _ => Seq::empty(),
        }
    }
}

/// Marked thinking that comes in any number of events arrives as one text, whole and in
/// order.
pub proof fn marked_thinking_arrives_in_order(
    p: ProtoV,
    v: StreamV,
    events: Seq<EventV>,
    ids: Draws,
)
    requires
        in_order(p, v),
        v.thinking_enabled,
        forall|k: int|
            0 <= k < events.len() ==> (#[trigger] events[k] matches EventV::Reasoning {
                redacted,
                ..
            } && redacted is None),
        indices_left(fed(v, events, ids).0),
    ensures
        all_thinking_told(fed(v, events, ids).1) == thinking_marked(events),
        in_order(run(p, fed(v, events, ids).1), fed(v, events, ids).0),
        fed(v, events, ids).0.thinking_enabled,
    decreases events.len(),
{
    if events.len() == 0 {
        lemma_thoughtless(Seq::empty());
        crate::stream_laws::lemma_nothing(p, v);
    } else {
        let head = events.drop_last();
        let e = events.last();
        assert(e == events[events.len() - 1]);
        assert forall|k: int| 0 <= k < head.len() implies (#[trigger] head[k]
            matches EventV::Reasoning { redacted, .. } && redacted is None) by {
            assert(head[k] == events[k]);
        }
        let a = fed(v, head, ids);
        lemma_processed_monotone(a.0, e, ids);
        marked_thinking_arrives_in_order(p, v, head, ids);
        let p1 = run(p, a.1);
        every_event_keeps_the_order(p1, a.0, e, ids);
        let b = a.0.processed(e, ids);
        crate::protocol::lemma_run_append(p, a.1, b.1);
        lemma_thinking_append(a.1, b.1);
        if let EventV::Reasoning { text, signature, redacted } = e {
            crate::stream_laws::lemma_reasoned_framed(a.0, text, signature, redacted, ids);
            match text {
                Some(t) => {
                    marked_thinking_arrives(p1, a.0, t, signature, ids);
                },
                None => {
                    reveal(StreamV::reasoned);
                    lemma_thoughtless(Seq::empty());
                },
            }
        }
    }
}

/// Where thinking was not asked for, marked thinking is text like any other: what is told
/// and what is still held back of it make up the text.
pub proof fn thinking_that_was_not_asked_for_is_text(
    p: ProtoV,
    v: StreamV,
    t: Seq<char>,
    signature: Option<Seq<char>>,
    redacted: Option<Seq<char>>,
    ids: Draws,
)
    requires
        under_way(p, v),
        !v.thinking_enabled,
        indices_left(v.reasoned(Some(t), signature, redacted, ids).0),
        !v.reasoned(Some(t), signature, redacted, ids).0.guard.tripped,
        has_tools(v) ==> no_invoke_tag(v.sniffed + t),
    ensures
        ({
            let s = v.reasoned(Some(t), signature, redacted, ids);
            told_all(s.1) + s.0.sniffed == v.sniffed + t
        }),
        v.reasoned(None, signature, redacted, ids) == (v, Seq::<Ev>::empty()),
{
    reveal(StreamV::reasoned);
    if t.len() == 0 {
        assert(v.sniffed + t =~= v.sniffed);
        assert(told_all(Seq::<Ev>::empty()) + v.sniffed =~= v.sniffed);
    } else {
        let a = v.tokens_added(token_estimate(t));
        assert(under_way(p, a));
        lemma_text_added_told(p, a, t, ids);
    }
}

/// The delta of a block, with one text under `key`.
pub open spec fn delta_of(index: int, kind: Seq<char>, key: Seq<char>, text: Seq<char>) -> JsonV {
    JsonV::Object(
        block_event("content_block_delta"@, index).insert(
            "delta"@,
            JsonV::Object(map!["type"@ => JsonV::Text(kind), key => JsonV::Text(text)]),
        ),
    )
}

/// A signature that came with thinking is kept until the thinking ends, the last one that
/// was not empty; it signs the thinking then. Thinking without one is signed all the same.
pub proof fn thinking_is_signed(p: ProtoV, v: StreamV, s: Seq<char>, i: int, ids: Draws)
    requires
        under_way(p, v),
        !v.in_thinking,
        v.thinking_open(),
        v.thinking_index == Some(i),
    ensures
        v.thinking_enabled && s.len() > 0 ==> v.reasoned(None, Some(s), None, ids).0 == (StreamV {
            signature: Some(s),
            ..v
        }),
        v.thinking_enabled && s.len() == 0 ==> v.reasoned(None, Some(s), None, ids).0 == v,
        ({
            let signed = match v.signature {
                Some(given) => given,
                None => "kiro-rs-thinking-signature"@,
            };
            v.native_thinking_closed().1 == seq![
                Ev::Delta(i, delta_of(i, "thinking_delta"@, "thinking"@, Seq::empty())),
                Ev::Delta(i, delta_of(i, "signature_delta"@, "signature"@, signed)),
                Ev::BlockStop(i),
            ]
        }),
        !v.native_thinking_closed().0.thinking_open(),
        v.native_thinking_closed().0.signature is None,
{
    reveal(StreamV::reasoned);
    lemma_thinking_closed(p, v);
    lemma_block_at(v.manager.blocks, i, 0);
    let signed = match v.signature {
        Some(given) => given,
        None => "kiro-rs-thinking-signature"@,
    };
    assert(v.native_thinking_closed().1 =~= seq![
        Ev::Delta(i, delta_of(i, "thinking_delta"@, "thinking"@, Seq::empty())),
        Ev::Delta(i, delta_of(i, "signature_delta"@, "signature"@, signed)),
        Ev::BlockStop(i),
    ]);
}

/// Thinking that must not be shown is passed on as it came, in a block of its own that ends
/// what was open before.
pub proof fn hidden_thinking_is_passed_on(p: ProtoV, v: StreamV, data: Seq<char>)
    requires
        in_order(p, v),
        indices_left(v.redacted_sent(data).0),
    ensures
        ({
            let evs = v.redacted_sent(data).1;
            let n = evs.len() as int;
            let i = v.redacted_sent(data).0.manager.next_block_index - 1;
            &&& n >= 2
            &&& evs[n - 2] == Ev::BlockStart(
                i,
                "redacted_thinking"@,
                JsonV::Object(
                    block_event("content_block_start"@, i).insert(
                        "content_block"@,
                        JsonV::Object(
                            map![
                                "type"@ => JsonV::Text("redacted_thinking"@),
                                "data"@ => JsonV::Text(data),
                            ],
                        ),
                    ),
                ),
            )
            &&& evs[n - 1] == Ev::BlockStop(i)
            &&& !v.redacted_sent(data).0.thinking_open()
        }),
{
    crate::stream_laws::lemma_redacted(p, v, data);
    reveal(StreamV::redacted_sent);
    crate::stream_laws::lemma_kinds();
    let s1 = if v.in_thinking {
        v.tagged_thinking_ended()
    } else {
        v.thinking_closed()
    };
    if v.in_thinking {
        lemma_tagged_ended(p, v);
        lemma_tagged_ended_framed(v);
    } else {
        lemma_thinking_closed(p, v);
    }
    let p1 = run(p, s1.1);
    lemma_text_closed_calm(s1.0);
    lemma_text_closed(p1, s1.0);
    let s2 = s1.0.text_closed();
    let w = s2.0;
    let index = w.manager.next_block_index;
    lemma_block_at(w.manager.blocks, index, 0);
    assert(block_at(w.manager.blocks, index, 0) is None);
    let block = crate::sse::start_data(index, crate::stream_model::redacted_block(data));
    let (m1, e3) = w.manager.index_taken().block_started(index, "redacted_thinking"@, block);
    crate::stream_laws::lemma_kinds();
    reveal_strlit("redacted_thinking");
    reveal_strlit("tool_use");
    assert("redacted_thinking"@.len() != "tool_use"@.len());
    let last = m1.blocks.len() - 1;
    lemma_block_at(m1.blocks, index, 0);
    assert(m1.blocks[last].index == index);
    let k = block_at(m1.blocks, index, 0)->Some_0;
    if k < last {
        assert(m1.blocks[k] == w.manager.blocks[k]);
    }
    assert(e3 == seq![Ev::BlockStart(index, "redacted_thinking"@, block)]);
    assert(opt_seq(m1.block_stopped(index).1) == seq![Ev::BlockStop(index)]);
}

proof fn lemma_sent_uncounted(v: StreamV, text: Seq<char>)
    ensures
        v.text_sent(text).0.output_tokens == v.output_tokens,
{
    reveal(StreamV::text_sent);
    reveal(StreamV::text_opened);
}

proof fn lemma_added_uncounted(v: StreamV, text: Seq<char>, ids: Draws)
    requires
        no_invoke_tag(v.sniffed + text),
    ensures
        v.text_added(text, ids).0.output_tokens == v.output_tokens,
{
    reveal(StreamV::text_added);
    let buf = v.sniffed + text;
    lemma_no_call(buf);
    let a = StreamV { sniffed: Seq::empty(), ..v };
    lemma_sent_uncounted(a, buf.take(crate::stream_model::unfinished_tag(buf)));
}

/// A text of the answer counts as output when it goes on to the client's side, once, and by
/// the estimate for what goes on; a call counts by the estimate for its arguments.
pub proof fn output_is_counted_once(v: StreamV, content: Seq<char>, call: CallV, ids: Draws)
    requires
        !v.thinking_enabled,
        v.xml_buffer.len() == 0,
        !v.xml_stripping,
        no_markup(content, false, false),
        no_invoke_tag(v.sniffed + content),
    ensures
        ({
            let w = v.answered(content, ids).0;
            let passed = content.take(content.len() - w.xml_buffer.len());
            &&& passed + w.xml_buffer == content
            &&& w.output_tokens == if passed.len() == 0 {
                v.output_tokens
            } else {
                sat_add(v.output_tokens, token_estimate(passed))
            }
        }),
        v.call_sent(call).0.output_tokens == sat_add(
            v.output_tokens,
            token_estimate(json_printed(call.input)),
        ),
{
    reveal(StreamV::answered);
    reveal(StreamV::call_sent);
    assert(v.xml_buffer + content =~= content);
    lemma_scan_plain(content, false, false);
    let scan = xml_scan(false, content);
    let passed = content.take(content.len() - scan.buffer.len());
    assert(passed =~= scan.out);
    let a = StreamV { xml_buffer: scan.buffer, xml_stripping: scan.stripping, ..v };
    if scan.out.len() > 0 {
        let b = a.native_thinking_closed().0.tokens_added(token_estimate(scan.out));
        assert((v.sniffed + content).subrange(0, (v.sniffed.len() + scan.out.len()) as int)
            =~= v.sniffed + scan.out);
        crate::passage::lemma_no_invoke_within(
            v.sniffed + content,
            0,
            (v.sniffed.len() + scan.out.len()) as int,
        );
        lemma_added_uncounted(b, scan.out, ids);
        crate::stream_laws::lemma_text_added_calm(b, scan.out, ids);
        lemma_added_keeps_filter(b, scan.out, ids);
    }
}

proof fn lemma_added_keeps_filter(v: StreamV, text: Seq<char>, ids: Draws)
    requires
        no_invoke_tag(v.sniffed + text),
    ensures
        v.text_added(text, ids).0.xml_buffer == v.xml_buffer,
{
    reveal(StreamV::text_added);
    reveal(StreamV::text_sent);
    reveal(StreamV::text_opened);
    lemma_no_call(v.sniffed + text);
}

/// Marked thinking counts by the estimate for its text, and thinking that must not be shown
/// as a fixed number of tokens.
pub proof fn marked_thinking_is_counted_once(
    v: StreamV,
    t: Seq<char>,
    data: Seq<char>,
    ids: Draws,
)
    requires
        v.thinking_enabled,
        v.thinking_open(),
        t.len() > 0,
        data.len() > 0,
    ensures
        v.reasoned(Some(t), None, None, ids).0.output_tokens == sat_add(
            v.output_tokens,
            token_estimate(t),
        ),
        v.reasoned(None, None, Some(data), ids).0.output_tokens == sat_add(v.output_tokens, 8),
{
    reveal(StreamV::reasoned);
    reveal(StreamV::thinking_ensured);
    reveal(StreamV::redacted_sent);
    reveal(StreamV::tagged_thinking_ended);
    reveal(StreamV::thinking_finished);
    reveal(StreamV::text_closed);
}

proof fn lemma_finished_told(v: StreamV, content: Seq<char>, i: int)
    requires
        v.thinking_index == Some(i),
    ensures
        all_thinking_told(v.thinking_finished(content).1) == content,
{
    reveal(StreamV::thinking_finished);
    let none = Seq::<char>::empty();
    let head = thought_if_any(Some(i), content);
    lemma_thinking_deltas(i, content);
    lemma_thinking_deltas(i, none);
    lemma_thinking_deltas(i, placeholder_signature());
    lemma_thoughtless(Seq::empty());
    if content.len() > 0 {
        assert(head.drop_last() =~= Seq::<Ev>::empty());
        assert(all_thinking_told(head) =~= content);
    } else {
        assert(content =~= none);
    }
    let w = StreamV { in_thinking: false, extracted: true, ..v };
    let tail = w.thinking_ended(placeholder_signature()).1;
    lemma_thoughtless(tail);
    lemma_thinking_append(head, tail);
    assert(content + none =~= content);
}

/// Thinking between tags that is cut off, by the end of the stream or by thinking that must
/// not be shown, is told to its last character: all that is buffered of it, or, where the
/// end tag stands there with nothing but white space behind it, all before that tag.
pub proof fn thinking_that_is_cut_off_is_told(v: StreamV, i: int, k: int)
    requires
        v.thinking_index == Some(i),
    ensures
        ({
            let buf = v.thinking_buffer;
            let s = v.tagged_thinking_ended();
            let open = forall|j: int| 0 <= j < buf.len() ==> !#[trigger] ends_all(buf, j);
            let first = ends_all(buf, k) && forall|j: int|
                0 <= j < k ==> !#[trigger] ends_all(buf, j);
            &&& s.0.thinking_buffer.len() == 0
            &&& !s.0.in_thinking
            &&& open ==> all_thinking_told(s.1) == buf
            &&& first ==> all_thinking_told(s.1) == buf.take(k)
            &&& v.thinking_open() ==> v.tagged_thinking_cut().1 == s.1
            &&& v.thinking_open() && v.thinking_enabled && v.in_thinking ==> forall|ids: Draws|
                (#[trigger] v.buffer_sent(ids)).1 == s.1
        }),
{
    reveal(StreamV::tagged_thinking_ended);
    reveal(StreamV::tagged_thinking_cut);
    reveal(StreamV::buffer_sent);
    let buf = v.thinking_buffer;
    tags_count_where_they_are_not_quoted(buf, k);
    match closing_tag(buf) {
        Some(at) => {
            tags_count_where_they_are_not_quoted(buf, at);
            lemma_finished_told(v, buf.take(at), i);
        },
        None => {
            lemma_finished_told(v, buf, i);
            if ends_all(buf, k) {
                lemma_first_such(closing_tag_here(buf), 0, buf.len() as int);
            }
        },
    }
    reveal(StreamV::thinking_finished);
}

/// Thinking whose end tag has arrived just before a tool call is told up to the tag, and
/// nothing is made of the white space behind it; without the tag there, nothing is told yet.
pub proof fn thinking_before_a_call_is_told(v: StreamV, i: int, k: int, ids: Draws)
    requires
        v.thinking_index == Some(i),
    ensures
        ({
            let buf = v.thinking_buffer;
            let s = v.end_tag_at_end_taken(ids);
            let open = forall|j: int| 0 <= j < buf.len() ==> !#[trigger] ends_all(buf, j);
            let first = ends_all(buf, k) && forall|j: int|
                0 <= j < k ==> !#[trigger] ends_all(buf, j);
            &&& open ==> s == (v, Seq::<Ev>::empty())
            &&& first ==> all_thinking_told(s.1) == buf.take(k) && s.0.thinking_buffer.len() == 0
                && !s.0.in_thinking
        }),
{
    reveal(StreamV::end_tag_at_end_taken);
    let buf = v.thinking_buffer;
    tags_count_where_they_are_not_quoted(buf, k);
    match closing_tag(buf) {
        Some(at) => {
            tags_count_where_they_are_not_quoted(buf, at);
            lemma_finished_told(v, buf.take(at), i);
            let rest = crate::text::trimmed_start(buf.skip(at + 11));
            let s = v.thinking_finished(buf.take(at));
            let w = StreamV { thinking_buffer: Seq::empty(), ..s.0 };
            lemma_text_added_thoughtless(w, rest, ids);
            crate::stream_laws::lemma_text_added_calm(w, rest, ids);
            lemma_thinking_append(s.1, w.text_added(rest, ids).1);
            assert(buf.take(at) + Seq::<char>::empty() =~= buf.take(at));
            reveal(StreamV::thinking_finished);
            assert(v.end_tag_at_end_taken(ids) == (
                w.text_added(rest, ids).0,
                s.1 + w.text_added(rest, ids).1,
            ));
            reveal_strlit("</thinking>");
            assert(ends_all(buf, at) && 0 <= at < buf.len());
        },
        None => {
            if ends_all(buf, k) {
                lemma_first_such(closing_tag_here(buf), 0, buf.len() as int);
            }
        },
    }
}

/// A call that has not closed yet, at a place where one may be, is held back whole as long
/// as it has no more than a quarter of a megabyte; beyond that, and at the end, nothing of
/// it is held back.
pub proof fn unclosed_calls_are_held_back(v: StreamV, buf: Seq<char>, start: int, flush: bool)
    requires
        0 <= start <= buf.len(),
        v.callable_behind(buf.take(start)),
    ensures
        ({
            let w = v.unclosed_taken(buf, start, flush).0;
            if !flush && byte_len(buf.skip(start)) <= 262_144 {
                w.sniffed == buf.skip(start)
            } else {
                w.sniffed == v.sniffed
            }
        }),
{
    reveal(StreamV::unclosed_taken);
    reveal(StreamV::text_sent);
    reveal(StreamV::text_opened);
}

/// A tool call ends the thinking before it where the end tag has arrived, with white space
/// alone behind it: what stands before the tag is told as thinking, and it is over.
pub proof fn a_call_ends_the_thinking_before_it(v: StreamV, i: int, k: int, ids: Draws)
    requires
        v.thinking_index == Some(i),
        v.thinking_enabled,
        v.in_thinking,
        ends_all(v.thinking_buffer, k),
        forall|j: int| 0 <= j < k ==> !#[trigger] ends_all(v.thinking_buffer, j),
    ensures
        all_thinking_told(v.settled_before_call(ids).1) == v.thinking_buffer.take(k),
        !v.settled_before_call(ids).0.in_thinking,
        v.settled_before_call(ids).0.thinking_buffer.len() == 0,
        v.settled_before_call(ids).0.manager.has_tool_use,
{
    reveal(StreamV::settled_before_call);
    let a = StreamV { manager: ManagerV { has_tool_use: true, ..v.manager }, ..v };
    thinking_before_a_call_is_told(a, i, k, ids);
    let s = a.end_tag_at_end_taken(ids);
    assert(s.0.extracted && s.0.manager.has_tool_use) by {
        reveal(StreamV::end_tag_at_end_taken);
        reveal(StreamV::thinking_finished);
        tags_count_where_they_are_not_quoted(a.thinking_buffer, k);
        let buf = a.thinking_buffer;
        let rest = crate::text::trimmed_start(buf.skip(k + 11));
        let w = StreamV { thinking_buffer: Seq::empty(), ..a.thinking_finished(buf.take(k)).0 };
        crate::stream_laws::lemma_text_added_calm(w, rest, ids);
        let back = buf.skip(k + 11);
        reveal_strlit("</thinking>");
        assert forall|j: int| 0 <= j < back.len() implies crate::text::is_white(
            #[trigger] back[j],
        ) by {
            assert(back[j] == buf[k + 11 + j]);
        }
        crate::tag_laws::lemma_white_skipped(back, 0);
        assert(rest.len() == 0);
        reveal(StreamV::text_added);
    }
    let none = Seq::<Ev>::empty();
    assert(none + s.1 + none =~= s.1);
}

/// Text that was buffered in search of a tag is told before marked thinking begins, unless
/// it is blank.
pub proof fn buffered_text_is_told_before_thinking(p: ProtoV, v: StreamV, ids: Draws)
    requires
        in_order(p, v),
        !v.thinking_open(),
        indices_left(v.thinking_ensured(ids).0),
        !v.thinking_ensured(ids).0.guard.tripped,
        has_tools(v) ==> no_invoke_tag(v.sniffed + v.thinking_buffer),
    ensures
        ({
            let s = v.thinking_ensured(ids);
            &&& s.0.thinking_buffer.len() == 0
            &&& s.0.thinking_open()
            &&& if crate::loop_laws::is_blank_text(v.thinking_buffer) {
                told_all(s.1).len() == 0
            } else {
                told_all(s.1) + s.0.sniffed == v.sniffed + v.thinking_buffer
            }
        }),
{
    lemma_thinking_ensured(p, v, ids);
    reveal(StreamV::thinking_ensured);
    let buf = v.thinking_buffer;
    assert(crate::loop_laws::is_blank_text(buf) == crate::text::all_white(buf));
    let a = StreamV { thinking_buffer: Seq::empty(), ..v };
    assert(under_way(p, a));
    let s1 = a.text_added_unless_white(buf, ids);
    crate::stream_laws::lemma_text_added_calm(a, buf, ids);
    let s2 = s1.0.text_closed();
    lemma_text_closed_calm(s1.0);
    let b = StreamV { extracted: true, ..s2.0 };
    let s3 = b.thinking_opened();
    let none = Seq::<char>::empty();
    assert(told_all(s2.1) == none && s2.0.sniffed == s1.0.sniffed && s2.0.guard == s1.0.guard) by {
        reveal(StreamV::text_closed);
        lemma_silent(s2.1);
    }
    assert(told_all(s3.1) == none && s3.0.sniffed == b.sniffed && s3.0.guard == b.guard
        && s3.0.thinking_buffer == b.thinking_buffer && b.manager.next_block_index
        <= s3.0.manager.next_block_index) by {
        reveal(StreamV::thinking_opened);
        crate::stream_laws::lemma_kinds();
        lemma_silent(s3.1);
    }
    lemma_told_append(s1.1, s2.1);
    lemma_told_append(s1.1 + s2.1, s3.1);
    if crate::text::all_white(buf) {
        lemma_silent(s1.1);
        assert(none + none + none =~= none);
    } else {
        lemma_text_added_told(p, a, buf, ids);
        assert(told_all(s1.1) + none + none =~= told_all(s1.1));
    }
}

/// Text before the tag that opens thinking is told as text, unless it is blank, and what
/// stands behind the tag is looked at as thinking.
pub proof fn text_before_thinking_is_told(p: ProtoV, v: StreamV, at: int, ids: Draws)
    requires
        under_way(p, v),
        start_tag(v.thinking_buffer) == Some(at),
        indices_left(v.start_sought(ids).0),
        !v.start_sought(ids).0.guard.tripped,
        has_tools(v) ==> no_invoke_tag(v.sniffed + v.thinking_buffer.take(at)),
    ensures
        ({
            let s = v.start_sought(ids);
            let head = v.thinking_buffer.take(at);
            &&& s.0.in_thinking
            &&& s.0.thinking_buffer == v.thinking_buffer.skip(at + 10)
            &&& if crate::loop_laws::is_blank_text(head) {
                told_all(s.1).len() == 0
            } else {
                told_all(s.1) + s.0.sniffed == v.sniffed + head
            }
        }),
{
    reveal(StreamV::start_sought);
    let head = v.thinking_buffer.take(at);
    assert(crate::loop_laws::is_blank_text(head) == crate::text::all_white(head));
    let s1 = v.text_added_unless_white(head, ids);
    crate::stream_laws::lemma_text_added_calm(v, head, ids);
    let w = StreamV {
        in_thinking: true,
        strip_newline: true,
        thinking_buffer: v.thinking_buffer.skip(at + 10),
        ..s1.0
    };
    let s2 = w.thinking_opened();
    let none = Seq::<char>::empty();
    assert(told_all(s2.1) == none && s2.0.sniffed == w.sniffed && s2.0.guard == w.guard
        && s2.0.thinking_buffer == w.thinking_buffer && s2.0.in_thinking
        && w.manager.next_block_index <= s2.0.manager.next_block_index) by {
        reveal(StreamV::thinking_opened);
        crate::stream_laws::lemma_kinds();
        lemma_silent(s2.1);
    }
    lemma_told_append(s1.1, s2.1);
    if crate::text::all_white(head) {
        lemma_silent(s1.1);
        assert(none + none =~= none);
    } else {
        lemma_text_added_told(p, v, head, ids);
        assert(told_all(s1.1) + none =~= told_all(s1.1));
    }
}

/// An answer that begins ends the marked thinking before it: the thinking is signed and its
/// block stopped before anything of the answer is sent.
pub proof fn an_answer_ends_marked_thinking(
    p: ProtoV,
    v: StreamV,
    content: Seq<char>,
    i: int,
    ids: Draws,
)
    requires
        under_way(p, v),
        !v.in_thinking,
        v.thinking_open(),
        v.thinking_index == Some(i),
        v.xml_buffer.len() == 0,
        !v.xml_stripping,
        content.len() > 0,
        forall|k: int| 0 <= k < content.len() ==> content[k] != '<',
    ensures
        ({
            let evs = v.answered(content, ids).1;
            let signed = match v.signature {
                Some(given) => given,
                None => "kiro-rs-thinking-signature"@,
            };
            &&& evs.len() >= 3
            &&& evs[0] == Ev::Delta(i, delta_of(i, "thinking_delta"@, "thinking"@, Seq::empty()))
            &&& evs[1] == Ev::Delta(i, delta_of(i, "signature_delta"@, "signature"@, signed))
            &&& evs[2] == Ev::BlockStop(i)
        }),
{
    reveal(StreamV::answered);
    assert(v.xml_buffer + content =~= content);
    crate::xml_leak::text_without_tags_is_kept(content);
    let scan = xml_scan(false, content);
    let a = StreamV { xml_buffer: scan.buffer, xml_stripping: scan.stripping, ..v };
    assert(under_way(p, a));
    thinking_is_signed(p, a, Seq::empty(), i, ids);
    assert(scan.out.len() > 0);
}

/// Text that is sent counts for the code fences in it, all that passes of it and nothing
/// else; indices of blocks are given out one by one.
pub proof fn what_is_sent_counts_for_fences(v: StreamV, text: Seq<char>)
    ensures
        v.text_sent(text).0.fence == crate::fence::fence_after(
            v.fence,
            crate::stray::guard_filter(v.guard, text).1,
        ),
        v.manager.next_block_index < i32::MAX ==> v.manager.index_taken().next_block_index
            == v.manager.next_block_index + 1,
{
    reveal(StreamV::text_sent);
    reveal(StreamV::text_opened);
    let kept = crate::stray::guard_filter(v.guard, text).1;
    if kept.len() == 0 {
        assert(kept =~= Seq::<char>::empty());
    }
}

} // verus!
