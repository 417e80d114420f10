//! Laws of a stream: the events of a message come in order, whatever the
//! upstream sends, and what is charged does not depend on how texts are cut.
use crate::invoke::{invoke_end, invoke_start};
use crate::names::Restoring;
use crate::protocol::{
    blocks_ordered, delta_is_allowed, failure_is_allowed, finish_is_allowed, is_signature, legal,
    lemma_found_at, lemma_run_append, lemma_run_one, lemma_run_push, mirrors, open_delta_is_allowed,
    run, start_is_allowed, stop_is_allowed, ProtoV,
};
use crate::sse::{block_at, delta_data, lemma_block_at, opt_seq, start_data, Ev, ManagerV};
use crate::stream_model::{
    followed, placeholder_signature, redacted_block, signature_delta, text_block, text_delta,
    thinking_block, thinking_delta, thought, thought_if_any, tool_block, Draws, EventV, Step,
    StreamV,
};
use crate::tool_json::CallV;
use vstd::prelude::*;

verus! {

/// The blocks of `m` are still there in `n`, those of thinking unchanged; new
/// ones are not of thinking.
pub open spec fn grows(m: ManagerV, n: ManagerV) -> bool {
    &&& m.blocks.len() <= n.blocks.len()
    &&& m.next_block_index <= n.next_block_index
    &&& forall|k: int|
        0 <= k < m.blocks.len() ==> (#[trigger] n.blocks[k]).index == m.blocks[k].index
            && n.blocks[k].kind == m.blocks[k].kind && (m.blocks[k].kind == "thinking"@
            ==> n.blocks[k] == m.blocks[k])
    &&& forall|k: int|
        m.blocks.len() <= k < n.blocks.len() ==> (#[trigger] n.blocks[k]).kind != "thinking"@
}

/// The message is under way, a client has seen of it what the manager knows, and
/// the stream's notes on its blocks are right.
pub open spec fn under_way(p: ProtoV, v: StreamV) -> bool {
    &&& mirrors(p, v.manager)
    &&& blocks_ordered(v.manager)
    &&& !v.manager.message_ended
    &&& !v.manager.message_delta_sent
    &&& forall|k: int|
        0 <= k < v.manager.blocks.len() && (#[trigger] v.manager.blocks[k]).open()
            && v.manager.blocks[k].kind == "thinking"@ ==> v.thinking_index == Some(
            v.manager.blocks[k].index,
        )
    &&& forall|id: Seq<char>| #[trigger]
        v.tool_blocks.dom().contains(id) ==> is_tool_block(v.manager, v.tool_blocks[id])
    &&& v.thinking_open() ==> v.in_thinking || v.extracted
}

/// The block `index` is one of a tool call.
pub open spec fn is_tool_block(m: ManagerV, index: int) -> bool {
    match block_at(m.blocks, index, 0) {
        Some(k) => m.blocks[k].kind == "tool_use"@,
        None => false,
    }
}

/// Besides, thinking between tags was asked for and has an open block.
pub open spec fn in_order(p: ProtoV, v: StreamV) -> bool {
    under_way(p, v) && (v.in_thinking ==> v.thinking_enabled && v.thinking_open())
}

/// What is not changed by sending texts.
pub open spec fn same_request(v: StreamV, w: StreamV) -> bool {
    &&& w.model == v.model
    &&& w.message_id == v.message_id
    &&& w.input_tokens == v.input_tokens
    &&& w.context_input_tokens == v.context_input_tokens
    &&& w.provider_token_usage == v.provider_token_usage
    &&& w.names == v.names
    &&& w.known == v.known
    &&& w.thinking_enabled == v.thinking_enabled
    &&& w.cache_usage == v.cache_usage
    &&& w.metered == v.metered
    &&& w.metering == v.metering
}

/// Indices of blocks are left.
pub open spec fn indices_left(v: StreamV) -> bool {
    v.manager.next_block_index < i32::MAX
}

/// The request is the same and indices are not given back.
pub open spec fn framed(v: StreamV, w: StreamV) -> bool {
    same_request(v, w) && v.manager.next_block_index <= w.manager.next_block_index
}

/// Besides, the notes on thinking are the same.
pub open spec fn calm(v: StreamV, w: StreamV) -> bool {
    &&& framed(v, w)
    &&& w.in_thinking == v.in_thinking
    &&& w.extracted == v.extracted
    &&& w.thinking_index == v.thinking_index
    &&& w.thinking_buffer == v.thinking_buffer
}

/// The step sends legal events and keeps the message under way.
pub open spec fn fine(p: ProtoV, s: Step) -> bool {
    legal(p, s.1) && under_way(run(p, s.1), s.0)
}

pub(crate) proof fn lemma_kinds()
    ensures
        "text"@ != "thinking"@,
        "tool_use"@ != "thinking"@,
        "redacted_thinking"@ != "thinking"@,
        "tool_use"@ != "text"@,
        "redacted_thinking"@ != "text"@,
{
    reveal_strlit("text");
    reveal_strlit("thinking");
    reveal_strlit("tool_use");
    reveal_strlit("redacted_thinking");
    assert("tool_use"@[0] == 't' && "tool_use"@[1] == 'o');
    assert("thinking"@[1] == 'h');
    assert("text"@.len() == 4);
}

/// Sending nothing is fine.
pub(crate) proof fn lemma_nothing(p: ProtoV, v: StreamV)
    requires
        under_way(p, v),
    ensures
        fine(p, (v, Seq::empty())),
{
    assert(run(p, Seq::<Ev>::empty()) == p);
}

/// Two steps that are fine are fine one after the other.
proof fn lemma_both(p: ProtoV, a: Step, b: Step)
    requires
        fine(p, a),
        fine(run(p, a.1), b),
    ensures
        fine(p, followed(a.1, b)),
        run(p, a.1 + b.1) == run(run(p, a.1), b.1),
{
    lemma_run_append(p, a.1, b.1);
}

proof fn lemma_grows_thinking(m: ManagerV, n: ManagerV, i: int)
    requires
        blocks_ordered(m),
        blocks_ordered(n),
        grows(m, n),
    ensures
        n.is_open(i, "thinking"@) == m.is_open(i, "thinking"@),
        is_tool_block(m, i) ==> is_tool_block(n, i),
{
    lemma_block_at(m.blocks, i, 0);
    lemma_block_at(n.blocks, i, 0);
    if let Some(k) = block_at(m.blocks, i, 0) {
        assert(n.blocks[k].index == i);
        lemma_found_at(n, k);
    } else if let Some(k) = block_at(n.blocks, i, 0) {
        if k < m.blocks.len() {
            assert(m.blocks[k].index == i);
        }
    }
}

/// A message stays under way when its blocks grow.
proof fn lemma_grown(q: ProtoV, p: ProtoV, v: StreamV, w: StreamV)
    requires
        under_way(p, v),
        mirrors(q, w.manager),
        blocks_ordered(w.manager),
        !w.manager.message_ended,
        !w.manager.message_delta_sent,
        grows(v.manager, w.manager),
        w.in_thinking == v.in_thinking,
        w.extracted == v.extracted,
        w.thinking_index == v.thinking_index,
        forall|id: Seq<char>| #[trigger]
            w.tool_blocks.dom().contains(id) ==> (v.tool_blocks.dom().contains(id)
                && w.tool_blocks[id] == v.tool_blocks[id]) || is_tool_block(
                w.manager,
                w.tool_blocks[id],
            ),
    ensures
        under_way(q, w),
        w.thinking_open() == v.thinking_open(),
{
    let m = v.manager;
    let n = w.manager;
    if let Some(i) = v.thinking_index {
        lemma_grows_thinking(m, n, i);
    }
    assert forall|k: int|
        0 <= k < n.blocks.len() && (#[trigger] n.blocks[k]).open() && n.blocks[k].kind
            == "thinking"@ implies w.thinking_index == Some(n.blocks[k].index) by {
        if k < m.blocks.len() {
            assert(n.blocks[k] == m.blocks[k]);
        }
    }
    assert forall|id: Seq<char>| #[trigger] w.tool_blocks.dom().contains(id) implies is_tool_block(
        n,
        w.tool_blocks[id],
    ) by {
        if v.tool_blocks.dom().contains(id) && w.tool_blocks[id] == v.tool_blocks[id] {
            lemma_grows_thinking(m, n, v.tool_blocks[id]);
        }
    }
}

/// An index that has just been taken is fresh.
pub(crate) proof fn lemma_fresh_index(p: ProtoV, m: ManagerV)
    requires
        mirrors(p, m),
        blocks_ordered(m),
        m.index_taken().next_block_index < i32::MAX,
    ensures
        mirrors(p, m.index_taken()),
        blocks_ordered(m.index_taken()),
        m.index_taken().next_block_index == m.next_block_index + 1,
        block_at(m.blocks, m.next_block_index, 0) is None,
        m.index_taken().blocks == m.blocks,
{
    lemma_block_at(m.blocks, m.next_block_index, 0);
    let n = m.index_taken();
    assert forall|i: int| 0 <= i < n.blocks.len() implies (#[trigger] n.blocks[i]).started
        && n.blocks[i].index < n.next_block_index by {
        assert(m.blocks[i].started);
    }
}

proof fn lemma_text_opened(p: ProtoV, v: StreamV)
    requires
        under_way(p, v),
        indices_left(v.text_opened().0),
    ensures
        fine(p, v.text_opened()),
        v.text_opened().0.thinking_open() == v.thinking_open(),
{
    reveal(StreamV::text_opened);
    lemma_kinds();
    let index = v.manager.next_block_index;
    let m = v.manager.index_taken();
    let data = start_data(index, text_block());
    let s = v.text_opened();
    lemma_fresh_index(p, v.manager);
    start_is_allowed(p, m, index, "text"@, data);
    assert(grows(v.manager, s.0.manager));
    lemma_grown(run(p, s.1), p, v, s.0);
}

proof fn lemma_text_opened_calm(v: StreamV)
    ensures
        calm(v, v.text_opened().0),
        v.text_opened().0.text_index is Some,
{
    reveal(StreamV::text_opened);
}

pub(crate) proof fn lemma_text_sent_calm(v: StreamV, text: Seq<char>)
    ensures
        calm(v, v.text_sent(text).0),
{
    reveal(StreamV::text_sent);
    reveal(StreamV::text_opened);
}

pub(crate) proof fn lemma_text_sent(p: ProtoV, v: StreamV, text: Seq<char>)
    requires
        under_way(p, v),
        indices_left(v.text_sent(text).0),
    ensures
        fine(p, v.text_sent(text)),
        v.text_sent(text).0.thinking_open() == v.thinking_open(),
{
    reveal(StreamV::text_sent);
    let (guard, kept) = crate::stray::guard_filter(v.guard, text);
    let a = StreamV { guard, ..v };
    assert(under_way(p, a));
    lemma_nothing(p, a);
    if kept.len() > 0 {
        let b = StreamV {
            fence: crate::fence::fence_after(a.fence, kept),
            text_index: a.open_text_index(),
            ..a
        };
        assert(under_way(p, b));
        lemma_nothing(p, b);
        let s = match b.text_index {
            Some(_) => (b, Seq::<Ev>::empty()),
            None => b.text_opened(),
        };
        if b.text_index is None {
            lemma_text_opened(p, b);
        }
        let index = s.0.text_index->Some_0;
        let data = delta_data(index, text_delta(kept));
        let end = (s.0, opt_seq(s.0.manager.delta(index, data)));
        delta_is_allowed(run(p, s.1), s.0.manager, index, data);
        lemma_both(p, s, end);
    }
}

pub(crate) proof fn lemma_call_sent_calm(v: StreamV, call: CallV)
    ensures
        calm(v, v.call_sent(call).0),
{
    reveal(StreamV::call_sent);
}

proof fn lemma_call_sent(p: ProtoV, v: StreamV, call: CallV)
    requires
        under_way(p, v),
        indices_left(v.call_sent(call).0),
    ensures
        fine(p, v.call_sent(call)),
        v.call_sent(call).0.thinking_open() == v.thinking_open(),
{
    reveal(StreamV::call_sent);
    lemma_kinds();
    let s = v.call_sent(call);
    let m0 = ManagerV { has_tool_use: true, ..v.manager };
    let known = v.tool_blocks.dom().contains(call.id);
    let index = if known {
        v.tool_blocks[call.id]
    } else {
        m0.next_block_index
    };
    let m = if known {
        m0
    } else {
        m0.index_taken()
    };
    let input = crate::json::json_printed(call.input);
    let data = start_data(index, tool_block(call));
    let (m1, start) = m.block_started(index, "tool_use"@, data);
    let delta_value = delta_data(index, crate::stream_model::input_delta(input));
    let delta = m1.delta(index, delta_value);
    let (m2, stop) = m1.block_stopped(index);
    assert(mirrors(p, m0));
    assert(blocks_ordered(m0));
    if known {
        assert(is_tool_block(v.manager, index));
        lemma_block_at(v.manager.blocks, index, 0);
    } else {
        lemma_fresh_index(p, m0);
    }
    start_is_allowed(p, m, index, "tool_use"@, data);
    let p1 = run(p, start);
    delta_is_allowed(p1, m1, index, delta_value);
    let p2 = run(p1, opt_seq(delta));
    assert(grows(v.manager, m1));
    assert(is_tool_block(m1, index)) by {
        if known {
            lemma_grows_thinking(v.manager, m1, index);
        } else {
            lemma_found_at(m1, m1.blocks.len() - 1);
        }
    }
    lemma_block_at(m1.blocks, index, 0);
    stop_is_allowed(p2, m1, index);
    lemma_run_append(p, start, opt_seq(delta));
    lemma_run_append(p, start + opt_seq(delta), opt_seq(stop));
    assert(grows(v.manager, m2)) by {
        assert forall|k: int| 0 <= k < v.manager.blocks.len() implies (
        #[trigger] m2.blocks[k]).index == v.manager.blocks[k].index && m2.blocks[k].kind
            == v.manager.blocks[k].kind && (v.manager.blocks[k].kind == "thinking"@
            ==> m2.blocks[k] == v.manager.blocks[k]) by {
            assert(m1.blocks[k].index == v.manager.blocks[k].index);
            if v.manager.blocks[k].kind == "thinking"@ {
                if m1.blocks[k].index == index {
                    lemma_found_at(m1, k);
                }
                assert(m2.blocks[k] == m1.blocks[k]);
            }
        }
        assert forall|k: int| v.manager.blocks.len() <= k < m2.blocks.len() implies (
        #[trigger] m2.blocks[k]).kind != "thinking"@ by {
            assert(m1.blocks[k].kind != "thinking"@);
        }
    }
    assert(is_tool_block(m2, index));
    lemma_grown(run(p, s.1), p, v, s.0);
}

proof fn lemma_block_taken_calm(v: StreamV, buf: Seq<char>, start: int, end: int, ids: Draws)
    ensures
        calm(v, v.block_taken(buf, start, end, ids).0),
{
    reveal(StreamV::block_taken);
    let before = crate::stray::lead(v.fence.partial, buf.take(start));
    let block = buf.subrange(start, end);
    lemma_text_sent_calm(v, buf.take(end));
    lemma_text_sent_calm(v, before);
    let a = v.text_sent(before).0;
    let (name, input) = crate::invoke::invoke_parsed(block)->Some_0;
    lemma_call_sent_calm(
        StreamV { drawn: a.drawn + 1, ..a },
        crate::tool_json::restored_call(ids(a.drawn), name, input, a.names),
    );
}

proof fn lemma_block_taken(
    p: ProtoV,
    v: StreamV,
    buf: Seq<char>,
    start: int,
    end: int,
    ids: Draws,
)
    requires
        under_way(p, v),
        indices_left(v.block_taken(buf, start, end, ids).0),
    ensures
        fine(p, v.block_taken(buf, start, end, ids)),
        v.block_taken(buf, start, end, ids).0.thinking_open() == v.thinking_open(),
{
    reveal(StreamV::block_taken);
    let before = crate::stray::lead(v.fence.partial, buf.take(start));
    let block = buf.subrange(start, end);
    if v.reclaimable(buf.take(start), block) {
        let a = v.text_sent(before);
        let b = StreamV { drawn: a.0.drawn + 1, ..a.0 };
        let (name, input) = crate::invoke::invoke_parsed(block)->Some_0;
        let call = crate::tool_json::restored_call(ids(a.0.drawn), name, input, a.0.names);
        let s = b.call_sent(call);
        lemma_call_sent_calm(b, call);
        lemma_text_sent(p, v, before);
        assert(under_way(run(p, a.1), b));
        lemma_call_sent(run(p, a.1), b, call);
        lemma_both(p, a, s);
    } else {
        lemma_text_sent(p, v, buf.take(end));
    }
}

proof fn lemma_unclosed_calm(v: StreamV, buf: Seq<char>, start: int, flush: bool)
    ensures
        calm(v, v.unclosed_taken(buf, start, flush).0),
{
    reveal(StreamV::unclosed_taken);
    lemma_text_sent_calm(v, buf);
    lemma_text_sent_calm(v, buf.take(start));
    lemma_text_sent_calm(v.text_sent(buf.take(start)).0, buf.skip(start));
}

proof fn lemma_unclosed(p: ProtoV, v: StreamV, buf: Seq<char>, start: int, flush: bool)
    requires
        under_way(p, v),
        indices_left(v.unclosed_taken(buf, start, flush).0),
    ensures
        fine(p, v.unclosed_taken(buf, start, flush)),
        v.unclosed_taken(buf, start, flush).0.thinking_open() == v.thinking_open(),
{
    reveal(StreamV::unclosed_taken);
    if !v.callable_behind(buf.take(start)) {
        lemma_text_sent(p, v, buf);
    } else {
        let a = v.text_sent(buf.take(start));
        let rest = buf.skip(start);
        if flush || crate::text::byte_len(rest) > crate::stream_model::most_held() {
            lemma_text_sent_calm(a.0, rest);
            lemma_text_sent(p, v, buf.take(start));
            lemma_text_sent(run(p, a.1), a.0, rest);
            lemma_both(p, a, a.0.text_sent(rest));
        } else {
            lemma_text_sent(p, v, buf.take(start));
            let w = StreamV { sniffed: rest, ..a.0 };
            assert(under_way(run(p, a.1), w));
        }
    }
}

pub(crate) proof fn lemma_drained_calm(v: StreamV, buf: Seq<char>, flush: bool, ids: Draws)
    ensures
        calm(v, v.drained(buf, flush, ids).0),
    decreases buf.len(),
{
    match invoke_start(buf) {
        Some(start) => match invoke_end(buf, start) {
            Some(end) => {
                if 0 < end <= buf.len() {
                    lemma_block_taken_calm(v, buf, start, end, ids);
                    lemma_drained_calm(
                        v.block_taken(buf, start, end, ids).0,
                        buf.skip(end),
                        flush,
                        ids,
                    );
                }
            },
            None => {
                lemma_unclosed_calm(v, buf, start, flush);
            },
        },
        None => {
            lemma_text_sent_calm(v, buf);
            lemma_text_sent_calm(v, buf.take(crate::stream_model::unfinished_tag(buf)));
        },
    }
}

proof fn lemma_drained(p: ProtoV, v: StreamV, buf: Seq<char>, flush: bool, ids: Draws)
    requires
        under_way(p, v),
        indices_left(v.drained(buf, flush, ids).0),
    ensures
        fine(p, v.drained(buf, flush, ids)),
        v.drained(buf, flush, ids).0.thinking_open() == v.thinking_open(),
    decreases buf.len(),
{
    lemma_nothing(p, v);
    match invoke_start(buf) {
        Some(start) => match invoke_end(buf, start) {
            Some(end) => {
                if 0 < end <= buf.len() {
                    let a = v.block_taken(buf, start, end, ids);
                    let b = a.0.drained(buf.skip(end), flush, ids);
                    lemma_drained_calm(a.0, buf.skip(end), flush, ids);
                    lemma_block_taken(p, v, buf, start, end, ids);
                    lemma_drained(run(p, a.1), a.0, buf.skip(end), flush, ids);
                    lemma_both(p, a, b);
                }
            },
            None => {
                lemma_unclosed(p, v, buf, start, flush);
            },
        },
        None => {
            if flush {
                lemma_text_sent(p, v, buf);
            } else {
                let split = crate::stream_model::unfinished_tag(buf);
                lemma_text_sent(p, v, buf.take(split));
                let a = v.text_sent(buf.take(split));
                let w = StreamV { sniffed: buf.skip(split), ..a.0 };
                assert(under_way(run(p, a.1), w));
            }
        },
    }
}

pub(crate) proof fn lemma_text_added_calm(v: StreamV, text: Seq<char>, ids: Draws)
    ensures
        calm(v, v.text_added(text, ids).0),
        calm(v, v.text_added_unless_white(text, ids).0),
{
    reveal(StreamV::text_added);
    let w = StreamV { sniffed: Seq::empty(), ..v };
    lemma_drained_calm(w, v.sniffed + text, false, ids);
}

proof fn lemma_text_added(p: ProtoV, v: StreamV, text: Seq<char>, ids: Draws)
    requires
        under_way(p, v),
        indices_left(v.text_added(text, ids).0),
    ensures
        fine(p, v.text_added(text, ids)),
        v.text_added(text, ids).0.thinking_open() == v.thinking_open(),
{
    reveal(StreamV::text_added);
    lemma_nothing(p, v);
    if text.len() > 0 {
        let w = StreamV { sniffed: Seq::empty(), ..v };
        assert(under_way(p, w));
        lemma_drained(p, w, v.sniffed + text, false, ids);
    }
}

proof fn lemma_text_unless_white(p: ProtoV, v: StreamV, text: Seq<char>, ids: Draws)
    requires
        under_way(p, v),
        indices_left(v.text_added_unless_white(text, ids).0),
    ensures
        fine(p, v.text_added_unless_white(text, ids)),
        v.text_added_unless_white(text, ids).0.thinking_open() == v.thinking_open(),
{
    lemma_nothing(p, v);
    if !crate::text::all_white(text) {
        lemma_text_added(p, v, text, ids);
    }
}

proof fn lemma_thinking_opened_framed(v: StreamV)
    ensures
        framed(v, v.thinking_opened().0),
        v.thinking_opened().0.in_thinking == v.in_thinking,
        v.thinking_opened().0.extracted == v.extracted,
        v.thinking_opened().0.thinking_buffer == v.thinking_buffer,
{
    reveal(StreamV::thinking_opened);
}

proof fn lemma_thinking_opened(p: ProtoV, v: StreamV)
    requires
        under_way(p, v),
        !v.thinking_open(),
        v.in_thinking || v.extracted,
        indices_left(v.thinking_opened().0),
    ensures
        fine(p, v.thinking_opened()),
        v.thinking_opened().0.thinking_open(),
{
    reveal(StreamV::thinking_opened);
    lemma_kinds();
    let index = v.manager.next_block_index;
    let m = v.manager.index_taken();
    let data = start_data(index, thinking_block());
    let s = v.thinking_opened();
    let n = s.0.manager;
    lemma_fresh_index(p, v.manager);
    start_is_allowed(p, m, index, "thinking"@, data);
    let last = n.blocks.len() - 1;
    lemma_found_at(n, last);
    assert forall|k: int|
        0 <= k < n.blocks.len() && (#[trigger] n.blocks[k]).open() && n.blocks[k].kind
            == "thinking"@ implies s.0.thinking_index == Some(n.blocks[k].index) by {
        if k < last {
            assert(n.blocks[k] == v.manager.blocks[k]);
            assert(v.manager.blocks[k].open());
            lemma_found_at(v.manager, k);
        }
    }
    assert forall|id: Seq<char>| #[trigger] s.0.tool_blocks.dom().contains(
        id,
    ) implies is_tool_block(n, s.0.tool_blocks[id]) by {
        let i = v.tool_blocks[id];
        assert(v.tool_blocks.dom().contains(id));
        assert(is_tool_block(v.manager, i));
        lemma_block_at(v.manager.blocks, i, 0);
        let k = block_at(v.manager.blocks, i, 0)->Some_0;
        assert(n.blocks[k].index == i);
        lemma_found_at(n, k);
    }
}

/// A delta of thinking in an open block is fine.
proof fn lemma_thought(p: ProtoV, v: StreamV, text: Seq<char>)
    requires
        under_way(p, v),
        v.thinking_open(),
    ensures
        fine(p, (v, thought(v.thinking_index, text))),
        fine(p, (v, thought_if_any(v.thinking_index, text))),
{
    let i = v.thinking_index->Some_0;
    lemma_nothing(p, v);
    open_delta_is_allowed(p, v.manager, i, delta_data(i, thinking_delta(text)));
}

proof fn lemma_thinking_ended_framed(v: StreamV, signature: Seq<char>)
    ensures
        calm(v, v.thinking_ended(signature).0),
{
}

proof fn lemma_thinking_ended(p: ProtoV, v: StreamV, signature: Seq<char>)
    requires
        under_way(p, v),
        v.thinking_open(),
    ensures
        fine(p, v.thinking_ended(signature)),
        !v.thinking_ended(signature).0.thinking_open(),
{
    let i = v.thinking_index->Some_0;
    let none = Seq::<char>::empty();
    let data = delta_data(i, signature_delta(signature));
    let ev = Ev::Delta(i, data);
    let first = thought(Some(i), none);
    lemma_thought(p, v, none);
    let p1 = run(p, first);
    open_delta_is_allowed(p1, v.manager, i, data);
    assert(is_signature(i, data));
    lemma_run_one(p1, ev);
    lemma_run_push(p, first, ev);
    let p2 = run(p, first.push(ev));
    let s = v.thinking_ended(signature);
    let (n, stop) = v.manager.block_stopped(i);
    stop_is_allowed(p2, v.manager, i);
    lemma_run_append(p, first.push(ev), opt_seq(stop));
    assert forall|k: int|
        0 <= k < n.blocks.len() && (#[trigger] n.blocks[k]).open() && n.blocks[k].kind
            == "thinking"@ implies s.0.thinking_index == Some(n.blocks[k].index) by {
        assert(n.blocks[k].kind == v.manager.blocks[k].kind);
        if v.manager.blocks[k].index != i {
            assert(n.blocks[k] == v.manager.blocks[k]);
        }
    }
    assert forall|id: Seq<char>| #[trigger] s.0.tool_blocks.dom().contains(
        id,
    ) implies is_tool_block(n, s.0.tool_blocks[id]) by {
        let j = v.tool_blocks[id];
        assert(v.tool_blocks.dom().contains(id));
        assert(is_tool_block(v.manager, j));
        lemma_block_at(v.manager.blocks, j, 0);
        assert(block_at(n.blocks, j, 0) == block_at(v.manager.blocks, j, 0));
        assert(n.blocks[block_at(v.manager.blocks, j, 0)->Some_0].kind == "tool_use"@);
    }
}

proof fn lemma_thinking_finished_framed(v: StreamV, content: Seq<char>)
    ensures
        framed(v, v.thinking_finished(content).0),
        !v.thinking_finished(content).0.in_thinking,
        v.thinking_finished(content).0.extracted,
        v.thinking_finished(content).0.thinking_buffer == v.thinking_buffer,
{
    reveal(StreamV::thinking_finished);
    lemma_thinking_ended_framed(
        StreamV { in_thinking: false, extracted: true, ..v },
        placeholder_signature(),
    );
}

proof fn lemma_thinking_finished(p: ProtoV, v: StreamV, content: Seq<char>)
    requires
        under_way(p, v),
        v.thinking_open(),
    ensures
        fine(p, v.thinking_finished(content)),
        in_order(run(p, v.thinking_finished(content).1), v.thinking_finished(content).0),
{
    reveal(StreamV::thinking_finished);
    let w = StreamV { in_thinking: false, extracted: true, ..v };
    assert(under_way(p, w));
    lemma_thought(p, w, content);
    let a = (w, thought_if_any(w.thinking_index, content));
    lemma_thinking_ended(run(p, a.1), w, placeholder_signature());
    lemma_both(p, a, w.thinking_ended(placeholder_signature()));
}

pub(crate) proof fn lemma_start_sought_framed(v: StreamV, ids: Draws)
    ensures
        framed(v, v.start_sought(ids).0),
{
    reveal(StreamV::start_sought);
    let buf = v.thinking_buffer;
    match crate::thinking::start_tag(buf) {
        Some(at) => {
            lemma_text_added_calm(v, buf.take(at), ids);
            let a = v.text_added_unless_white(buf.take(at), ids).0;
            lemma_thinking_opened_framed(
                StreamV {
                    in_thinking: true,
                    strip_newline: true,
                    thinking_buffer: buf.skip(at + 10),
                    ..a
                },
            );
        },
        None => {
            lemma_text_added_calm(v, buf.take(crate::text::held_back(buf, 10)), ids);
        },
    }
}

pub(crate) proof fn lemma_start_sought(p: ProtoV, v: StreamV, ids: Draws)
    requires
        in_order(p, v),
        v.thinking_enabled,
        !v.in_thinking,
        !v.extracted,
        indices_left(v.start_sought(ids).0),
    ensures
        fine(p, v.start_sought(ids)),
        in_order(run(p, v.start_sought(ids).1), v.start_sought(ids).0),
{
    reveal(StreamV::start_sought);
    lemma_nothing(p, v);
    let buf = v.thinking_buffer;
    match crate::thinking::start_tag(buf) {
        Some(at) => {
            lemma_text_added_calm(v, buf.take(at), ids);
            let a = v.text_added_unless_white(buf.take(at), ids);
            let b = StreamV {
                in_thinking: true,
                strip_newline: true,
                thinking_buffer: buf.skip(at + 10),
                ..a.0
            };
            lemma_thinking_opened_framed(b);
            lemma_text_unless_white(p, v, buf.take(at), ids);
            assert(under_way(run(p, a.1), b));
            lemma_thinking_opened(run(p, a.1), b);
            lemma_both(p, a, b.thinking_opened());
        },
        None => {
            let safe = crate::text::held_back(buf, 10);
            let head = buf.take(safe);
            if !crate::text::all_white(head) {
                lemma_text_added_calm(v, head, ids);
                lemma_text_added(p, v, head, ids);
                let a = v.text_added(head, ids);
                let w = StreamV { thinking_buffer: buf.skip(safe), ..a.0 };
                assert(under_way(run(p, a.1), w));
            }
        },
    }
}

pub(crate) proof fn lemma_end_sought_framed(v: StreamV)
    ensures
        framed(v, v.end_sought().0),
{
    reveal(StreamV::end_sought);
    let w = v.newline_stripped();
    if let Some(at) = crate::thinking::end_tag(w.thinking_buffer) {
        lemma_thinking_finished_framed(w, w.thinking_buffer.take(at));
    }
}

pub(crate) proof fn lemma_end_sought(p: ProtoV, v: StreamV)
    requires
        in_order(p, v),
        v.in_thinking,
    ensures
        fine(p, v.end_sought()),
        in_order(run(p, v.end_sought().1), v.end_sought().0),
{
    reveal(StreamV::end_sought);
    let w = v.newline_stripped();
    assert(under_way(p, w));
    let buf = w.thinking_buffer;
    match crate::thinking::end_tag(buf) {
        Some(at) => {
            lemma_thinking_finished_framed(w, buf.take(at));
            lemma_thinking_finished(p, w, buf.take(at));
            let a = w.thinking_finished(buf.take(at));
            let x = StreamV { thinking_buffer: buf.skip(at + 13), ..a.0 };
            assert(under_way(run(p, a.1), x));
        },
        None => {
            let safe = crate::text::held_back(buf, 13);
            let x = StreamV { thinking_buffer: buf.skip(safe), ..w };
            assert(under_way(p, x));
            lemma_thought(p, x, buf.take(safe));
        },
    }
}

pub(crate) proof fn lemma_rest_sent_framed(v: StreamV, ids: Draws)
    ensures
        framed(v, v.rest_sent(ids).0),
        v.rest_sent(ids).0.in_thinking == v.in_thinking,
        v.rest_sent(ids).0.extracted == v.extracted,
        v.rest_sent(ids).0.thinking_buffer.len() == 0,
{
    reveal(StreamV::rest_sent);
    lemma_text_added_calm(
        StreamV { thinking_buffer: Seq::empty(), ..v },
        v.thinking_buffer,
        ids,
    );
}

pub(crate) proof fn lemma_rest_sent(p: ProtoV, v: StreamV, ids: Draws)
    requires
        under_way(p, v),
        indices_left(v.rest_sent(ids).0),
    ensures
        fine(p, v.rest_sent(ids)),
        v.rest_sent(ids).0.thinking_open() == v.thinking_open(),
{
    reveal(StreamV::rest_sent);
    let w = StreamV { thinking_buffer: Seq::empty(), ..v };
    assert(under_way(p, w));
    lemma_text_added(p, w, v.thinking_buffer, ids);
}

proof fn lemma_content_added_framed(v: StreamV, content: Seq<char>, ids: Draws)
    ensures
        framed(v, v.content_added(content, ids).0),
{
    reveal(StreamV::content_added);
    let a = StreamV { thinking_buffer: v.thinking_buffer + content, ..v };
    lemma_start_sought_framed(a, ids);
    let b = if !a.in_thinking && !a.extracted {
        a.start_sought(ids).0
    } else {
        a
    };
    lemma_end_sought_framed(b);
    let c = if b.in_thinking {
        b.end_sought().0
    } else {
        b
    };
    lemma_rest_sent_framed(c, ids);
}

proof fn lemma_content_added(p: ProtoV, v: StreamV, content: Seq<char>, ids: Draws)
    requires
        in_order(p, v),
        v.thinking_enabled,
        indices_left(v.content_added(content, ids).0),
    ensures
        fine(p, v.content_added(content, ids)),
        in_order(run(p, v.content_added(content, ids).1), v.content_added(content, ids).0),
{
    reveal(StreamV::content_added);
    let a = StreamV { thinking_buffer: v.thinking_buffer + content, ..v };
    assert(in_order(p, a));
    lemma_nothing(p, a);
    lemma_start_sought_framed(a, ids);
    let s1 = if !a.in_thinking && !a.extracted {
        a.start_sought(ids)
    } else {
        (a, Seq::empty())
    };
    let b = s1.0;
    lemma_end_sought_framed(b);
    let s2 = if b.in_thinking {
        b.end_sought()
    } else {
        (b, Seq::empty())
    };
    let c = s2.0;
    lemma_rest_sent_framed(c, ids);
    let s3 = if !c.in_thinking && c.extracted {
        c.rest_sent(ids)
    } else {
        (c, Seq::empty())
    };
    if !a.in_thinking && !a.extracted {
        lemma_start_sought(p, a, ids);
    }
    let p1 = run(p, s1.1);
    lemma_nothing(p1, b);
    if b.in_thinking {
        lemma_end_sought(p1, b);
    }
    let p2 = run(p1, s2.1);
    lemma_nothing(p2, c);
    if !c.in_thinking && c.extracted {
        lemma_rest_sent(p2, c, ids);
    }
    lemma_both(p, s1, s2);
    lemma_both(p, (s2.0, s1.1 + s2.1), s3);
}

pub(crate) proof fn lemma_thinking_closed_framed(v: StreamV)
    ensures
        calm(v, v.thinking_closed().0),
        calm(v, v.native_thinking_closed().0),
{
}

pub(crate) proof fn lemma_thinking_closed(p: ProtoV, v: StreamV)
    requires
        under_way(p, v),
    ensures
        fine(p, v.thinking_closed()),
        !v.thinking_closed().0.thinking_open(),
{
    lemma_nothing(p, v);
    if v.thinking_open() {
        let w = StreamV { signature: None, ..v };
        assert(under_way(p, w));
        lemma_thinking_ended(
            p,
            w,
            match v.signature {
                Some(s) => s,
                None => placeholder_signature(),
            },
        );
    }
}

proof fn lemma_native_thinking_closed(p: ProtoV, v: StreamV)
    requires
        in_order(p, v),
    ensures
        fine(p, v.native_thinking_closed()),
        in_order(run(p, v.native_thinking_closed().1), v.native_thinking_closed().0),
        !v.in_thinking ==> !v.native_thinking_closed().0.thinking_open(),
{
    lemma_nothing(p, v);
    if !v.in_thinking {
        lemma_thinking_closed(p, v);
    }
}

pub(crate) proof fn lemma_text_closed_calm(v: StreamV)
    ensures
        calm(v, v.text_closed().0),
{
    reveal(StreamV::text_closed);
}

pub(crate) proof fn lemma_text_closed(p: ProtoV, v: StreamV)
    requires
        under_way(p, v),
    ensures
        fine(p, v.text_closed()),
        v.text_closed().0.thinking_open() == v.thinking_open(),
{
    reveal(StreamV::text_closed);
    lemma_kinds();
    let s = v.text_closed();
    match v.open_text_index() {
        Some(i) => {
            lemma_block_at(v.manager.blocks, i, 0);
            stop_is_allowed(p, v.manager, i);
            let n = s.0.manager;
            assert(grows(v.manager, n)) by {
                assert forall|k: int| 0 <= k < v.manager.blocks.len() implies (
                #[trigger] n.blocks[k]).index == v.manager.blocks[k].index && n.blocks[k].kind
                    == v.manager.blocks[k].kind && (v.manager.blocks[k].kind == "thinking"@
                    ==> n.blocks[k] == v.manager.blocks[k]) by {
                    if v.manager.blocks[k].kind == "thinking"@ && v.manager.blocks[k].index == i {
                        lemma_found_at(v.manager, k);
                    }
                }
            }
            lemma_grown(run(p, s.1), p, v, s.0);
        },
        None => {
            assert(under_way(p, s.0));
            lemma_nothing(p, s.0);
        },
    }
}

proof fn lemma_thinking_ensured_framed(v: StreamV, ids: Draws)
    ensures
        framed(v, v.thinking_ensured(ids).0),
        v.thinking_ensured(ids).0.in_thinking == v.in_thinking,
{
    reveal(StreamV::thinking_ensured);
    let w = StreamV { thinking_buffer: Seq::empty(), ..v };
    lemma_text_added_calm(w, v.thinking_buffer, ids);
    let a = w.text_added_unless_white(v.thinking_buffer, ids).0;
    lemma_text_closed_calm(a);
    let b = a.text_closed().0;
    lemma_thinking_opened_framed(StreamV { extracted: true, ..b });
}

pub(crate) proof fn lemma_thinking_ensured(p: ProtoV, v: StreamV, ids: Draws)
    requires
        in_order(p, v),
        indices_left(v.thinking_ensured(ids).0),
    ensures
        fine(p, v.thinking_ensured(ids)),
        v.thinking_ensured(ids).0.thinking_open(),
{
    reveal(StreamV::thinking_ensured);
    lemma_nothing(p, v);
    if !v.thinking_open() {
        let w = StreamV { thinking_buffer: Seq::empty(), ..v };
        assert(under_way(p, w));
        lemma_text_added_calm(w, v.thinking_buffer, ids);
        let s1 = w.text_added_unless_white(v.thinking_buffer, ids);
        lemma_text_closed_calm(s1.0);
        let s2 = s1.0.text_closed();
        let x = StreamV { extracted: true, ..s2.0 };
        let s3 = x.thinking_opened();
        lemma_thinking_opened_framed(x);
        lemma_text_unless_white(p, w, v.thinking_buffer, ids);
        let p1 = run(p, s1.1);
        lemma_text_closed(p1, s1.0);
        let p2 = run(p1, s2.1);
        assert(under_way(p2, x));
        lemma_thinking_opened(p2, x);
        lemma_both(p, s1, s2);
        lemma_both(p, (s2.0, s1.1 + s2.1), s3);
    }
}

pub(crate) proof fn lemma_tagged_ended_framed(v: StreamV)
    ensures
        framed(v, v.tagged_thinking_ended().0),
        !v.tagged_thinking_ended().0.in_thinking,
        v.tagged_thinking_ended().0.thinking_buffer.len() == 0,
{
    reveal(StreamV::tagged_thinking_ended);
    let buf = v.thinking_buffer;
    lemma_thinking_finished_framed(
        v,
        match crate::thinking::closing_tag(buf) {
            Some(at) => buf.take(at),
            None => buf,
        },
    );
}

pub(crate) proof fn lemma_tagged_ended(p: ProtoV, v: StreamV)
    requires
        under_way(p, v),
        v.thinking_open(),
    ensures
        fine(p, v.tagged_thinking_ended()),
        !v.tagged_thinking_ended().0.thinking_open(),
        in_order(run(p, v.tagged_thinking_ended().1), v.tagged_thinking_ended().0),
{
    lemma_tagged_ended_framed(v);
    reveal(StreamV::tagged_thinking_ended);
    let buf = v.thinking_buffer;
    let content = match crate::thinking::closing_tag(buf) {
        Some(at) => buf.take(at),
        None => buf,
    };
    lemma_thinking_finished(p, v, content);
    lemma_not_open_after_finish(p, v, content);
    let a = v.thinking_finished(content);
    let w = StreamV { thinking_buffer: Seq::empty(), ..a.0 };
    assert(under_way(run(p, a.1), w));
}

proof fn lemma_tagged_cut(p: ProtoV, v: StreamV)
    requires
        under_way(p, v),
        v.thinking_open(),
    ensures
        fine(p, v.tagged_thinking_cut()),
        !v.tagged_thinking_cut().0.thinking_open(),
{
    reveal(StreamV::tagged_thinking_cut);
    lemma_tagged_ended(p, v);
    let a = v.tagged_thinking_ended();
    let w = StreamV { in_thinking: v.in_thinking, extracted: v.extracted, ..a.0 };
    assert(w.thinking_open() == a.0.thinking_open());
    assert(under_way(run(p, a.1), w));
}

/// What ends the thinking that is under way before a redaction.
spec fn thinking_ended_before_redaction(v: StreamV) -> Step {
    if v.in_thinking {
        v.tagged_thinking_ended()
    } else {
        v.thinking_closed()
    }
}

proof fn lemma_redacted_framed(v: StreamV, data: Seq<char>)
    ensures
        framed(v, v.redacted_sent(data).0),
        !v.redacted_sent(data).0.in_thinking,
{
    reveal(StreamV::redacted_sent);
    lemma_thinking_closed_framed(v);
    lemma_tagged_ended_framed(v);
    lemma_text_closed_calm(thinking_ended_before_redaction(v).0);
}

pub(crate) proof fn lemma_redacted(p: ProtoV, v: StreamV, data: Seq<char>)
    requires
        in_order(p, v),
        indices_left(v.redacted_sent(data).0),
    ensures
        fine(p, v.redacted_sent(data)),
        !v.redacted_sent(data).0.thinking_open(),
{
    reveal(StreamV::redacted_sent);
    lemma_kinds();
    lemma_thinking_closed_framed(v);
    lemma_tagged_ended_framed(v);
    let s1 = thinking_ended_before_redaction(v);
    lemma_text_closed_calm(s1.0);
    let s2 = s1.0.text_closed();
    if v.in_thinking {
        lemma_tagged_ended(p, v);
    } else {
        lemma_thinking_closed(p, v);
    }
    let p1 = run(p, s1.1);
    lemma_text_closed(p1, s1.0);
    let p2 = run(p1, s2.1);
    lemma_both(p, s1, s2);
    let w = s2.0;
    let index = w.manager.next_block_index;
    let m = w.manager.index_taken();
    let block = start_data(index, redacted_block(data));
    lemma_fresh_index(p2, w.manager);
    start_is_allowed(p2, m, index, "redacted_thinking"@, block);
    let (m1, e3) = m.block_started(index, "redacted_thinking"@, block);
    let p3 = run(p2, e3);
    lemma_found_at(m1, m1.blocks.len() - 1);
    stop_is_allowed(p3, m1, index);
    let (m2, stop) = m1.block_stopped(index);
    let e12 = s1.1 + s2.1;
    lemma_run_append(p, e12, e3);
    lemma_run_append(p, e12 + e3, opt_seq(stop));
    let s = v.redacted_sent(data);
    assert(grows(w.manager, m2)) by {
        assert forall|k: int| 0 <= k < w.manager.blocks.len() implies (
        #[trigger] m2.blocks[k]).index == w.manager.blocks[k].index && m2.blocks[k].kind
            == w.manager.blocks[k].kind && (w.manager.blocks[k].kind == "thinking"@
            ==> m2.blocks[k] == w.manager.blocks[k]) by {
            assert(m1.blocks[k].index == w.manager.blocks[k].index);
            if w.manager.blocks[k].kind == "thinking"@ {
                assert(w.manager.blocks[k].index < index);
                assert(m2.blocks[k] == m1.blocks[k]);
            }
        }
        assert forall|k: int| w.manager.blocks.len() <= k < m2.blocks.len() implies (
        #[trigger] m2.blocks[k]).kind != "thinking"@ by {
            assert(m1.blocks[k].kind != "thinking"@);
        }
    }
    lemma_grown(run(p, s.1), p2, w, s.0);
}

pub(crate) proof fn lemma_answered_framed(v: StreamV, content: Seq<char>, ids: Draws)
    ensures
        framed(v, v.answered(content, ids).0),
{
    reveal(StreamV::answered);
    let scan = crate::xml_leak::xml_scan(v.xml_stripping, v.xml_buffer + content);
    let a = StreamV { xml_buffer: scan.buffer, xml_stripping: scan.stripping, ..v };
    lemma_thinking_closed_framed(a);
    let b = a.native_thinking_closed().0.tokens_added(crate::tokens::token_estimate(scan.out));
    lemma_content_added_framed(b, scan.out, ids);
    lemma_text_added_calm(b, scan.out, ids);
}

proof fn lemma_answered(p: ProtoV, v: StreamV, content: Seq<char>, ids: Draws)
    requires
        in_order(p, v),
        indices_left(v.answered(content, ids).0),
    ensures
        fine(p, v.answered(content, ids)),
        in_order(run(p, v.answered(content, ids).1), v.answered(content, ids).0),
{
    reveal(StreamV::answered);
    let scan = crate::xml_leak::xml_scan(v.xml_stripping, v.xml_buffer + content);
    let a = StreamV { xml_buffer: scan.buffer, xml_stripping: scan.stripping, ..v };
    assert(in_order(p, a));
    lemma_nothing(p, a);
    if scan.out.len() > 0 {
        lemma_thinking_closed_framed(a);
        let s1 = a.native_thinking_closed();
        lemma_native_thinking_closed(p, a);
        let b = s1.0.tokens_added(crate::tokens::token_estimate(scan.out));
        let p1 = run(p, s1.1);
        assert(in_order(p1, b));
        if b.thinking_enabled {
            lemma_content_added(p1, b, scan.out, ids);
            lemma_both(p, s1, b.content_added(scan.out, ids));
        } else {
            lemma_text_added_calm(b, scan.out, ids);
            lemma_text_added(p1, b, scan.out, ids);
            lemma_both(p, s1, b.text_added(scan.out, ids));
        }
    }
}

pub(crate) proof fn lemma_reasoned_framed(
    v: StreamV,
    text: Option<Seq<char>>,
    signature: Option<Seq<char>>,
    redacted: Option<Seq<char>>,
    ids: Draws,
)
    ensures
        framed(v, v.reasoned(text, signature, redacted, ids).0),
{
    reveal(StreamV::reasoned);
    if !v.thinking_enabled {
        if let Some(t) = text {
            lemma_text_added_calm(v.tokens_added(crate::tokens::token_estimate(t)), t, ids);
        }
    } else {
        let a = match signature {
            Some(s) => if s.len() == 0 {
                v
            } else {
                StreamV { signature: Some(s), ..v }
            },
            None => v,
        };
        let b = match text {
            Some(t) => if t.len() == 0 {
                a
            } else {
                a.tokens_added(crate::tokens::token_estimate(t)).thinking_ensured(ids).0
            },
            None => a,
        };
        if let Some(t) = text {
            lemma_thinking_ensured_framed(
                a.tokens_added(crate::tokens::token_estimate(t)),
                ids,
            );
        }
        if let Some(r) = redacted {
            lemma_redacted_framed(b.tokens_added(8), r);
        }
    }
}

proof fn lemma_reasoned(
    p: ProtoV,
    v: StreamV,
    text: Option<Seq<char>>,
    signature: Option<Seq<char>>,
    redacted: Option<Seq<char>>,
    ids: Draws,
)
    requires
        in_order(p, v),
        indices_left(v.reasoned(text, signature, redacted, ids).0),
    ensures
        fine(p, v.reasoned(text, signature, redacted, ids)),
        in_order(
            run(p, v.reasoned(text, signature, redacted, ids).1),
            v.reasoned(text, signature, redacted, ids).0,
        ),
{
    reveal(StreamV::reasoned);
    lemma_nothing(p, v);
    if !v.thinking_enabled {
        if let Some(t) = text {
            if t.len() > 0 {
                let a = v.tokens_added(crate::tokens::token_estimate(t));
                assert(in_order(p, a));
                lemma_text_added_calm(a, t, ids);
                lemma_text_added(p, a, t, ids);
            }
        }
    } else {
        let a = match signature {
            Some(s) => if s.len() == 0 {
                v
            } else {
                StreamV { signature: Some(s), ..v }
            },
            None => v,
        };
        assert(in_order(p, a));
        lemma_nothing(p, a);
        let s1 = match text {
            Some(t) => if t.len() == 0 {
                (a, Seq::empty())
            } else {
                let (w, evs) = a.tokens_added(crate::tokens::token_estimate(t)).thinking_ensured(
                    ids,
                );
                (w, evs + thought(w.thinking_index, t))
            },
            None => (a, Seq::empty()),
        };
        if let Some(r) = redacted {
            lemma_redacted_framed(s1.0.tokens_added(8), r);
        }
        if let Some(t) = text {
            if t.len() > 0 {
                let b = a.tokens_added(crate::tokens::token_estimate(t));
                assert(in_order(p, b));
                lemma_thinking_ensured_framed(b, ids);
                lemma_thinking_ensured(p, b, ids);
                let s = b.thinking_ensured(ids);
                lemma_thought(run(p, s.1), s.0, t);
                lemma_both(p, s, (s.0, thought(s.0.thinking_index, t)));
            }
        }
        let p1 = run(p, s1.1);
        assert(in_order(p1, s1.0));
        if let Some(r) = redacted {
            if r.len() > 0 {
                let b = s1.0.tokens_added(8);
                assert(in_order(p1, b));
                lemma_redacted(p1, b, r);
                lemma_both(p, s1, b.redacted_sent(r));
            }
        }
    }
}

proof fn lemma_end_at_end_framed(v: StreamV, ids: Draws)
    ensures
        framed(v, v.end_tag_at_end_taken(ids).0),
        crate::thinking::closing_tag(v.thinking_buffer) is Some ==> !v.end_tag_at_end_taken(
            ids,
        ).0.in_thinking,
{
    reveal(StreamV::end_tag_at_end_taken);
    if let Some(at) = crate::thinking::closing_tag(v.thinking_buffer) {
        let buf = v.thinking_buffer;
        lemma_thinking_finished_framed(v, buf.take(at));
        let a = v.thinking_finished(buf.take(at)).0;
        lemma_text_added_calm(
            StreamV { thinking_buffer: Seq::empty(), ..a },
            crate::text::trimmed_start(buf.skip(at + 11)),
            ids,
        );
    }
}

proof fn lemma_end_at_end(p: ProtoV, v: StreamV, ids: Draws)
    requires
        in_order(p, v),
        v.in_thinking,
        indices_left(v.end_tag_at_end_taken(ids).0),
    ensures
        fine(p, v.end_tag_at_end_taken(ids)),
        in_order(run(p, v.end_tag_at_end_taken(ids).1), v.end_tag_at_end_taken(ids).0),
        crate::thinking::closing_tag(v.thinking_buffer) is Some ==> !v.end_tag_at_end_taken(
            ids,
        ).0.thinking_open(),
{
    reveal(StreamV::end_tag_at_end_taken);
    lemma_nothing(p, v);
    if let Some(at) = crate::thinking::closing_tag(v.thinking_buffer) {
        let buf = v.thinking_buffer;
        let rest = crate::text::trimmed_start(buf.skip(at + 11));
        lemma_thinking_finished_framed(v, buf.take(at));
        let s1 = v.thinking_finished(buf.take(at));
        let w = StreamV { thinking_buffer: Seq::empty(), ..s1.0 };
        lemma_thinking_finished(p, v, buf.take(at));
        lemma_not_open_after_finish(p, v, buf.take(at));
        let p1 = run(p, s1.1);
        assert(under_way(p1, w));
        lemma_text_added_calm(w, rest, ids);
        lemma_text_added(p1, w, rest, ids);
        lemma_both(p, s1, w.text_added(rest, ids));
    }
}

pub(crate) proof fn lemma_not_open_after_finish(p: ProtoV, v: StreamV, content: Seq<char>)
    requires
        under_way(p, v),
        v.thinking_open(),
    ensures
        !v.thinking_finished(content).0.thinking_open(),
{
    reveal(StreamV::thinking_finished);
    let w = StreamV { in_thinking: false, extracted: true, ..v };
    assert(under_way(p, w));
    lemma_thinking_ended(p, w, placeholder_signature());
}

pub(crate) proof fn lemma_settled_framed(v: StreamV, ids: Draws)
    ensures
        framed(v, v.settled_before_call(ids).0),
{
    reveal(StreamV::settled_before_call);
    let a = StreamV { manager: ManagerV { has_tool_use: true, ..v.manager }, ..v };
    lemma_thinking_closed_framed(a);
    let b = a.native_thinking_closed().0;
    lemma_end_at_end_framed(b, ids);
    let c = if b.thinking_enabled && b.in_thinking {
        b.end_tag_at_end_taken(ids).0
    } else {
        b
    };
    lemma_rest_sent_framed(c, ids);
}

proof fn lemma_settled(p: ProtoV, v: StreamV, ids: Draws)
    requires
        in_order(p, v),
        indices_left(v.settled_before_call(ids).0),
    ensures
        fine(p, v.settled_before_call(ids)),
        in_order(run(p, v.settled_before_call(ids).1), v.settled_before_call(ids).0),
{
    reveal(StreamV::settled_before_call);
    let a = StreamV { manager: ManagerV { has_tool_use: true, ..v.manager }, ..v };
    assert(in_order(p, a));
    lemma_thinking_closed_framed(a);
    let s1 = a.native_thinking_closed();
    let b = s1.0;
    lemma_end_at_end_framed(b, ids);
    let s2 = if b.thinking_enabled && b.in_thinking {
        b.end_tag_at_end_taken(ids)
    } else {
        (b, Seq::empty())
    };
    let c = s2.0;
    lemma_rest_sent_framed(c, ids);
    let s3 = if c.thinking_enabled && !c.in_thinking && !c.extracted {
        c.rest_sent(ids)
    } else {
        (c, Seq::empty())
    };
    lemma_native_thinking_closed(p, a);
    let p1 = run(p, s1.1);
    lemma_nothing(p1, b);
    if b.thinking_enabled && b.in_thinking {
        lemma_end_at_end(p1, b, ids);
    }
    let p2 = run(p1, s2.1);
    lemma_nothing(p2, c);
    if c.thinking_enabled && !c.in_thinking && !c.extracted {
        lemma_rest_sent(p2, c, ids);
    }
    lemma_both(p, s1, s2);
    lemma_both(p, (s2.0, s1.1 + s2.1), s3);
}

proof fn lemma_call_fragment(p: ProtoV, v: StreamV, f: crate::tool_json::FragmentV, ids: Draws)
    requires
        in_order(p, v),
        indices_left(v.call_fragment(f, ids).0),
    ensures
        fine(p, v.call_fragment(f, ids)),
        in_order(run(p, v.call_fragment(f, ids).1), v.call_fragment(f, ids).0),
{
    reveal(StreamV::call_fragment);
    lemma_settled_framed(v, ids);
    let s1 = v.settled_before_call(ids);
    let (pending, outcome) = crate::tool_json::pushed(s1.0.pending, f, s1.0.names);
    let w = StreamV { pending, ..s1.0 };
    match outcome {
        Ok(Some(call)) => {
            lemma_call_sent_calm(w, call);
            lemma_settled(p, v, ids);
            let p1 = run(p, s1.1);
            assert(in_order(p1, w));
            lemma_call_sent(p1, w, call);
            lemma_both(p, s1, w.call_sent(call));
        },
        Ok(None) => {
            lemma_settled(p, v, ids);
            assert(in_order(run(p, s1.1), w));
        },
        Err(e) => {
            lemma_settled(p, v, ids);
            let x = StreamV { tool_error: Some(e), manager: w.manager.with_reason("error"@), ..w };
            assert(in_order(run(p, s1.1), x));
        },
    }
}

/// Every upstream event sends legal events and keeps the message in order, as
/// long as indices are left.
pub proof fn every_event_keeps_the_order(p: ProtoV, v: StreamV, event: EventV, ids: Draws)
    requires
        in_order(p, v),
        indices_left(v.processed(event, ids).0),
    ensures
        legal(p, v.processed(event, ids).1),
        in_order(run(p, v.processed(event, ids).1), v.processed(event, ids).0),
{
    lemma_nothing(p, v);
    match event {
        EventV::AssistantResponse(content) => {
            lemma_answered(p, v, content, ids);
        },
        EventV::ToolUse(f) => {
            lemma_call_fragment(p, v, f, ids);
        },
        EventV::Reasoning { text, signature, redacted } => {
            lemma_reasoned(p, v, text, signature, redacted, ids);
        },
        _ => {
            let s = v.processed(event, ids);
            assert(s.1 =~= Seq::<Ev>::empty());
            assert(in_order(p, s.0));
        },
    }
}

/// What a client has seen before the message.
pub open spec fn unseen() -> ProtoV {
    ProtoV {
        started: false,
        counted: false,
        ended: false,
        kinds: Map::empty(),
        open: Set::empty(),
        signed: Set::empty(),
    }
}

/// The opening of a fresh stream is in order.
pub proof fn the_opening_is_in_order(
    model: Seq<char>,
    message_id: Seq<char>,
    input_tokens: int,
    thinking_enabled: bool,
    names: Restoring,
    known: Set<Seq<char>>,
)
    ensures
        ({
            let v = StreamV::fresh(
                model,
                message_id,
                input_tokens,
                thinking_enabled,
                names,
                known,
            );
            &&& legal(unseen(), v.opened().1)
            &&& in_order(run(unseen(), v.opened().1), v.opened().0)
            &&& run(unseen(), v.opened().1).started
        }),
{
    let v = StreamV::fresh(model, message_id, input_tokens, thinking_enabled, names, known);
    let p = unseen();
    let ev = Ev::MessageStart(v.message_start());
    lemma_run_one(p, ev);
    let q = run(p, seq![ev]);
    let w = StreamV { manager: ManagerV { message_started: true, ..v.manager }, ..v };
    assert(in_order(q, w));
    let a = (w, seq![ev]);
    if !thinking_enabled {
        reveal(StreamV::text_opened);
        lemma_text_opened_calm(w);
        lemma_text_opened(q, w);
        lemma_both(p, a, w.text_opened());
    }
}

pub(crate) proof fn lemma_leftover_framed(v: StreamV, ids: Draws)
    ensures
        framed(v, v.leftover_sent(ids).0),
{
    reveal(StreamV::leftover_sent);
    let leftover = crate::xml_leak::xml_stripped(v.xml_buffer);
    let w = StreamV { xml_buffer: Seq::empty(), xml_stripping: false, ..v };
    lemma_content_added_framed(w, leftover, ids);
    lemma_text_added_calm(w, leftover, ids);
}

pub(crate) proof fn lemma_leftover(p: ProtoV, v: StreamV, ids: Draws)
    requires
        in_order(p, v),
        indices_left(v.leftover_sent(ids).0),
    ensures
        fine(p, v.leftover_sent(ids)),
        in_order(run(p, v.leftover_sent(ids).1), v.leftover_sent(ids).0),
{
    reveal(StreamV::leftover_sent);
    let leftover = crate::xml_leak::xml_stripped(v.xml_buffer);
    let w = StreamV { xml_buffer: Seq::empty(), xml_stripping: false, ..v };
    assert(in_order(p, w));
    lemma_nothing(p, w);
    if leftover.len() > 0 {
        if w.thinking_enabled {
            lemma_content_added(p, w, leftover, ids);
        } else {
            lemma_text_added_calm(w, leftover, ids);
            lemma_text_added(p, w, leftover, ids);
        }
    }
}

pub(crate) proof fn lemma_buffer_sent_framed(v: StreamV, ids: Draws)
    ensures
        framed(v, v.buffer_sent(ids).0),
{
    reveal(StreamV::buffer_sent);
    reveal(StreamV::tagged_thinking_cut);
    lemma_tagged_ended_framed(v);
    lemma_rest_sent_framed(v, ids);
}

pub(crate) proof fn lemma_buffer_sent(p: ProtoV, v: StreamV, ids: Draws)
    requires
        in_order(p, v),
        indices_left(v.buffer_sent(ids).0),
    ensures
        fine(p, v.buffer_sent(ids)),
        v.thinking_enabled && (!v.in_thinking ==> !v.thinking_open()) ==> !v.buffer_sent(
            ids,
        ).0.thinking_open(),
        !v.thinking_enabled ==> v.buffer_sent(ids).0 == v,
{
    reveal(StreamV::buffer_sent);
    lemma_nothing(p, v);
    if v.thinking_enabled {
        if v.in_thinking {
            lemma_tagged_cut(p, v);
        } else {
            lemma_rest_sent(p, v, ids);
        }
    }
}

pub(crate) proof fn lemma_supplied_calm(v: StreamV, ids: Draws)
    ensures
        calm(v, v.text_supplied(ids).0),
{
    reveal(StreamV::text_supplied);
    lemma_text_added_calm(
        StreamV { manager: v.manager.with_reason("max_tokens"@), ..v },
        " "@,
        ids,
    );
}

pub(crate) proof fn lemma_supplied(p: ProtoV, v: StreamV, ids: Draws)
    requires
        under_way(p, v),
        indices_left(v.text_supplied(ids).0),
    ensures
        fine(p, v.text_supplied(ids)),
        v.text_supplied(ids).0.thinking_open() == v.thinking_open(),
{
    reveal(StreamV::text_supplied);
    lemma_nothing(p, v);
    let w = StreamV { manager: v.manager.with_reason("max_tokens"@), ..v };
    assert(under_way(p, w));
    if v.thinking_enabled && v.thinking_index is Some && !v.manager.has_other_than_thinking() {
        lemma_text_added(p, w, " "@, ids);
    }
}

pub(crate) proof fn lemma_held_calm(v: StreamV, ids: Draws)
    ensures
        calm(v, v.held_sent(ids).0),
{
    reveal(StreamV::held_sent);
    lemma_drained_calm(StreamV { sniffed: Seq::empty(), ..v }, v.sniffed, true, ids);
}

pub(crate) proof fn lemma_held(p: ProtoV, v: StreamV, ids: Draws)
    requires
        under_way(p, v),
        indices_left(v.held_sent(ids).0),
    ensures
        fine(p, v.held_sent(ids)),
        v.held_sent(ids).0.thinking_open() == v.thinking_open(),
{
    reveal(StreamV::held_sent);
    let w = StreamV { sniffed: Seq::empty(), ..v };
    assert(under_way(p, w));
    lemma_drained(p, w, v.sniffed, true, ids);
}

pub(crate) proof fn lemma_flushed_framed(v: StreamV, ids: Draws)
    ensures
        framed(v, v.flushed(ids).0),
{
    reveal(StreamV::flushed);
    lemma_leftover_framed(v, ids);
    let a = v.leftover_sent(ids).0;
    lemma_thinking_closed_framed(a);
    let b = a.native_thinking_closed().0;
    lemma_buffer_sent_framed(b, ids);
    let c = b.buffer_sent(ids).0;
    lemma_held_calm(c, ids);
    let d = c.held_sent(ids).0;
    lemma_supplied_calm(d, ids);
}

proof fn lemma_flushed(p: ProtoV, v: StreamV, ids: Draws)
    requires
        in_order(p, v),
        indices_left(v.flushed(ids).0),
    ensures
        fine(p, v.flushed(ids)),
        !v.flushed(ids).0.thinking_open(),
{
    reveal(StreamV::flushed);
    lemma_leftover_framed(v, ids);
    let s1 = v.leftover_sent(ids);
    lemma_thinking_closed_framed(s1.0);
    let s2 = s1.0.native_thinking_closed();
    lemma_buffer_sent_framed(s2.0, ids);
    let s3 = s2.0.buffer_sent(ids);
    lemma_held_calm(s3.0, ids);
    let s4 = s3.0.held_sent(ids);
    lemma_supplied_calm(s4.0, ids);
    let s5 = s4.0.text_supplied(ids);
    lemma_leftover(p, v, ids);
    lemma_plain_leftover(v, ids);
    let p1 = run(p, s1.1);
    lemma_native_thinking_closed(p1, s1.0);
    let p2 = run(p1, s2.1);
    lemma_buffer_sent(p2, s2.0, ids);
    let p3 = run(p2, s3.1);
    lemma_held(p3, s3.0, ids);
    let p4 = run(p3, s4.1);
    lemma_supplied(p4, s4.0, ids);
    lemma_both(p, s1, s2);
    let e2 = s1.1 + s2.1;
    lemma_both(p, (s2.0, e2), s3);
    let e3 = e2 + s3.1;
    lemma_both(p, (s3.0, e3), s4);
    let e4 = e3 + s4.1;
    lemma_both(p, (s4.0, e4), s5);
}

/// Without thinking, what the markup filter has kept does not open any.
proof fn lemma_plain_leftover(v: StreamV, ids: Draws)
    ensures
        !v.thinking_enabled ==> v.leftover_sent(ids).0.in_thinking == v.in_thinking,
{
    reveal(StreamV::leftover_sent);
    let leftover = crate::xml_leak::xml_stripped(v.xml_buffer);
    let w = StreamV { xml_buffer: Seq::empty(), xml_stripping: false, ..v };
    lemma_text_added_calm(w, leftover, ids);
}

/// The end of a stream is in order: it closes every block and ends the message,
/// regularly with counts, or with an error and without.
pub proof fn the_end_is_in_order(p: ProtoV, v: StreamV, ids: Draws)
    requires
        in_order(p, v),
        indices_left(v.flushed(ids).0),
    ensures
        legal(p, v.ended(ids).1),
        run(p, v.ended(ids).1).ended,
        run(p, v.ended(ids).1).counted == v.ended(ids).0.tool_error is None,
{
    reveal(StreamV::ended);
    reveal(StreamV::failed);
    lemma_flushed(p, v, ids);
    let s1 = v.flushed(ids);
    let p1 = run(p, s1.1);
    let w = s1.0.calls_finished();
    assert(under_way(p1, w));
    assert(!w.thinking_open());
    lemma_no_open_thinking(p1, w);
    match w.tool_error {
        Some(e) => {
            let error_type = crate::tool_json::tool_error_type();
            let message = crate::tool_json::tool_error_message(e);
            let none = Seq::<Ev>::empty();
            let m = w.manager.failed(error_type, message);
            failure_is_allowed(p1, w.manager, error_type, message);
            assert(none + m.1 =~= m.1);
            lemma_run_append(p, s1.1, m.1);
        },
        None => {
            let (input, creation, read) = w.usage();
            let usage = crate::sse::Usage {
                input_tokens: input as i32,
                output_tokens: w.output() as i32,
                cache_creation_input_tokens: creation as i32,
                cache_read_input_tokens: read as i32,
            };
            finish_is_allowed(p1, w.manager, usage, w.metering);
            lemma_run_append(p, s1.1, w.manager.finished(usage, w.metering).1);
        },
    }
}

proof fn lemma_no_open_thinking(p: ProtoV, v: StreamV)
    requires
        under_way(p, v),
        !v.thinking_open(),
    ensures
        forall|k: int|
            0 <= k < v.manager.blocks.len() && (#[trigger] v.manager.blocks[k]).open()
                ==> v.manager.blocks[k].kind != "thinking"@,
{
    assert forall|k: int|
        0 <= k < v.manager.blocks.len() && (
        #[trigger] v.manager.blocks[k]).open() implies v.manager.blocks[k].kind != "thinking"@ by {
        if v.manager.blocks[k].kind == "thinking"@ {
            lemma_found_at(v.manager, k);
        }
    }
}

/// A failure is in order wherever it comes: it signs and closes what is open,
/// and reports the error without counts and without a regular stop.
pub proof fn a_failure_is_in_order(
    p: ProtoV,
    v: StreamV,
    error_type: Seq<char>,
    message: Seq<char>,
)
    requires
        under_way(p, v),
    ensures
        legal(p, v.failed(error_type, message).1),
        run(p, v.failed(error_type, message).1).ended,
        !run(p, v.failed(error_type, message).1).counted,
{
    reveal(StreamV::failed);
    lemma_thinking_closed(p, v);
    let s = v.thinking_closed();
    let p1 = run(p, s.1);
    lemma_no_open_thinking(p1, s.0);
    failure_is_allowed(p1, s.0.manager, error_type, message);
    lemma_run_append(p, s.1, s.0.manager.failed(error_type, message).1);
}

/// What is charged at the end is what was known before it: sending the texts
/// that are still buffered changes neither the input counts nor the cost.
pub proof fn the_end_does_not_change_the_input(v: StreamV, ids: Draws)
    ensures
        v.ended(ids).0.usage() == v.usage(),
        v.ended(ids).0.metering == v.metering,
        v.ended(ids).0.metered == v.metered,
{
    reveal(StreamV::ended);
    reveal(StreamV::failed);
    lemma_flushed_framed(v, ids);
    let w = v.flushed(ids).0.calls_finished();
    lemma_thinking_closed_framed(w);
}

/// No event gives an index back.
pub(crate) proof fn lemma_processed_monotone(v: StreamV, event: EventV, ids: Draws)
    ensures
        v.manager.next_block_index <= v.processed(event, ids).0.manager.next_block_index,
{
    match event {
        EventV::AssistantResponse(content) => {
            lemma_answered_framed(v, content, ids);
        },
        EventV::ToolUse(f) => {
            reveal(StreamV::call_fragment);
            lemma_settled_framed(v, ids);
            let a = v.settled_before_call(ids).0;
            let (pending, outcome) = crate::tool_json::pushed(a.pending, f, a.names);
            if let Ok(Some(call)) = outcome {
                lemma_call_sent_calm(StreamV { pending, ..a }, call);
            }
        },
        EventV::Reasoning { text, signature, redacted } => {
            lemma_reasoned_framed(v, text, signature, redacted, ids);
        },
        _ => {},
    }
}

/// What a number of upstream events lead to.
pub open spec fn fed(v: StreamV, events: Seq<EventV>, ids: Draws) -> Step
    decreases events.len(),
{
    if events.len() == 0 {
        (v, Seq::empty())
    } else {
        let before = fed(v, events.drop_last(), ids);
        followed(before.1, before.0.processed(events.last(), ids))
    }
}

proof fn lemma_fed(p: ProtoV, v: StreamV, events: Seq<EventV>, ids: Draws)
    requires
        in_order(p, v),
        indices_left(fed(v, events, ids).0),
    ensures
        legal(p, fed(v, events, ids).1),
        in_order(run(p, fed(v, events, ids).1), fed(v, events, ids).0),
    decreases events.len(),
{
    if events.len() == 0 {
        lemma_nothing(p, v);
    } else {
        let head = events.drop_last();
        let a = fed(v, head, ids);
        let b = a.0.processed(events.last(), ids);
        lemma_processed_monotone(a.0, events.last(), ids);
        lemma_fed(p, v, head, ids);
        every_event_keeps_the_order(run(p, a.1), a.0, events.last(), ids);
        lemma_run_append(p, a.1, b.1);
    }
}

/// The events of a whole message are legal, from its opening to its end,
/// whatever the upstream sends: `message_start` comes once and first, each block
/// starts, takes deltas and stops, thinking is signed before it stops, the counts
/// come once after all blocks, and the end comes last, with an error in place of
/// the counts where a tool call could not be read.
///
/// Left out are the streams that use up all indices.
pub proof fn a_whole_message_is_legal(
    model: Seq<char>,
    message_id: Seq<char>,
    input_tokens: int,
    thinking_enabled: bool,
    names: Restoring,
    known: Set<Seq<char>>,
    events: Seq<EventV>,
    ids: Draws,
)
    requires
        ({
            let v = StreamV::fresh(
                model,
                message_id,
                input_tokens,
                thinking_enabled,
                names,
                known,
            );
            let w = fed(v.opened().0, events, ids).0;
            indices_left(w.flushed(ids).0)
        }),
    ensures
        ({
            let v = StreamV::fresh(
                model,
                message_id,
                input_tokens,
                thinking_enabled,
                names,
                known,
            );
            let a = v.opened();
            let b = fed(a.0, events, ids);
            let c = b.0.ended(ids);
            let all = a.1 + b.1 + c.1;
            &&& legal(unseen(), all)
            &&& run(unseen(), all).started
            &&& run(unseen(), all).ended
            &&& run(unseen(), all).counted == c.0.tool_error is None
        }),
{
    let v = StreamV::fresh(model, message_id, input_tokens, thinking_enabled, names, known);
    let a = v.opened();
    let b = fed(a.0, events, ids);
    let c = b.0.ended(ids);
    the_opening_is_in_order(model, message_id, input_tokens, thinking_enabled, names, known);
    lemma_flushed_framed(b.0, ids);
    lemma_fed(run(unseen(), a.1), a.0, events, ids);
    lemma_run_append(unseen(), a.1, b.1);
    the_end_is_in_order(run(unseen(), a.1 + b.1), b.0, ids);
    lemma_run_append(unseen(), a.1 + b.1, c.1);
    lemma_started_stays(run(unseen(), a.1), b.1);
    lemma_started_stays(run(unseen(), a.1 + b.1), c.1);
}

proof fn lemma_started_stays(p: ProtoV, evs: Seq<Ev>)
    ensures
        p.started ==> run(p, evs).started,
    decreases evs.len(),
{
    if evs.len() > 0 {
        lemma_started_stays(p, evs.drop_last());
    }
}

} // verus!
