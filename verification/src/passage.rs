//! What the upstream sends arrives: text as text, and tool calls as tool calls.
use crate::invoke::{
    invoke_start, invoke_start_here, lemma_invoke_end_fits, lemma_invoke_start_fits, open_tag_lt,
};
use crate::names::Restoring;
use crate::protocol::{run, ProtoV};
use crate::sse::{
    block_at, closing_events, delta_data, lemma_block_at, opt_seq, start_data, Ev, ManagerV,
};
use crate::stray::{guard_filter, guard_passes_a_prefix};
use crate::stream_laws::{
    calm, fed, framed, in_order, indices_left, lemma_drained_calm, lemma_flushed_framed,
    lemma_kinds, lemma_leftover, lemma_leftover_framed, lemma_nothing, lemma_processed_monotone,
    lemma_settled_framed, lemma_text_added_calm, lemma_text_sent, lemma_text_sent_calm, under_way,
    unseen,
};
use crate::stream_model::{
    input_delta, text_delta, tool_block, unfinished_tag, Draws, EventV, StreamV,
};
use crate::text::{
    first_occurrence, first_such, lemma_first_occurrence, lemma_first_such, occurs_at,
};
use vstd::prelude::*;

verus! {

/// The text that an event adds to the answer.
pub open spec fn told(ev: Ev) -> Seq<char> {
    match ev {
        Ev::Delta(_, data) => match data.field("delta"@) {
            Some(d) => if d.text_field("type"@) == Some("text_delta"@) {
                match d.text_field("text"@) {
                    Some(t) => t,
                    None => Seq::empty(),
                }
            } else {
                Seq::empty()
            },
            None => Seq::empty(),
        },
        _ => Seq::empty(),
    }
}

/// The text that events add to the answer.
pub open spec fn told_all(evs: Seq<Ev>) -> Seq<char>
    decreases evs.len(),
{
    if evs.len() == 0 {
        Seq::empty()
    } else {
        told_all(evs.drop_last()) + told(evs.last())
    }
}

pub(crate) proof fn lemma_told_append(a: Seq<Ev>, b: Seq<Ev>)
    ensures
        told_all(a + b) == told_all(a) + told_all(b),
    decreases b.len(),
{
    if b.len() == 0 {
        assert(a + b =~= a);
        assert(told_all(a) + told_all(b) =~= told_all(a));
    } else {
        lemma_told_append(a, b.drop_last());
        assert((a + b).drop_last() =~= a + b.drop_last());
        assert(told_all(a) + (told_all(b.drop_last()) + told(b.last())) =~= told_all(a)
            + told_all(b.drop_last()) + told(b.last()));
    }
}

pub(crate) proof fn lemma_told_one(ev: Ev)
    ensures
        told_all(seq![ev]) == told(ev),
        told_all(opt_seq(Some(ev))) == told(ev),
{
    reveal_with_fuel(told_all, 2);
    assert(opt_seq(Some(ev)) =~= seq![ev]);
    assert(seq![ev].drop_last() =~= Seq::<Ev>::empty());
    assert(Seq::<char>::empty() + told(ev) =~= told(ev));
}

pub(crate) proof fn lemma_silent(evs: Seq<Ev>)
    requires
        forall|i: int| 0 <= i < evs.len() ==> told(#[trigger] evs[i]).len() == 0,
    ensures
        told_all(evs) == Seq::<char>::empty(),
    decreases evs.len(),
{
    if evs.len() > 0 {
        let head = evs.drop_last();
        assert forall|i: int| 0 <= i < head.len() implies told(#[trigger] head[i]).len() == 0 by {
            assert(head[i] == evs[i]);
        }
        lemma_silent(head);
        assert(told(evs[evs.len() - 1]).len() == 0);
        assert(told_all(evs) =~= Seq::<char>::empty());
    }
}

proof fn lemma_closing_is_silent(blocks: Seq<crate::sse::BlockV>, only_text: bool)
    ensures
        told_all(closing_events(blocks, only_text)) == Seq::<char>::empty(),
    decreases blocks.len(),
{
    if blocks.len() > 0 {
        lemma_closing_is_silent(blocks.drop_last(), only_text);
        let before = closing_events(blocks.drop_last(), only_text);
        let ev = Ev::BlockStop(blocks.last().index);
        assert(before.push(ev).drop_last() =~= before);
        assert(Seq::<char>::empty() + Seq::<char>::empty() =~= Seq::<char>::empty());
    }
}

pub(crate) proof fn lemma_deltas(index: int, text: Seq<char>)
    ensures
        told(Ev::Delta(index, delta_data(index, text_delta(text)))) == text,
        told(Ev::Delta(index, delta_data(index, input_delta(text)))) == Seq::<char>::empty(),
{
    reveal_strlit("type");
    reveal_strlit("text");
    reveal_strlit("partial_json");
    reveal_strlit("text_delta");
    reveal_strlit("input_json_delta");
    assert("type"@[1] == 'y');
    assert("text"@[1] == 'e');
    assert("text_delta"@.len() != "input_json_delta"@.len());
    assert("type"@.len() != "partial_json"@.len());
}

/// The request declares tools.
pub open spec fn has_tools(v: StreamV) -> bool {
    v.known != Set::<Seq<char>>::empty()
}

/// What is written but not sent yet.
pub open spec fn unsent(v: StreamV) -> Seq<char> {
    v.sniffed + v.thinking_buffer + v.xml_buffer
}

/// No thinking has been found, and no markup is being dropped.
pub open spec fn plain(v: StreamV) -> bool {
    &&& !v.in_thinking
    &&& !v.extracted
    &&& v.thinking_index is None
    &&& !v.xml_stripping
    &&& !v.thinking_enabled ==> v.thinking_buffer.len() == 0
}

/// What sending text leaves alone.
pub open spec fn kept(v: StreamV, w: StreamV) -> bool {
    &&& calm(v, w)
    &&& w.xml_buffer == v.xml_buffer
    &&& w.xml_stripping == v.xml_stripping
    &&& v.guard.tripped ==> w.guard.tripped
    &&& v.manager.has_other_than_thinking() ==> w.manager.has_other_than_thinking()
    &&& w.manager.stop_reason == v.manager.stop_reason
}

proof fn lemma_text_opened_open(p: ProtoV, v: StreamV)
    requires
        under_way(p, v),
        indices_left(v.text_opened().0),
    ensures
        v.text_opened().0.text_index is Some,
        v.text_opened().0.manager.is_open(v.text_opened().0.text_index->Some_0, "text"@),
        told_all(v.text_opened().1) == Seq::<char>::empty(),
{
    reveal(StreamV::text_opened);
    lemma_kinds();
    let m = v.manager;
    let index = m.next_block_index;
    let n = v.text_opened().0.manager;
    lemma_block_at(m.blocks, index, 0);
    assert forall|j: int| 0 <= j < m.blocks.len() implies (#[trigger] m.blocks[j]).index != index by {
        assert(m.blocks[j].started);
    }
    assert(block_at(m.blocks, index, 0) is None);
    lemma_block_at(n.blocks, index, 0);
    let last = n.blocks.len() - 1;
    assert(n.blocks[last].index == index);
    let k = block_at(n.blocks, index, 0)->Some_0;
    if k < last {
        assert(n.blocks[k] == m.blocks[k]);
    }
    lemma_silent(v.text_opened().1);
}

/// Blocks of thinking that are added do not make up for others.
pub(crate) proof fn lemma_others_same(m: ManagerV, n: ManagerV)
    requires
        m.blocks.len() <= n.blocks.len(),
        forall|k: int|
            0 <= k < n.blocks.len() ==> (#[trigger] n.blocks[k]).kind == if k < m.blocks.len() {
                m.blocks[k].kind
            } else {
                "thinking"@
            },
    ensures
        n.has_other_than_thinking() == m.has_other_than_thinking(),
{
    if m.has_other_than_thinking() {
        let k = choose|k: int|
            0 <= k < m.blocks.len() && (#[trigger] m.blocks[k]).kind != "thinking"@;
        assert(n.blocks[k].kind != "thinking"@);
    }
    if n.has_other_than_thinking() {
        let k = choose|k: int|
            0 <= k < n.blocks.len() && (#[trigger] n.blocks[k]).kind != "thinking"@;
        assert(m.blocks[k].kind != "thinking"@);
    }
}

/// A block that is not one of thinking stays one.
proof fn lemma_other_stays(m: ManagerV, n: ManagerV)
    requires
        m.blocks.len() <= n.blocks.len(),
        forall|k: int|
            0 <= k < m.blocks.len() ==> (#[trigger] n.blocks[k]).kind == m.blocks[k].kind,
    ensures
        m.has_other_than_thinking() ==> n.has_other_than_thinking(),
{
    if m.has_other_than_thinking() {
        let k = choose|k: int|
            0 <= k < m.blocks.len() && (#[trigger] m.blocks[k]).kind != "thinking"@;
        assert(n.blocks[k].kind != "thinking"@);
    }
}

proof fn lemma_text_sent_kept(v: StreamV, text: Seq<char>)
    ensures
        kept(v, v.text_sent(text).0),
        v.text_sent(text).0.sniffed == v.sniffed,
{
    reveal(StreamV::text_sent);
    reveal(StreamV::text_opened);
    lemma_kinds();
    lemma_block_at(v.manager.blocks, v.manager.next_block_index, 0);
    lemma_other_stays(v.manager, v.text_sent(text).0.manager);
}

/// A text that the guard lets through is told.
pub(crate) proof fn lemma_text_sent_told(p: ProtoV, v: StreamV, text: Seq<char>)
    requires
        under_way(p, v),
        indices_left(v.text_sent(text).0),
        !v.text_sent(text).0.guard.tripped,
    ensures
        told_all(v.text_sent(text).1) == text,
        text.len() > 0 ==> v.text_sent(text).0.manager.has_other_than_thinking(),
        text.len() == 0 ==> v.text_sent(text).0.manager == v.manager,
{
    reveal(StreamV::text_sent);
    guard_passes_a_prefix(v.guard, text);
    let (guard, passed) = guard_filter(v.guard, text);
    let a = StreamV { guard, ..v };
    lemma_text_sent_calm(v, text);
    assert(guard == v.text_sent(text).0.guard) by {
        reveal(StreamV::text_opened);
    }
    assert(passed == text);
    if text.len() == 0 {
        assert(text =~= Seq::<char>::empty());
    } else {
        let b = StreamV {
            fence: crate::fence::fence_after(a.fence, passed),
            text_index: a.open_text_index(),
            ..a
        };
        assert(under_way(p, b));
        let s = match b.text_index {
            Some(_) => (b, Seq::<Ev>::empty()),
            None => b.text_opened(),
        };
        if b.text_index is None {
            lemma_text_opened_open(p, b);
        }
        let index = s.0.text_index->Some_0;
        let data = delta_data(index, text_delta(text));
        assert(s.0.manager.is_open(index, "text"@));
        let at = block_at(s.0.manager.blocks, index, 0)->Some_0;
        lemma_block_at(s.0.manager.blocks, index, 0);
        lemma_kinds();
        assert(s.0.manager.blocks[at].kind != "thinking"@);
        assert(s.0.manager.delta(index, data) == Some(Ev::Delta(index, data)));
        lemma_told_append(s.1, opt_seq(s.0.manager.delta(index, data)));
        lemma_told_one(Ev::Delta(index, data));
        lemma_deltas(index, text);
        assert(Seq::<char>::empty() + text =~= text);
    }
}

/// The text holds no opening tag of a call, whatever follows its name.
pub open spec fn no_invoke_tag(s: Seq<char>) -> bool {
    forall|p: int| #[trigger] occurs_at(s, "invoke"@, p) ==> open_tag_lt(s, p) is None
}

/// The text holds no markup that has a meaning: neither leaked markup, nor, where
/// tools were declared, the tag of a call, nor, where thinking was asked for, the
/// tag of thinking.
pub open spec fn no_markup(s: Seq<char>, tools: bool, thinking: bool) -> bool {
    &&& tools ==> no_invoke_tag(s)
    &&& forall|i: int| !#[trigger] occurs_at(s, "<tool_use"@, i)
    &&& thinking ==> forall|i: int| !#[trigger] occurs_at(s, "<thinking>"@, i)
}

pub(crate) proof fn lemma_occurs_within(s: Seq<char>, from: int, to: int, pat: Seq<char>, i: int)
    requires
        0 <= from <= to <= s.len(),
        occurs_at(s.subrange(from, to), pat, i),
    ensures
        occurs_at(s, pat, from + i),
{
    let t = s.subrange(from, to);
    assert(t.subrange(i, i + pat.len()) =~= s.subrange(from + i, from + i + pat.len()));
}

proof fn lemma_ident_within(s: Seq<char>, from: int, to: int, p: int)
    requires
        0 <= from <= to <= s.len(),
        0 <= p <= to - from,
        crate::invoke::ident_start(s.subrange(from, to), p) > 0,
    ensures
        crate::invoke::ident_start(s, from + p) == from + crate::invoke::ident_start(
            s.subrange(from, to),
            p,
        ),
    decreases p,
{
    let t = s.subrange(from, to);
    if 0 < p {
        assert(t[p - 1] == s[from + p - 1]);
        if crate::invoke::is_ident(t[p - 1]) {
            lemma_ident_within(s, from, to, p - 1);
        }
    }
}

/// A part of a text without markup has none either.
pub(crate) proof fn lemma_no_markup_within(s: Seq<char>, tools: bool, thinking: bool, from: int, to: int)
    requires
        no_markup(s, tools, thinking),
        0 <= from <= to <= s.len(),
    ensures
        no_markup(s.subrange(from, to), tools, thinking),
{
    let t = s.subrange(from, to);
    assert forall|i: int| !#[trigger] occurs_at(t, "<tool_use"@, i) by {
        if occurs_at(t, "<tool_use"@, i) {
            lemma_occurs_within(s, from, to, "<tool_use"@, i);
        }
    }
    if thinking {
        assert forall|i: int| !#[trigger] occurs_at(t, "<thinking>"@, i) by {
            if occurs_at(t, "<thinking>"@, i) {
                lemma_occurs_within(s, from, to, "<thinking>"@, i);
            }
        }
    }
    if tools {
        lemma_no_invoke_within(s, from, to);
    }
}

/// A part of a text without the tag of a call has none either.
pub(crate) proof fn lemma_no_invoke_within(s: Seq<char>, from: int, to: int)
    requires
        no_invoke_tag(s),
        0 <= from <= to <= s.len(),
    ensures
        no_invoke_tag(s.subrange(from, to)),
{
    let t = s.subrange(from, to);
    assert forall|p: int| #[trigger] occurs_at(t, "invoke"@, p) implies open_tag_lt(t, p) is None by {
        lemma_occurs_within(s, from, to, "invoke"@, p);
        assert(open_tag_lt(s, from + p) is None);
        if 0 < p <= t.len() {
            assert(t[p - 1] == s[from + p - 1]);
            let j = crate::invoke::ident_start(t, p - 1);
            if t[p - 1] == ':' && j > 0 && j < p - 1 && t[j - 1] == '<' {
                lemma_ident_within(s, from, to, p - 1);
                assert(s[from + j - 1] == '<');
            }
        }
    }
}

pub(crate) proof fn lemma_no_call(s: Seq<char>)
    requires
        no_invoke_tag(s),
    ensures
        invoke_start(s) is None,
{
    let q = invoke_start_here(s);
    lemma_first_such(q, 0, s.len() as int);
    if let Some(p) = first_such(q, 0, s.len() as int) {
        assert(q(p));
        assert(occurs_at(s, "invoke"@, p));
    }
}

proof fn lemma_no_thinking(s: Seq<char>, tools: bool)
    requires
        no_markup(s, tools, true),
    ensures
        crate::thinking::start_tag(s) is None,
{
    let q = crate::thinking::start_tag_here(s);
    lemma_first_such(q, 0, s.len() as int);
    if let Some(i) = first_such(q, 0, s.len() as int) {
        assert(q(i));
        assert(occurs_at(s, "<thinking>"@, i));
    }
}

pub(crate) proof fn lemma_unfinished_bounds(s: Seq<char>)
    ensures
        0 <= unfinished_tag(s) <= s.len(),
{
    crate::text::lemma_last_such(crate::text::holds_char(s, '<'), 0, s.len() as int);
}

pub(crate) proof fn lemma_held_back_bounds(s: Seq<char>, target: int)
    ensures
        0 <= crate::text::whole_chars(s, target) <= s.len(),
    decreases s.len(),
{
    if s.len() > 0 {
        lemma_held_back_bounds(s.drop_last(), target);
    }
}

proof fn lemma_block_taken_trips(v: StreamV, buf: Seq<char>, start: int, end: int, ids: Draws)
    ensures
        v.guard.tripped ==> v.block_taken(buf, start, end, ids).0.guard.tripped,
{
    reveal(StreamV::block_taken);
    reveal(StreamV::call_sent);
    let before = crate::stray::lead(v.fence.partial, buf.take(start));
    lemma_text_sent_kept(v, before);
    lemma_text_sent_kept(v, buf.take(end));
}

proof fn lemma_drained_trips(v: StreamV, buf: Seq<char>, flush: bool, ids: Draws)
    ensures
        v.guard.tripped ==> v.drained(buf, flush, ids).0.guard.tripped,
    decreases buf.len(),
{
    match invoke_start(buf) {
        Some(start) => match crate::invoke::invoke_end(buf, start) {
            Some(end) => {
                if 0 < end <= buf.len() {
                    lemma_block_taken_trips(v, buf, start, end, ids);
                    lemma_drained_trips(
                        v.block_taken(buf, start, end, ids).0,
                        buf.skip(end),
                        flush,
                        ids,
                    );
                }
            },
            None => {
                reveal(StreamV::unclosed_taken);
                lemma_text_sent_kept(v, buf);
                lemma_text_sent_kept(v, buf.take(start));
                lemma_text_sent_kept(v.text_sent(buf.take(start)).0, buf.skip(start));
            },
        },
        None => {
            lemma_text_sent_kept(v, buf);
            lemma_text_sent_kept(v, buf.take(unfinished_tag(buf)));
        },
    }
}

/// What is drained is told as far as it is not held back.
pub(crate) proof fn lemma_drained_told(p: ProtoV, v: StreamV, buf: Seq<char>, flush: bool, ids: Draws)
    requires
        under_way(p, v),
        v.sniffed.len() == 0,
        indices_left(v.drained(buf, flush, ids).0),
        !v.drained(buf, flush, ids).0.guard.tripped,
        has_tools(v) ==> no_invoke_tag(buf),
    ensures
        ({
            let s = v.drained(buf, flush, ids);
            &&& told_all(s.1) + s.0.sniffed == buf
            &&& flush ==> s.0.sniffed.len() == 0
            &&& kept(v, s.0)
            &&& told_all(s.1).len() > 0 ==> s.0.manager.has_other_than_thinking()
            &&& told_all(s.1).len() == 0 ==> s.0.manager == v.manager
        }),
    decreases buf.len(),
{
    let none = Seq::<char>::empty();
    assert(v.sniffed =~= none);
    let s = v.drained(buf, flush, ids);
    match invoke_start(buf) {
        Some(start) => {
            if has_tools(v) {
                lemma_no_call(buf);
            }
            lemma_invoke_start_fits(buf);
            lemma_invoke_end_fits(buf, start);
            match crate::invoke::invoke_end(buf, start) {
                Some(end) => {
                    let head = buf.take(end);
                    let tail = buf.skip(end);
                    let a = v.text_sent(head);
                    assert(v.block_taken(buf, start, end, ids) == a) by {
                        reveal(StreamV::block_taken);
                    }
                    lemma_text_sent_kept(v, head);
                    lemma_drained_calm(a.0, tail, flush, ids);
                    lemma_drained_trips(a.0, tail, flush, ids);
                    lemma_text_sent(p, v, head);
                    lemma_text_sent_told(p, v, head);
                    lemma_drained_told(run(p, a.1), a.0, tail, flush, ids);
                    let b = a.0.drained(tail, flush, ids);
                    lemma_told_append(a.1, b.1);
                    assert(told_all(s.1) + s.0.sniffed =~= head + (told_all(b.1) + b.0.sniffed));
                    assert(head + tail =~= buf);
                },
                None => {
                    lemma_unclosed_told(p, v, buf, start, flush);
                },
            }
        },
        None => {
            lemma_unfinished_bounds(buf);
            let split = if flush {
                buf.len() as int
            } else {
                unfinished_tag(buf)
            };
            let head = buf.take(split);
            assert(buf.take(buf.len() as int) =~= buf);
            lemma_text_sent_kept(v, head);
            lemma_text_sent_told(p, v, head);
            assert(head + buf.skip(split) =~= buf);
            assert(head + none =~= head);
        },
    }
}

proof fn lemma_unclosed_told(p: ProtoV, v: StreamV, buf: Seq<char>, start: int, flush: bool)
    requires
        under_way(p, v),
        v.sniffed == Seq::<char>::empty(),
        0 <= start <= buf.len(),
        indices_left(v.unclosed_taken(buf, start, flush).0),
        !v.unclosed_taken(buf, start, flush).0.guard.tripped,
    ensures
        ({
            let s = v.unclosed_taken(buf, start, flush);
            &&& told_all(s.1) + s.0.sniffed == buf
            &&& flush ==> s.0.sniffed.len() == 0
            &&& kept(v, s.0)
            &&& told_all(s.1).len() > 0 ==> s.0.manager.has_other_than_thinking()
            &&& told_all(s.1).len() == 0 ==> s.0.manager == v.manager
        }),
{
    reveal(StreamV::unclosed_taken);
    let none = Seq::<char>::empty();
    if !v.callable_behind(buf.take(start)) {
        lemma_text_sent_kept(v, buf);
        lemma_text_sent_told(p, v, buf);
        assert(buf + none =~= buf);
    } else {
        let head = buf.take(start);
        let rest = buf.skip(start);
        let a = v.text_sent(head);
        lemma_text_sent_kept(v, head);
        lemma_text_sent_kept(a.0, rest);
        lemma_text_sent_told(p, v, head);
        assert(head + rest =~= buf);
        if flush || crate::text::byte_len(rest) > crate::stream_model::most_held() {
            lemma_text_sent(p, v, head);
            lemma_text_sent_told(run(p, a.1), a.0, rest);
            lemma_told_append(a.1, a.0.text_sent(rest).1);
            assert(buf + none =~= buf);
        }
    }
}

/// Text without markup is told as far as it is not held back.
pub(crate) proof fn lemma_text_added_told(p: ProtoV, v: StreamV, text: Seq<char>, ids: Draws)
    requires
        under_way(p, v),
        indices_left(v.text_added(text, ids).0),
        !v.text_added(text, ids).0.guard.tripped,
        has_tools(v) ==> no_invoke_tag(v.sniffed + text),
    ensures
        told_all(v.text_added(text, ids).1) + v.text_added(text, ids).0.sniffed == v.sniffed + text,
        kept(v, v.text_added(text, ids).0),
        told_all(v.text_added(text, ids).1).len() > 0 ==> v.text_added(
            text,
            ids,
        ).0.manager.has_other_than_thinking(),
        told_all(v.text_added(text, ids).1).len() == 0 ==> v.text_added(text, ids).0.manager
            == v.manager,
{
    reveal(StreamV::text_added);
    if text.len() == 0 {
        assert(text =~= Seq::<char>::empty());
        assert(Seq::<char>::empty() + v.sniffed =~= v.sniffed + text);
    } else {
        let a = StreamV { sniffed: Seq::empty(), ..v };
        assert(under_way(p, a));
        lemma_drained_told(p, a, v.sniffed + text, false, ids);
    }
}

proof fn lemma_text_added_trips(v: StreamV, text: Seq<char>, ids: Draws)
    ensures
        v.guard.tripped ==> v.text_added(text, ids).0.guard.tripped,
{
    reveal(StreamV::text_added);
    lemma_drained_trips(StreamV { sniffed: Seq::empty(), ..v }, v.sniffed + text, false, ids);
}

/// Text without markup that may hold thinking is told as far as it is not held
/// back.
proof fn lemma_content_added_told(p: ProtoV, v: StreamV, content: Seq<char>, ids: Draws)
    requires
        under_way(p, v),
        plain(v),
        v.thinking_enabled,
        indices_left(v.content_added(content, ids).0),
        !v.content_added(content, ids).0.guard.tripped,
        no_markup(v.sniffed + v.thinking_buffer + content, has_tools(v), true),
    ensures
        ({
            let s = v.content_added(content, ids);
            &&& told_all(s.1) + s.0.sniffed + s.0.thinking_buffer == v.sniffed + v.thinking_buffer
                + content
            &&& plain(s.0)
            &&& framed(v, s.0)
            &&& s.0.xml_buffer == v.xml_buffer
            &&& v.guard.tripped ==> s.0.guard.tripped
        }),
{
    reveal(StreamV::content_added);
    reveal(StreamV::start_sought);
    let all = v.sniffed + v.thinking_buffer + content;
    let a = StreamV { thinking_buffer: v.thinking_buffer + content, ..v };
    let buf = a.thinking_buffer;
    let n = v.sniffed.len() as int;
    assert(all.subrange(n, all.len() as int) =~= buf);
    lemma_no_markup_within(all, has_tools(v), true, n, all.len() as int);
    lemma_no_thinking(buf, has_tools(v));
    let safe = crate::text::held_back(buf, 10);
    lemma_held_back_bounds(
        buf,
        if crate::text::byte_len(buf) > 10 {
            crate::text::byte_len(buf) - 10
        } else {
            0
        },
    );
    let head = buf.take(safe);
    let s = v.content_added(content, ids);
    let none = Seq::<Ev>::empty();
    assert(buf =~= head + buf.skip(safe));
    if crate::text::all_white(head) {
        assert(s.1 =~= none);
        assert(Seq::<char>::empty() + v.sniffed + buf =~= all);
    } else {
        assert(under_way(p, a));
        assert(all.subrange(0, n + safe) =~= v.sniffed + head);
        lemma_no_markup_within(all, has_tools(v), true, 0, n + safe);
        let t = a.text_added(head, ids);
        lemma_text_added_calm(a, head, ids);
        assert(s.1 =~= t.1);
        assert(s.0 == StreamV { thinking_buffer: buf.skip(safe), ..t.0 });
        lemma_text_added_told(p, a, head, ids);
        assert(told_all(t.1) + s.0.sniffed + s.0.thinking_buffer =~= all);
    }
}

pub(crate) proof fn lemma_scan_plain(s: Seq<char>, tools: bool, thinking: bool)
    requires
        no_markup(s, tools, thinking),
    ensures
        ({
            let scan = crate::xml_leak::xml_scan(false, s);
            scan.out + scan.buffer == s && !scan.stripping
        }),
        crate::xml_leak::xml_stripped(s) == s,
{
    reveal_strlit("<tool_use");
    let open = "<tool_use"@;
    lemma_first_occurrence(s, open, 0);
    if let Some(i) = first_occurrence(s, open, 0) {
        assert(occurs_at(s, open, i));
    }
    let k = crate::xml_leak::partial_len(s, open);
    crate::xml_leak::lemma_partial_up_to(s, open, open.len() - 1);
    assert(s.take(s.len() - k) + s.skip(s.len() - k) =~= s);
}

/// Texts in a row, however they are put together.
proof fn lemma_in_a_row(a: Seq<char>, b: Seq<char>, c: Seq<char>, d: Seq<char>)
    ensures
        (a + b + c) + d == (a + b) + (c + d),
        (a + b + c) + d == a + (b + c + d),
        (a + b + c + d).subrange((a + b).len() as int, (a + b + c + d).len() as int) == c + d,
        (a + b + c + d).subrange(0, (a + b + c).len() as int) == a + b + c,
{
    assert((a + b + c) + d =~= (a + b) + (c + d));
    assert((a + b + c) + d =~= a + (b + c + d));
    assert((a + b + c + d).subrange((a + b).len() as int, (a + b + c + d).len() as int) =~= c + d);
    assert((a + b + c + d).subrange(0, (a + b + c).len() as int) =~= a + b + c);
}

/// What the filter for leaked markup has passed on is told as far as it is not
/// held back.
proof fn lemma_passed_on_told(p: ProtoV, v: StreamV, out: Seq<char>, ids: Draws)
    requires
        under_way(p, v),
        plain(v),
        ({
            let s = if v.thinking_enabled {
                v.content_added(out, ids)
            } else {
                v.text_added(out, ids)
            };
            indices_left(s.0) && !s.0.guard.tripped
        }),
        no_markup(v.sniffed + v.thinking_buffer + out, has_tools(v), v.thinking_enabled),
    ensures
        ({
            let s = if v.thinking_enabled {
                v.content_added(out, ids)
            } else {
                v.text_added(out, ids)
            };
            &&& told_all(s.1) + s.0.sniffed + s.0.thinking_buffer == v.sniffed + v.thinking_buffer
                + out
            &&& plain(s.0)
            &&& s.0.xml_buffer == v.xml_buffer
        }),
{
    if v.thinking_enabled {
        lemma_content_added_told(p, v, out, ids);
    } else {
        assert(v.sniffed + v.thinking_buffer + out =~= v.sniffed + out);
        lemma_text_added_told(p, v, out, ids);
        let s = v.text_added(out, ids);
        assert(told_all(s.1) + s.0.sniffed + s.0.thinking_buffer =~= told_all(s.1) + s.0.sniffed);
    }
}

/// A text of the answer is told as far as it is not held back.
proof fn lemma_answered_told(p: ProtoV, v: StreamV, content: Seq<char>, ids: Draws)
    requires
        under_way(p, v),
        plain(v),
        indices_left(v.answered(content, ids).0),
        !v.answered(content, ids).0.guard.tripped,
        no_markup(unsent(v) + content, has_tools(v), v.thinking_enabled),
    ensures
        ({
            let s = v.answered(content, ids);
            &&& told_all(s.1) + unsent(s.0) == unsent(v) + content
            &&& plain(s.0)
        }),
{
    reveal(StreamV::answered);
    let all = unsent(v) + content;
    let text = v.xml_buffer + content;
    lemma_in_a_row(v.sniffed, v.thinking_buffer, v.xml_buffer, content);
    lemma_no_markup_within(
        all,
        has_tools(v),
        v.thinking_enabled,
        (v.sniffed + v.thinking_buffer).len() as int,
        all.len() as int,
    );
    lemma_scan_plain(text, has_tools(v), v.thinking_enabled);
    let scan = crate::xml_leak::xml_scan(false, text);
    lemma_in_a_row(v.sniffed, v.thinking_buffer, scan.out, scan.buffer);
    let head = v.sniffed + v.thinking_buffer + scan.out;
    assert(all == head + scan.buffer);
    lemma_no_markup_within(all, has_tools(v), v.thinking_enabled, 0, head.len() as int);
    let a = StreamV { xml_buffer: scan.buffer, xml_stripping: false, ..v };
    let s = v.answered(content, ids);
    assert(under_way(p, a));
    if scan.out.len() == 0 {
        assert(head =~= v.sniffed + v.thinking_buffer);
        assert(Seq::<char>::empty() + unsent(a) =~= unsent(a));
    } else {
        let b = a.tokens_added(crate::tokens::token_estimate(scan.out));
        assert(under_way(p, b));
        lemma_passed_on_told(p, b, scan.out, ids);
        let t = if v.thinking_enabled {
            b.content_added(scan.out, ids)
        } else {
            b.text_added(scan.out, ids)
        };
        assert(s.0 == t.0);
        assert(s.1 =~= t.1);
        lemma_in_a_row(told_all(t.1), t.0.sniffed, t.0.thinking_buffer, scan.buffer);
    }
}

pub(crate) proof fn lemma_thinking_keeps_guard(v: StreamV, content: Seq<char>, signature: Seq<char>)
    ensures
        v.thinking_opened().0.guard == v.guard,
        v.thinking_ended(signature).0.guard == v.guard,
        v.thinking_finished(content).0.guard == v.guard,
        v.end_sought().0.guard == v.guard,
        v.native_thinking_closed().0.guard == v.guard,
{
    reveal(StreamV::thinking_opened);
    reveal(StreamV::thinking_finished);
    reveal(StreamV::end_sought);
}

proof fn lemma_rest_sent_trips(v: StreamV, ids: Draws)
    ensures
        v.guard.tripped ==> v.rest_sent(ids).0.guard.tripped,
{
    reveal(StreamV::rest_sent);
    lemma_text_added_trips(
        StreamV { thinking_buffer: Seq::empty(), ..v },
        v.thinking_buffer,
        ids,
    );
}

proof fn lemma_content_added_trips(v: StreamV, content: Seq<char>, ids: Draws)
    ensures
        v.guard.tripped ==> v.content_added(content, ids).0.guard.tripped,
{
    reveal(StreamV::content_added);
    reveal(StreamV::start_sought);
    let none = Seq::<char>::empty();
    let a = StreamV { thinking_buffer: v.thinking_buffer + content, ..v };
    let buf = a.thinking_buffer;
    let b = if !a.in_thinking && !a.extracted {
        a.start_sought(ids).0
    } else {
        a
    };
    assert(a.guard.tripped ==> b.guard.tripped) by {
        if let Some(at) = crate::thinking::start_tag(buf) {
            lemma_text_added_trips(a, buf.take(at), ids);
            let t = a.text_added_unless_white(buf.take(at), ids).0;
            let u = StreamV {
                in_thinking: true,
                strip_newline: true,
                thinking_buffer: buf.skip(at + 10),
                ..t
            };
            lemma_thinking_keeps_guard(u, none, none);
        } else {
            lemma_text_added_trips(a, buf.take(crate::text::held_back(buf, 10)), ids);
        }
    }
    let c = if b.in_thinking {
        b.end_sought().0
    } else {
        b
    };
    lemma_thinking_keeps_guard(b, none, none);
    lemma_rest_sent_trips(c, ids);
}

proof fn lemma_answered_trips(v: StreamV, content: Seq<char>, ids: Draws)
    ensures
        v.guard.tripped ==> v.answered(content, ids).0.guard.tripped,
{
    reveal(StreamV::answered);
    let none = Seq::<char>::empty();
    let scan = crate::xml_leak::xml_scan(v.xml_stripping, v.xml_buffer + content);
    let a = StreamV { xml_buffer: scan.buffer, xml_stripping: scan.stripping, ..v };
    lemma_thinking_keeps_guard(a, none, none);
    let b = a.native_thinking_closed().0.tokens_added(crate::tokens::token_estimate(scan.out));
    lemma_content_added_trips(b, scan.out, ids);
    lemma_text_added_trips(b, scan.out, ids);
}

proof fn lemma_end_taken_trips(v: StreamV, ids: Draws)
    ensures
        v.guard.tripped ==> v.end_tag_at_end_taken(ids).0.guard.tripped,
{
    reveal(StreamV::end_tag_at_end_taken);
    let none = Seq::<char>::empty();
    if let Some(at) = crate::thinking::closing_tag(v.thinking_buffer) {
        let buf = v.thinking_buffer;
        lemma_thinking_keeps_guard(v, buf.take(at), none);
        let w = v.thinking_finished(buf.take(at)).0;
        lemma_text_added_trips(
            StreamV { thinking_buffer: Seq::empty(), ..w },
            crate::text::trimmed_start(buf.skip(at + 11)),
            ids,
        );
    }
}

proof fn lemma_call_fragment_trips(v: StreamV, f: crate::tool_json::FragmentV, ids: Draws)
    ensures
        v.guard.tripped ==> v.call_fragment(f, ids).0.guard.tripped,
{
    reveal(StreamV::call_fragment);
    reveal(StreamV::settled_before_call);
    reveal(StreamV::call_sent);
    let none = Seq::<char>::empty();
    let a = StreamV { manager: ManagerV { has_tool_use: true, ..v.manager }, ..v };
    lemma_thinking_keeps_guard(a, none, none);
    let b = a.native_thinking_closed().0;
    lemma_end_taken_trips(b, ids);
    let c = if b.thinking_enabled && b.in_thinking {
        b.end_tag_at_end_taken(ids).0
    } else {
        b
    };
    lemma_rest_sent_trips(c, ids);
}

/// A tool call adds nothing to the text.
proof fn lemma_call_sent_silent(v: StreamV, call: crate::tool_json::CallV)
    ensures
        told_all(v.call_sent(call).1) == Seq::<char>::empty(),
        kept(v, v.call_sent(call).0),
        v.call_sent(call).0.sniffed == v.sniffed,
{
    reveal(StreamV::call_sent);
    let m0 = ManagerV { has_tool_use: true, ..v.manager };
    let known = v.tool_blocks.dom().contains(call.id);
    let index = if known {
        v.tool_blocks[call.id]
    } else {
        m0.next_block_index
    };
    let m = if known {
        m0
    } else {
        m0.index_taken()
    };
    let input = crate::json::json_printed(call.input);
    let data = start_data(index, tool_block(call));
    let (m1, start) = m.block_started(index, "tool_use"@, data);
    let delta = m1.delta(index, delta_data(index, input_delta(input)));
    let (m2, stop) = m1.block_stopped(index);
    lemma_block_at(crate::sse::all_closed(m.blocks, true), index, 0);
    lemma_block_at(m1.blocks, index, 0);
    lemma_other_stays(v.manager, m2);
    lemma_closing_is_silent(m.blocks, true);
    let closing = closing_events(m.blocks, true);
    assert(told_all(start) == Seq::<char>::empty()) by {
        if start.len() > closing.len() {
            assert(start.drop_last() =~= closing);
            assert(told_all(start) =~= Seq::<char>::empty());
        }
    }
    lemma_deltas(index, input);
    lemma_silent(opt_seq(delta));
    lemma_silent(opt_seq(stop));
    lemma_told_append(start, opt_seq(delta));
    lemma_told_append(start + opt_seq(delta), opt_seq(stop));
    assert(told_all(v.call_sent(call).1) =~= Seq::<char>::empty());
}

/// What is buffered in search of thinking is told as far as it is not held back.
proof fn lemma_rest_sent_told(p: ProtoV, v: StreamV, ids: Draws)
    requires
        under_way(p, v),
        plain(v),
        indices_left(v.rest_sent(ids).0),
        !v.rest_sent(ids).0.guard.tripped,
        no_markup(unsent(v), has_tools(v), v.thinking_enabled),
    ensures
        ({
            let s = v.rest_sent(ids);
            &&& told_all(s.1) + unsent(s.0) == unsent(v)
            &&& s.0.thinking_buffer.len() == 0
            &&& kept(StreamV { thinking_buffer: Seq::empty(), ..v }, s.0)
        }),
{
    reveal(StreamV::rest_sent);
    let none = Seq::<char>::empty();
    let a = StreamV { thinking_buffer: none, ..v };
    assert(under_way(p, a));
    let head = v.sniffed + v.thinking_buffer;
    assert(unsent(v).subrange(0, head.len() as int) =~= head);
    lemma_no_markup_within(unsent(v), has_tools(v), v.thinking_enabled, 0, head.len() as int);
    lemma_text_added_told(p, a, v.thinking_buffer, ids);
    let s = v.rest_sent(ids);
    assert(s.0.thinking_buffer == none);
    assert(s.0.sniffed + none =~= s.0.sniffed);
    assert(told_all(s.1) + (s.0.sniffed + s.0.xml_buffer) =~= (told_all(s.1) + s.0.sniffed)
        + s.0.xml_buffer);
}

/// A fragment of a tool call takes nothing from the text.
proof fn lemma_call_fragment_told(
    p: ProtoV,
    v: StreamV,
    f: crate::tool_json::FragmentV,
    ids: Draws,
)
    requires
        in_order(p, v),
        plain(v),
        indices_left(v.call_fragment(f, ids).0),
        !v.call_fragment(f, ids).0.guard.tripped,
        no_markup(unsent(v), has_tools(v), v.thinking_enabled),
    ensures
        ({
            let s = v.call_fragment(f, ids);
            &&& told_all(s.1) + unsent(s.0) == unsent(v)
            &&& plain(s.0)
        }),
{
    reveal(StreamV::call_fragment);
    reveal(StreamV::settled_before_call);
    let none = Seq::<char>::empty();
    let a = StreamV { manager: ManagerV { has_tool_use: true, ..v.manager }, ..v };
    assert(under_way(p, a));
    let s1 = v.settled_before_call(ids);
    let t = if v.thinking_enabled {
        a.rest_sent(ids)
    } else {
        (a, Seq::<Ev>::empty())
    };
    assert(s1.0 == t.0);
    assert(s1.1 =~= t.1);
    let (pending, outcome) = crate::tool_json::pushed(s1.0.pending, f, s1.0.names);
    let w = StreamV { pending, ..s1.0 };
    let s = v.call_fragment(f, ids);
    if let Ok(Some(call)) = outcome {
        lemma_call_sent_silent(w, call);
        lemma_told_append(s1.1, w.call_sent(call).1);
        assert(told_all(s1.1) + none =~= told_all(s1.1));
    }
    if v.thinking_enabled {
        lemma_rest_sent_told(p, a, ids);
    } else {
        assert(none + unsent(v) =~= unsent(v));
    }
}

/// What events write as text of the answer.
pub open spec fn written(events: Seq<EventV>) -> Seq<char>
    decreases events.len(),
{
    if events.len() == 0 {
        Seq::empty()
    } else {
        match events.last() {
            EventV::AssistantResponse(content) => written(events.drop_last()) + content,
            _ => written(events.drop_last()),
        }
    }
}

/// No event is one of thinking that the upstream marks as such.
pub open spec fn no_reasoning(events: Seq<EventV>) -> bool {
    forall|i: int| 0 <= i < events.len() ==> !(#[trigger] events[i] is Reasoning)
}

pub(crate) proof fn lemma_processed_trips(v: StreamV, event: EventV, ids: Draws)
    requires
        !(event is Reasoning),
    ensures
        v.guard.tripped ==> v.processed(event, ids).0.guard.tripped,
{
    match event {
        EventV::AssistantResponse(content) => {
            lemma_answered_trips(v, content, ids);
        },
        EventV::ToolUse(f) => {
            lemma_call_fragment_trips(v, f, ids);
        },
        _ => {},
    }
}

/// What has been told and what is unsent is what was written.
proof fn lemma_fed_told(p: ProtoV, v: StreamV, events: Seq<EventV>, ids: Draws)
    requires
        in_order(p, v),
        plain(v),
        unsent(v).len() == 0,
        no_reasoning(events),
        indices_left(fed(v, events, ids).0),
        !fed(v, events, ids).0.guard.tripped,
        no_markup(written(events), has_tools(v), v.thinking_enabled),
    ensures
        ({
            let s = fed(v, events, ids);
            &&& told_all(s.1) + unsent(s.0) == written(events)
            &&& plain(s.0)
            &&& s.0.thinking_enabled == v.thinking_enabled
            &&& s.0.known == v.known
            &&& in_order(run(p, s.1), s.0)
        }),
    decreases events.len(),
{
    if events.len() == 0 {
        lemma_nothing(p, v);
        assert(told_all(Seq::<Ev>::empty()) + unsent(v) =~= written(events));
    } else {
        let head = events.drop_last();
        let last = events.last();
        let a = fed(v, head, ids);
        let q = run(p, a.1);
        let b = a.0.processed(last, ids);
        let before = written(head);
        assert(last == events[events.len() - 1]);
        assert forall|i: int| 0 <= i < head.len() implies !(#[trigger] head[i] is Reasoning) by {
            assert(head[i] == events[i]);
        }
        lemma_processed_monotone(a.0, last, ids);
        lemma_processed_trips(a.0, last, ids);
        assert(written(events).subrange(0, before.len() as int) =~= before);
        lemma_no_markup_within(written(events), has_tools(v), v.thinking_enabled, 0, before.len() as int);
        lemma_fed_told(p, v, head, ids);
        crate::stream_laws::every_event_keeps_the_order(q, a.0, last, ids);
        crate::protocol::lemma_run_append(p, a.1, b.1);
        lemma_told_append(a.1, b.1);
        let t = told_all(a.1);
        let u = unsent(a.0);
        match last {
            EventV::AssistantResponse(content) => {
                assert(written(events) =~= t + (u + content));
                assert(written(events).subrange(t.len() as int, written(events).len() as int)
                    =~= u + content);
                lemma_no_markup_within(
                    written(events),
                    has_tools(v),
        v.thinking_enabled,
                    t.len() as int,
                    written(events).len() as int,
                );
                lemma_answered_told(q, a.0, content, ids);
                lemma_answered_enabled(a.0, content, ids);
            },
            EventV::ToolUse(f) => {
                assert(before.subrange(t.len() as int, before.len() as int) =~= u);
                lemma_no_markup_within(
                    before,
                    has_tools(v),
        v.thinking_enabled,
                    t.len() as int,
                    before.len() as int,
                );
                lemma_call_fragment_told(q, a.0, f, ids);
                lemma_call_fragment_enabled(a.0, f, ids);
            },
            _ => {
                assert(b.1 =~= Seq::<Ev>::empty());
                assert(told_all(b.1) + unsent(b.0) =~= u);
            },
        }
        assert(t + told_all(b.1) + unsent(b.0) =~= t + (told_all(b.1) + unsent(b.0)));
    }
}

proof fn lemma_answered_enabled(v: StreamV, content: Seq<char>, ids: Draws)
    ensures
        v.answered(content, ids).0.thinking_enabled == v.thinking_enabled,
        v.answered(content, ids).0.known == v.known,
{
    crate::stream_laws::lemma_answered_framed(v, content, ids);
}

proof fn lemma_call_fragment_enabled(v: StreamV, f: crate::tool_json::FragmentV, ids: Draws)
    ensures
        v.call_fragment(f, ids).0.thinking_enabled == v.thinking_enabled,
        v.call_fragment(f, ids).0.known == v.known,
{
    reveal(StreamV::call_fragment);
    reveal(StreamV::call_sent);
    lemma_settled_framed(v, ids);
}

proof fn lemma_leftover_trips(v: StreamV, ids: Draws)
    ensures
        v.guard.tripped ==> v.leftover_sent(ids).0.guard.tripped,
{
    reveal(StreamV::leftover_sent);
    let leftover = crate::xml_leak::xml_stripped(v.xml_buffer);
    let w = StreamV { xml_buffer: Seq::empty(), xml_stripping: false, ..v };
    lemma_content_added_trips(w, leftover, ids);
    lemma_text_added_trips(w, leftover, ids);
}

pub(crate) proof fn lemma_buffer_sent_trips(v: StreamV, ids: Draws)
    ensures
        v.guard.tripped ==> v.buffer_sent(ids).0.guard.tripped,
{
    reveal(StreamV::buffer_sent);
    reveal(StreamV::tagged_thinking_cut);
    reveal(StreamV::tagged_thinking_ended);
    let buf = v.thinking_buffer;
    let none = Seq::<char>::empty();
    lemma_thinking_keeps_guard(
        v,
        match crate::thinking::closing_tag(buf) {
            Some(at) => buf.take(at),
            None => buf,
        },
        none,
    );
    lemma_rest_sent_trips(v, ids);
}

pub(crate) proof fn lemma_supplied_trips(v: StreamV, ids: Draws)
    ensures
        v.guard.tripped ==> v.text_supplied(ids).0.guard.tripped,
{
    reveal(StreamV::text_supplied);
    lemma_text_added_trips(
        StreamV { manager: v.manager.with_reason("max_tokens"@), ..v },
        " "@,
        ids,
    );
}

pub(crate) proof fn lemma_held_trips(v: StreamV, ids: Draws)
    ensures
        v.guard.tripped ==> v.held_sent(ids).0.guard.tripped,
{
    reveal(StreamV::held_sent);
    lemma_drained_trips(StreamV { sniffed: Seq::empty(), ..v }, v.sniffed, true, ids);
}

pub(crate) proof fn lemma_flushed_trips(v: StreamV, ids: Draws)
    ensures
        v.guard.tripped ==> v.flushed(ids).0.guard.tripped,
{
    reveal(StreamV::flushed);
    let none = Seq::<char>::empty();
    lemma_leftover_trips(v, ids);
    let a = v.leftover_sent(ids).0;
    lemma_thinking_keeps_guard(a, none, none);
    let b = a.native_thinking_closed().0;
    lemma_buffer_sent_trips(b, ids);
    let c = b.buffer_sent(ids).0;
    lemma_held_trips(c, ids);
    let d = c.held_sent(ids).0;
    lemma_supplied_trips(d, ids);
}

/// What the filter for leaked markup has kept is told as far as it is not held
/// back.
proof fn lemma_leftover_told(p: ProtoV, v: StreamV, ids: Draws)
    requires
        in_order(p, v),
        plain(v),
        indices_left(v.leftover_sent(ids).0),
        !v.leftover_sent(ids).0.guard.tripped,
        no_markup(unsent(v), has_tools(v), v.thinking_enabled),
    ensures
        ({
            let s = v.leftover_sent(ids);
            &&& told_all(s.1) + unsent(s.0) == unsent(v)
            &&& plain(s.0)
            &&& s.0.xml_buffer.len() == 0
        }),
{
    reveal(StreamV::leftover_sent);
    let none = Seq::<char>::empty();
    let n = (v.sniffed + v.thinking_buffer).len() as int;
    assert(unsent(v).subrange(n, unsent(v).len() as int) =~= v.xml_buffer);
    lemma_no_markup_within(unsent(v), has_tools(v), v.thinking_enabled, n, unsent(v).len() as int);
    lemma_scan_plain(v.xml_buffer, has_tools(v), v.thinking_enabled);
    let leftover = v.xml_buffer;
    let w = StreamV { xml_buffer: none, xml_stripping: false, ..v };
    let s = v.leftover_sent(ids);
    assert(crate::xml_leak::xml_stripped(v.xml_buffer) == leftover);
    assert(in_order(p, w));
    if leftover.len() == 0 {
        assert(unsent(w) =~= unsent(v));
        assert(none + unsent(w) =~= unsent(v));
    } else {
        lemma_passed_on_told(p, w, leftover, ids);
        lemma_in_a_row(told_all(s.1), s.0.sniffed, s.0.thinking_buffer, none);
        assert(told_all(s.1) + s.0.sniffed + s.0.thinking_buffer + none =~= unsent(v));
    }
}

/// All that was written is told in the end.
proof fn lemma_flushed_told(p: ProtoV, v: StreamV, ids: Draws)
    requires
        in_order(p, v),
        plain(v),
        indices_left(v.flushed(ids).0),
        !v.flushed(ids).0.guard.tripped,
        no_markup(unsent(v), has_tools(v), v.thinking_enabled),
    ensures
        told_all(v.flushed(ids).1) == unsent(v),
        v.flushed(ids).0.thinking_index is None,
{
    reveal(StreamV::flushed);
    let none = Seq::<char>::empty();
    let s1 = v.leftover_sent(ids);
    lemma_leftover_framed(v, ids);
    crate::stream_laws::lemma_thinking_closed_framed(s1.0);
    let s2 = s1.0.native_thinking_closed();
    lemma_buffer_sent_trips(s2.0, ids);
    crate::stream_laws::lemma_buffer_sent_framed(s2.0, ids);
    let s3 = s2.0.buffer_sent(ids);
    lemma_held_trips(s3.0, ids);
    crate::stream_laws::lemma_held_calm(s3.0, ids);
    let s4 = s3.0.held_sent(ids);
    lemma_supplied_trips(s4.0, ids);
    crate::stream_laws::lemma_supplied_calm(s4.0, ids);
    let s5 = s4.0.text_supplied(ids);
    lemma_thinking_keeps_guard(s1.0, none, none);
    lemma_leftover(p, v, ids);
    lemma_leftover_told(p, v, ids);
    assert(s2 == (s1.0, Seq::<Ev>::empty()));
    let p1 = run(p, s1.1);
    let t1 = told_all(s1.1);
    assert(unsent(v).subrange(t1.len() as int, unsent(v).len() as int) =~= unsent(s1.0));
    lemma_no_markup_within(
        unsent(v),
        has_tools(v),
        v.thinking_enabled,
        t1.len() as int,
        unsent(v).len() as int,
    );
    crate::stream_laws::lemma_buffer_sent(p1, s1.0, ids);
    assert(told_all(s3.1) + s3.0.sniffed == unsent(s1.0) && s3.0.thinking_index is None) by {
        reveal(StreamV::buffer_sent);
        if s1.0.thinking_enabled {
            lemma_rest_sent_told(p1, s1.0, ids);
            assert(unsent(s3.0) =~= s3.0.sniffed);
        } else {
            assert(none + s1.0.sniffed =~= unsent(s1.0));
        }
    }
    assert(s5 == (s4.0, Seq::<Ev>::empty())) by {
        reveal(StreamV::text_supplied);
    }
    let p3 = run(p1, s3.1);
    let t3 = told_all(s3.1);
    let rest = s3.0.sniffed;
    assert(unsent(s1.0).subrange(t3.len() as int, unsent(s1.0).len() as int) =~= rest);
    lemma_no_markup_within(
        unsent(s1.0),
        has_tools(v),
        v.thinking_enabled,
        t3.len() as int,
        unsent(s1.0).len() as int,
    );
    assert(told_all(s4.1) == rest) by {
        reveal(StreamV::held_sent);
        let w = StreamV { sniffed: none, ..s3.0 };
        assert(under_way(p3, w));
        lemma_drained_told(p3, w, rest, true, ids);
        assert(told_all(s4.1) + s4.0.sniffed =~= told_all(s4.1));
    }
    lemma_told_append(s1.1, s2.1);
    lemma_told_append(s1.1 + s2.1, s3.1);
    lemma_told_append(s1.1 + s2.1 + s3.1, s4.1);
    lemma_told_append(s1.1 + s2.1 + s3.1 + s4.1, s5.1);
    assert(told_all(v.flushed(ids).1) =~= t1 + (t3 + rest));
}

/// The end of a stream adds no text to what it flushes.
pub(crate) proof fn lemma_ended_told(v: StreamV, ids: Draws)
    requires
        !v.flushed(ids).0.thinking_open(),
    ensures
        told_all(v.ended(ids).1) == told_all(v.flushed(ids).1),
{
    reveal(StreamV::ended);
    reveal(StreamV::failed);
    let none = Seq::<char>::empty();
    let s = v.flushed(ids);
    let w = s.0.calls_finished();
    lemma_closing_is_silent(w.manager.blocks, false);
    let closing = closing_events(w.manager.blocks, false);
    match w.tool_error {
        Some(e) => {
            let error_type = crate::tool_json::tool_error_type();
            let message = crate::tool_json::tool_error_message(e);
            let end = w.manager.failed(error_type, message).1;
            assert(end.drop_last() =~= closing);
            assert(told_all(end) =~= none);
            assert(w.failed(error_type, message).1 =~= end);
            lemma_told_append(s.1, end);
            assert(told_all(s.1) + none =~= told_all(s.1));
        },
        None => {
            let (input, creation, read) = w.usage();
            let usage = crate::sse::Usage {
                input_tokens: input as i32,
                output_tokens: w.output() as i32,
                cache_creation_input_tokens: creation as i32,
                cache_read_input_tokens: read as i32,
            };
            let end = w.manager.finished(usage, w.metering).1;
            let rest = end.skip(closing.len() as int);
            assert(end =~= closing + rest);
            lemma_silent(rest);
            lemma_told_append(closing, rest);
            assert(told_all(end) =~= none);
            lemma_told_append(s.1, end);
            assert(told_all(s.1) + none =~= told_all(s.1));
        },
    }
}

/// What the upstream writes as text arrives, whole, in order and unchanged,
/// however it is cut into events and whatever tool calls come in between: the
/// text of all the events of a message is the text that was written.
///
/// This is so for a text without markup that has a meaning, which is written
/// without native thinking in between and not cut off for a word that is repeated
/// without end, as long as indices of blocks are left. Where no tools were
/// declared, a tool call in the text is text like any other.
pub proof fn what_is_written_arrives(
    model: Seq<char>,
    message_id: Seq<char>,
    input_tokens: int,
    thinking_enabled: bool,
    names: Restoring,
    known: Set<Seq<char>>,
    events: Seq<EventV>,
    ids: Draws,
)
    requires
        no_reasoning(events),
        no_markup(written(events), known != Set::<Seq<char>>::empty(), thinking_enabled),
        ({
            let v = StreamV::fresh(
                model,
                message_id,
                input_tokens,
                thinking_enabled,
                names,
                known,
            );
            let w = fed(v.opened().0, events, ids).0;
            indices_left(w.flushed(ids).0) && !w.flushed(ids).0.guard.tripped
        }),
    ensures
        ({
            let v = StreamV::fresh(
                model,
                message_id,
                input_tokens,
                thinking_enabled,
                names,
                known,
            );
            let a = v.opened();
            let b = fed(a.0, events, ids);
            let c = b.0.ended(ids);
            told_all(a.1 + b.1 + c.1) == written(events)
        }),
{
    let v = StreamV::fresh(model, message_id, input_tokens, thinking_enabled, names, known);
    let a = v.opened();
    let b = fed(a.0, events, ids);
    let c = b.0.ended(ids);
    crate::stream_laws::the_opening_is_in_order(
        model,
        message_id,
        input_tokens,
        thinking_enabled,
        names,
        known,
    );
    let p = run(unseen(), a.1);
    assert(told_all(a.1) == Seq::<char>::empty() && plain(a.0) && unsent(a.0).len() == 0
        && a.0.thinking_enabled == thinking_enabled && a.0.known == known) by {
        reveal(StreamV::text_opened);
        lemma_silent(a.1);
    }
    lemma_flushed_framed(b.0, ids);
    lemma_flushed_trips(b.0, ids);
    lemma_fed_told(p, a.0, events, ids);
    let t = told_all(b.1);
    let u = unsent(b.0);
    let all = written(events);
    assert(all.subrange(t.len() as int, all.len() as int) =~= u);
    lemma_no_markup_within(all, has_tools(v), thinking_enabled, t.len() as int, all.len() as int);
    lemma_flushed_told(run(p, b.1), b.0, ids);
    lemma_ended_told(b.0, ids);
    lemma_told_append(a.1, b.1);
    lemma_told_append(a.1 + b.1, c.1);
    assert(told_all(a.1 + b.1 + c.1) =~= all);
}

/// A complete tool call under a new identifier arrives: the open blocks of text are
/// closed, and a block of its own holds its identifier, its name and its arguments.
pub proof fn a_complete_call_arrives(p: ProtoV, v: StreamV, call: crate::tool_json::CallV)
    requires
        under_way(p, v),
        indices_left(v.call_sent(call).0),
        !v.tool_blocks.dom().contains(call.id),
    ensures
        ({
            let i = v.manager.next_block_index;
            let input = crate::json::json_printed(call.input);
            v.call_sent(call).1 == closing_events(v.manager.blocks, true) + seq![
                Ev::BlockStart(i, "tool_use"@, start_data(i, tool_block(call))),
                Ev::Delta(i, delta_data(i, input_delta(input))),
                Ev::BlockStop(i),
            ]
        }),
{
    reveal(StreamV::call_sent);
    let i = v.manager.next_block_index;
    let m = ManagerV { has_tool_use: true, ..v.manager }.index_taken();
    let input = crate::json::json_printed(call.input);
    let data = start_data(i, tool_block(call));
    let (m1, start) = m.block_started(i, "tool_use"@, data);
    let closed = crate::sse::all_closed(m.blocks, true);
    lemma_block_at(closed, i, 0);
    assert forall|j: int| 0 <= j < closed.len() implies (#[trigger] closed[j]).index != i by {
        assert(v.manager.blocks[j].started);
    }
    assert(block_at(closed, i, 0) is None);
    lemma_block_at(m1.blocks, i, 0);
    let last = m1.blocks.len() - 1;
    assert(m1.blocks[last].index == i);
    let k = block_at(m1.blocks, i, 0)->Some_0;
    if k < last {
        assert(m1.blocks[k] == closed[k]);
    }
    assert(v.call_sent(call).1 =~= closing_events(v.manager.blocks, true) + seq![
        Ev::BlockStart(i, "tool_use"@, data),
        Ev::Delta(i, delta_data(i, input_delta(input))),
        Ev::BlockStop(i),
    ]);
}

} // verus!
