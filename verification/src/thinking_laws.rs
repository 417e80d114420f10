//! Thinking between tags arrives as thinking, however the text is cut.
use crate::names::Restoring;
use crate::passage::{
    has_tools, lemma_buffer_sent_trips, lemma_drained_told, lemma_ended_told, lemma_flushed_trips,
    lemma_held_back_bounds, lemma_held_trips, lemma_no_invoke_within, lemma_no_markup_within,
    lemma_occurs_within, lemma_others_same, lemma_processed_trips, lemma_scan_plain, lemma_silent,
    lemma_supplied_trips, lemma_text_added_told, lemma_thinking_keeps_guard, lemma_told_append,
    no_invoke_tag, no_markup, told, told_all, written,
};
use crate::invoke::{invoke_end, invoke_start};
use crate::protocol::{lemma_run_append, run, ProtoV};
use crate::sse::{closing_events, delta_data, lemma_block_at, opt_seq, start_data, Ev, ManagerV};
use crate::stream_laws::{
    every_event_keeps_the_order, fed, in_order, indices_left, lemma_buffer_sent_framed,
    lemma_end_sought, lemma_end_sought_framed, lemma_flushed_framed, lemma_held, lemma_held_calm,
    lemma_kinds, lemma_leftover, lemma_leftover_framed, lemma_nothing, lemma_processed_monotone,
    lemma_rest_sent, lemma_rest_sent_framed, lemma_start_sought, lemma_start_sought_framed,
    lemma_supplied, lemma_supplied_calm, lemma_text_added_calm, lemma_thinking_closed_framed,
    the_opening_is_in_order, under_way, unseen,
};
use crate::stream_model::{
    input_delta, placeholder_signature, signature_delta, text_delta, thinking_delta, thought,
    thought_if_any, tool_block, unfinished_tag, Draws, EventV, StreamV,
};
use crate::text::{
    byte_len, char_width, first_such, held_back, lemma_byte_len_add, lemma_byte_len_bounds,
    lemma_first_such, occurs_at, whole_chars,
};
use crate::thinking::{end_tag, end_tag_here, is_quote, quote_at, without_newline};
use crate::tool_json::CallV;
use crate::xml_leak::xml_scan;
use vstd::prelude::*;

verus! {

/// The thinking that an event adds to the answer.
pub open spec fn thinking_told(ev: Ev) -> Seq<char> {
    match ev {
        Ev::Delta(_, data) => match data.field("delta"@) {
            Some(d) => if d.text_field("type"@) == Some("thinking_delta"@) {
                match d.text_field("thinking"@) {
                    Some(t) => t,
                    None => Seq::empty(),
                }
            } else {
                Seq::empty()
            },
            None => Seq::empty(),
        },
        _ => Seq::empty(),
    }
}

/// The thinking that events add to the answer.
pub open spec fn all_thinking_told(evs: Seq<Ev>) -> Seq<char>
    decreases evs.len(),
{
    if evs.len() == 0 {
        Seq::empty()
    } else {
        all_thinking_told(evs.drop_last()) + thinking_told(evs.last())
    }
}

pub(crate) proof fn lemma_thinking_append(a: Seq<Ev>, b: Seq<Ev>)
    ensures
        all_thinking_told(a + b) == all_thinking_told(a) + all_thinking_told(b),
    decreases b.len(),
{
    if b.len() == 0 {
        assert(a + b =~= a);
        assert(all_thinking_told(a) + all_thinking_told(b) =~= all_thinking_told(a));
    } else {
        lemma_thinking_append(a, b.drop_last());
        assert((a + b).drop_last() =~= a + b.drop_last());
        assert(all_thinking_told(a) + (all_thinking_told(b.drop_last()) + thinking_told(b.last()))
            =~= all_thinking_told(a) + all_thinking_told(b.drop_last()) + thinking_told(b.last()));
    }
}

pub(crate) proof fn lemma_thoughtless(evs: Seq<Ev>)
    requires
        forall|i: int| 0 <= i < evs.len() ==> thinking_told(#[trigger] evs[i]).len() == 0,
    ensures
        all_thinking_told(evs) == Seq::<char>::empty(),
    decreases evs.len(),
{
    if evs.len() > 0 {
        let head = evs.drop_last();
        assert forall|i: int| 0 <= i < head.len() implies thinking_told(#[trigger] head[i]).len()
            == 0 by {
            assert(head[i] == evs[i]);
        }
        lemma_thoughtless(head);
        assert(thinking_told(evs[evs.len() - 1]).len() == 0);
        assert(all_thinking_told(evs) =~= Seq::<char>::empty());
    }
}

pub(crate) proof fn lemma_thinking_deltas(index: int, text: Seq<char>)
    ensures
        thinking_told(Ev::Delta(index, delta_data(index, thinking_delta(text)))) == text,
        told(Ev::Delta(index, delta_data(index, thinking_delta(text)))).len() == 0,
        thinking_told(Ev::Delta(index, delta_data(index, signature_delta(text)))).len() == 0,
        told(Ev::Delta(index, delta_data(index, signature_delta(text)))).len() == 0,
        thinking_told(Ev::Delta(index, delta_data(index, text_delta(text)))).len() == 0,
        thinking_told(Ev::Delta(index, delta_data(index, input_delta(text)))).len() == 0,
{
    reveal_strlit("partial_json");
    reveal_strlit("input_json_delta");
    reveal_strlit("type");
    reveal_strlit("text");
    reveal_strlit("thinking");
    reveal_strlit("signature");
    reveal_strlit("text_delta");
    reveal_strlit("thinking_delta");
    reveal_strlit("signature_delta");
    assert("type"@[1] == 'y');
    assert("text"@[1] == 'e');
    assert("type"@.len() != "thinking"@.len());
    assert("type"@.len() != "signature"@.len());
    assert("type"@.len() != "partial_json"@.len());
    assert("input_json_delta"@.len() == 16);
    assert("text_delta"@.len() == 10);
    assert("thinking_delta"@.len() == 14);
    assert("signature_delta"@.len() == 15);
}

proof fn lemma_thought_told(index: Option<int>, text: Seq<char>)
    requires
        index is Some,
    ensures
        all_thinking_told(thought(index, text)) == text,
        all_thinking_told(thought_if_any(index, text)) == text,
        told_all(thought(index, text)) == Seq::<char>::empty(),
        told_all(thought_if_any(index, text)) == Seq::<char>::empty(),
{
    let i = index->Some_0;
    lemma_thinking_deltas(i, text);
    let ev = Ev::Delta(i, delta_data(i, thinking_delta(text)));
    reveal_with_fuel(all_thinking_told, 2);
    assert(seq![ev].drop_last() =~= Seq::<Ev>::empty());
    assert(Seq::<char>::empty() + text =~= text);
    lemma_silent(seq![ev]);
    if text.len() == 0 {
        assert(text =~= Seq::<char>::empty());
    }
}

proof fn lemma_ended_tells_nothing(v: StreamV, signature: Seq<char>)
    ensures
        all_thinking_told(v.thinking_ended(signature).1) == Seq::<char>::empty(),
        told_all(v.thinking_ended(signature).1) == Seq::<char>::empty(),
{
    if let Some(i) = v.thinking_index {
        lemma_thinking_deltas(i, Seq::empty());
        lemma_thinking_deltas(i, signature);
        lemma_silent(v.thinking_ended(signature).1);
        lemma_thoughtless(v.thinking_ended(signature).1);
    }
}

/// The tag that ends thinking, with the empty line behind it.
pub open spec fn closing() -> Seq<char> {
    "</thinking>"@ + "\n\n"@
}

/// What stands behind the tag that begins thinking.
pub open spec fn behind(t: Seq<char>, rest: Seq<char>) -> Seq<char> {
    t + closing() + rest
}

/// A text that is thinking between tags and then an answer. No tag stands inside
/// the thinking, and none of the tags is quoted.
pub open spec fn well_tagged(t: Seq<char>, rest: Seq<char>) -> bool {
    &&& t.len() > 0
    &&& !is_quote(t[0])
    &&& !is_quote(t.last())
    &&& forall|j: int| 0 <= j < t.len() ==> !#[trigger] occurs_at(behind(t, rest), "</thinking>"@, j)
}

proof fn lemma_closing()
    ensures
        closing().len() == 13,
        "</thinking>"@.len() == 11,
        "<thinking>"@.len() == 10,
        "\n\n"@.len() == 2,
        forall|i: int| 0 <= i < 13 ==> char_width(#[trigger] closing()[i]) == 1,
        closing()[11] == '\n',
        closing().subrange(0, 11) == "</thinking>"@,
        closing().subrange(11, 13) == "\n\n"@,
{
    reveal_strlit("</thinking>");
    reveal_strlit("<thinking>");
    reveal_strlit("\n\n");
    assert(closing().subrange(0, 11) =~= "</thinking>"@);
    assert(closing().subrange(11, 13) =~= "\n\n"@);
    assert forall|i: int| 0 <= i < 13 implies char_width(#[trigger] closing()[i]) == 1 by {
        if i < 11 {
            assert(closing()[i] == "</thinking>"@[i]);
        } else {
            assert(closing()[i] == "\n\n"@[i - 11]);
        }
    }
}

/// Nothing before the tag that ends thinking is taken for it.
proof fn lemma_end_not_before(n: Seq<char>, rest: Seq<char>, to: int, k: int, i: int)
    requires
        0 <= k <= n.len(),
        k <= to <= behind(n, rest).len(),
        forall|j: int|
            0 <= j < n.len() ==> !#[trigger] occurs_at(behind(n, rest), "</thinking>"@, j),
        0 <= i,
        end_tag_here(behind(n, rest).subrange(k, to))(i),
    ensures
        n.len() <= k + i,
        k + i + 13 <= to,
{
    lemma_closing();
    lemma_occurs_within(behind(n, rest), k, to, "</thinking>"@, i);
    if k + i < n.len() {
        assert(!occurs_at(behind(n, rest), "</thinking>"@, k + i));
    }
}

/// The tag that ends thinking is taken for it.
proof fn lemma_end_here(n: Seq<char>, rest: Seq<char>, to: int, k: int)
    requires
        0 <= k <= n.len(),
        n.len() + 13 <= to <= behind(n, rest).len(),
        n.len() > 0 ==> !is_quote(n.last()),
    ensures
        end_tag_here(behind(n, rest).subrange(k, to))(n.len() - k),
{
    lemma_closing();
    let buf = behind(n, rest).subrange(k, to);
    let i = n.len() - k;
    assert(buf.subrange(i, i + 11) =~= closing().subrange(0, 11));
    assert(buf.subrange(i + 11, i + 13) =~= closing().subrange(11, 13));
    if i > 0 {
        assert(buf[i - 1] == n.last());
    }
    assert(buf[i + 11] == closing()[11]);
    assert(!quote_at(buf, i - 1));
    assert(!quote_at(buf, i + 11));
}

/// The tag that ends thinking is found in a part of the text just where it
/// stands, once the part holds all of it.
///
/// `n` is the thinking, `w` what has arrived of it and what follows it, and `k`
/// how much of that has been sent.
proof fn lemma_end_found(n: Seq<char>, rest: Seq<char>, w: Seq<char>, k: int)
    requires
        0 <= k <= n.len(),
        k <= w.len() <= behind(n, rest).len(),
        w == behind(n, rest).take(w.len() as int),
        n.len() > 0 ==> !is_quote(n.last()),
        forall|j: int|
            0 <= j < n.len() ==> !#[trigger] occurs_at(behind(n, rest), "</thinking>"@, j),
    ensures
        end_tag(w.skip(k)) == if w.len() >= n.len() + 13 {
            Some(n.len() - k)
        } else {
            None
        },
{
    let to = w.len() as int;
    let buf = w.skip(k);
    let q = end_tag_here(buf);
    assert(buf =~= behind(n, rest).subrange(k, to));
    lemma_first_such(q, 0, buf.len() as int);
    if let Some(i) = first_such(q, 0, buf.len() as int) {
        lemma_end_not_before(n, rest, to, k, i);
    }
    if to >= n.len() + 13 {
        lemma_end_here(n, rest, to, k);
        assert(q(n.len() - k));
    }
}

/// What is held back of a text that ends with the beginning of a tag holds that
/// beginning.
proof fn lemma_tag_is_held_back(n: Seq<char>, rest: Seq<char>, w: Seq<char>, k: int)
    requires
        0 <= k <= n.len(),
        k <= w.len() < n.len() + 13,
        w.len() <= behind(n, rest).len(),
        w == behind(n, rest).take(w.len() as int),
    ensures
        0 <= held_back(w.skip(k), 13) <= w.skip(k).len(),
        k + held_back(w.skip(k), 13) <= n.len(),
{
    lemma_closing();
    let buf = w.skip(k);
    let target = if byte_len(buf) > 13 {
        byte_len(buf) - 13
    } else {
        0
    };
    lemma_held_back_bounds(buf, target);
    let safe = held_back(buf, 13);
    lemma_whole_chars_fit(buf, target);
    let tail = buf.skip(safe);
    assert(buf.take(safe) + tail =~= buf);
    lemma_byte_len_add(buf.take(safe), tail);
    if k + safe > n.len() {
        assert forall|i: int| 0 <= i < tail.len() implies char_width(#[trigger] tail[i]) == 1 by {
            assert(tail[i] == closing()[k + safe + i - n.len()]);
        }
        lemma_narrow(tail);
        lemma_byte_len_bounds(buf.take(safe));
        assert(tail.len() < 13);
    }
}

proof fn lemma_whole_chars_fit(s: Seq<char>, target: int)
    requires
        0 <= target,
    ensures
        byte_len(s.take(whole_chars(s, target))) <= target,
    decreases s.len(),
{
    lemma_held_back_bounds(s, target);
    if s.len() == 0 {
        assert(s.take(0) =~= s);
    } else if byte_len(s) <= target {
        assert(s.take(s.len() as int) =~= s);
    } else {
        lemma_whole_chars_fit(s.drop_last(), target);
        lemma_held_back_bounds(s.drop_last(), target);
        let i = whole_chars(s.drop_last(), target);
        assert(s.drop_last().take(i) =~= s.take(i));
    }
}

proof fn lemma_narrow(s: Seq<char>)
    requires
        forall|i: int| 0 <= i < s.len() ==> char_width(#[trigger] s[i]) == 1,
    ensures
        byte_len(s) == s.len(),
    decreases s.len(),
{
    if s.len() > 0 {
        let head = s.drop_last();
        assert forall|i: int| 0 <= i < head.len() implies char_width(#[trigger] head[i]) == 1 by {
            assert(head[i] == s[i]);
        }
        lemma_narrow(head);
        assert(char_width(s[s.len() - 1]) == 1);
    }
}

/// What has arrived behind the tag that begins thinking is sent or buffered; `k` is
/// what was sent of it, and `q` what has arrived.
pub open spec fn pending(v: StreamV, k: Seq<char>, q: Seq<char>) -> bool {
    if v.strip_newline {
        k.len() == 0 && v.thinking_buffer == q
    } else {
        q.len() > 0 && k + v.thinking_buffer == without_newline(q)
    }
}

/// A line break right behind the tag does not change what is inside.
proof fn lemma_without_newline(t: Seq<char>, rest: Seq<char>, q: Seq<char>)
    requires
        well_tagged(t, rest),
        q.len() <= behind(t, rest).len(),
        q == behind(t, rest).take(q.len() as int),
    ensures
        ({
            let n = without_newline(t);
            let w = without_newline(q);
            let cut = t.len() - n.len();
            &&& 0 <= cut <= 1
            &&& n.len() > 0 ==> !is_quote(n.last())
            &&& forall|j: int|
                0 <= j < n.len() ==> !#[trigger] occurs_at(behind(n, rest), "</thinking>"@, j)
            &&& behind(n, rest).len() == behind(t, rest).len() - cut
            &&& q.len() > 0 ==> w.len() == q.len() - cut && w == q.skip(cut)
            &&& w.len() <= behind(n, rest).len()
            &&& w == behind(n, rest).take(w.len() as int)
        }),
{
    lemma_closing();
    let n = without_newline(t);
    let w = without_newline(q);
    let cut = t.len() - n.len();
    let u = behind(t, rest);
    assert(n =~= t.skip(cut));
    assert(behind(n, rest) =~= u.skip(cut));
    if q.len() > 0 {
        assert(q[0] == t[0]);
        assert(w =~= q.skip(cut));
    }
    assert(w =~= behind(n, rest).take(w.len() as int));
    assert forall|j: int| 0 <= j < n.len() implies !#[trigger] occurs_at(
        behind(n, rest),
        "</thinking>"@,
        j,
    ) by {
        if occurs_at(behind(n, rest), "</thinking>"@, j) {
            assert(behind(n, rest) =~= u.subrange(cut, u.len() as int));
            lemma_occurs_within(u, cut, u.len() as int, "</thinking>"@, j);
            assert(!occurs_at(u, "</thinking>"@, cut + j));
        }
    }
}

/// What looking for the end of thinking leaves alone.
pub open spec fn text_untouched(v: StreamV, w: StreamV) -> bool {
    &&& w.sniffed == v.sniffed
    &&& w.xml_buffer == v.xml_buffer
    &&& w.xml_stripping == v.xml_stripping
    &&& w.thinking_index == v.thinking_index
    &&& w.thinking_enabled == v.thinking_enabled
    &&& w.known == v.known
    &&& w.guard == v.guard
    &&& w.manager.stop_reason == v.manager.stop_reason
}

/// The end of thinking opens no block.
proof fn lemma_end_sought_opens_none(v: StreamV)
    ensures
        v.end_sought().0.manager.has_other_than_thinking()
            == v.manager.has_other_than_thinking(),
{
    reveal(StreamV::end_sought);
    reveal(StreamV::thinking_finished);
    if let Some(i) = v.thinking_index {
        lemma_block_at(v.manager.blocks, i, 0);
    }
    lemma_others_same(v.manager, v.end_sought().0.manager);
}

/// Thinking that ends is told, and its block is closed.
proof fn lemma_finished_told(p: ProtoV, v: StreamV, content: Seq<char>)
    requires
        under_way(p, v),
        v.thinking_open(),
    ensures
        ({
            let s = v.thinking_finished(content);
            &&& told_all(s.1) == Seq::<char>::empty()
            &&& all_thinking_told(s.1) == content
            &&& text_untouched(v, s.0)
            &&& !s.0.in_thinking
            &&& s.0.extracted
            &&& !s.0.thinking_open()
        }),
{
    crate::stream_laws::lemma_not_open_after_finish(p, v, content);
    reveal(StreamV::thinking_finished);
    let b = StreamV { in_thinking: false, extracted: true, ..v };
    let first = thought_if_any(b.thinking_index, content);
    let end = b.thinking_ended(placeholder_signature());
    lemma_thought_told(b.thinking_index, content);
    lemma_ended_tells_nothing(b, placeholder_signature());
    lemma_thinking_append(first, end.1);
    lemma_told_append(first, end.1);
    assert(content + Seq::<char>::empty() =~= content);
    assert(Seq::<char>::empty() + Seq::<char>::empty() =~= Seq::<char>::empty());
}

/// Thinking that has arrived is told as far as it is not held back, and whole once
/// the tag that ends it has arrived.
proof fn lemma_end_sought_told(
    p: ProtoV,
    v: StreamV,
    k: Seq<char>,
    q: Seq<char>,
    t: Seq<char>,
    rest: Seq<char>,
)
    requires
        in_order(p, v),
        v.in_thinking,
        well_tagged(t, rest),
        q.len() <= behind(t, rest).len(),
        q == behind(t, rest).take(q.len() as int),
        pending(v, k, q),
        k.len() <= without_newline(t).len(),
    ensures
        ({
            let s = v.end_sought();
            let sent = k + all_thinking_told(s.1);
            &&& told_all(s.1) == Seq::<char>::empty()
            &&& text_untouched(v, s.0)
            &&& if q.len() < t.len() + 13 {
                &&& s.0.in_thinking
                &&& s.0.extracted == v.extracted
                &&& pending(s.0, sent, q)
                &&& sent.len() <= without_newline(t).len()
            } else {
                &&& !s.0.in_thinking
                &&& s.0.extracted
                &&& !s.0.thinking_open()
                &&& sent == without_newline(t)
                &&& s.0.thinking_buffer == q.skip(t.len() as int + 13)
            }
        }),
{
    reveal(StreamV::end_sought);
    lemma_without_newline(t, rest, q);
    let n = without_newline(t);
    let w = without_newline(q);
    let a = v.newline_stripped();
    let buf = a.thinking_buffer;
    let m = k.len() as int;
    assert(under_way(p, a));
    assert(k + buf =~= w) by {
        if v.strip_newline {
            assert(k =~= Seq::<char>::empty());
        }
    }
    assert(buf =~= w.skip(m));
    lemma_end_found(n, rest, w, m);
    let s = v.end_sought();
    match end_tag(buf) {
        Some(at) => {
            let content = buf.take(at);
            lemma_finished_told(p, a, content);
            assert(k + content =~= w.take(n.len() as int));
            assert(w.take(n.len() as int) =~= n);
            assert(buf.skip(at + 13) =~= q.skip(t.len() as int + 13));
        },
        None => {
            lemma_tag_is_held_back(n, rest, w, m);
            let safe = held_back(buf, 13);
            lemma_thought_told(a.thinking_index, buf.take(safe));
            assert((k + buf.take(safe)) + buf.skip(safe) =~= w);
            if q.len() == 0 {
                assert(buf.take(safe) =~= Seq::<char>::empty());
                assert(buf.skip(safe) =~= q);
            }
        },
    }
}

proof fn lemma_text_sent_thoughtless(v: StreamV, text: Seq<char>)
    ensures
        all_thinking_told(v.text_sent(text).1) == Seq::<char>::empty(),
{
    reveal(StreamV::text_sent);
    reveal(StreamV::text_opened);
    lemma_kinds();
    let none = Seq::<char>::empty();
    let (guard, kept) = crate::stray::guard_filter(v.guard, text);
    if kept.len() > 0 {
        let a = StreamV { guard, ..v };
        let b = StreamV {
            fence: crate::fence::fence_after(a.fence, kept),
            text_index: a.open_text_index(),
            ..a
        };
        let s = match b.text_index {
            Some(_) => (b, Seq::<Ev>::empty()),
            None => b.text_opened(),
        };
        lemma_thoughtless(s.1);
        let index = s.0.text_index->Some_0;
        let delta = s.0.manager.delta(index, delta_data(index, text_delta(kept)));
        lemma_thinking_deltas(index, kept);
        lemma_thoughtless(opt_seq(delta));
        lemma_thinking_append(s.1, opt_seq(delta));
        assert(none + none =~= none);
    }
}

proof fn lemma_closing_is_thoughtless(blocks: Seq<crate::sse::BlockV>, only_text: bool)
    ensures
        all_thinking_told(closing_events(blocks, only_text)) == Seq::<char>::empty(),
    decreases blocks.len(),
{
    if blocks.len() > 0 {
        lemma_closing_is_thoughtless(blocks.drop_last(), only_text);
        let before = closing_events(blocks.drop_last(), only_text);
        let ev = Ev::BlockStop(blocks.last().index);
        assert(before.push(ev).drop_last() =~= before);
        assert(Seq::<char>::empty() + Seq::<char>::empty() =~= Seq::<char>::empty());
    }
}

proof fn lemma_call_sent_thoughtless(v: StreamV, call: CallV)
    ensures
        all_thinking_told(v.call_sent(call).1) == Seq::<char>::empty(),
{
    reveal(StreamV::call_sent);
    let m0 = ManagerV { has_tool_use: true, ..v.manager };
    let known = v.tool_blocks.dom().contains(call.id);
    let index = if known {
        v.tool_blocks[call.id]
    } else {
        m0.next_block_index
    };
    let m = if known {
        m0
    } else {
        m0.index_taken()
    };
    let input = crate::json::json_printed(call.input);
    let data = start_data(index, tool_block(call));
    let (m1, start) = m.block_started(index, "tool_use"@, data);
    let delta = m1.delta(index, delta_data(index, input_delta(input)));
    let (m2, stop) = m1.block_stopped(index);
    lemma_closing_is_thoughtless(m.blocks, true);
    let closing = closing_events(m.blocks, true);
    assert(all_thinking_told(start) == Seq::<char>::empty()) by {
        if start.len() > closing.len() {
            assert(start.drop_last() =~= closing);
            assert(all_thinking_told(start) =~= Seq::<char>::empty());
        }
    }
    lemma_thinking_deltas(index, input);
    lemma_thoughtless(opt_seq(delta));
    lemma_thoughtless(opt_seq(stop));
    lemma_thinking_append(start, opt_seq(delta));
    lemma_thinking_append(start + opt_seq(delta), opt_seq(stop));
    assert(all_thinking_told(v.call_sent(call).1) =~= Seq::<char>::empty());
}

/// Text and the calls in it add nothing to the thinking.
proof fn lemma_drained_thoughtless(v: StreamV, buf: Seq<char>, flush: bool, ids: Draws)
    ensures
        all_thinking_told(v.drained(buf, flush, ids).1) == Seq::<char>::empty(),
    decreases buf.len(),
{
    let none = Seq::<char>::empty();
    assert(none + none =~= none);
    match invoke_start(buf) {
        Some(start) => match invoke_end(buf, start) {
            Some(end) => {
                if 0 < end <= buf.len() {
                    let a = v.block_taken(buf, start, end, ids);
                    lemma_block_taken_thoughtless(v, buf, start, end, ids);
                    lemma_drained_thoughtless(a.0, buf.skip(end), flush, ids);
                    lemma_thinking_append(a.1, a.0.drained(buf.skip(end), flush, ids).1);
                }
            },
            None => {
                reveal(StreamV::unclosed_taken);
                let a = v.text_sent(buf.take(start));
                lemma_text_sent_thoughtless(v, buf);
                lemma_text_sent_thoughtless(v, buf.take(start));
                lemma_text_sent_thoughtless(a.0, buf.skip(start));
                lemma_thinking_append(a.1, a.0.text_sent(buf.skip(start)).1);
            },
        },
        None => {
            lemma_text_sent_thoughtless(v, buf);
            lemma_text_sent_thoughtless(v, buf.take(unfinished_tag(buf)));
        },
    }
}

proof fn lemma_block_taken_thoughtless(
    v: StreamV,
    buf: Seq<char>,
    start: int,
    end: int,
    ids: Draws,
)
    ensures
        all_thinking_told(v.block_taken(buf, start, end, ids).1) == Seq::<char>::empty(),
{
    reveal(StreamV::block_taken);
    let none = Seq::<char>::empty();
    assert(none + none =~= none);
    let before = crate::stray::lead(v.fence.partial, buf.take(start));
    let block = buf.subrange(start, end);
    lemma_text_sent_thoughtless(v, buf.take(end));
    if v.reclaimable(buf.take(start), block) {
        let (name, input) = crate::invoke::invoke_parsed(block)->Some_0;
        let a = v.text_sent(before);
        lemma_text_sent_thoughtless(v, before);
        let call = crate::tool_json::restored_call(ids(a.0.drawn), name, input, a.0.names);
        let b = StreamV { drawn: a.0.drawn + 1, ..a.0 };
        lemma_call_sent_thoughtless(b, call);
        lemma_thinking_append(a.1, b.call_sent(call).1);
    }
}

pub(crate) proof fn lemma_text_added_thoughtless(v: StreamV, text: Seq<char>, ids: Draws)
    ensures
        all_thinking_told(v.text_added(text, ids).1) == Seq::<char>::empty(),
{
    reveal(StreamV::text_added);
    lemma_drained_thoughtless(
        StreamV { sniffed: Seq::empty(), ..v },
        v.sniffed + text,
        false,
        ids,
    );
}

/// A text that is thinking between tags and then an answer.
pub open spec fn tagged(t: Seq<char>, rest: Seq<char>) -> Seq<char> {
    "<thinking>"@ + behind(t, rest)
}

/// How far a text has been dealt with of which `passed` has arrived: `k` is the
/// thinking and `l` the answer that was sent of it.
pub open spec fn stage(
    v: StreamV,
    k: Seq<char>,
    l: Seq<char>,
    passed: Seq<char>,
    t: Seq<char>,
    rest: Seq<char>,
) -> bool {
    let q = passed.skip(10);
    v.manager.has_other_than_thinking() == (l.len() > 0) && if passed.len() < 10 {
        &&& !v.in_thinking
        &&& !v.extracted
        &&& v.thinking_index is None
        &&& v.thinking_buffer == passed
        &&& v.sniffed.len() == 0
        &&& k.len() == 0
        &&& l.len() == 0
    } else if q.len() < t.len() + 13 {
        &&& v.in_thinking
        &&& !v.extracted
        &&& v.sniffed.len() == 0
        &&& l.len() == 0
        &&& pending(v, k, q)
        &&& k.len() <= without_newline(t).len()
    } else {
        &&& !v.in_thinking
        &&& v.extracted
        &&& v.thinking_index is Some
        &&& !v.thinking_open()
        &&& v.thinking_buffer.len() == 0
        &&& k == without_newline(t)
        &&& l + v.sniffed == q.skip(t.len() as int + 13)
    }
}

/// What stays the same while text that may hold thinking is dealt with.
pub open spec fn request_kept(v: StreamV, w: StreamV) -> bool {
    &&& w.xml_buffer == v.xml_buffer
    &&& w.xml_stripping == v.xml_stripping
    &&& w.thinking_enabled == v.thinking_enabled
    &&& w.known == v.known
    &&& w.manager.stop_reason == v.manager.stop_reason
}

/// The tag that begins thinking is found as soon as it has arrived.
proof fn lemma_start_sought_told(
    p: ProtoV,
    v: StreamV,
    t: Seq<char>,
    rest: Seq<char>,
    ids: Draws,
)
    requires
        in_order(p, v),
        well_tagged(t, rest),
        !v.in_thinking,
        !v.extracted,
        v.thinking_index is None,
        v.thinking_buffer.len() <= tagged(t, rest).len(),
        v.thinking_buffer == tagged(t, rest).take(v.thinking_buffer.len() as int),
    ensures
        ({
            let s = v.start_sought(ids);
            let none = Seq::<char>::empty();
            &&& told_all(s.1) == none
            &&& all_thinking_told(s.1) == none
            &&& request_kept(v, s.0)
            &&& s.0.sniffed == v.sniffed
            &&& s.0.guard == v.guard
            &&& s.0.manager.has_other_than_thinking() == v.manager.has_other_than_thinking()
            &&& !s.0.extracted
            &&& if v.thinking_buffer.len() < 10 {
                s.0 == v
            } else {
                &&& s.0.in_thinking
                &&& pending(s.0, none, v.thinking_buffer.skip(10))
            }
        }),
{
    reveal(StreamV::start_sought);
    lemma_closing();
    let none = Seq::<char>::empty();
    let buf = v.thinking_buffer;
    let tag = "<thinking>"@;
    let here = crate::thinking::start_tag_here(buf);
    lemma_first_such(here, 0, buf.len() as int);
    let s = v.start_sought(ids);
    if buf.len() < 10 {
        if let Some(i) = first_such(here, 0, buf.len() as int) {
            assert(here(i));
        }
        assert(byte_len(buf) <= 10) by {
            assert forall|i: int| 0 <= i < buf.len() implies char_width(#[trigger] buf[i]) == 1 by {
                reveal_strlit("<thinking>");
                assert(buf[i] == tag[i]);
            }
            lemma_narrow(buf);
        }
        lemma_held_back_bounds(buf, 0);
        lemma_whole_chars_fit(buf, 0);
        let head = buf.take(held_back(buf, 10));
        lemma_byte_len_bounds(head);
        assert(head =~= none);
        crate::text::lemma_blank(none);
        assert(s == (v, Seq::<Ev>::empty()));
    } else {
        assert(buf.subrange(0, 10) =~= tag);
        if buf.len() > 10 {
            assert(buf[10] == t[0]);
        }
        assert(here(0));
        assert(buf.take(0) =~= none);
        crate::text::lemma_blank(none);
        let b = StreamV {
            in_thinking: true,
            strip_newline: true,
            thinking_buffer: buf.skip(10),
            ..v
        };
        reveal(StreamV::thinking_opened);
        lemma_kinds();
        lemma_block_at(v.manager.blocks, v.manager.next_block_index, 0);
        lemma_others_same(v.manager, b.thinking_opened().0.manager);
        let evs = b.thinking_opened().1;
        assert(s.1 =~= evs);
        lemma_silent(evs);
        lemma_thoughtless(evs);
    }
}

/// What follows the thinking is told as far as it is not held back.
proof fn lemma_rest_sent_staged(
    p: ProtoV,
    v: StreamV,
    l: Seq<char>,
    shown: Seq<char>,
    rest: Seq<char>,
    ids: Draws,
)
    requires
        in_order(p, v),
        !v.in_thinking,
        v.extracted,
        !v.thinking_open(),
        l + v.sniffed + v.thinking_buffer == shown,
        v.manager.has_other_than_thinking() == (l.len() > 0),
        shown.len() <= rest.len(),
        shown == rest.take(shown.len() as int),
        no_markup(rest, has_tools(v), false),
        indices_left(v.rest_sent(ids).0),
        !v.rest_sent(ids).0.guard.tripped,
    ensures
        ({
            let s = v.rest_sent(ids);
            &&& all_thinking_told(s.1) == Seq::<char>::empty()
            &&& (l + told_all(s.1)) + s.0.sniffed == shown
            &&& s.0.manager.has_other_than_thinking() == ((l + told_all(s.1)).len() > 0)
            &&& request_kept(v, s.0)
            &&& !s.0.in_thinking
            &&& s.0.extracted
            &&& !s.0.thinking_open()
            &&& s.0.thinking_index == v.thinking_index
            &&& s.0.thinking_buffer.len() == 0
        }),
{
    lemma_rest_sent(p, v, ids);
    lemma_rest_sent_framed(v, ids);
    reveal(StreamV::rest_sent);
    let a = StreamV { thinking_buffer: Seq::empty(), ..v };
    let text = v.thinking_buffer;
    assert(under_way(p, a));
    let from = l.len() as int;
    let to = shown.len() as int;
    assert(l + v.sniffed + text =~= l + (v.sniffed + text));
    assert(shown.subrange(from, to) =~= v.sniffed + text);
    assert(rest.subrange(from, to) =~= shown.subrange(from, to));
    lemma_no_markup_within(rest, has_tools(v), false, from, to);
    lemma_text_added_told(p, a, text, ids);
    lemma_text_added_thoughtless(a, text, ids);
    let s = a.text_added(text, ids);
    assert((l + told_all(s.1)) + s.0.sniffed =~= l + (told_all(s.1) + s.0.sniffed));
    assert(l + (v.sniffed + text) =~= shown);
}

/// A piece of the text brings it to the stage that it has then arrived at.
proof fn lemma_content_staged(
    p: ProtoV,
    v: StreamV,
    k: Seq<char>,
    l: Seq<char>,
    passed: Seq<char>,
    out: Seq<char>,
    t: Seq<char>,
    rest: Seq<char>,
    ids: Draws,
)
    requires
        in_order(p, v),
        v.thinking_enabled,
        well_tagged(t, rest),
        stage(v, k, l, passed, t, rest),
        (passed + out).len() <= tagged(t, rest).len(),
        passed + out == tagged(t, rest).take((passed + out).len() as int),
        no_markup(rest, has_tools(v), false),
        indices_left(v.content_added(out, ids).0),
        !v.content_added(out, ids).0.guard.tripped,
    ensures
        ({
            let s = v.content_added(out, ids);
            &&& stage(
                s.0,
                k + all_thinking_told(s.1),
                l + told_all(s.1),
                passed + out,
                t,
                rest,
            )
            &&& request_kept(v, s.0)
        }),
{
    reveal(StreamV::content_added);
    lemma_closing();
    let none = Seq::<char>::empty();
    let all = passed + out;
    let whole = tagged(t, rest);
    let a = StreamV { thinking_buffer: v.thinking_buffer + out, ..v };
    assert(in_order(p, a));
    lemma_start_sought_framed(a, ids);
    let s1 = if !a.in_thinking && !a.extracted {
        a.start_sought(ids)
    } else {
        (a, Seq::empty())
    };
    let b = s1.0;
    lemma_end_sought_framed(b);
    let s2 = if b.in_thinking {
        b.end_sought()
    } else {
        (b, Seq::empty())
    };
    let c = s2.0;
    lemma_rest_sent_framed(c, ids);
    let s3 = if !c.in_thinking && c.extracted {
        c.rest_sent(ids)
    } else {
        (c, Seq::empty())
    };
    let s = v.content_added(out, ids);
    assert(s == (s3.0, s1.1 + s2.1 + s3.1));
    lemma_told_append(s1.1, s2.1);
    lemma_told_append(s1.1 + s2.1, s3.1);
    lemma_thinking_append(s1.1, s2.1);
    lemma_thinking_append(s1.1 + s2.1, s3.1);
    lemma_nothing(p, a);
    if passed.len() < 10 {
        assert(a.thinking_buffer =~= all);
        lemma_start_sought(p, a, ids);
        lemma_start_sought_told(p, a, t, rest, ids);
        assert(k =~= none);
        assert(l =~= none);
    }
    let p1 = run(p, s1.1);
    if all.len() < 10 {
        assert(told_all(s.1) =~= none);
        assert(all_thinking_told(s.1) =~= none);
        assert(k + none =~= none);
        assert(l + none =~= none);
    } else {
        let q = all.skip(10);
        assert(whole.skip(10) =~= behind(t, rest));
        assert(q =~= behind(t, rest).take(q.len() as int));
        assert(all_thinking_told(s1.1) =~= none);
        assert(told_all(s1.1) =~= none);
        if passed.len() >= 10 {
            let q0 = passed.skip(10);
            assert(q =~= q0 + out);
            if q0.len() < t.len() + 13 {
                assert(pending(a, k, q)) by {
                    if !v.strip_newline {
                        assert(k + a.thinking_buffer =~= (k + v.thinking_buffer) + out);
                        assert(without_newline(q0) + out =~= without_newline(q));
                    }
                }
            }
        }
        if b.in_thinking {
            assert(pending(b, k, q));
            lemma_end_sought(p1, b);
            lemma_end_sought_told(p1, b, k, q, t, rest);
            lemma_end_sought_opens_none(b);
        }
        let p2 = run(p1, s2.1);
        lemma_nothing(p1, b);
        if q.len() < t.len() + 13 {
            assert(told_all(s.1) =~= none);
            assert(all_thinking_told(s.1) =~= all_thinking_told(s2.1));
            assert(l + none =~= none);
        } else {
            let shown = q.skip(t.len() as int + 13);
            assert(shown =~= rest.take(shown.len() as int)) by {
                assert(behind(t, rest).skip(t.len() as int + 13) =~= rest);
            }
            assert(l + c.sniffed + c.thinking_buffer =~= shown) by {
                if passed.len() >= 10 && passed.skip(10).len() >= t.len() + 13 {
                    let q0 = passed.skip(10);
                    assert(q0.skip(t.len() as int + 13) + out =~= shown);
                }
            }
            lemma_rest_sent_staged(p2, c, l, shown, rest, ids);
            assert(told_all(s.1) =~= told_all(s3.1));
            assert(all_thinking_told(s.1) =~= all_thinking_told(s2.1));
            assert(k + none =~= k);
        }
    }
}

/// A text of the answer brings the whole to the stage that it has then arrived at.
proof fn lemma_answered_staged(
    p: ProtoV,
    v: StreamV,
    k: Seq<char>,
    l: Seq<char>,
    passed: Seq<char>,
    content: Seq<char>,
    t: Seq<char>,
    rest: Seq<char>,
    ids: Draws,
)
    requires
        in_order(p, v),
        v.thinking_enabled,
        !v.xml_stripping,
        well_tagged(t, rest),
        stage(v, k, l, passed, t, rest),
        (passed + v.xml_buffer + content).len() <= tagged(t, rest).len(),
        passed + v.xml_buffer + content == tagged(t, rest).take(
            (passed + v.xml_buffer + content).len() as int,
        ),
        no_markup(tagged(t, rest), false, false),
        no_markup(rest, has_tools(v), false),
        indices_left(v.answered(content, ids).0),
        !v.answered(content, ids).0.guard.tripped,
    ensures
        ({
            let s = v.answered(content, ids);
            let out = xml_scan(false, v.xml_buffer + content).out;
            &&& stage(
                s.0,
                k + all_thinking_told(s.1),
                l + told_all(s.1),
                passed + out,
                t,
                rest,
            )
            &&& (passed + out) + s.0.xml_buffer == passed + v.xml_buffer + content
            &&& !s.0.xml_stripping
            &&& s.0.thinking_enabled
            &&& s.0.known == v.known
        }),
{
    reveal(StreamV::answered);
    let none = Seq::<char>::empty();
    let whole = tagged(t, rest);
    let text = v.xml_buffer + content;
    let all = passed + v.xml_buffer + content;
    let from = passed.len() as int;
    let to = all.len() as int;
    assert(all =~= passed + text);
    assert(whole.subrange(from, to) =~= text) by {
        assert(all.subrange(from, to) =~= text);
        assert(whole.subrange(from, to) =~= all.subrange(from, to));
    }
    lemma_no_markup_within(whole, false, false, from, to);
    lemma_scan_plain(text, false, false);
    let scan = xml_scan(false, text);
    let out = scan.out;
    assert(passed + (out + scan.buffer) =~= (passed + out) + scan.buffer);
    let a = StreamV { xml_buffer: scan.buffer, xml_stripping: false, ..v };
    assert(in_order(p, a));
    assert(stage(a, k, l, passed, t, rest));
    let s = v.answered(content, ids);
    if out.len() == 0 {
        assert(out =~= none);
        assert(passed + none =~= passed);
        assert(k + none =~= k);
        assert(l + none =~= l);
    } else {
        assert(a.native_thinking_closed() == (a, Seq::<Ev>::empty()));
        let b = a.tokens_added(crate::tokens::token_estimate(out));
        assert(in_order(p, b));
        assert(stage(b, k, l, passed, t, rest));
        let c = b.content_added(out, ids);
        assert(s.1 =~= c.1);
        assert(s.0 == c.0);
        let head = passed + out;
        assert(head =~= whole.take(head.len() as int)) by {
            assert(all.take(head.len() as int) =~= head);
            assert(whole.take(to).take(head.len() as int) =~= whole.take(head.len() as int));
        }
        lemma_content_staged(p, b, k, l, passed, out, t, rest, ids);
    }
}

/// The events write text of the answer, or nothing.
pub open spec fn only_text(events: Seq<EventV>) -> bool {
    forall|i: int|
        0 <= i < events.len() ==> !(#[trigger] events[i] is Reasoning) && !(events[i] is ToolUse)
}

/// What has been dealt with of what was written: all but what the filter for
/// leaked markup has kept.
pub open spec fn passed_on(v: StreamV, events: Seq<EventV>) -> Seq<char> {
    written(events).take(written(events).len() - v.xml_buffer.len())
}

proof fn lemma_fed_staged(
    p: ProtoV,
    v: StreamV,
    events: Seq<EventV>,
    t: Seq<char>,
    rest: Seq<char>,
    ids: Draws,
)
    requires
        in_order(p, v),
        v.thinking_enabled,
        !v.xml_stripping,
        v.xml_buffer.len() == 0,
        stage(v, Seq::empty(), Seq::empty(), Seq::empty(), t, rest),
        well_tagged(t, rest),
        only_text(events),
        written(events).len() <= tagged(t, rest).len(),
        written(events) == tagged(t, rest).take(written(events).len() as int),
        no_markup(tagged(t, rest), false, false),
        no_markup(rest, has_tools(v), false),
        indices_left(fed(v, events, ids).0),
        !fed(v, events, ids).0.guard.tripped,
    ensures
        ({
            let s = fed(v, events, ids);
            &&& s.0.xml_buffer.len() <= written(events).len()
            &&& passed_on(s.0, events) + s.0.xml_buffer == written(events)
            &&& stage(
                s.0,
                all_thinking_told(s.1),
                told_all(s.1),
                passed_on(s.0, events),
                t,
                rest,
            )
            &&& !s.0.xml_stripping
            &&& s.0.thinking_enabled
            &&& s.0.known == v.known
            &&& in_order(run(p, s.1), s.0)
        }),
    decreases events.len(),
{
    let none = Seq::<char>::empty();
    if events.len() == 0 {
        lemma_nothing(p, v);
        assert(passed_on(v, events) =~= none);
        assert(v.xml_buffer =~= none);
        assert(none + none =~= none);
    } else {
        let head = events.drop_last();
        let last = events.last();
        let a = fed(v, head, ids);
        let q = run(p, a.1);
        let b = a.0.processed(last, ids);
        let before = written(head);
        let whole = tagged(t, rest);
        assert(last == events[events.len() - 1]);
        assert forall|i: int| 0 <= i < head.len() implies !(#[trigger] head[i] is Reasoning) && !(
        head[i] is ToolUse) by {
            assert(head[i] == events[i]);
        }
        lemma_processed_monotone(a.0, last, ids);
        lemma_processed_trips(a.0, last, ids);
        assert(written(events).take(before.len() as int) =~= before);
        assert(before =~= whole.take(before.len() as int));
        lemma_fed_staged(p, v, head, t, rest, ids);
        every_event_keeps_the_order(q, a.0, last, ids);
        lemma_run_append(p, a.1, b.1);
        lemma_told_append(a.1, b.1);
        lemma_thinking_append(a.1, b.1);
        match last {
            EventV::AssistantResponse(content) => {
                let passed = passed_on(a.0, head);
                assert(passed + a.0.xml_buffer + content =~= written(events));
                lemma_answered_staged(
                    q,
                    a.0,
                    all_thinking_told(a.1),
                    told_all(a.1),
                    passed,
                    content,
                    t,
                    rest,
                    ids,
                );
                let out = xml_scan(false, a.0.xml_buffer + content).out;
                assert(passed_on(b.0, events) =~= passed + out);
            },
            _ => {
                assert(b.1 =~= Seq::<Ev>::empty());
                assert(told_all(a.1) + none =~= told_all(a.1));
                assert(all_thinking_told(a.1) + none =~= all_thinking_told(a.1));
                assert(passed_on(b.0, events) =~= passed_on(a.0, head));
            },
        }
    }
}

/// What the filter for leaked markup has kept completes the text.
proof fn lemma_leftover_staged(
    p: ProtoV,
    v: StreamV,
    k: Seq<char>,
    l: Seq<char>,
    passed: Seq<char>,
    t: Seq<char>,
    rest: Seq<char>,
    ids: Draws,
)
    requires
        in_order(p, v),
        v.thinking_enabled,
        !v.xml_stripping,
        well_tagged(t, rest),
        stage(v, k, l, passed, t, rest),
        passed + v.xml_buffer == tagged(t, rest),
        no_markup(tagged(t, rest), false, false),
        no_markup(rest, has_tools(v), false),
        indices_left(v.leftover_sent(ids).0),
        !v.leftover_sent(ids).0.guard.tripped,
    ensures
        ({
            let s = v.leftover_sent(ids);
            &&& stage(
                s.0,
                k + all_thinking_told(s.1),
                l + told_all(s.1),
                tagged(t, rest),
                t,
                rest,
            )
            &&& s.0.thinking_enabled
            &&& s.0.known == v.known
            &&& s.0.manager.stop_reason == v.manager.stop_reason
        }),
{
    reveal(StreamV::leftover_sent);
    let none = Seq::<char>::empty();
    let whole = tagged(t, rest);
    let kept = v.xml_buffer;
    let from = passed.len() as int;
    let to = whole.len() as int;
    assert(whole.subrange(from, to) =~= kept);
    lemma_no_markup_within(whole, false, false, from, to);
    lemma_scan_plain(kept, false, false);
    let w = StreamV { xml_buffer: none, xml_stripping: false, ..v };
    assert(in_order(p, w));
    assert(stage(w, k, l, passed, t, rest));
    assert(crate::xml_leak::xml_stripped(kept) == kept);
    if kept.len() == 0 {
        assert(passed =~= whole);
        assert(k + none =~= k);
        assert(l + none =~= l);
    } else {
        assert(whole.take(to) =~= whole);
        lemma_content_staged(p, w, k, l, passed, kept, t, rest, ids);
    }
}

/// The end of a stream adds no thinking to what it flushes.
proof fn lemma_ended_thoughtless(v: StreamV, ids: Draws)
    requires
        !v.flushed(ids).0.thinking_open(),
    ensures
        all_thinking_told(v.ended(ids).1) == all_thinking_told(v.flushed(ids).1),
{
    reveal(StreamV::ended);
    reveal(StreamV::failed);
    let none = Seq::<char>::empty();
    let s = v.flushed(ids);
    let w = s.0.calls_finished();
    assert(!w.thinking_open());
    lemma_closing_is_thoughtless(w.manager.blocks, false);
    let closing = closing_events(w.manager.blocks, false);
    match w.tool_error {
        Some(e) => {
            let error_type = crate::tool_json::tool_error_type();
            let message = crate::tool_json::tool_error_message(e);
            let end = w.manager.failed(error_type, message).1;
            assert(end.drop_last() =~= closing);
            assert(all_thinking_told(end) =~= none);
            assert(w.failed(error_type, message).1 =~= end);
            lemma_thinking_append(s.1, end);
            assert(all_thinking_told(s.1) + none =~= all_thinking_told(s.1));
        },
        None => {
            let (input, creation, read) = w.usage();
            let usage = crate::sse::Usage {
                input_tokens: input as i32,
                output_tokens: w.output() as i32,
                cache_creation_input_tokens: creation as i32,
                cache_read_input_tokens: read as i32,
            };
            let end = w.manager.finished(usage, w.metering).1;
            let rest = end.skip(closing.len() as int);
            assert(end =~= closing + rest);
            lemma_thoughtless(rest);
            lemma_thinking_append(closing, rest);
            assert(all_thinking_told(end) =~= none);
            lemma_thinking_append(s.1, end);
            assert(all_thinking_told(s.1) + none =~= all_thinking_told(s.1));
        },
    }
}

/// The answer that follows the thinking as the client gets it: a blank stands in for
/// one that is empty.
pub open spec fn answer_shown(rest: Seq<char>) -> Seq<char> {
    if rest.len() == 0 {
        " "@
    } else {
        rest
    }
}

/// What is left of the answer is told in the end.
proof fn lemma_held_and_supplied_told(
    p: ProtoV,
    v: StreamV,
    l: Seq<char>,
    rest: Seq<char>,
    ids: Draws,
)
    requires
        in_order(p, v),
        v.thinking_enabled,
        v.thinking_index is Some,
        !v.thinking_open(),
        l + v.sniffed == rest,
        v.manager.has_other_than_thinking() == (l.len() > 0),
        has_tools(v) ==> no_invoke_tag(rest),
        ({
            let w = v.held_sent(ids).0.text_supplied(ids).0;
            indices_left(w) && !w.guard.tripped
        }),
    ensures
        ({
            let a = v.held_sent(ids);
            let b = a.0.text_supplied(ids);
            &&& l + told_all(a.1) + told_all(b.1) == answer_shown(rest)
            &&& all_thinking_told(a.1) == Seq::<char>::empty()
            &&& all_thinking_told(b.1) == Seq::<char>::empty()
            &&& !b.0.thinking_open()
            &&& b.0.manager.stop_reason == if rest.len() == 0 {
                Some("max_tokens"@)
            } else {
                v.manager.stop_reason
            }
        }),
{
    let none = Seq::<char>::empty();
    let a = v.held_sent(ids);
    let b = a.0.text_supplied(ids);
    lemma_supplied_calm(a.0, ids);
    lemma_supplied_trips(a.0, ids);
    lemma_held_calm(v, ids);
    lemma_held(p, v, ids);
    let p1 = run(p, a.1);
    if has_tools(v) {
        assert(rest.subrange(l.len() as int, rest.len() as int) =~= v.sniffed);
        lemma_no_invoke_within(rest, l.len() as int, rest.len() as int);
    }
    assert(told_all(a.1) == v.sniffed && all_thinking_told(a.1) == none && a.0.sniffed.len() == 0
        && a.0.manager.stop_reason == v.manager.stop_reason && a.0.manager.has_other_than_thinking()
        == (rest.len() > 0)) by {
        reveal(StreamV::held_sent);
        let w = StreamV { sniffed: none, ..v };
        assert(under_way(p, w));
        lemma_drained_told(p, w, v.sniffed, true, ids);
        lemma_drained_thoughtless(w, v.sniffed, true, ids);
        assert(told_all(a.1) + a.0.sniffed =~= told_all(a.1));
    }
    lemma_supplied(p1, a.0, ids);
    assert(l + told_all(a.1) + none =~= rest);
    reveal(StreamV::text_supplied);
    if rest.len() == 0 {
        reveal_strlit(" ");
        reveal_strlit("invoke");
        let w = StreamV { manager: a.0.manager.with_reason("max_tokens"@), ..a.0 };
        assert(under_way(p1, w));
        let blank = " "@;
        assert(a.0.sniffed + blank =~= blank);
        assert(no_invoke_tag(blank));
        lemma_text_added_calm(w, blank, ids);
        lemma_text_added_told(p1, w, blank, ids);
        lemma_text_added_thoughtless(w, blank, ids);
        lemma_blank_not_held(w, ids);
        assert(l + told_all(a.1) + told_all(b.1) =~= blank);
    }
}

/// A blank is not held back.
proof fn lemma_blank_not_held(v: StreamV, ids: Draws)
    requires
        v.sniffed.len() == 0,
    ensures
        v.text_added(" "@, ids).0.sniffed.len() == 0,
{
    reveal(StreamV::text_added);
    reveal_strlit(" ");
    reveal_strlit("invoke");
    let blank = " "@;
    assert(v.sniffed + blank =~= blank);
    let q = crate::invoke::invoke_start_here(blank);
    lemma_first_such(q, 0, 1);
    assert(invoke_start(blank) is None);
    crate::text::lemma_last_such(crate::text::holds_char(blank, '<'), 0, 1);
    assert(unfinished_tag(blank) == 1);
    assert(blank.skip(1) =~= Seq::<char>::empty());
}

/// Thinking between tags arrives as thinking and what follows it as text, whole, in
/// order and unchanged, however the text is cut into events; only a line break right
/// behind the first tag and the empty line behind the second are dropped.
///
/// This is so for tags that stand alone and are not quoted, and for a text without
/// other markup that has a meaning, as long as it is not cut off for a word that is
/// repeated without end and indices of blocks are left. An answer of thinking alone
/// gets a blank for a text and counts as cut off; any other stops for the reason that
/// the events gave.
pub proof fn thinking_between_tags_arrives(
    model: Seq<char>,
    message_id: Seq<char>,
    input_tokens: int,
    names: Restoring,
    known: Set<Seq<char>>,
    events: Seq<EventV>,
    t: Seq<char>,
    rest: Seq<char>,
    ids: Draws,
)
    requires
        only_text(events),
        written(events) == tagged(t, rest),
        well_tagged(t, rest),
        no_markup(tagged(t, rest), false, false),
        no_markup(rest, known != Set::<Seq<char>>::empty(), false),
        ({
            let v = StreamV::fresh(model, message_id, input_tokens, true, names, known);
            let w = fed(v.opened().0, events, ids).0;
            indices_left(w.flushed(ids).0) && !w.flushed(ids).0.guard.tripped
        }),
    ensures
        ({
            let v = StreamV::fresh(model, message_id, input_tokens, true, names, known);
            let a = v.opened();
            let b = fed(a.0, events, ids);
            let c = b.0.ended(ids);
            &&& all_thinking_told(a.1 + b.1 + c.1) == without_newline(t)
            &&& told_all(a.1 + b.1 + c.1) == answer_shown(rest)
            &&& b.0.flushed(ids).0.manager.stop_reason == if rest.len() == 0 {
                Some("max_tokens"@)
            } else {
                b.0.manager.stop_reason
            }
        }),
{
    let none = Seq::<char>::empty();
    let v = StreamV::fresh(model, message_id, input_tokens, true, names, known);
    let a = v.opened();
    let b = fed(a.0, events, ids);
    let c = b.0.ended(ids);
    let whole = tagged(t, rest);
    the_opening_is_in_order(model, message_id, input_tokens, true, names, known);
    let p = run(unseen(), a.1);
    lemma_silent(a.1);
    lemma_thoughtless(a.1);
    assert(stage(a.0, none, none, none, t, rest));
    lemma_flushed_framed(b.0, ids);
    lemma_flushed_trips(b.0, ids);
    assert(whole.take(whole.len() as int) =~= whole);
    lemma_fed_staged(p, a.0, events, t, rest, ids);
    lemma_flushed_staged(
        run(p, b.1),
        b.0,
        all_thinking_told(b.1),
        told_all(b.1),
        passed_on(b.0, events),
        t,
        rest,
        ids,
    );
    lemma_ended_told(b.0, ids);
    lemma_ended_thoughtless(b.0, ids);
    lemma_told_append(a.1, b.1);
    lemma_told_append(a.1 + b.1, c.1);
    lemma_thinking_append(a.1, b.1);
    lemma_thinking_append(a.1 + b.1, c.1);
    assert(told_all(a.1 + b.1 + c.1) =~= answer_shown(rest));
    assert(all_thinking_told(a.1 + b.1 + c.1) =~= without_newline(t));
}

/// Everything that is buffered at the end is told.
proof fn lemma_flushed_staged(
    p: ProtoV,
    v: StreamV,
    k: Seq<char>,
    l: Seq<char>,
    passed: Seq<char>,
    t: Seq<char>,
    rest: Seq<char>,
    ids: Draws,
)
    requires
        in_order(p, v),
        v.thinking_enabled,
        !v.xml_stripping,
        well_tagged(t, rest),
        stage(v, k, l, passed, t, rest),
        passed + v.xml_buffer == tagged(t, rest),
        no_markup(tagged(t, rest), false, false),
        no_markup(rest, has_tools(v), false),
        indices_left(v.flushed(ids).0),
        !v.flushed(ids).0.guard.tripped,
    ensures
        k + all_thinking_told(v.flushed(ids).1) == without_newline(t),
        l + told_all(v.flushed(ids).1) == answer_shown(rest),
        v.flushed(ids).0.manager.stop_reason == if rest.len() == 0 {
            Some("max_tokens"@)
        } else {
            v.manager.stop_reason
        },
        !v.flushed(ids).0.thinking_open(),
{
    reveal(StreamV::flushed);
    lemma_closing();
    let none = Seq::<char>::empty();
    let s1 = v.leftover_sent(ids);
    let s2 = s1.0.native_thinking_closed();
    let s3 = s2.0.buffer_sent(ids);
    let s4 = s3.0.held_sent(ids);
    let s5 = s4.0.text_supplied(ids);
    lemma_leftover_framed(v, ids);
    lemma_thinking_closed_framed(s1.0);
    lemma_buffer_sent_framed(s2.0, ids);
    lemma_held_calm(s3.0, ids);
    lemma_supplied_calm(s4.0, ids);
    lemma_thinking_keeps_guard(s1.0, none, none);
    lemma_buffer_sent_trips(s2.0, ids);
    lemma_held_trips(s3.0, ids);
    lemma_supplied_trips(s4.0, ids);
    lemma_leftover(p, v, ids);
    lemma_leftover_staged(p, v, k, l, passed, t, rest, ids);
    let p1 = run(p, s1.1);
    let whole = tagged(t, rest);
    assert(whole.skip(10) =~= behind(t, rest));
    assert(behind(t, rest).skip(t.len() as int + 13) =~= rest);
    assert(s2 == (s1.0, Seq::<Ev>::empty()));
    assert(s3 == (s1.0, Seq::<Ev>::empty())) by {
        reveal(StreamV::buffer_sent);
        reveal(StreamV::rest_sent);
        reveal(StreamV::text_added);
        assert(s1.0.thinking_buffer =~= none);
    }
    let shown = l + told_all(s1.1);
    lemma_held_and_supplied_told(p1, s1.0, shown, rest, ids);
    lemma_told_append(s1.1, s2.1);
    lemma_told_append(s1.1 + s2.1, s3.1);
    lemma_told_append(s1.1 + s2.1 + s3.1, s4.1);
    lemma_told_append(s1.1 + s2.1 + s3.1 + s4.1, s5.1);
    lemma_thinking_append(s1.1, s2.1);
    lemma_thinking_append(s1.1 + s2.1, s3.1);
    lemma_thinking_append(s1.1 + s2.1 + s3.1, s4.1);
    lemma_thinking_append(s1.1 + s2.1 + s3.1 + s4.1, s5.1);
    assert(l + told_all(v.flushed(ids).1) =~= shown + told_all(s4.1) + told_all(s5.1));
    assert(k + all_thinking_told(v.flushed(ids).1) =~= k + all_thinking_told(s1.1));
}

} // verus!
