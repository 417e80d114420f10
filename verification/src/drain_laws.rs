//! Where no tools are declared, draining a text sends all of it, whatever is held back
//! on the way.
use crate::invoke::{invoke_end, invoke_start, lemma_invoke_end_fits, lemma_invoke_start_fits};
use crate::names::Restoring;
use crate::passage::{
    lemma_deltas, lemma_occurs_within, lemma_told_append, lemma_told_one, lemma_unfinished_bounds,
    told_all,
};
use crate::sse::{delta_data, opt_seq, Ev};
use crate::stray::{
    guard_filter, guard_line, guard_passes_a_prefix, guard_scan, is_stray, line_end, GuardV,
};
use crate::stray_laws::{lemma_line_bounds, lemma_trimmed_within};
use crate::stream_model::{followed, text_delta, unfinished_tag, Draws, Step, StreamV};
use crate::text::{occurs_at, trimmed};
use vstd::prelude::*;

verus! {

/// No word that may stray stands in the text.
pub open spec fn no_stray_words(s: Seq<char>) -> bool {
    &&& forall|i: int| !#[trigger] occurs_at(s, "call"@, i)
    &&& forall|i: int| !#[trigger] occurs_at(s, "count"@, i)
    &&& forall|i: int| !#[trigger] occurs_at(s, "card"@, i)
}

proof fn lemma_no_words_within(s: Seq<char>, from: int, to: int)
    requires
        no_stray_words(s),
        0 <= from <= to <= s.len(),
    ensures
        no_stray_words(s.subrange(from, to)),
{
    let t = s.subrange(from, to);
    assert forall|i: int| !#[trigger] occurs_at(t, "call"@, i) by {
        if occurs_at(t, "call"@, i) {
            lemma_occurs_within(s, from, to, "call"@, i);
        }
    }
    assert forall|i: int| !#[trigger] occurs_at(t, "count"@, i) by {
        if occurs_at(t, "count"@, i) {
            lemma_occurs_within(s, from, to, "count"@, i);
        }
    }
    assert forall|i: int| !#[trigger] occurs_at(t, "card"@, i) by {
        if occurs_at(t, "card"@, i) {
            lemma_occurs_within(s, from, to, "card"@, i);
        }
    }
}

/// A text without stray words does not trip the guard.
proof fn lemma_guard_untripped(g: GuardV, text: Seq<char>, from: int)
    requires
        !g.tripped,
        no_stray_words(text),
        0 <= from <= text.len(),
    ensures
        !guard_scan(g, text, from).0.tripped,
    decreases text.len() - from,
{
    if from < text.len() {
        lemma_line_bounds(text, from);
        let end = line_end(text, from);
        let segment = text.subrange(from, end);
        let line = trimmed(segment);
        if is_stray(line) {
            reveal_strlit("call");
            reveal_strlit("count");
            reveal_strlit("card");
            let (a, b) = lemma_trimmed_within(segment);
            assert(segment.subrange(a, b) =~= text.subrange(from + a, from + b));
            assert(occurs_at(text, line, from + a));
        }
        lemma_guard_untripped(guard_line(g, line), text, end);
    }
}

/// A block of text is open, no tools are declared, and the text is not cut off.
pub open spec fn draining(v: StreamV) -> bool {
    v.open_text_index() is Some && v.known == Set::<Seq<char>>::empty() && !v.guard.tripped
}

/// The step goes on with the open block of text.
spec fn goes_on(v: StreamV, s: Step) -> bool {
    &&& draining(s.0)
    &&& s.0.manager == v.manager
    &&& s.0.text_index == v.text_index
    &&& forall|i: int| 0 <= i < s.1.len() ==> #[trigger] s.1[i] is Delta
}

proof fn lemma_goes_on_both(v: StreamV, a: Step, b: Step)
    requires
        goes_on(v, a),
        goes_on(a.0, b),
    ensures
        goes_on(v, followed(a.1, b)),
        told_all(a.1 + b.1) == told_all(a.1) + told_all(b.1),
{
    lemma_told_append(a.1, b.1);
    let evs = a.1 + b.1;
    assert forall|i: int| 0 <= i < evs.len() implies #[trigger] evs[i] is Delta by {
        if i < a.1.len() {
            assert(evs[i] == a.1[i]);
        } else {
            assert(evs[i] == b.1[i - a.1.len()]);
        }
    }
}

proof fn lemma_text_sent_goes_on(v: StreamV, text: Seq<char>)
    requires
        draining(v),
        no_stray_words(text),
    ensures
        goes_on(v, v.text_sent(text)),
        told_all(v.text_sent(text).1) == text,
        v.text_sent(text).0.sniffed == v.sniffed,
{
    reveal(StreamV::text_sent);
    lemma_guard_untripped(v.guard, text, 0);
    guard_passes_a_prefix(v.guard, text);
    let (guard, kept) = guard_filter(v.guard, text);
    if text.len() == 0 {
        assert(text =~= Seq::<char>::empty());
    } else {
        let index = v.open_text_index()->Some_0;
        let data = delta_data(index, text_delta(text));
        let delta = v.manager.delta(index, data);
        assert(delta == Some(Ev::Delta(index, data)));
        lemma_told_append(Seq::empty(), opt_seq(delta));
        lemma_told_one(Ev::Delta(index, data));
        lemma_deltas(index, text);
        assert(Seq::<char>::empty() + text =~= text);
    }
}

/// Draining a text sends all of it but what is held back, in the open block of text,
/// and holds nothing back at the end.
pub proof fn draining_loses_nothing(v: StreamV, buf: Seq<char>, flush: bool, ids: Draws)
    requires
        draining(v),
        v.sniffed.len() == 0,
        no_stray_words(buf),
    ensures
        ({
            let s = v.drained(buf, flush, ids);
            &&& told_all(s.1) + s.0.sniffed == buf
            &&& flush ==> s.0.sniffed.len() == 0
            &&& draining(s.0)
            &&& s.0.manager == v.manager
            &&& s.0.text_index == v.text_index
            &&& forall|i: int| 0 <= i < s.1.len() ==> #[trigger] s.1[i] is Delta
        }),
    decreases buf.len(),
{
    let none = Seq::<char>::empty();
    assert(v.sniffed =~= none);
    let s = v.drained(buf, flush, ids);
    match invoke_start(buf) {
        Some(start) => {
            lemma_invoke_start_fits(buf);
            lemma_invoke_end_fits(buf, start);
            let n = buf.len() as int;
            match invoke_end(buf, start) {
                Some(end) => {
                    let head = buf.take(end);
                    let tail = buf.skip(end);
                    assert(buf.subrange(0, end) =~= head);
                    assert(buf.subrange(end, n) =~= tail);
                    lemma_no_words_within(buf, 0, end);
                    lemma_no_words_within(buf, end, n);
                    let a = v.text_sent(head);
                    assert(v.block_taken(buf, start, end, ids) == a) by {
                        reveal(StreamV::block_taken);
                    }
                    lemma_text_sent_goes_on(v, head);
                    draining_loses_nothing(a.0, tail, flush, ids);
                    let b = a.0.drained(tail, flush, ids);
                    lemma_goes_on_both(v, a, b);
                    assert(told_all(s.1) + s.0.sniffed =~= head + (told_all(b.1) + b.0.sniffed));
                    assert(head + tail =~= buf);
                },
                None => {
                    reveal(StreamV::unclosed_taken);
                    let head = buf.take(start);
                    let rest = buf.skip(start);
                    assert(buf.subrange(0, start) =~= head);
                    assert(buf.subrange(start, n) =~= rest);
                    lemma_no_words_within(buf, 0, start);
                    lemma_no_words_within(buf, start, n);
                    lemma_text_sent_goes_on(v, buf);
                    lemma_text_sent_goes_on(v, head);
                    let a = v.text_sent(head);
                    lemma_text_sent_goes_on(a.0, rest);
                    lemma_goes_on_both(v, a, a.0.text_sent(rest));
                    assert(head + rest =~= buf);
                    assert(buf + none =~= buf);
                },
            }
        },
        None => {
            lemma_unfinished_bounds(buf);
            let split = if flush {
                buf.len() as int
            } else {
                unfinished_tag(buf)
            };
            let head = buf.take(split);
            assert(buf.take(buf.len() as int) =~= buf);
            assert(buf.subrange(0, split) =~= head);
            lemma_no_words_within(buf, 0, split);
            lemma_text_sent_goes_on(v, head);
            assert(head + buf.skip(split) =~= buf);
            assert(head + none =~= head);
        },
    }
}

/// Texts go the way of plain text, one after the other.
pub open spec fn texts_added(v: StreamV, pieces: Seq<Seq<char>>, ids: Draws) -> Step
    decreases pieces.len(),
{
    if pieces.len() == 0 {
        (v, Seq::empty())
    } else {
        let before = texts_added(v, pieces.drop_last(), ids);
        followed(before.1, before.0.text_added(pieces.last(), ids))
    }
}

/// The text that pieces make up.
pub open spec fn joined(pieces: Seq<Seq<char>>) -> Seq<char>
    decreases pieces.len(),
{
    if pieces.len() == 0 {
        Seq::empty()
    } else {
        joined(pieces.drop_last()) + pieces.last()
    }
}

proof fn lemma_texts_go_on(v: StreamV, pieces: Seq<Seq<char>>, ids: Draws)
    requires
        draining(v),
        v.sniffed.len() == 0,
        no_stray_words(joined(pieces)),
    ensures
        goes_on(v, texts_added(v, pieces, ids)),
        told_all(texts_added(v, pieces, ids).1) + texts_added(v, pieces, ids).0.sniffed == joined(
            pieces,
        ),
    decreases pieces.len(),
{
    let none = Seq::<char>::empty();
    if pieces.len() == 0 {
        assert(v.sniffed =~= none);
        assert(none + none =~= none);
    } else {
        let head = pieces.drop_last();
        let last = pieces.last();
        let all = joined(pieces);
        let before = joined(head);
        let n = before.len() as int;
        assert(all.subrange(0, n) =~= before);
        lemma_no_words_within(all, 0, n);
        lemma_texts_go_on(v, head, ids);
        let a = texts_added(v, head, ids);
        let t = told_all(a.1);
        reveal(StreamV::text_added);
        let b = a.0.text_added(last, ids);
        let buf = a.0.sniffed + last;
        assert(t + buf =~= all);
        if last.len() == 0 {
            assert(last =~= none);
            assert(none + a.0.sniffed =~= buf);
        } else {
            assert(all.subrange(t.len() as int, all.len() as int) =~= buf);
            lemma_no_words_within(all, t.len() as int, all.len() as int);
            let w = StreamV { sniffed: none, ..a.0 };
            assert(draining(w));
            draining_loses_nothing(w, buf, false, ids);
        }
        lemma_goes_on_both(v, a, b);
        assert((t + told_all(b.1)) + b.0.sniffed =~= t + (told_all(b.1) + b.0.sniffed));
    }
}

/// Where no tools are declared, a text that arrives in any pieces is sent whole, tool
/// calls in it included, in the block of text that the message opened with; no block is
/// started for it, and nothing of it is held back in the end.
pub proof fn text_without_tools_is_drained_whole(
    model: Seq<char>,
    message_id: Seq<char>,
    input_tokens: int,
    names: Restoring,
    pieces: Seq<Seq<char>>,
    ids: Draws,
)
    requires
        no_stray_words(joined(pieces)),
    ensures
        ({
            let v = StreamV::fresh(
                model,
                message_id,
                input_tokens,
                false,
                names,
                Set::<Seq<char>>::empty(),
            ).opened().0;
            let a = texts_added(v, pieces, ids);
            let b = a.0.held_drained(true, ids);
            &&& told_all(a.1 + b.1) == joined(pieces)
            &&& b.0.sniffed.len() == 0
            &&& forall|i: int| 0 <= i < (a.1 + b.1).len() ==> #[trigger] (a.1 + b.1)[i] is Delta
        }),
{
    let none = Seq::<char>::empty();
    let known = Set::<Seq<char>>::empty();
    let v = StreamV::fresh(model, message_id, input_tokens, false, names, known).opened().0;
    assert(draining(v) && v.sniffed.len() == 0) by {
        reveal(StreamV::text_opened);
        crate::stream_laws::lemma_kinds();
        reveal_with_fuel(crate::sse::block_at, 2);
    }
    lemma_texts_go_on(v, pieces, ids);
    let a = texts_added(v, pieces, ids);
    let b = a.0.held_drained(true, ids);
    let t = told_all(a.1);
    let all = joined(pieces);
    let held = a.0.sniffed;
    assert(all.subrange(t.len() as int, all.len() as int) =~= held);
    lemma_no_words_within(all, t.len() as int, all.len() as int);
    let w = StreamV { sniffed: none, ..a.0 };
    assert(draining(w));
    draining_loses_nothing(w, held, true, ids);
    assert(told_all(b.1) + b.0.sniffed =~= told_all(b.1));
    assert(goes_on(a.0, b));
    lemma_goes_on_both(v, a, b);
}

} // verus!
