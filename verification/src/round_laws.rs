//! Laws on reading a round of the upstream: what has been read is the sum of what the events
//! said, however they were cut.
use crate::json::{json_parsed, JsonV};
use crate::names::Restoring;
use crate::search_round::DecoderV;
use crate::stream_model::EventV;
use crate::tokens::TokenUsage;
use crate::tool_json::{lemma_pending_at, pending_at};
use vstd::prelude::*;

verus! {

/// Events are read, one after the other.
pub open spec fn read_all(d: DecoderV, events: Seq<EventV>) -> DecoderV
    decreases events.len(),
{
    if events.len() == 0 {
        d
    } else {
        read_all(d, events.drop_last()).read(events.last())
    }
}

/// The texts of all reasoning events, in their order.
pub open spec fn reasoning_of(events: Seq<EventV>) -> Seq<char>
    decreases events.len(),
{
    if events.len() == 0 {
        Seq::empty()
    } else {
        reasoning_of(events.drop_last()) + match events.last() {
            EventV::Reasoning { text: Some(t), signature, redacted } => t,
            _ => Seq::empty(),
        }
    }
}

/// The texts of all events of the answer, in their order.
pub open spec fn answer_of(events: Seq<EventV>) -> Seq<char>
    decreases events.len(),
{
    if events.len() == 0 {
        Seq::empty()
    } else {
        answer_of(events.drop_last()) + match events.last() {
            EventV::AssistantResponse(t) => t,
            _ => Seq::empty(),
        }
    }
}

/// What the events charged, in their order.
pub open spec fn charges_of(events: Seq<EventV>) -> Seq<JsonV>
    decreases events.len(),
{
    if events.len() == 0 {
        Seq::empty()
    } else {
        charges_of(events.drop_last()) + match events.last() {
            EventV::Metering(m) => seq![m.usage],
            _ => Seq::empty(),
        }
    }
}

/// The fragments of the call `id` put together.
pub open spec fn input_of(events: Seq<EventV>, id: Seq<char>) -> Seq<char>
    decreases events.len(),
{
    if events.len() == 0 {
        Seq::empty()
    } else {
        input_of(events.drop_last(), id) + match events.last() {
            EventV::ToolUse(f) => if f.id == id {
                f.input
            } else {
                Seq::empty()
            },
            _ => Seq::empty(),
        }
    }
}

/// The first name that a fragment of the call `id` gives.
pub open spec fn name_of(events: Seq<EventV>, id: Seq<char>) -> Seq<char>
    decreases events.len(),
{
    if events.len() == 0 {
        Seq::empty()
    } else {
        let before = name_of(events.drop_last(), id);
        match events.last() {
            EventV::ToolUse(f) => if f.id == id && before.len() == 0 {
                f.name
            } else {
                before
            },
            _ => before,
        }
    }
}

/// The calls of which there are fragments, in the order in which they first appear.
pub open spec fn ids_of(events: Seq<EventV>) -> Seq<Seq<char>>
    decreases events.len(),
{
    if events.len() == 0 {
        Seq::empty()
    } else {
        let before = ids_of(events.drop_last());
        match events.last() {
            EventV::ToolUse(f) => if before.contains(f.id) {
                before
            } else {
                before.push(f.id)
            },
            _ => before,
        }
    }
}

/// The event sets the last figures of the provider.
pub open spec fn is_figures(e: EventV) -> bool {
    match e {
        EventV::Metadata(u) => u is Some,
        _ => false,
    }
}

/// The larger of a figure and zero.
pub open spec fn at_least_nothing(n: i32) -> i32 {
    if n < 0 {
        0
    } else {
        n
    }
}

/// Figures with zero for those below it.
pub open spec fn no_figure_below_zero(u: TokenUsage) -> TokenUsage {
    TokenUsage {
        uncached_input_tokens: at_least_nothing(u.uncached_input_tokens),
        output_tokens: at_least_nothing(u.output_tokens),
        cache_read_input_tokens: at_least_nothing(u.cache_read_input_tokens),
        cache_write_input_tokens: at_least_nothing(u.cache_write_input_tokens),
    }
}

/// The event gives a reason to stop.
pub open spec fn is_reason(e: EventV) -> bool {
    match e {
        EventV::ContextUsage { input_tokens, exceeded } => exceeded,
        EventV::Exception(kind) => kind == "ContentLengthExceededException"@,
        _ => false,
    }
}

/// Once all events of a round have been read, its thinking is the texts of all reasoning
/// events and its text those of all events of the answer, one behind the other, and what it
/// was charged is what each metering event charged.
pub proof fn texts_and_charges_add_up(d: DecoderV, events: Seq<EventV>)
    ensures
        read_all(d, events).thinking == d.thinking + reasoning_of(events),
        read_all(d, events).text == d.text + answer_of(events),
        read_all(d, events).metered == d.metered + charges_of(events),
    decreases events.len(),
{
    let r = read_all(d, events);
    if events.len() == 0 {
        assert(d.thinking + Seq::<char>::empty() =~= d.thinking);
        assert(d.text + Seq::<char>::empty() =~= d.text);
        assert(d.metered + Seq::<JsonV>::empty() =~= d.metered);
    } else {
        texts_and_charges_add_up(d, events.drop_last());
        assert(r.thinking =~= d.thinking + reasoning_of(events));
        assert(r.text =~= d.text + answer_of(events));
        assert(r.metered =~= d.metered + charges_of(events));
    }
}

/// How the texts of a round are cut into events makes no difference to what has been read:
/// a text that arrives in two events counts as the same text in one.
pub proof fn cuts_between_events_make_no_difference(
    d: DecoderV,
    before: Seq<EventV>,
    a: Seq<char>,
    b: Seq<char>,
    after: Seq<EventV>,
)
    ensures
        ({
            let whole = seq![
                EventV::Reasoning { text: Some(a + b), signature: None, redacted: None },
            ];
            let cut = seq![
                EventV::Reasoning { text: Some(a), signature: None, redacted: None },
                EventV::Reasoning { text: Some(b), signature: None, redacted: None },
            ];
            read_all(d, before + whole + after) == read_all(d, before + cut + after)
        }),
        read_all(d, before + seq![EventV::AssistantResponse(a + b)] + after) == read_all(
            d,
            before + seq![EventV::AssistantResponse(a), EventV::AssistantResponse(b)] + after,
        ),
{
    let r1 = EventV::Reasoning { text: Some(a + b), signature: None, redacted: None };
    let r2 = EventV::Reasoning { text: Some(a), signature: None, redacted: None };
    let r3 = EventV::Reasoning { text: Some(b), signature: None, redacted: None };
    let t1 = EventV::AssistantResponse(a + b);
    let t2 = EventV::AssistantResponse(a);
    let t3 = EventV::AssistantResponse(b);
    let v = read_all(d, before);
    lemma_read_append(d, before + seq![r1], after);
    lemma_read_append(d, before + seq![r2, r3], after);
    lemma_read_append(d, before + seq![t1], after);
    lemma_read_append(d, before + seq![t2, t3], after);
    lemma_read_append(d, before, seq![r1]);
    lemma_read_append(d, before, seq![r2, r3]);
    lemma_read_append(d, before, seq![t1]);
    lemma_read_append(d, before, seq![t2, t3]);
    lemma_read_two(v, r1, r1);
    lemma_read_two(v, r2, r3);
    lemma_read_two(v, t1, t1);
    lemma_read_two(v, t2, t3);
    assert(v.thinking + (a + b) =~= (v.thinking + a) + b);
    assert(v.text + (a + b) =~= (v.text + a) + b);
}

proof fn lemma_read_two(d: DecoderV, a: EventV, b: EventV)
    ensures
        read_all(d, seq![a]) == d.read(a),
        read_all(d, seq![a, b]) == d.read(a).read(b),
{
    assert(seq![a].drop_last() =~= Seq::<EventV>::empty());
    assert(seq![a, b].drop_last() =~= seq![a]);
    reveal_with_fuel(read_all, 3);
}

proof fn lemma_read_append(d: DecoderV, a: Seq<EventV>, b: Seq<EventV>)
    ensures
        read_all(d, a + b) == read_all(read_all(d, a), b),
    decreases b.len(),
{
    if b.len() == 0 {
        assert(a + b =~= a);
    } else {
        lemma_read_append(d, a, b.drop_last());
        assert((a + b).drop_last() =~= a + b.drop_last());
    }
}

/// The figures of the provider, without negative ones, are those that it gave last; so are
/// the count of the context, the cost and the reason to stop.
pub proof fn the_last_report_counts(d: DecoderV, before: Seq<EventV>, e: EventV, after: Seq<EventV>)
    ensures
        ({
            let r = read_all(d, before + seq![e] + after);
            let none_after = |p: spec_fn(EventV) -> bool|
                forall|i: int| 0 <= i < after.len() ==> !p(#[trigger] after[i]);
            &&& (e matches EventV::Metadata(Some(u)) ==> none_after(|x: EventV| is_figures(x))
                ==> r.provider_token_usage == Some(no_figure_below_zero(u)))
            &&& (e matches EventV::ContextUsage { input_tokens: n, exceeded: x } ==> none_after(
                |y: EventV| y is ContextUsage,
            ) ==> r.context_input_tokens == Some(n))
            &&& (e matches EventV::Metering(m) ==> none_after(|x: EventV| x is Metering)
                ==> r.metering == Some(m))
            &&& (is_reason(e) && none_after(|x: EventV| is_reason(x)) ==> r.stop_reason == Some(
                if e is Exception {
                    "max_tokens"@
                } else {
                    "model_context_window_exceeded"@
                },
            ))
        }),
    decreases after.len(),
{
    let all = before + seq![e] + after;
    if after.len() == 0 {
        assert(all.drop_last() =~= before);
        assert(all.last() == e);
    } else {
        let rest = after.drop_last();
        assert(all.drop_last() =~= before + seq![e] + rest);
        assert(all.last() == after.last());
        assert(after[after.len() - 1] == after.last());
        assert forall|i: int| 0 <= i < rest.len() implies #[trigger] rest[i] == after[i] by {}
        the_last_report_counts(d, before, e, rest);
    }
}

/// What no event reports stays as it was.
pub proof fn what_is_not_reported_stays(d: DecoderV, events: Seq<EventV>)
    ensures
        ({
            let r = read_all(d, events);
            let never = |p: spec_fn(EventV) -> bool|
                forall|i: int| 0 <= i < events.len() ==> !p(#[trigger] events[i]);
            &&& never(|x: EventV| is_figures(x)) ==> r.provider_token_usage
                == d.provider_token_usage
            &&& never(|x: EventV| x is ContextUsage) ==> r.context_input_tokens
                == d.context_input_tokens
            &&& never(|x: EventV| x is Metering) ==> r.metering == d.metering
            &&& never(|x: EventV| is_reason(x)) ==> r.stop_reason == d.stop_reason
        }),
    decreases events.len(),
{
    if events.len() > 0 {
        let rest = events.drop_last();
        assert(events[events.len() - 1] == events.last());
        assert forall|i: int| 0 <= i < rest.len() implies #[trigger] rest[i] == events[i] by {}
        what_is_not_reported_stays(d, rest);
    }
}

/// The calls of a round are those of which there were fragments, in the order in which they
/// first appeared, each with all of its fragments put together and under the first name
/// that one of them gave.
pub proof fn fragments_make_up_the_calls(events: Seq<EventV>)
    ensures
        ({
            let calls = read_all(DecoderV::fresh(), events).calls;
            let ids = ids_of(events);
            &&& calls.len() == ids.len()
            &&& forall|i: int|
                0 <= i < calls.len() ==> (#[trigger] calls[i]).id == ids[i] && calls[i].input
                    == input_of(events, ids[i]) && calls[i].name == name_of(events, ids[i])
            &&& forall|i: int, j: int|
                0 <= i < j < ids.len() ==> #[trigger] ids[i] != #[trigger] ids[j]
            &&& forall|id: Seq<char>|
                !(#[trigger] ids.contains(id)) ==> input_of(events, id).len() == 0 && name_of(
                    events,
                    id,
                ).len() == 0
        }),
    decreases events.len(),
{
    if events.len() > 0 {
        let before = events.drop_last();
        fragments_make_up_the_calls(before);
        let s = read_all(DecoderV::fresh(), before).calls;
        let old_ids = ids_of(before);
        let calls = read_all(DecoderV::fresh(), events).calls;
        let ids = ids_of(events);
        if let EventV::ToolUse(f) = events.last() {
            lemma_pending_at(s, f.id, 0);
            match pending_at(s, f.id, 0) {
                Some(k) => {
                    assert(old_ids[k] == f.id);
                    assert(old_ids.contains(f.id));
                    assert forall|i: int| 0 <= i < calls.len() implies (#[trigger] calls[i]).id
                        == ids[i] && calls[i].input == input_of(events, ids[i]) && calls[i].name
                        == name_of(events, ids[i]) by {
                        assert(s[i].id == old_ids[i]);
                        if i != k {
                            assert(old_ids[i] != old_ids[k]);
                            assert(input_of(events, ids[i]) =~= input_of(before, ids[i]));
                        }
                    }
                    assert forall|id: Seq<char>| !(#[trigger] ids.contains(id)) implies input_of(
                        events,
                        id,
                    ).len() == 0 && name_of(events, id).len() == 0 by {
                        assert(!old_ids.contains(id));
                    }
                },
                None => {
                    if old_ids.contains(f.id) {
                        let k = choose|k: int| 0 <= k < old_ids.len() && old_ids[k] == f.id;
                        assert(s[k].id == old_ids[k]);
                    }
                    let n = s.len() as int;
                    assert forall|i: int| 0 <= i < calls.len() implies (#[trigger] calls[i]).id
                        == ids[i] && calls[i].input == input_of(events, ids[i]) && calls[i].name
                        == name_of(events, ids[i]) by {
                        if i < n {
                            assert(calls[i] == s[i]);
                            assert(s[i].id == old_ids[i]);
                            assert(ids[i] != f.id);
                            assert(input_of(events, ids[i]) =~= input_of(before, ids[i]));
                        } else {
                            assert(ids[i] == f.id);
                            assert(input_of(events, f.id) =~= f.input);
                        }
                    }
                    assert forall|i: int, j: int| 0 <= i < j < ids.len() implies #[trigger] ids[i]
                        != #[trigger] ids[j] by {
                        if j < n {
                            assert(old_ids[i] != old_ids[j]);
                        } else {
                            assert(s[i].id == old_ids[i]);
                        }
                    }
                    assert forall|id: Seq<char>| !(#[trigger] ids.contains(id)) implies input_of(
                        events,
                        id,
                    ).len() == 0 && name_of(events, id).len() == 0 by {
                        assert(ids[n] == f.id);
                        if old_ids.contains(id) {
                            let k = choose|k: int| 0 <= k < old_ids.len() && old_ids[k] == id;
                            assert(ids[k] == id);
                        }
                    }
                },
            }
        } else {
            assert forall|i: int| 0 <= i < calls.len() implies (#[trigger] calls[i]).id == ids[i]
                && calls[i].input == input_of(events, ids[i]) && calls[i].name == name_of(
                events,
                ids[i],
            ) by {
                assert(s[i].id == old_ids[i]);
                assert(input_of(events, ids[i]) =~= input_of(before, ids[i]));
            }
            assert forall|id: Seq<char>| !(#[trigger] ids.contains(id)) implies input_of(
                events,
                id,
            ).len() == 0 && name_of(events, id).len() == 0 by {
                assert(!old_ids.contains(id));
            }
        }
    }
}

/// What a round that was read from its first event to its last has brought: the thinking,
/// the charges, the error and every call with its arguments. A text without markup is that
/// of the events.
pub proof fn a_round_is_what_its_events_said(
    events: Seq<EventV>,
    error: Option<Seq<char>>,
    known: Set<Seq<char>>,
    names: Restoring,
)
    ensures
        ({
            let r = read_all(DecoderV::fresh(), events).ended(error, known, names);
            let ids = ids_of(events);
            &&& r.thinking == reasoning_of(events)
            &&& (forall|i: int| 0 <= i < answer_of(events).len() ==> #[trigger] answer_of(events)[i]
                != '<') ==> r.text == answer_of(events)
            &&& r.metered == charges_of(events)
            &&& r.stream_error == error
            &&& r.known == known
            &&& r.names == names
            &&& r.calls.len() == ids.len()
            &&& forall|i: int|
                0 <= i < ids.len() ==> ({
                    let input = input_of(events, ids[i]);
                    let arguments = if input.len() == 0 || json_parsed(input) is Err {
                        JsonV::Object(Map::empty())
                    } else {
                        json_parsed(input)->Ok_0
                    };
                    let form = names(name_of(events, ids[i]), arguments);
                    (#[trigger] r.calls[i]).id == ids[i] && r.calls[i].name == form.0
                        && r.calls[i].input == form.1
                })
        }),
{
    texts_and_charges_add_up(DecoderV::fresh(), events);
    fragments_make_up_the_calls(events);
    let d = read_all(DecoderV::fresh(), events);
    let r = d.ended(error, known, names);
    let none = Seq::<char>::empty();
    assert(none + reasoning_of(events) =~= reasoning_of(events));
    assert(none + answer_of(events) =~= answer_of(events));
    assert(Seq::<JsonV>::empty() + charges_of(events) =~= charges_of(events));
    let text = answer_of(events);
    if forall|i: int| 0 <= i < text.len() ==> #[trigger] text[i] != '<' {
        crate::xml_leak::text_without_tags_is_kept(text);
        crate::xml_leak::filter_and_finish_give_the_stripped_text(text);
    }
    let ids = ids_of(events);
    assert forall|i: int| 0 <= i < ids.len() implies ({
        let input = input_of(events, ids[i]);
        let arguments = if input.len() == 0 || json_parsed(input) is Err {
            JsonV::Object(Map::empty())
        } else {
            json_parsed(input)->Ok_0
        };
        let form = names(name_of(events, ids[i]), arguments);
        (#[trigger] r.calls[i]).id == ids[i] && r.calls[i].name == form.0 && r.calls[i].input
            == form.1
    }) by {
        assert(d.calls[i].id == ids[i]);
    }
}

} // verus!
