//! Laws on the loop of web searches: what is searched for, what goes back to the upstream,
//! and what is charged in the end.
use crate::content_blocks::text_content;
use crate::json::JsonV;
use crate::search_content::PageV;
use crate::search_loop::{
    answering_message, asking_message, next_search, DrawnV, LoopV, StepV,
};
use crate::search_query::{call_query, query_in, first_query};
use crate::search_round::{
    disposition, found_nothing, EmptyToolResultDisposition, FailureV, MessageV, RecordV, RoundV,
    SettlementStatus, SettlementV, TraceOutcome,
};
use crate::tokens::TokenUsage;
use crate::tool_json::{call_block, CallV};
use crate::text::{
    is_white, skip_white, skip_white_back, trimmed, trimmed_end, trimmed_start,
};
use vstd::prelude::*;

verus! {

/// Nothing but white space.
pub open spec fn is_blank_text(s: Seq<char>) -> bool {
    forall|i: int| 0 <= i < s.len() ==> is_white(#[trigger] s[i])
}

/// A text that neither begins nor ends with white space.
pub open spec fn is_trim(t: Seq<char>) -> bool {
    t.len() > 0 && !is_white(t[0]) && !is_white(t.last())
}

proof fn lemma_skip_front(w: Seq<char>, t: Seq<char>, from: int)
    requires
        is_blank_text(w),
        0 <= from <= w.len(),
        t.len() > 0 ==> !is_white(t[0]),
    ensures
        skip_white(w + t, from) == w.len(),
    decreases w.len() - from,
{
    let s = w + t;
    if from < w.len() {
        assert(s[from] == w[from]);
        lemma_skip_front(w, t, from + 1);
    } else if t.len() > 0 {
        assert(s[from] == t[0]);
    }
}

proof fn lemma_skip_back(t: Seq<char>, w: Seq<char>, to: int)
    requires
        is_blank_text(w),
        t.len() <= to <= t.len() + w.len(),
        t.len() > 0 ==> !is_white(t.last()),
    ensures
        skip_white_back(t + w, to) == t.len(),
    decreases to,
{
    let s = t + w;
    if to > t.len() {
        assert(s[to - 1] == w[to - 1 - t.len()]);
        lemma_skip_back(t, w, to - 1);
    } else if t.len() > 0 {
        assert(s[to - 1] == t.last());
    }
}

/// Trimming takes white space off both ends and nothing else.
pub proof fn trimming_takes_white_space_alone(a: Seq<char>, t: Seq<char>, b: Seq<char>)
    requires
        is_blank_text(a),
        is_blank_text(b),
        t.len() == 0 || is_trim(t),
    ensures
        trimmed(a + t + b) == t,
{
    let s = a + t + b;
    assert(s =~= a + (t + b));
    if t.len() > 0 {
        assert((t + b)[0] == t[0]);
        lemma_skip_front(a, t + b, 0);
        assert(trimmed_start(s) =~= t + b);
        lemma_skip_back(t, b, (t + b).len() as int);
        assert(trimmed_end(t + b) =~= t);
    } else {
        let w = a + b;
        assert(s =~= w);
        assert forall|i: int| 0 <= i < w.len() implies is_white(#[trigger] w[i]) by {
            if i < a.len() {
                assert(w[i] == a[i]);
            } else {
                assert(w[i] == b[i - a.len()]);
            }
        }
        lemma_skip_front(w, t, 0);
        assert(w + t =~= s);
        assert(trimmed_start(s) =~= t);
        assert(trimmed_end(t) =~= t);
    }
}

/// A search looks for the text under `query`; without that member, for the one under
/// `search_query`, or else `q`, or else `queries`. White space around it is dropped and
/// nothing else, and other members make no difference. An argument that is a text itself is
/// the query.
pub proof fn a_query_is_the_text_that_was_asked_for(
    m: Map<Seq<char>, JsonV>,
    a: Seq<char>,
    t: Seq<char>,
    b: Seq<char>,
)
    requires
        is_blank_text(a),
        is_blank_text(b),
        is_trim(t),
    ensures
        ({
            let asked = JsonV::Text(a + t + b);
            let holds = |k: Seq<char>| m.dom().contains(k);
            &&& holds("query"@) && m["query"@] == asked ==> call_query(JsonV::Object(m)) == Some(t)
            &&& !holds("query"@) && holds("search_query"@) && m["search_query"@] == asked
                ==> call_query(JsonV::Object(m)) == Some(t)
            &&& !holds("query"@) && !holds("search_query"@) && holds("q"@) && m["q"@] == asked
                ==> call_query(JsonV::Object(m)) == Some(t)
            &&& !holds("query"@) && !holds("search_query"@) && !holds("q"@) && holds("queries"@)
                && m["queries"@] == asked ==> call_query(JsonV::Object(m)) == Some(t)
            &&& call_query(asked) == Some(t)
        }),
{
    trimming_takes_white_space_alone(a, t, b);
}

/// Of several queries the first that is not blank is searched for, and nothing is searched
/// for where all are blank.
pub proof fn the_first_query_of_a_list_counts(
    items: Seq<JsonV>,
    i: int,
    a: Seq<char>,
    t: Seq<char>,
    b: Seq<char>,
)
    requires
        0 <= i <= items.len(),
        is_blank_text(a),
        is_blank_text(b),
        is_trim(t),
        forall|k: int|
            0 <= k < i ==> (#[trigger] items[k] matches JsonV::Text(x) && is_blank_text(x)),
    ensures
        i < items.len() && items[i] == JsonV::Text(a + t + b) ==> query_in(JsonV::Array(items))
            == Some(t),
        i == items.len() ==> query_in(JsonV::Array(items)) is None,
{
    trimming_takes_white_space_alone(a, t, b);
    lemma_first_query(items, 0, i);
    reveal_with_fuel(first_query, 2);
    reveal_with_fuel(query_in, 2);
}

proof fn lemma_first_query(items: Seq<JsonV>, from: int, to: int)
    requires
        0 <= from <= to <= items.len(),
        forall|k: int|
            0 <= k < to ==> (#[trigger] items[k] matches JsonV::Text(x) && is_blank_text(x)),
    ensures
        first_query(items, from) == first_query(items, to),
    decreases to - from,
{
    if from < to {
        let x = items[from]->Text_0;
        let none = Seq::<char>::empty();
        trimming_takes_white_space_alone(x, none, none);
        assert(x + none + none =~= x);
        assert(query_in(items[from]) is None) by {
            reveal_with_fuel(query_in, 2);
        }
        reveal_with_fuel(first_query, 2);
        lemma_first_query(items, from + 1, to);
    }
}

/// The assistant's own words and all of its calls go back to the upstream, then the result
/// of each call under its identifier, in the order of the calls.
pub proof fn each_result_goes_back_under_its_call(round: RoundV, summaries: Seq<Seq<char>>)
    ensures
        ({
            let asked = asking_message(round);
            let words = if round.text.len() == 0 {
                Seq::<JsonV>::empty()
            } else {
                seq![
                    JsonV::Object(
                        map!["type"@ => JsonV::Text("text"@), "text"@ => JsonV::Text(round.text)],
                    ),
                ]
            };
            &&& asked.role == "assistant"@
            &&& asked.content is Array
            &&& asked.content->Array_0.len() == words.len() + round.calls.len()
            &&& asked.content->Array_0.take(words.len() as int) == words
            &&& forall|i: int|
                0 <= i < round.calls.len() ==> #[trigger] asked.content->Array_0[words.len() + i]
                    == call_block(round.calls[i])
        }),
        ({
            let told = answering_message(round.calls, summaries);
            &&& told.role == "user"@
            &&& told.content is Array
            &&& told.content->Array_0.len() == round.calls.len()
            &&& forall|i: int|
                0 <= i < round.calls.len() ==> #[trigger] told.content->Array_0[i]
                    == JsonV::Object(
                    map![
                        "type"@ => JsonV::Text("tool_result"@),
                        "tool_use_id"@ => JsonV::Text(round.calls[i].id),
                        "content"@ => JsonV::Text(summaries[i]),
                    ],
                )
        }),
{
    let asked = asking_message(round);
    if round.text.len() == 0 {
        assert(asked.content->Array_0.take(0) =~= Seq::<JsonV>::empty());
    } else {
        assert(asked.content->Array_0.take(1) =~= seq![text_content(round.text)]);
    }
}

/// The thinking of all rounds is kept, each behind that of the rounds before and parted from
/// it by an empty line; a round without thinking adds nothing.
pub proof fn the_thinking_of_all_rounds_is_kept(v: LoopV, t: Seq<char>)
    ensures
        v.thinking_with(Seq::empty()) == v.thinking,
        v.thinking.len() == 0 ==> v.thinking_with(t) == t,
        v.thinking.len() > 0 && t.len() > 0 ==> v.thinking_with(t) == v.thinking + seq!['\n', '\n']
            + t,
{
    reveal_strlit("\n\n");
    assert("\n\n"@ =~= seq!['\n', '\n']);
    if t.len() == 0 {
        assert(t =~= Seq::<char>::empty());
    }
    if v.thinking.len() == 0 {
        assert(v.thinking =~= Seq::<char>::empty());
    }
}

/// Results of searches come in, one after the other.
pub open spec fn results_taken(
    v: LoopV,
    found: Seq<Option<Seq<PageV>>>,
    summaries: Seq<Seq<char>>,
    ds: Seq<DrawnV>,
    n: int,
) -> LoopV
    decreases n,
{
    if n <= 0 {
        v
    } else {
        results_taken(v, found, summaries, ds, n - 1).search_taken(
            found[n - 1],
            summaries[n - 1],
            ds[n - 1],
        ).0
    }
}

/// All calls of the round are searches.
pub open spec fn searches_alone(round: RoundV) -> bool {
    forall|i: int| 0 <= i < round.calls.len() ==> (#[trigger] round.calls[i]).name == "web_search"@
}

proof fn lemma_results_taken(
    v: LoopV,
    round: RoundV,
    found: Seq<Option<Seq<PageV>>>,
    summaries: Seq<Seq<char>>,
    ds: Seq<DrawnV>,
    n: int,
)
    requires
        v.round == Some(round),
        v.searched.len() == 0,
        v.summaries.len() == 0,
        searches_alone(round),
        0 <= n < round.calls.len(),
        n <= found.len(),
        n <= summaries.len(),
    ensures
        ({
            let w = results_taken(v, found, summaries, ds, n);
            &&& w.round == Some(round)
            &&& w.searched == found.take(n)
            &&& w.summaries == summaries.take(n)
            &&& w.messages == v.messages
            &&& w.shown == v.shown
            &&& w.round_idx == v.round_idx
            &&& w.settlement == v.settlement
            &&& w.thinking == v.thinking
            &&& w.metering == v.metering
            &&& n > 0 ==> results_taken(v, found, summaries, ds, n - 1).search_taken(
                found[n - 1],
                summaries[n - 1],
                ds[n - 1],
            ).1.step == StepV::Search(call_query(round.calls[n].input))
        }),
    decreases n,
{
    if n == 0 {
        assert(v.searched =~= found.take(0));
        assert(v.summaries =~= summaries.take(0));
    } else {
        lemma_results_taken(v, round, found, summaries, ds, n - 1);
        let w = results_taken(v, found, summaries, ds, n - 1);
        assert(round.calls[n].name == "web_search"@);
        assert(next_search(round.calls, n) == n);
        let s = w.search_taken(found[n - 1], summaries[n - 1], ds[n - 1]);
        assert(w.searched.push(found[n - 1]) =~= found.take(n));
        assert(w.summaries.push(summaries[n - 1]) =~= summaries.take(n));
        assert(s.0.searched =~= found.take(n));
        assert(s.0.summaries =~= summaries.take(n));
    }
}

proof fn lemma_last_result(
    w: LoopV,
    round: RoundV,
    found: Seq<Option<Seq<PageV>>>,
    summaries: Seq<Seq<char>>,
    d: DrawnV,
)
    requires
        w.round == Some(round),
        searches_alone(round),
        round.calls.len() > 0,
        found.len() == round.calls.len(),
        summaries.len() == round.calls.len(),
        w.searched.len() == round.calls.len() - 1,
        w.searched.push(found.last()) == found,
        w.summaries.push(summaries.last()) == summaries,
        w.round_idx < 5,
    ensures
        ({
            let s = w.search_taken(found.last(), summaries.last(), d);
            &&& s.1.step == StepV::Round
            &&& s.0.messages == w.messages.push(asking_message(round)).push(
                answering_message(round.calls, summaries),
            )
            &&& s.0.round_idx == w.round_idx + 1
            &&& s.0.retries == 0
            &&& s.0.round is None
            &&& s.0.searched.len() == 0
            &&& s.0.summaries.len() == 0
            &&& s.0.shown == w.shown + crate::search_loop::shown_searches(
                round.calls,
                found,
                d.shown,
                round.calls.len() as int,
            )
        }),
{
    let n = round.calls.len() as int;
    assert(next_search(round.calls, n) == n);
    assert(found + Seq::new(0, |i: int| None) =~= found);
    assert(summaries + Seq::new(0, |i: int| Seq::<char>::empty()) =~= summaries);
    assert(crate::search_content::goes_on(w.round_idx, round.calls));
}

/// A round of searches alone is carried out call by call: after each result the next call
/// is searched for with its own query, and after the last one the upstream gets, behind the
/// conversation so far, the calls and to each of them the summary of its own search.
pub proof fn searches_are_answered_call_by_call(
    v: LoopV,
    round: RoundV,
    found: Seq<Option<Seq<PageV>>>,
    summaries: Seq<Seq<char>>,
    ds: Seq<DrawnV>,
)
    requires
        v.round == Some(round),
        v.searched.len() == 0,
        v.summaries.len() == 0,
        searches_alone(round),
        round.calls.len() > 0,
        found.len() == round.calls.len(),
        summaries.len() == round.calls.len(),
        v.round_idx < 5,
    ensures
        forall|i: int|
            0 < i < round.calls.len() ==> #[trigger] results_taken(
                v,
                found,
                summaries,
                ds,
                i - 1,
            ).search_taken(found[i - 1], summaries[i - 1], ds[i - 1]).1.step == StepV::Search(
                call_query(round.calls[i].input),
            ),
        ({
            let n = round.calls.len() as int;
            let w = results_taken(v, found, summaries, ds, n - 1);
            let s = w.search_taken(found[n - 1], summaries[n - 1], ds[n - 1]);
            &&& s.1.step == StepV::Round
            &&& s.0.messages == v.messages + seq![
                asking_message(round),
                answering_message(round.calls, summaries),
            ]
            &&& s.0.round_idx == v.round_idx + 1
            &&& s.0.retries == 0
            &&& s.0.round is None
            &&& s.0.searched.len() == 0
            &&& s.0.summaries.len() == 0
            &&& s.0.shown == v.shown + crate::search_loop::shown_searches(
                round.calls,
                found,
                ds[n - 1].shown,
                n,
            )
        }),
{
    let n = round.calls.len() as int;
    assert forall|i: int| 0 < i < n implies #[trigger] results_taken(
        v,
        found,
        summaries,
        ds,
        i - 1,
    ).search_taken(found[i - 1], summaries[i - 1], ds[i - 1]).1.step == StepV::Search(
        call_query(round.calls[i].input),
    ) by {
        lemma_results_taken(v, round, found, summaries, ds, i);
    }
    lemma_results_taken(v, round, found, summaries, ds, n - 1);
    let w = results_taken(v, found, summaries, ds, n - 1);
    assert(w.searched.push(found[n - 1]) =~= found);
    assert(w.summaries.push(summaries[n - 1]) =~= summaries);
    lemma_last_result(w, round, found, summaries, ds[n - 1]);
    assert(v.messages.push(asking_message(round)).push(
        answering_message(round.calls, summaries),
    ) =~= v.messages + seq![asking_message(round), answering_message(round.calls, summaries)]);
}

/// A round that has been read is paid for, and its first search begins with the query of
/// the first call that is a search.
pub proof fn a_round_begins_with_its_first_search(
    v: LoopV,
    round: RoundV,
    credential_id: u64,
    fallback_input: int,
    estimated_output: i32,
    d: DrawnV,
    k: int,
)
    requires
        round.stream_error is None,
        0 <= k < round.calls.len(),
        round.calls[k].name == "web_search"@,
        forall|i: int| 0 <= i < k ==> (#[trigger] round.calls[i]).name != "web_search"@,
    ensures
        ({
            let s = v.round_taken(round, credential_id, fallback_input, estimated_output, d);
            &&& s.1.step == StepV::Search(call_query(round.calls[k].input))
            &&& s.0.settlement == v.settlement.with(
                credential_id,
                round.usage(fallback_input, estimated_output),
                round.metered,
            )
            &&& s.0.searched.len() == k
            &&& s.0.messages == v.messages
            &&& s.0.round == Some(round)
            &&& s.0.thinking == v.thinking_with(round.thinking)
        }),
{
    lemma_next_search(round.calls, 0, k);
}

proof fn lemma_next_search(calls: Seq<CallV>, from: int, k: int)
    requires
        0 <= from <= k < calls.len(),
        calls[k].name == "web_search"@,
        forall|i: int| from <= i < k ==> (#[trigger] calls[i]).name != "web_search"@,
    ensures
        next_search(calls, from) == k,
    decreases k - from,
{
    if from < k {
        assert(calls[from].name != "web_search"@);
        lemma_next_search(calls, from + 1, k);
    }
}

/// A round without calls ends the loop: its text is the answer, with the counts of all
/// rounds, the thinking of all rounds and the cost that was reported last.
pub proof fn a_round_without_calls_is_the_answer(
    v: LoopV,
    round: RoundV,
    credential_id: u64,
    fallback_input: int,
    estimated_output: i32,
    d: DrawnV,
)
    requires
        round.stream_error is None,
        round.calls.len() == 0,
        disposition(v.messages, round, v.retries) == EmptyToolResultDisposition::Accept,
    ensures
        ({
            let s = v.round_taken(round, credential_id, fallback_input, estimated_output, d);
            let spent = v.settlement.with(
                credential_id,
                round.usage(fallback_input, estimated_output),
                round.metered,
            );
            &&& s.1.step is Done
            &&& ({
                let a = s.1.step->Done_0;
                &&& a.usage == spent.usage.sane()
                &&& a.thinking == v.thinking_with(round.thinking)
                &&& (round.stop_reason matches Some(r) ==> a.stop_reason == r)
                &&& a.metering == match round.metering {
                    Some(m) => Some(m),
                    None => v.metering,
                }
                &&& a.content.take(v.shown.len() as int) == v.shown
                &&& a.content.skip(v.shown.len() as int)
                    == crate::search_content::new_pieces(
                    crate::content_blocks::answer_pieces(
                        round.text,
                        round.known.remove("web_search"@),
                    ),
                    d.pieces,
                    round.calls,
                    round.names,
                    crate::content_blocks::answer_pieces(
                        round.text,
                        round.known.remove("web_search"@),
                    ).len() as int,
                )
            })
            &&& s.1.record == spent.finished(SettlementStatus::Success, None).1
        }),
{
    let s = v.round_taken(round, credential_id, fallback_input, estimated_output, d);
    let a = s.1.step->Done_0;
    assert(next_search(round.calls, 0) == 0);
    let pieces = crate::content_blocks::answer_pieces(
        round.text,
        round.known.remove(crate::search_query::search_tool()),
    );
    let b = crate::search_content::new_pieces(
        pieces,
        d.pieces,
        round.calls,
        round.names,
        pieces.len() as int,
    );
    assert(crate::search_content::shown_calls(
        round.calls,
        Seq::empty() + Seq::new(0, |i: int| None),
        d.flushed,
        0,
    ) =~= Seq::<JsonV>::empty());
    assert(a.content =~= v.shown + b);
    assert(a.content.take(v.shown.len() as int) =~= v.shown);
    assert(a.content.skip(v.shown.len() as int) =~= b);
}

/// The block is the result of a tool.
pub open spec fn is_tool_result(block: JsonV) -> bool {
    match block {
        JsonV::Object(m) => m.dom().contains("type"@) && m["type"@] == JsonV::Text("tool_result"@),
        _ => false,
    }
}

/// An answer to the result of a tool is asked for once more, and no more than once, if it
/// has neither a text that is not blank nor a call nor a reason to stop. Any other is taken.
pub proof fn an_empty_answer_is_asked_for_once_more(
    before: Seq<MessageV>,
    last: MessageV,
    round: RoundV,
    retries: int,
    a: Seq<char>,
    t: Seq<char>,
    b: Seq<char>,
)
    requires
        0 <= retries,
        is_blank_text(a),
        is_blank_text(b),
        t.len() == 0 || is_trim(t),
        round.text == a + t + b,
    ensures
        ({
            let answers = last.role == "user"@ && (last.content matches JsonV::Array(blocks)
                && exists|i: int| 0 <= i < blocks.len() && is_tool_result(#[trigger] blocks[i]));
            let empty = answers && t.len() == 0 && round.calls.len() == 0 && round.stop_reason
                is None;
            disposition(before.push(last), round, retries) == if !empty {
                EmptyToolResultDisposition::Accept
            } else if retries == 0 {
                EmptyToolResultDisposition::Retry
            } else {
                EmptyToolResultDisposition::Fail
            }
        }),
        disposition(Seq::empty(), round, retries) == EmptyToolResultDisposition::Accept,
{
    trimming_takes_white_space_alone(a, t, b);
    let all = before.push(last);
    assert(all.last() == last);
    if let JsonV::Array(blocks) = last.content {
        assert forall|i: int| 0 <= i < blocks.len() implies is_tool_result(#[trigger] blocks[i])
            == (blocks[i].text_field("type"@) == Some("tool_result"@)) by {}
    }
}

/// A search that failed found nothing if its error says so, wherever in its text, and has
/// failed otherwise.
pub proof fn finding_nothing_is_told_by_its_phrase(a: Seq<char>, b: Seq<char>, error: Seq<char>)
    ensures
        found_nothing(a + "Tool returned no results"@ + b),
        found_nothing(error) == crate::endpoint::refusal_laws::stands_in(
            error,
            "Tool returned no results"@,
        ),
{
    let t = "Tool returned no results"@;
    crate::endpoint::refusal_laws::a_text_is_held_where_it_stands(error, t);
    let s = a + t + b;
    crate::endpoint::refusal_laws::a_text_is_held_where_it_stands(s, t);
    assert(s.subrange(a.len() as int, (a.len() + t.len()) as int) =~= t);
}

/// The counts of a round are those of the provider, without negative ones; without them the
/// input is that of the context, or else the fallback, and the output is the estimate.
pub proof fn a_round_is_counted_by_the_provider_first(
    round: RoundV,
    u: TokenUsage,
    n: i32,
    fallback: i32,
    estimate: i32,
)
    ensures
        round.provider_token_usage == Some(u) ==> round.usage(fallback as int, estimate)
            == crate::round_laws::no_figure_below_zero(u),
        round.provider_token_usage is None && round.context_input_tokens == Some(n) ==> round.usage(
            fallback as int,
            estimate,
        ) == (TokenUsage {
            uncached_input_tokens: crate::round_laws::at_least_nothing(n),
            output_tokens: estimate,
            cache_read_input_tokens: 0,
            cache_write_input_tokens: 0,
        }),
        round.provider_token_usage is None && round.context_input_tokens is None ==> round.usage(
            fallback as int,
            estimate,
        ) == (TokenUsage {
            uncached_input_tokens: crate::round_laws::at_least_nothing(fallback),
            output_tokens: estimate,
            cache_read_input_tokens: 0,
            cache_write_input_tokens: 0,
        }),
{
}

/// The output of a round is estimated from its thinking, its text and its calls, all of
/// them and nothing else.
pub proof fn all_of_a_round_is_output(round: RoundV)
    ensures
        ({
            let thought = if round.thinking.len() == 0 {
                Seq::<JsonV>::empty()
            } else {
                seq![
                    JsonV::Object(
                        map![
                            "type"@ => JsonV::Text("thinking"@),
                            "thinking"@ => JsonV::Text(round.thinking),
                        ],
                    ),
                ]
            };
            let words = if round.text.len() == 0 {
                Seq::<JsonV>::empty()
            } else {
                seq![
                    JsonV::Object(
                        map!["type"@ => JsonV::Text("text"@), "text"@ => JsonV::Text(round.text)],
                    ),
                ]
            };
            round.output() == thought + words + Seq::new(
                round.calls.len(),
                |i: int| call_block(round.calls[i]),
            )
        }),
{
    assert(crate::search_round::call_blocks(round.calls) =~= Seq::new(
        round.calls.len(),
        |i: int| call_block(round.calls[i]),
    ));
}

/// What one round used and charged.
pub ghost struct SpentV {
    pub credential_id: u64,
    pub usage: TokenUsage,
    pub metered: Seq<JsonV>,
}

/// Rounds are added, one after the other.
pub open spec fn all_added(s: SettlementV, rounds: Seq<SpentV>) -> SettlementV
    decreases rounds.len(),
{
    if rounds.len() == 0 {
        s
    } else {
        all_added(s, rounds.drop_last()).with(
            rounds.last().credential_id,
            rounds.last().usage,
            rounds.last().metered,
        )
    }
}

/// The sum of what rounds used, category by category.
pub open spec fn total(rounds: Seq<SpentV>) -> (int, int, int, int)
    decreases rounds.len(),
{
    if rounds.len() == 0 {
        (0, 0, 0, 0)
    } else {
        let t = total(rounds.drop_last());
        let u = rounds.last().usage;
        (
            t.0 + u.uncached_input_tokens,
            t.1 + u.output_tokens,
            t.2 + u.cache_read_input_tokens,
            t.3 + u.cache_write_input_tokens,
        )
    }
}

/// No figure is negative.
pub open spec fn figures_are_sane(rounds: Seq<SpentV>) -> bool {
    forall|i: int|
        0 <= i < rounds.len() ==> (#[trigger] rounds[i]).usage.uncached_input_tokens >= 0
            && rounds[i].usage.output_tokens >= 0 && rounds[i].usage.cache_read_input_tokens >= 0
            && rounds[i].usage.cache_write_input_tokens >= 0
}

proof fn lemma_total(rounds: Seq<SpentV>)
    requires
        figures_are_sane(rounds),
    ensures
        total(rounds).0 >= 0,
        total(rounds).1 >= 0,
        total(rounds).2 >= 0,
        total(rounds).3 >= 0,
    decreases rounds.len(),
{
    if rounds.len() > 0 {
        let rest = rounds.drop_last();
        assert forall|i: int| 0 <= i < rest.len() implies #[trigger] rest[i] == rounds[i] by {}
        lemma_total(rest);
        assert(rounds[rounds.len() - 1] == rounds.last());
    }
}

/// What is recorded of all rounds together is the sum of what each of them used, category by
/// category and up to the largest number there is, and what each of them charged, in their
/// order. The account is the last that is known.
pub proof fn all_rounds_are_charged(rounds: Seq<SpentV>, status: SettlementStatus)
    requires
        figures_are_sane(rounds),
    ensures
        ({
            let s = all_added(SettlementV::fresh(), rounds);
            let t = total(rounds);
            let capped = |n: int|
                if n > i32::MAX {
                    i32::MAX as int
                } else {
                    n
                };
            &&& s.usage.uncached_input_tokens == capped(t.0)
            &&& s.usage.output_tokens == capped(t.1)
            &&& s.usage.cache_read_input_tokens == capped(t.2)
            &&& s.usage.cache_write_input_tokens == capped(t.3)
            &&& s.metered == Seq::new(rounds.len(), |i: int| rounds[i].metered)
            &&& !s.settled
            &&& rounds.len() > 0 && rounds.last().credential_id != 0 ==> s.credential_id
                == rounds.last().credential_id
            &&& s.finished(status, None).1 == Some(
                RecordV {
                    credential_id: s.credential_id,
                    usage: s.usage,
                    metered: s.metered,
                    status,
                    error: None,
                },
            )
        }),
    decreases rounds.len(),
{
    let s = all_added(SettlementV::fresh(), rounds);
    if rounds.len() > 0 {
        let rest = rounds.drop_last();
        assert forall|i: int| 0 <= i < rest.len() implies #[trigger] rest[i] == rounds[i] by {}
        all_rounds_are_charged(rest, status);
        lemma_total(rest);
        assert(rounds[rounds.len() - 1] == rounds.last());
        assert(s.metered =~= Seq::new(rounds.len(), |i: int| rounds[i].metered));
    } else {
        assert(s.metered =~= Seq::new(rounds.len(), |i: int| rounds[i].metered));
    }
}

/// The account that rounds name, the last that is known.
pub open spec fn last_account(rounds: Seq<SpentV>) -> u64
    decreases rounds.len(),
{
    if rounds.len() == 0 {
        0
    } else if rounds.last().credential_id != 0 {
        rounds.last().credential_id
    } else {
        last_account(rounds.drop_last())
    }
}

/// What was used is recorded once, under the last account that is known, with the outcome
/// and what went wrong; ending a second time records nothing.
pub proof fn usage_is_recorded_once(
    rounds: Seq<SpentV>,
    status: SettlementStatus,
    error: Option<(TraceOutcome, Seq<char>)>,
)
    requires
        figures_are_sane(rounds),
    ensures
        ({
            let s = all_added(SettlementV::fresh(), rounds);
            let once = s.finished(status, error);
            &&& once.1 == Some(
                RecordV {
                    credential_id: last_account(rounds),
                    usage: s.usage,
                    metered: s.metered,
                    status,
                    error,
                },
            )
            &&& once.0.finished(status, error).1 is None
        }),
    decreases rounds.len(),
{
    all_rounds_are_charged(rounds, status);
    lemma_total(rounds);
    if rounds.len() > 0 {
        let rest = rounds.drop_last();
        assert forall|i: int| 0 <= i < rest.len() implies #[trigger] rest[i] == rounds[i] by {}
        usage_is_recorded_once(rest, status, error);
    }
}

/// A round that broke off fails the loop as a fault of the upstream, with the text for it;
/// what it used and charged until then is recorded all the same, and the error of the stream
/// with it.
pub proof fn a_round_that_broke_off_is_charged(
    v: LoopV,
    round: RoundV,
    credential_id: u64,
    fallback_input: int,
    estimated_output: i32,
    d: DrawnV,
    e: Seq<char>,
)
    requires
        round.stream_error == Some(e),
        !v.settlement.settled,
    ensures
        ({
            let s = v.round_taken(round, credential_id, fallback_input, estimated_output, d);
            let spent = v.settlement.with(
                credential_id,
                round.usage(fallback_input, estimated_output),
                round.metered,
            );
            &&& s.1.step == StepV::Fail(
                502,
                "upstream_error"@,
                "Upstream response stream ended unexpectedly during the web_search loop."@,
            )
            &&& s.1.record == Some(
                RecordV {
                    credential_id: spent.credential_id,
                    usage: spent.usage.sane(),
                    metered: v.settlement.metered.push(round.metered),
                    status: SettlementStatus::Error,
                    error: Some((TraceOutcome::StreamInterrupted, e)),
                },
            )
            &&& s.0.settlement.settled
            &&& s.0.round is None
        }),
{
}

/// A round that could not be asked for fails the loop with the status and the texts of its
/// failure, and what it used, if anything, is recorded.
pub proof fn a_failure_is_answered_as_it_is(v: LoopV, f: FailureV)
    requires
        !v.settlement.settled,
    ensures
        ({
            let s = v.round_failed(f);
            &&& s.1.step == StepV::Fail(f.status, f.client_error, f.client_message)
            &&& s.1.record is Some
            &&& s.1.record->Some_0.error == Some((f.trace, f.error_message))
            &&& s.1.record->Some_0.status == SettlementStatus::Error
            &&& s.1.record->Some_0.metered == v.settlement.metered.push(f.metered)
            &&& f.token_usage is None ==> s.1.record->Some_0.usage == v.settlement.usage.sane()
            &&& (f.token_usage matches Some(u) ==> s.1.record->Some_0.usage
                == v.settlement.usage.plus(u).sane())
            &&& f.credential_id != 0 ==> s.1.record->Some_0.credential_id == f.credential_id
            &&& f.credential_id == 0 ==> s.1.record->Some_0.credential_id
                == v.settlement.credential_id
        }),
{
}

/// An empty answer is asked for a second time with the same conversation, and fails the loop
/// then; both are paid for.
pub proof fn an_empty_answer_fails_the_second_time(
    v: LoopV,
    round: RoundV,
    credential_id: u64,
    fallback_input: int,
    estimated_output: i32,
    d: DrawnV,
)
    requires
        round.stream_error is None,
        0 <= v.retries,
        !v.settlement.settled,
        disposition(v.messages, round, v.retries) != EmptyToolResultDisposition::Accept,
    ensures
        ({
            let s = v.round_taken(round, credential_id, fallback_input, estimated_output, d);
            let spent = v.settlement.with(
                credential_id,
                round.usage(fallback_input, estimated_output),
                round.metered,
            );
            &&& v.retries == 0 ==> s.1.step == StepV::Round && s.0.messages == v.messages
                && s.0.settlement == spent && s.1.record is None && s.0.retries == 1
                && s.0.round_idx == v.round_idx
            &&& v.retries > 0 ==> (s.1.step matches StepV::Fail(status, kind, message) && status
                == 502 && kind == "upstream_error"@) && s.1.record is Some
                && s.1.record->Some_0.metered == spent.metered
        }),
{
}

/// A loop begins with the conversation that it was given and with nothing else: nothing
/// shown, nothing thought, nothing used and no round behind it.
pub proof fn a_loop_begins_with_the_conversation(messages: Seq<MessageV>, streaming: bool)
    ensures
        ({
            let v = LoopV::fresh(messages, streaming);
            &&& v.messages == messages
            &&& v.streaming == streaming
            &&& v.shown.len() == 0
            &&& v.thinking.len() == 0
            &&& v.metering is None
            &&& v.round_idx == 0
            &&& v.retries == 0
            &&& v.round is None
            &&& v.settlement.metered.len() == 0
            &&& v.settlement.usage.output_tokens == 0
            &&& v.settlement.usage.uncached_input_tokens == 0
            &&& !v.settlement.settled
        }),
{
}

/// A search whose error says that nothing was found goes on as one without results; any
/// other error fails the loop as the client is to be told, and is traced as it came.
pub proof fn a_search_that_found_nothing_goes_on(
    v: LoopV,
    error: Seq<char>,
    summary: Seq<char>,
    status: u16,
    kind: Seq<char>,
    message: Seq<char>,
    d: DrawnV,
)
    requires
        !v.settlement.settled,
    ensures
        ({
            let s = v.search_failed(error, summary, status, kind, message, d);
            if crate::endpoint::refusal_laws::stands_in(error, "Tool returned no results"@) {
                s == v.search_taken(None, summary, d)
            } else {
                &&& s.1.step == StepV::Fail(status, kind, message)
                &&& s.1.record is Some
                &&& s.1.record->Some_0.status == SettlementStatus::Error
                &&& s.1.record->Some_0.error == Some((TraceOutcome::LastAttempt, error))
                &&& s.1.record->Some_0.metered == v.settlement.metered
            }
        }),
{
    finding_nothing_is_told_by_its_phrase(Seq::empty(), Seq::empty(), error);
}

/// A streaming loop tells the client of each search as it ends and of the next as it begins;
/// one that answers in one piece tells nothing before the end.
pub proof fn searches_are_told_while_streaming(
    v: LoopV,
    round: RoundV,
    found: Option<Seq<PageV>>,
    summary: Seq<char>,
    d: DrawnV,
    k: int,
    query: Seq<char>,
)
    requires
        v.round == Some(round),
        0 <= v.searched.len() < k < round.calls.len(),
        round.calls[k].name == "web_search"@,
        forall|i: int|
            v.searched.len() < i < k ==> (#[trigger] round.calls[i]).name != "web_search"@,
        call_query(round.calls[k].input) == Some(query),
    ensures
        ({
            let s = v.search_taken(found, summary, d);
            let ended = v.emitter.completed(v.pending, found);
            &&& s.1.step == StepV::Search(Some(query))
            &&& v.streaming ==> s.1.evs == ended.1 + ended.0.begun(d.begun, query).1
            &&& !v.streaming ==> s.1.evs.len() == 0
        }),
{
    lemma_next_search(round.calls, v.searched.len() as int + 1, k);
}

/// A query may stand one level deeper: in an object, under `query`, `search_query` or `q`, or
/// else under `text` or `value`, the first of them that is there.
pub proof fn a_query_may_stand_in_an_object(
    m: Map<Seq<char>, JsonV>,
    a: Seq<char>,
    t: Seq<char>,
    b: Seq<char>,
)
    requires
        m.dom().finite(),
        is_blank_text(a),
        is_blank_text(b),
        is_trim(t),
    ensures
        ({
            let asked = JsonV::Text(a + t + b);
            let at = |k: Seq<char>| m.dom().contains(k) && m[k] == asked;
            let no = |k: Seq<char>| !m.dom().contains(k);
            let found = query_in(JsonV::Object(m));
            &&& at("query"@) ==> found == Some(t)
            &&& no("query"@) && at("search_query"@) ==> found == Some(t)
            &&& no("query"@) && no("search_query"@) && at("q"@) ==> found == Some(t)
            &&& no("query"@) && no("search_query"@) && no("q"@) && at("text"@) ==> found == Some(t)
            &&& no("query"@) && no("search_query"@) && no("q"@) && no("text"@) && at("value"@)
                ==> found == Some(t)
            &&& no("query"@) && no("search_query"@) && no("q"@) && no("text"@) && no("value"@)
                ==> found is None
        }),
{
    trimming_takes_white_space_alone(a, t, b);
    reveal_with_fuel(query_in, 3);
    reveal_with_fuel(crate::search_query::query_under, 3);
}

/// A round that calls tools of the client alone is the answer: behind what was shown before,
/// what is new of its text and then its calls, each in a block of its own and in order. It
/// stops for those calls, unless another reason was given.
pub proof fn calls_of_the_client_are_the_answer(
    v: LoopV,
    round: RoundV,
    credential_id: u64,
    fallback_input: int,
    estimated_output: i32,
    d: DrawnV,
)
    requires
        round.stream_error is None,
        round.calls.len() > 0,
        forall|i: int| 0 <= i < round.calls.len() ==> (#[trigger] round.calls[i]).name
            != "web_search"@,
    ensures
        ({
            let s = v.round_taken(round, credential_id, fallback_input, estimated_output, d);
            &&& s.1.step is Done
            &&& ({
                let a = s.1.step->Done_0;
                let n = round.calls.len() as int;
                let k = a.content.len() - n;
                &&& k >= v.shown.len()
                &&& a.content.take(v.shown.len() as int) == v.shown
                &&& forall|i: int|
                    0 <= i < n ==> #[trigger] a.content[k + i] == call_block(round.calls[i])
                &&& a.stop_reason == match round.stop_reason {
                    Some(r) => r,
                    None => "tool_use"@,
                }
                &&& a.thinking == v.thinking_with(round.thinking)
            })
        }),
{
    let s = v.round_taken(round, credential_id, fallback_input, estimated_output, d);
    let n = round.calls.len() as int;
    lemma_no_search(round.calls, 0);
    let none = Seq::<Option<Seq<PageV>>>::empty();
    let searched = none + Seq::new(n as nat, |i: int| None);
    let a = s.1.step->Done_0;
    let shown = crate::search_content::shown_calls(round.calls, searched, d.flushed, n);
    lemma_client_calls(round.calls, searched, d.flushed, n);
    crate::answer_laws::calls_are_parted_by_their_names(round.calls);
    lemma_no_searches_among(round.calls, n);
    let k = a.content.len() - n;
    assert(a.content.skip(k) =~= shown);
    assert forall|i: int| 0 <= i < n implies #[trigger] a.content[k + i] == call_block(
        round.calls[i],
    ) by {
        assert(shown[i] == call_block(round.calls[i]));
        assert(a.content.skip(k)[i] == shown[i]);
    }
    assert(a.content.take(v.shown.len() as int) =~= v.shown);
}

proof fn lemma_no_search(calls: Seq<CallV>, from: int)
    requires
        0 <= from <= calls.len(),
        forall|i: int| 0 <= i < calls.len() ==> (#[trigger] calls[i]).name != "web_search"@,
    ensures
        next_search(calls, from) == calls.len(),
    decreases calls.len() - from,
{
    if from < calls.len() {
        assert(calls[from].name != "web_search"@);
        lemma_no_search(calls, from + 1);
    }
}

proof fn lemma_no_searches_among(calls: Seq<CallV>, n: int)
    requires
        0 <= n <= calls.len(),
        forall|i: int| 0 <= i < calls.len() ==> (#[trigger] calls[i]).name != "web_search"@,
    ensures
        crate::answer_laws::searches_among(calls, n) == 0,
    decreases n,
{
    if n > 0 {
        lemma_no_searches_among(calls, n - 1);
        assert(calls[n - 1].name != "web_search"@);
    }
}

proof fn lemma_client_calls(
    calls: Seq<CallV>,
    searched: Seq<Option<Seq<PageV>>>,
    ids: Seq<Seq<char>>,
    n: int,
)
    requires
        0 <= n <= calls.len(),
        forall|i: int| 0 <= i < calls.len() ==> (#[trigger] calls[i]).name != "web_search"@,
    ensures
        ({
            let shown = crate::search_content::shown_calls(calls, searched, ids, n);
            shown.len() == n && forall|i: int|
                0 <= i < n ==> #[trigger] shown[i] == call_block(calls[i])
        }),
    decreases n,
{
    if n > 0 {
        lemma_client_calls(calls, searched, ids, n - 1);
        assert(calls[n - 1].name != "web_search"@);
    }
}

} // verus!
