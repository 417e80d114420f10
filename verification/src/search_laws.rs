//! Laws of the search loop: it ends, it is accounted for once, and the events of
//! its message come in order.
use crate::json::JsonV;
use crate::protocol::{legal, lemma_run_append, lemma_run_one, lemma_run_push, run, seen, ProtoV};
use crate::search_content::{goes_on, PageV, MAX_WEB_SEARCH_ROUNDS};
use crate::search_events::{
    block_events, client_usage, content_events, indices_without, message_body, message_events,
    next_index, opening_data, stops, thinking_attached, without_presentation, EmitterV,
};
use crate::search_loop::{next_search, DrawnV, LoopV, StepV, TurnV};
use crate::search_round::{
    checked_round, disposition, found_nothing, EmptyToolResultDisposition, RoundV, SettlementStatus,
    TraceOutcome, MAX_EMPTY_TOOL_RESULT_RETRIES,
};
use crate::sse::{Ev, MeteringV, Usage};
use crate::tokens::TokenUsage;
use crate::tool_json::CallV;
use vstd::prelude::*;

verus! {

/// The counters of the loop are within their bounds.
pub open spec fn within_bounds(v: LoopV) -> bool {
    0 <= v.round_idx <= MAX_WEB_SEARCH_ROUNDS && 0 <= v.retries <= MAX_EMPTY_TOOL_RESULT_RETRIES
}

/// How many more rounds may be put to the upstream after the current one.
pub open spec fn rounds_left(v: LoopV) -> int {
    (MAX_WEB_SEARCH_ROUNDS - v.round_idx) * (MAX_EMPTY_TOOL_RESULT_RETRIES + 1) + (
    MAX_EMPTY_TOOL_RESULT_RETRIES - v.retries)
}

proof fn lemma_advanced_ends(v: LoopV, round: RoundV, evs: Seq<Ev>, d: DrawnV)
    requires
        within_bounds(v),
    ensures
        ({
            let (w, t) = v.advanced(round, evs, d);
            &&& within_bounds(w)
            &&& t.step is Round ==> rounds_left(w) < rounds_left(v)
            &&& !(t.step is Round) ==> rounds_left(w) == rounds_left(v)
        }),
{
}

/// The loop ends: each time another round is put to the upstream, fewer are left.
pub proof fn each_round_uses_up_the_budget(
    v: LoopV,
    round: RoundV,
    credential_id: u64,
    fallback_input: int,
    estimated_output: i32,
    d: DrawnV,
)
    requires
        within_bounds(v),
    ensures
        ({
            let (w, t) = v.round_taken(round, credential_id, fallback_input, estimated_output, d);
            &&& within_bounds(w)
            &&& 0 <= rounds_left(w) <= rounds_left(v)
            &&& t.step is Round ==> rounds_left(w) < rounds_left(v)
        }),
{
    let settled = LoopV {
        settlement: v.settlement.with(
            credential_id,
            round.usage(fallback_input, estimated_output),
            round.metered,
        ),
        metering: match round.metering {
            Some(m) => Some(m),
            None => v.metering,
        },
        ..v
    };
    lemma_advanced_ends(
        LoopV {
            thinking: settled.thinking_with(round.thinking),
            round: Some(round),
            searched: Seq::empty(),
            summaries: Seq::empty(),
            ..settled
        },
        round,
        Seq::empty(),
        d,
    );
}

/// After the searches of a round, another round uses up the budget, too.
pub proof fn each_search_uses_up_the_budget(
    v: LoopV,
    results: Option<Seq<PageV>>,
    summary: Seq<char>,
    d: DrawnV,
)
    requires
        within_bounds(v),
    ensures
        ({
            let (w, t) = v.search_taken(results, summary, d);
            &&& within_bounds(w)
            &&& 0 <= rounds_left(w) <= rounds_left(v)
            &&& t.step is Round ==> rounds_left(w) < rounds_left(v)
            &&& t.step is Search ==> w.searched.len() > v.searched.len()
        }),
{
    if let Some(round) = v.round {
        if v.searched.len() < round.calls.len() {
            let (emitter, evs) = v.emitter.completed(v.pending, results);
            let x = LoopV {
                emitter,
                searched: v.searched.push(results),
                summaries: v.summaries.push(summary),
                ..v
            };
            lemma_advanced_ends(x, round, v.sends(evs), d);
            lemma_next_search(round.calls, x.searched.len() as int);
        }
    }
}

proof fn lemma_next_search(calls: Seq<CallV>, from: int)
    requires
        0 <= from <= calls.len(),
    ensures
        from <= next_search(calls, from) <= calls.len(),
    decreases calls.len() - from,
{
    if from < calls.len() && calls[from].name != crate::search_query::search_tool() {
        lemma_next_search(calls, from + 1);
    }
}

/// A loop that goes on has recorded nothing, one that ends has, once.
pub open spec fn accounted(v: LoopV, w: LoopV, t: TurnV) -> bool {
    match t.step {
        StepV::Round => t.record is None && w.settlement.settled == v.settlement.settled,
        StepV::Search(_) => t.record is None && w.settlement.settled == v.settlement.settled,
        StepV::Done(_) => t.record is Some == !v.settlement.settled && w.settlement.settled,
        StepV::Fail(_, _, _) => t.record is Some == !v.settlement.settled && w.settlement.settled,
    }
}

/// After a round, usage is recorded if the loop has ended and not otherwise.
pub proof fn a_round_is_accounted_for(
    v: LoopV,
    round: RoundV,
    credential_id: u64,
    fallback_input: int,
    estimated_output: i32,
    d: DrawnV,
)
    ensures
        accounted(
            v,
            v.round_taken(round, credential_id, fallback_input, estimated_output, d).0,
            v.round_taken(round, credential_id, fallback_input, estimated_output, d).1,
        ),
{
}

/// After a search, usage is recorded if the loop has ended and not otherwise.
pub proof fn a_search_is_accounted_for(
    v: LoopV,
    results: Option<Seq<PageV>>,
    summary: Seq<char>,
    d: DrawnV,
)
    ensures
        accounted(v, v.search_taken(results, summary, d).0, v.search_taken(results, summary, d).1),
{
}

/// After a search that failed, usage is recorded if the loop has ended and not
/// otherwise.
pub proof fn a_failed_search_is_accounted_for(
    v: LoopV,
    error: Seq<char>,
    summary: Seq<char>,
    status: u16,
    client_error: Seq<char>,
    client_message: Seq<char>,
    d: DrawnV,
)
    ensures
        accounted(
            v,
            v.search_failed(error, summary, status, client_error, client_message, d).0,
            v.search_failed(error, summary, status, client_error, client_message, d).1,
        ),
{
    a_search_is_accounted_for(v, None, summary, d);
}

/// A search that fails is never passed off as one that found nothing: unless its
/// error says no more than that, the loop ends with the error that the client is
/// told, and what was used is recorded as a failure.
pub proof fn a_failed_search_is_no_success(
    v: LoopV,
    error: Seq<char>,
    summary: Seq<char>,
    status: u16,
    client_error: Seq<char>,
    client_message: Seq<char>,
    d: DrawnV,
)
    requires
        !found_nothing(error),
    ensures
        ({
            let (w, t) = v.search_failed(error, summary, status, client_error, client_message, d);
            &&& t.step == StepV::Fail(status, client_error, client_message)
            &&& t.record matches Some(r) ==> r.status == SettlementStatus::Error && r.error == Some(
                (TraceOutcome::LastAttempt, error),
            )
            &&& w.messages == v.messages
        }),
{
}

/// A client has seen of the message what the emitter knows of it, and the message
/// is under way.
pub open spec fn in_step(p: ProtoV, e: EmitterV) -> bool {
    &&& p.started && !p.ended && !p.counted && !e.terminal
    &&& forall|i: int| #[trigger] p.open.contains(i) == e.active.contains(i)
    &&& forall|i: int, j: int| 0 <= i < j < e.active.len() ==> e.active[i] != e.active[j]
    &&& forall|i: int| #[trigger] p.kinds.dom().contains(i) ==> i < e.next_index
    &&& forall|i: int| #[trigger]
        p.open.contains(i) ==> p.kinds.dom().contains(i) && p.kinds[i] != "thinking"@
}

proof fn lemma_search_kinds()
    ensures
        "server_tool_use"@ != "thinking"@,
        "web_search_tool_result"@ != "thinking"@,
        "text"@ != "thinking"@,
        "tool_use"@ != "thinking"@,
{
    reveal_strlit("server_tool_use");
    reveal_strlit("web_search_tool_result");
    reveal_strlit("thinking");
    reveal_strlit("text");
    reveal_strlit("tool_use");
    assert("server_tool_use"@.len() == 15);
    assert("web_search_tool_result"@.len() == 22);
    assert("text"@.len() == 4);
    assert("tool_use"@[1] == 'o');
    assert("thinking"@[1] == 'h');
}

/// Showing that a search begins is in order.
pub proof fn beginning_a_search_is_in_order(
    p: ProtoV,
    e: EmitterV,
    id: Seq<char>,
    query: Seq<char>,
)
    requires
        in_step(p, e),
        e.next_index < i32::MAX,
    ensures
        legal(p, e.begun(id, query).1),
        in_step(run(p, e.begun(id, query).1), e.begun(id, query).0),
{
    lemma_search_kinds();
    let (f, evs) = e.begun(id, query);
    lemma_run_one(p, evs[0]);
    assert(evs =~= seq![evs[0]]);
    let q = run(p, evs);
    let i = e.next_index;
    assert(!p.kinds.dom().contains(i));
    assert forall|k: int| #[trigger] q.open.contains(k) == f.active.contains(k) by {
        if e.active.contains(k) {
            let x = choose|x: int| 0 <= x < e.active.len() && e.active[x] == k;
            assert(f.active[x] == k);
        }
        if k == i {
            assert(f.active[e.active.len() as int] == k);
        }
        if f.active.contains(k) {
            let x = choose|x: int| 0 <= x < f.active.len() && f.active[x] == k;
            if x < e.active.len() {
                assert(e.active[x] == k);
            }
        }
        assert(p.open.contains(k) == e.active.contains(k));
    }
    assert forall|a: int, b: int| 0 <= a < b < f.active.len() implies f.active[a] != f.active[b] by {
        if b == e.active.len() {
            assert(e.active.contains(e.active[a]));
            assert(p.open.contains(e.active[a]));
        }
    }
}

proof fn lemma_without(s: Seq<int>, i: int)
    requires
        forall|a: int, b: int| 0 <= a < b < s.len() ==> s[a] != s[b],
    ensures
        forall|k: int| #[trigger]
            indices_without(s, i).contains(k) == (s.contains(k) && k != i),
        forall|a: int, b: int|
            0 <= a < b < indices_without(s, i).len() ==> indices_without(s, i)[a]
                != indices_without(s, i)[b],
    decreases s.len(),
{
    let r = indices_without(s, i);
    if s.len() > 0 {
        let head = s.drop_last();
        lemma_without(head, i);
        let h = indices_without(head, i);
        assert forall|k: int| #[trigger] r.contains(k) == (s.contains(k) && k != i) by {
            assert(h.contains(k) == (head.contains(k) && k != i));
            if head.contains(k) {
                let x = choose|x: int| 0 <= x < head.len() && head[x] == k;
                assert(s[x] == k);
            }
            if s.contains(k) && k != s.last() {
                let x = choose|x: int| 0 <= x < s.len() && s[x] == k;
                assert(head[x] == k);
            }
            if h.contains(k) {
                let x = choose|x: int| 0 <= x < h.len() && h[x] == k;
                assert(r[x] == k);
            }
            if r.contains(k) {
                let x = choose|x: int| 0 <= x < r.len() && r[x] == k;
                if x < h.len() {
                    assert(h[x] == k);
                }
            }
            if k == s.last() && s.last() != i {
                assert(r[h.len() as int] == k);
            }
            assert(s[s.len() - 1] == s.last());
        }
        assert forall|a: int, b: int| 0 <= a < b < r.len() implies r[a] != r[b] by {
            if b == h.len() {
                assert(h.contains(h[a]));
                assert(head.contains(h[a]));
                let x = choose|x: int| 0 <= x < head.len() && head[x] == h[a];
                assert(s[x] != s[s.len() - 1]);
            }
        }
    } else {
        assert(r =~= s);
    }
}

/// Stopping the block of a search that has failed is in order.
pub proof fn aborting_a_search_is_in_order(p: ProtoV, e: EmitterV, i: int)
    requires
        in_step(p, e),
        e.active.contains(i),
    ensures
        legal(p, e.aborted(i).1),
        in_step(run(p, e.aborted(i).1), e.aborted(i).0),
{
    lemma_run_one(p, Ev::BlockStop(i));
    lemma_without(e.active, i);
    assert(p.open.contains(i));
    let (f, evs) = e.aborted(i);
    let q = run(p, evs);
    assert(evs =~= seq![Ev::BlockStop(i)]);
    assert forall|k: int| #[trigger] q.open.contains(k) == f.active.contains(k) by {
        assert(p.open.contains(k) == e.active.contains(k));
        assert(f.active.contains(k) == (e.active.contains(k) && k != i));
    }
    assert forall|k: int| #[trigger] q.open.contains(k) implies q.kinds.dom().contains(k)
        && q.kinds[k] != "thinking"@ by {
        assert(p.open.contains(k));
    }
}

/// Stopping the block of a search and showing what it found is in order.
pub proof fn completing_a_search_is_in_order(
    p: ProtoV,
    e: EmitterV,
    i: int,
    results: Option<Seq<PageV>>,
)
    requires
        in_step(p, e),
        e.active.contains(i),
        e.next_index < i32::MAX,
    ensures
        legal(p, e.completed(i, results).1),
        in_step(run(p, e.completed(i, results).1), e.completed(i, results).0),
{
    lemma_search_kinds();
    aborting_a_search_is_in_order(p, e, i);
    let (f, evs) = e.completed(i, results);
    let j = e.next_index;
    let first = seq![evs[0]];
    lemma_run_one(p, evs[0]);
    let p1 = run(p, first);
    assert(e.aborted(i).1 =~= first);
    let second = first.push(evs[1]);
    lemma_run_push(p, first, evs[1]);
    let p2 = run(p, second);
    let third = second.push(evs[2]);
    lemma_run_push(p, second, evs[2]);
    assert(third =~= evs);
    let q = run(p, evs);
    assert(!p1.kinds.dom().contains(j));
    assert(p2.open.contains(j));
    assert(!p1.open.contains(j));
    assert forall|k: int| #[trigger] q.open.contains(k) == f.active.contains(k) by {
        assert(p1.open.contains(k) == e.aborted(i).0.active.contains(k));
    }
    assert forall|k: int| #[trigger] q.open.contains(k) implies q.kinds.dom().contains(k)
        && q.kinds[k] != "thinking"@ by {
        assert(p1.open.contains(k));
    }
    assert forall|k: int| #[trigger] q.kinds.dom().contains(k) implies k < f.next_index by {
        if k != j {
            assert(p1.kinds.dom().contains(k));
        }
    }
}

/// A message that is under way and has no open block; its blocks are numbered
/// below `next`.
pub open spec fn between_blocks(p: ProtoV, next: int) -> bool {
    &&& p.started && !p.ended && !p.counted
    &&& p.open == Set::<int>::empty()
    &&& forall|i: int| #[trigger] p.kinds.dom().contains(i) ==> i < next
}

proof fn lemma_block_in_order(p: ProtoV, block: JsonV, index: int)
    requires
        between_blocks(p, index),
        index < i32::MAX,
    ensures
        legal(p, block_events(block, index)),
        between_blocks(run(p, block_events(block, index)), next_index(index)),
        block_events(block, index).len() == 0 ==> run(p, block_events(block, index)) == p,
{
    lemma_search_kinds();
    let evs = block_events(block, index);
    if evs.len() > 0 {
        let first = seq![evs[0]];
        lemma_run_one(p, evs[0]);
        let p1 = run(p, first);
        assert(!p.kinds.dom().contains(index));
        assert(p1.open.contains(index));
        let second = first.push(evs[1]);
        lemma_run_push(p, first, evs[1]);
        if evs.len() == 2 {
            assert(second =~= evs);
        } else {
            let third = second.push(evs[2]);
            lemma_run_push(p, second, evs[2]);
            assert(third =~= evs);
        }
        let q = run(p, evs);
        assert(q.open =~= Set::<int>::empty());
        assert forall|i: int| #[trigger] q.kinds.dom().contains(i) implies i < next_index(index) by {
            if i != index {
                assert(p.kinds.dom().contains(i));
            }
        }
    } else {
        assert forall|i: int| #[trigger] p.kinds.dom().contains(i) implies i < next_index(index) by {}
    }
}

proof fn lemma_content_index(content: Seq<JsonV>, from: int, n: int)
    ensures
        from <= content_events(content, from, n).1,
    decreases n,
{
    if n > 0 {
        lemma_content_index(content, from, n - 1);
    }
}

/// The events of content are in order, as long as indices are left.
pub proof fn content_is_in_order(p: ProtoV, content: Seq<JsonV>, from: int, n: int)
    requires
        between_blocks(p, from),
        content_events(content, from, n).1 < i32::MAX,
    ensures
        legal(p, content_events(content, from, n).0),
        between_blocks(
            run(p, content_events(content, from, n).0),
            content_events(content, from, n).1,
        ),
    decreases n,
{
    if n > 0 {
        let (evs, index) = content_events(content, from, n - 1);
        content_is_in_order(p, content, from, n - 1);
        let more = block_events(content[n - 1], index);
        lemma_block_in_order(run(p, evs), content[n - 1], index);
        lemma_run_append(p, evs, more);
    }
}

/// Attaching thinking to the first event changes nothing of the order.
proof fn lemma_attached_in_order(p: ProtoV, evs: Seq<Ev>, thinking: Seq<char>)
    ensures
        legal(p, thinking_attached(evs, thinking)) == legal(p, evs),
        run(p, thinking_attached(evs, thinking)) == run(p, evs),
    decreases evs.len(),
{
    let after = thinking_attached(evs, thinking);
    if evs.len() > 0 && thinking.len() > 0 {
        if evs.len() == 1 {
            assert(evs =~= seq![evs[0]]);
            assert(after =~= seq![after[0]]);
            lemma_run_one(p, evs[0]);
            lemma_run_one(p, after[0]);
        } else {
            lemma_attached_in_order(p, evs.drop_last(), thinking);
            assert(after.drop_last() =~= thinking_attached(evs.drop_last(), thinking));
            assert(after.last() == evs.last());
        }
    }
}

/// The end of a message with searches is in order, once no search is open: the
/// rest of the content, the counts and the stop.
pub proof fn finishing_is_in_order(
    p: ProtoV,
    e: EmitterV,
    content: Seq<JsonV>,
    stop_reason: Seq<char>,
    usage: TokenUsage,
    thinking: Seq<char>,
    metering: Option<MeteringV>,
)
    requires
        in_step(p, e),
        e.active.len() == 0,
        e.finished(content, stop_reason, usage, thinking, metering).0.next_index < i32::MAX,
    ensures
        ({
            let (f, evs) = e.finished(content, stop_reason, usage, thinking, metering);
            &&& legal(p, evs)
            &&& run(p, evs).ended
            &&& run(p, evs).counted
            &&& f.terminal
        }),
{
    let (f, evs) = e.finished(content, stop_reason, usage, thinking, metering);
    let rest = without_presentation(content, content.len() as int);
    let n = rest.len() as int;
    assert forall|k: int| !#[trigger] p.open.contains(k) by {
        assert(p.open.contains(k) == e.active.contains(k));
    }
    assert(p.open =~= Set::<int>::empty());
    let body = content_events(rest, e.next_index, n).0;
    content_is_in_order(p, rest, e.next_index, n);
    lemma_attached_in_order(p, body, thinking);
    let head = thinking_attached(body, thinking);
    let a = evs[head.len() as int];
    let b = evs[head.len() as int + 1];
    lemma_run_push(p, head, a);
    lemma_run_push(p, head.push(a), b);
    assert(evs =~= head.push(a).push(b));
}

proof fn lemma_stops_in_order(p: ProtoV, e: EmitterV, n: int)
    requires
        in_step(p, e),
        0 <= n <= e.active.len(),
    ensures
        legal(p, stops(e.active.take(n))),
        !run(p, stops(e.active.take(n))).ended,
        run(p, stops(e.active.take(n))).counted == p.counted,
        run(p, stops(e.active.take(n))).kinds == p.kinds,
        forall|k: int| #[trigger]
            run(p, stops(e.active.take(n))).open.contains(k) == e.active.skip(n).contains(k),
    decreases n,
{
    let evs = stops(e.active.take(n));
    if n == 0 {
        assert(evs =~= Seq::<Ev>::empty());
        assert(e.active.skip(0) =~= e.active);
    } else {
        lemma_stops_in_order(p, e, n - 1);
        let before = stops(e.active.take(n - 1));
        let i = e.active[n - 1];
        assert(evs =~= before.push(Ev::BlockStop(i)));
        lemma_run_push(p, before, Ev::BlockStop(i));
        let q = run(p, before);
        assert(e.active.skip(n - 1)[0] == i);
        assert(q.open.contains(i));
        assert(e.active[n - 1] == i);
        assert(e.active.contains(i));
        assert(p.open.contains(i));
        let r = run(p, evs);
        assert forall|k: int| #[trigger] r.open.contains(k) == e.active.skip(n).contains(k) by {
            assert(q.open.contains(k) == e.active.skip(n - 1).contains(k));
            let old_rest = e.active.skip(n - 1);
            let rest = e.active.skip(n);
            if rest.contains(k) {
                let x = choose|x: int| 0 <= x < rest.len() && rest[x] == k;
                assert(old_rest[x + 1] == k);
                assert(e.active[n + x] == k);
                assert(e.active[n - 1] != e.active[n + x]);
            }
            if old_rest.contains(k) && k != i {
                let x = choose|x: int| 0 <= x < old_rest.len() && old_rest[x] == k;
                assert(rest[x - 1] == k);
            }
        }
    }
}

/// A failure is in order wherever it comes: every block that is open stops, then
/// the error is reported, without counts and without a regular stop.
pub proof fn failing_is_in_order(
    p: ProtoV,
    e: EmitterV,
    error_type: Seq<char>,
    message: Seq<char>,
)
    requires
        in_step(p, e),
    ensures
        ({
            let (f, evs) = e.failed(error_type, message);
            &&& legal(p, evs)
            &&& run(p, evs).ended
            &&& !run(p, evs).counted
            &&& f.terminal
        }),
{
    let n = e.active.len() as int;
    lemma_stops_in_order(p, e, n);
    assert(e.active.take(n) =~= e.active);
    let q = run(p, stops(e.active));
    assert forall|k: int| !#[trigger] q.open.contains(k) by {
        assert(q.open.contains(k) == e.active.skip(n).contains(k));
    }
    assert(q.open =~= Set::<int>::empty());
    lemma_run_push(
        p,
        stops(e.active),
        Ev::Error(crate::sse::error_data(error_type, message)),
    );
}

/// The loop streams a message that is under way; a search is open if and only if
/// a round is being searched.
pub open spec fn streams(p: ProtoV, v: LoopV) -> bool {
    &&& v.streaming
    &&& in_step(p, v.emitter)
    &&& v.round is Some ==> v.emitter.active == seq![v.pending]
    &&& v.round is None ==> v.emitter.active.len() == 0
}

/// The turn sends legal events and leaves a message that is under way, or that has
/// ended: with counts if the answer was sent, without if it failed.
pub open spec fn turn_in_order(p: ProtoV, w: LoopV, t: TurnV) -> bool {
    &&& legal(p, t.evs)
    &&& match t.step {
        StepV::Round => streams(run(p, t.evs), w) && w.round is None,
        StepV::Search(_) => streams(run(p, t.evs), w) && w.round is Some,
        StepV::Done(_) => run(p, t.evs).ended && run(p, t.evs).counted,
        StepV::Fail(_, _, _) => run(p, t.evs).ended && !run(p, t.evs).counted,
    }
}

proof fn lemma_failing_in_order(
    p: ProtoV,
    v: LoopV,
    evs: Seq<Ev>,
    status: u16,
    error_type: Seq<char>,
    message: Seq<char>,
    trace: crate::search_round::TraceOutcome,
    trace_message: Seq<char>,
)
    requires
        v.streaming,
        legal(p, evs),
        in_step(run(p, evs), v.emitter),
    ensures
        turn_in_order(
            p,
            v.failing(evs, status, error_type, message, trace, trace_message).0,
            v.failing(evs, status, error_type, message, trace, trace_message).1,
        ),
{
    failing_is_in_order(run(p, evs), v.emitter, error_type, message);
    lemma_run_append(p, evs, v.emitter.failed(error_type, message).1);
}

proof fn lemma_advanced_in_order(p: ProtoV, v: LoopV, round: RoundV, evs: Seq<Ev>, d: DrawnV)
    requires
        v.streaming,
        v.round == Some(round),
        legal(p, evs),
        in_step(run(p, evs), v.emitter),
        v.emitter.active.len() == 0,
        0 <= v.searched.len() <= round.calls.len(),
        v.advanced(round, evs, d).0.emitter.next_index < i32::MAX,
    ensures
        turn_in_order(p, v.advanced(round, evs, d).0, v.advanced(round, evs, d).1),
{
    let q = run(p, evs);
    let (w, t) = v.advanced(round, evs, d);
    let at = next_search(round.calls, v.searched.len() as int);
    lemma_next_search(round.calls, v.searched.len() as int);
    if at < round.calls.len() {
        let query = crate::search_content::query_or_empty(round.calls[at]);
        let (e, begun) = v.emitter.begun(d.begun, query);
        beginning_a_search_is_in_order(q, v.emitter, d.begun, query);
        lemma_run_append(p, evs, begun);
        assert(w.emitter.active =~= seq![w.pending]);
    } else if goes_on(v.round_idx, round.calls) {
    } else {
        let gap = at - v.searched.len();
        let x = LoopV {
            searched: v.searched + Seq::new(gap as nat, |i: int| None),
            summaries: v.summaries + Seq::new(gap as nat, |i: int| Seq::empty()),
            ..v
        };
        let a = x.answer(round, d);
        finishing_is_in_order(
            q,
            v.emitter,
            a.content,
            a.stop_reason,
            a.usage,
            a.thinking,
            a.metering,
        );
        lemma_run_append(
            p,
            evs,
            v.emitter.finished(a.content, a.stop_reason, a.usage, a.thinking, a.metering).1,
        );
    }
}

/// Taking a round keeps a streamed message in order, as long as indices are left.
pub proof fn taking_a_round_is_in_order(
    p: ProtoV,
    v: LoopV,
    round: RoundV,
    credential_id: u64,
    fallback_input: int,
    estimated_output: i32,
    d: DrawnV,
)
    requires
        streams(p, v),
        v.round is None,
        v.round_taken(round, credential_id, fallback_input, estimated_output, d).0.emitter.next_index
            < i32::MAX,
    ensures
        turn_in_order(
            p,
            v.round_taken(round, credential_id, fallback_input, estimated_output, d).0,
            v.round_taken(round, credential_id, fallback_input, estimated_output, d).1,
        ),
{
    let none = Seq::<Ev>::empty();
    assert(run(p, none) == p);
    match checked_round(round, credential_id, fallback_input, estimated_output) {
        Some(f) => {
            let usage = match f.token_usage {
                Some(u) => u,
                None => crate::search_round::no_usage(),
            };
            lemma_failing_in_order(
                p,
                LoopV {
                    settlement: v.settlement.with(f.credential_id, usage, f.metered),
                    ..v
                },
                none,
                f.status,
                f.client_error,
                f.client_message,
                f.trace,
                f.error_message,
            );
        },
        None => {
            let x = LoopV {
                settlement: v.settlement.with(
                    credential_id,
                    round.usage(fallback_input, estimated_output),
                    round.metered,
                ),
                metering: match round.metering {
                    Some(m) => Some(m),
                    None => v.metering,
                },
                ..v
            };
            match disposition(x.messages, round, x.retries) {
                EmptyToolResultDisposition::Retry => {},
                EmptyToolResultDisposition::Fail => {
                    lemma_failing_in_order(
                        p,
                        x,
                        none,
                        502,
                        "upstream_error"@,
                        crate::search_loop::empty_answer_message(),
                        crate::search_round::TraceOutcome::Unknown,
                        crate::search_loop::empty_answer_message(),
                    );
                },
                EmptyToolResultDisposition::Accept => {
                    lemma_advanced_in_order(
                        p,
                        LoopV {
                            thinking: x.thinking_with(round.thinking),
                            round: Some(round),
                            searched: Seq::empty(),
                            summaries: Seq::empty(),
                            ..x
                        },
                        round,
                        none,
                        d,
                    );
                },
            }
        },
    }
}

/// Taking the result of a search keeps a streamed message in order, as long as
/// indices are left.
pub proof fn taking_a_search_is_in_order(
    p: ProtoV,
    v: LoopV,
    results: Option<Seq<PageV>>,
    summary: Seq<char>,
    d: DrawnV,
)
    requires
        streams(p, v),
        v.round is Some,
        v.emitter.next_index < i32::MAX,
        v.search_taken(results, summary, d).0.emitter.next_index < i32::MAX,
    ensures
        turn_in_order(
            p,
            v.search_taken(results, summary, d).0,
            v.search_taken(results, summary, d).1,
        ),
{
    let none = Seq::<Ev>::empty();
    assert(run(p, none) == p);
    let round = v.round->Some_0;
    if v.searched.len() >= round.calls.len() {
        lemma_failing_in_order(
            p,
            v,
            none,
            500,
            "internal_error"@,
            crate::search_loop::unexpected_message(),
            crate::search_round::TraceOutcome::Unknown,
            crate::search_loop::unexpected_message(),
        );
    } else {
        let (emitter, evs) = v.emitter.completed(v.pending, results);
        assert(v.emitter.active[0] == v.pending);
        completing_a_search_is_in_order(p, v.emitter, v.pending, results);
        lemma_without(v.emitter.active, v.pending);
        let x = LoopV {
            emitter,
            searched: v.searched.push(results),
            summaries: v.summaries.push(summary),
            ..v
        };
        assert(x.emitter.active.len() == 0) by {
            if x.emitter.active.len() > 0 {
                let k = x.emitter.active[0];
                assert(x.emitter.active.contains(k));
                assert(v.emitter.active.contains(k));
            }
        }
        lemma_advanced_in_order(p, x, round, evs, d);
    }
}

/// A search that failed ends a streamed message in order: its block stops, and the
/// error is reported.
pub proof fn failing_a_search_is_in_order(
    p: ProtoV,
    v: LoopV,
    error: Seq<char>,
    summary: Seq<char>,
    status: u16,
    client_error: Seq<char>,
    client_message: Seq<char>,
    d: DrawnV,
)
    requires
        streams(p, v),
        v.round is Some,
        v.emitter.next_index < i32::MAX,
        v.search_failed(error, summary, status, client_error, client_message, d).0.emitter.next_index
            < i32::MAX,
    ensures
        turn_in_order(
            p,
            v.search_failed(error, summary, status, client_error, client_message, d).0,
            v.search_failed(error, summary, status, client_error, client_message, d).1,
        ),
{
    if crate::search_round::found_nothing(error) {
        taking_a_search_is_in_order(p, v, None, summary, d);
    } else {
        let (emitter, evs) = v.emitter.aborted(v.pending);
        assert(v.emitter.active[0] == v.pending);
        aborting_a_search_is_in_order(p, v.emitter, v.pending);
        lemma_failing_in_order(
            p,
            LoopV { emitter, ..v },
            evs,
            status,
            client_error,
            client_message,
            crate::search_round::TraceOutcome::LastAttempt,
            error,
        );
    }
}

/// A message reports the same counts, the same cost and the same reason to stop as
/// one value and as events.
pub proof fn both_forms_report_the_same(
    id: Seq<char>,
    other_id: Seq<char>,
    model: Seq<char>,
    content: Seq<JsonV>,
    stop_reason: Seq<char>,
    usage: TokenUsage,
    thinking: Seq<char>,
    metering: Option<MeteringV>,
)
    ensures
        ({
            let body = message_body(id, model, content, stop_reason, usage, thinking, metering);
            let evs = message_events(other_id, model, content, stop_reason, usage, metering);
            let told = body.field("usage"@)->Some_0;
            let opening = evs[0]->MessageStart_0.field("message"@)->Some_0.field("usage"@)->Some_0;
            let closing = evs[evs.len() - 2]->MessageDelta_0;
            let counted = closing.field("usage"@)->Some_0;
            &&& evs[0] is MessageStart
            &&& evs[evs.len() - 2] is MessageDelta
            &&& opening.field("input_tokens"@) == told.field("input_tokens"@)
            &&& opening.field("cache_creation_input_tokens"@) == told.field(
                "cache_creation_input_tokens"@,
            )
            &&& opening.field("cache_read_input_tokens"@) == told.field("cache_read_input_tokens"@)
            &&& counted.field("output_tokens"@) == told.field("output_tokens"@)
            &&& counted.field("credit_usage"@) == told.field("credit_usage"@)
            &&& counted.field("credit_unit"@) == told.field("credit_unit"@)
            &&& counted.field("credit_unit_plural"@) == told.field("credit_unit_plural"@)
            &&& closing.field("delta"@)->Some_0.field("stop_reason"@) == body.field(
                "stop_reason"@,
            )
        }),
{
    reveal_strlit("input_tokens");
    reveal_strlit("output_tokens");
    reveal_strlit("cache_creation_input_tokens");
    reveal_strlit("cache_read_input_tokens");
    reveal_strlit("credit_usage");
    reveal_strlit("credit_unit");
    reveal_strlit("credit_unit_plural");
    reveal_strlit("kiro_thinking");
    reveal_strlit("usage");
    reveal_strlit("delta");
    reveal_strlit("stop_reason");
    reveal_strlit("stop_sequence");
    assert("input_tokens"@[0] == 'i');
    assert("credit_usage"@[0] == 'c');
    assert("usage"@[0] == 'u');
    assert("delta"@[0] == 'd');
    assert("input_tokens"@.len() == 12);
    assert("output_tokens"@.len() == 13);
    assert("cache_creation_input_tokens"@.len() == 27);
    assert("cache_read_input_tokens"@.len() == 23);
    assert("credit_usage"@.len() == 12);
    assert("credit_unit"@.len() == 11);
    assert("credit_unit_plural"@.len() == 18);
    assert("kiro_thinking"@.len() == 13);
    assert("stop_reason"@.len() == 11);
    assert("stop_sequence"@.len() == 13);
    let evs = message_events(other_id, model, content, stop_reason, usage, metering);
    let opening = Usage { output_tokens: 0, ..client_usage(usage) };
    assert(evs[0] == Ev::MessageStart(opening_data(other_id, model, opening)));
}

} // verus!
