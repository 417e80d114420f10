//! Laws of a whole run of the search loop, whatever the upstream and the searches
//! reply.
use crate::search_content::{PageV, MAX_WEB_SEARCH_ROUNDS};
use crate::search_laws::within_bounds;
use crate::search_loop::{DrawnV, LoopV, StepV, TurnV};
use crate::search_round::{
    found_nothing, no_usage, FailureV, MessageV, RecordV, RoundV, SettlementStatus, SettlementV,
    MAX_EMPTY_TOOL_RESULT_RETRIES,
};
use crate::sse::Ev;
use vstd::prelude::*;

verus! {

/// What came of a step.
pub ghost enum Reply {
    /// The upstream has answered a round.
    Round {
        round: RoundV,
        credential_id: u64,
        fallback_input: int,
        estimated_output: i32,
        d: DrawnV,
    },
    /// A round could not be put to the upstream.
    RoundFailed(FailureV),
    /// A search is over.
    Search { results: Option<Seq<PageV>>, summary: Seq<char>, d: DrawnV },
    /// A search has failed.
    SearchFailed {
        error: Seq<char>,
        summary: Seq<char>,
        status: u16,
        client_error: Seq<char>,
        client_message: Seq<char>,
        d: DrawnV,
    },
}

impl Reply {
    /// The reply is one to a call of the upstream.
    pub open spec fn is_call(self) -> bool {
        self is Round || self is RoundFailed
    }

    /// The reply is to that step.
    pub open spec fn fits(self, step: StepV) -> bool {
        match step {
            StepV::Round => self.is_call(),
            StepV::Search(_) => !self.is_call(),
            _ => false,
        }
    }

    /// What the loop makes of the reply.
    pub open spec fn taken(self, v: LoopV) -> (LoopV, TurnV) {
        match self {
            Reply::Round { round, credential_id, fallback_input, estimated_output, d } =>
                v.round_taken(round, credential_id, fallback_input, estimated_output, d),
            Reply::RoundFailed(f) => v.round_failed(f),
            Reply::Search { results, summary, d } => v.search_taken(results, summary, d),
            Reply::SearchFailed { error, summary, status, client_error, client_message, d } =>
                v.search_failed(error, summary, status, client_error, client_message, d),
        }
    }

    /// What is known of the cost once the reply has come: a call adds what it cost.
    pub open spec fn cost_added(self, s: SettlementV) -> SettlementV {
        match self {
            Reply::Round { round, credential_id, fallback_input, estimated_output, d } => s.with(
                credential_id,
                round.usage(fallback_input, estimated_output),
                round.metered,
            ),
            Reply::RoundFailed(f) => s.with(
                f.credential_id,
                match f.token_usage {
                    Some(u) => u,
                    None => no_usage(),
                },
                f.metered,
            ),
            _ => s,
        }
    }
}

/// How far a run has come: the loop, the next step, and what was recorded.
pub ghost struct RunV {
    pub state: LoopV,
    pub step: StepV,
    pub records: Seq<RecordV>,
}

/// The run after those replies.
pub open spec fn ran(messages: Seq<MessageV>, streaming: bool, replies: Seq<Reply>) -> RunV
    decreases replies.len(),
{
    if replies.len() == 0 {
        RunV {
            state: LoopV::fresh(messages, streaming),
            step: StepV::Round,
            records: Seq::empty(),
        }
    } else {
        let before = ran(messages, streaming, replies.drop_last());
        let (w, t) = replies.last().taken(before.state);
        RunV {
            state: w,
            step: t.step,
            records: match t.record {
                Some(r) => before.records.push(r),
                None => before.records,
            },
        }
    }
}

/// Each reply is to the step that the loop asked for.
pub open spec fn in_turn(messages: Seq<MessageV>, streaming: bool, replies: Seq<Reply>) -> bool
    decreases replies.len(),
{
    replies.len() == 0 || {
        &&& in_turn(messages, streaming, replies.drop_last())
        &&& replies.last().fits(ran(messages, streaming, replies.drop_last()).step)
    }
}

/// How often the upstream was called in round `k`.
pub open spec fn calls_in_round(
    messages: Seq<MessageV>,
    streaming: bool,
    replies: Seq<Reply>,
    k: int,
) -> int
    decreases replies.len(),
{
    if replies.len() == 0 {
        0
    } else {
        let before = replies.drop_last();
        calls_in_round(messages, streaming, before, k) + if replies.last().is_call() && ran(
            messages,
            streaming,
            before,
        ).state.round_idx == k {
            1int
        } else {
            0
        }
    }
}

/// How often the upstream was called.
pub open spec fn calls(replies: Seq<Reply>) -> int
    decreases replies.len(),
{
    if replies.len() == 0 {
        0
    } else {
        calls(replies.drop_last()) + if replies.last().is_call() {
            1int
        } else {
            0
        }
    }
}

/// What all calls together have cost.
pub open spec fn cost(replies: Seq<Reply>) -> SettlementV
    decreases replies.len(),
{
    if replies.len() == 0 {
        SettlementV::fresh()
    } else {
        replies.last().cost_added(cost(replies.drop_last()))
    }
}

/// The run has ended.
pub open spec fn is_over(step: StepV) -> bool {
    step is Done || step is Fail
}

proof fn lemma_advanced(v: LoopV, round: RoundV, evs: Seq<Ev>, d: DrawnV)
    requires
        within_bounds(v),
    ensures
        ({
            let (w, t) = v.advanced(round, evs, d);
            &&& within_bounds(w)
            &&& match t.step {
                StepV::Round => w.settlement == v.settlement && t.record is None && w.round_idx
                    == v.round_idx + 1 && w.retries == 0,
                StepV::Search(_) => w.settlement == v.settlement && t.record is None && w.round_idx
                    == v.round_idx && w.retries == v.retries,
                StepV::Done(_) => (w.settlement, t.record) == v.settlement.finished(
                    SettlementStatus::Success,
                    None,
                ) && w.round_idx == v.round_idx && w.retries == v.retries,
                StepV::Fail(_, _, _) => false,
            }
        }),
{
}

/// What a reply leads to, as far as the course of the run goes.
spec fn leads_on(v: LoopV, reply: Reply) -> bool {
    let (w, t) = reply.taken(v);
    let s = reply.cost_added(v.settlement);
    &&& within_bounds(w)
    &&& match t.step {
        StepV::Round => w.settlement == s && t.record is None && (w.round_idx == v.round_idx + 1
            && w.retries == 0 || reply.is_call() && w.round_idx == v.round_idx && w.retries
            == v.retries + 1),
        StepV::Search(_) => w.settlement == s && t.record is None && w.round_idx == v.round_idx
            && w.retries == v.retries,
        StepV::Done(_) => (w.settlement, t.record) == s.finished(SettlementStatus::Success, None)
            && w.round_idx == v.round_idx && w.retries == v.retries,
        StepV::Fail(_, _, _) => w.settlement == s.finished(SettlementStatus::Error, None).0 && (
        exists|e: Option<(crate::search_round::TraceOutcome, Seq<char>)>|
            t.record == #[trigger] s.finished(SettlementStatus::Error, e).1) && w.round_idx
            == v.round_idx && w.retries == v.retries,
    }
}

proof fn lemma_round_leads_on(
    v: LoopV,
    round: RoundV,
    credential_id: u64,
    fallback_input: int,
    estimated_output: i32,
    d: DrawnV,
)
    requires
        within_bounds(v),
    ensures
        leads_on(
            v,
            Reply::Round { round, credential_id, fallback_input, estimated_output, d },
        ),
{
    let reply = Reply::Round { round, credential_id, fallback_input, estimated_output, d };
    let s = reply.cost_added(v.settlement);
    let settled = LoopV {
        settlement: s,
        metering: match round.metering {
            Some(m) => Some(m),
            None => v.metering,
        },
        ..v
    };
    let begun = LoopV {
        thinking: settled.thinking_with(round.thinking),
        round: Some(round),
        searched: Seq::empty(),
        summaries: Seq::empty(),
        ..settled
    };
    lemma_advanced(begun, round, Seq::empty(), d);
    match crate::search_round::checked_round(
        round,
        credential_id,
        fallback_input,
        estimated_output,
    ) {
        Some(f) => {
            assert(reply.taken(v).1.record == s.finished(
                SettlementStatus::Error,
                Some((f.trace, f.error_message)),
            ).1);
        },
        None => {
            let message = crate::search_loop::empty_answer_message();
            let e = Some((crate::search_round::TraceOutcome::Unknown, message));
            assert(settled.failing(
                Seq::empty(),
                502,
                "upstream_error"@,
                message,
                crate::search_round::TraceOutcome::Unknown,
                message,
            ).1.record == s.finished(SettlementStatus::Error, e).1);
        },
    }
}

proof fn lemma_search_leads_on(
    v: LoopV,
    results: Option<Seq<PageV>>,
    summary: Seq<char>,
    d: DrawnV,
)
    requires
        within_bounds(v),
    ensures
        leads_on(v, Reply::Search { results, summary, d }),
{
    let message = crate::search_loop::unexpected_message();
    let e = Some((crate::search_round::TraceOutcome::Unknown, message));
    assert(v.out_of_step().1.record == v.settlement.finished(SettlementStatus::Error, e).1);
    if let Some(round) = v.round {
        if v.searched.len() < round.calls.len() {
            let (emitter, evs) = v.emitter.completed(v.pending, results);
            let x = LoopV {
                emitter,
                searched: v.searched.push(results),
                summaries: v.summaries.push(summary),
                ..v
            };
            lemma_advanced(x, round, v.sends(evs), d);
        }
    }
}

proof fn lemma_leads_on(v: LoopV, reply: Reply)
    requires
        within_bounds(v),
    ensures
        leads_on(v, reply),
{
    match reply {
        Reply::Round { round, credential_id, fallback_input, estimated_output, d } => {
            lemma_round_leads_on(v, round, credential_id, fallback_input, estimated_output, d);
        },
        Reply::RoundFailed(f) => {
            let s = reply.cost_added(v.settlement);
            assert(reply.taken(v).1.record == s.finished(
                SettlementStatus::Error,
                Some((f.trace, f.error_message)),
            ).1);
        },
        Reply::Search { results, summary, d } => {
            lemma_search_leads_on(v, results, summary, d);
        },
        Reply::SearchFailed { error, summary, status, client_error, client_message, d } => {
            if found_nothing(error) {
                lemma_search_leads_on(v, None, summary, d);
                let same = Reply::Search { results: None, summary, d };
                assert(same.taken(v) == reply.taken(v));
            } else {
                let e = Some((crate::search_round::TraceOutcome::LastAttempt, error));
                assert(reply.taken(v).1.record == v.settlement.finished(
                    SettlementStatus::Error,
                    e,
                ).1);
            }
        },
    }
}

/// The course of a run so far.
spec fn on_course(messages: Seq<MessageV>, streaming: bool, replies: Seq<Reply>) -> bool {
    let r = ran(messages, streaming, replies);
    let v = r.state;
    let asked = if r.step is Round {
        v.retries
    } else {
        v.retries + 1
    };
    &&& within_bounds(v)
    &&& !cost(replies).settled
    &&& !is_over(r.step) ==> v.settlement == cost(replies) && r.records.len() == 0
    &&& forall|k: int|
        0 <= #[trigger] calls_in_round(messages, streaming, replies, k) <= if k < 0 || k
            > v.round_idx {
            0
        } else if k == v.round_idx {
            asked
        } else {
            MAX_EMPTY_TOOL_RESULT_RETRIES + 1
        }
    &&& 0 <= calls(replies) <= (MAX_EMPTY_TOOL_RESULT_RETRIES + 1) * v.round_idx + asked
}

proof fn lemma_on_course(messages: Seq<MessageV>, streaming: bool, replies: Seq<Reply>)
    requires
        in_turn(messages, streaming, replies),
    ensures
        on_course(messages, streaming, replies),
    decreases replies.len(),
{
    if replies.len() > 0 {
        let head = replies.drop_last();
        let last = replies.last();
        lemma_on_course(messages, streaming, head);
        let before = ran(messages, streaming, head);
        let v = before.state;
        lemma_leads_on(v, last);
        let r = ran(messages, streaming, replies);
        assert forall|k: int|
            0 <= #[trigger] calls_in_round(messages, streaming, replies, k) <= if k < 0 || k
                > r.state.round_idx {
                0
            } else if k == r.state.round_idx {
                if r.step is Round {
                    r.state.retries
                } else {
                    r.state.retries + 1
                }
            } else {
                MAX_EMPTY_TOOL_RESULT_RETRIES + 1
            } by {
            assert(0 <= calls_in_round(messages, streaming, head, k));
        }
    }
}

/// A run of the loop, whatever the upstream and the searches reply, calls the upstream
/// in at most six rounds and at most twice in each. It records what was used once, when
/// it ends and not before: the sum over all calls that were made, as a success if an
/// answer is sent and as a failure otherwise.
pub proof fn a_run_ends_and_is_settled_once(
    messages: Seq<MessageV>,
    streaming: bool,
    replies: Seq<Reply>,
)
    requires
        in_turn(messages, streaming, replies),
    ensures
        ({
            let r = ran(messages, streaming, replies);
            let total = cost(replies);
            &&& forall|k: int|
                #[trigger] calls_in_round(messages, streaming, replies, k) <= if 0 <= k
                    <= MAX_WEB_SEARCH_ROUNDS {
                    2int
                } else {
                    0
                }
            &&& calls(replies) <= 12
            &&& !is_over(r.step) ==> r.records.len() == 0
            &&& is_over(r.step) ==> {
                &&& r.records.len() == 1
                &&& r.records[0].credential_id == total.credential_id
                &&& r.records[0].usage == total.usage.sane()
                &&& r.records[0].metered == total.metered
                &&& (r.records[0].status == SettlementStatus::Success) == r.step is Done
                &&& (r.records[0].status == SettlementStatus::Error) == r.step is Fail
            }
        }),
{
    lemma_on_course(messages, streaming, replies);
    let r = ran(messages, streaming, replies);
    assert forall|k: int|
        #[trigger] calls_in_round(messages, streaming, replies, k) <= if 0 <= k
            <= MAX_WEB_SEARCH_ROUNDS {
            2int
        } else {
            0
        } by {
        assert(0 <= calls_in_round(messages, streaming, replies, k));
    }
    if is_over(r.step) {
        let head = replies.drop_last();
        lemma_on_course(messages, streaming, head);
        lemma_leads_on(ran(messages, streaming, head).state, replies.last());
    }
}

/// A run in which a search has failed, other than by finding nothing, is over and is no
/// success.
pub proof fn a_run_with_a_failed_search_fails(
    messages: Seq<MessageV>,
    streaming: bool,
    replies: Seq<Reply>,
    n: int,
)
    requires
        in_turn(messages, streaming, replies),
        0 <= n < replies.len(),
        replies[n] matches Reply::SearchFailed { error, .. } && !found_nothing(error),
    ensures
        n == replies.len() - 1,
        ran(messages, streaming, replies).step is Fail,
    decreases replies.len(),
{
    if n < replies.len() - 1 {
        let head = replies.drop_last();
        assert(head[n] == replies[n]);
        a_run_with_a_failed_search_fails(messages, streaming, head, n);
    }
}

} // verus!
