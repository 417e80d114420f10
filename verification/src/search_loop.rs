//! The loop that answers a request with web searches.
//!
//! A round is put to the upstream. If all it asks for is to search, the searches
//! are run, their results go back as a tool's would, and another round follows.
//! Otherwise the answer is sent: calls of other tools go to the client, and
//! searches are run here all the same. [`SearchLoop`] decides; its caller carries
//! each step out and reports what came of it.
use crate::content_blocks::{
    answer_pieces, calls_identified, pieces_view, split_answer, text_content, text_content_json,
};
use crate::ids::{fresh_search_id, is_search_id};
use crate::json::{Json, JsonV};
use crate::names::{NameMap, ToolRestorer};
use crate::search_content::{
    draw_piece_ids, draw_search_ids, flush_content, flush_content_with, flush_reason, goes_on,
    only_calls, opt_results, partition_tool_uses, query_or_empty, resolve_flush_stop_reason,
    results_view, search_result_block, search_result_json, search_use_block, search_use_json,
    searches_identified, should_search_round, texts, PageV, WebSearchResults,
};
use crate::search_events::{EmitterV, PendingWebSearch, WebSearchSseEmitter};
use crate::search_query::{call_query, search_tool, tool_query};
use crate::search_round::{
    call_blocks, checked_round, disposition, empty_tool_result_disposition, found_nothing,
    is_no_results_mcp_error, messages_view, no_usage, opt_record, push_call_blocks, stream_failure,
    EmptyToolResultDisposition, FailureV, Message, MessageV, RecordV, RoundFailure, RoundOutcome,
    RoundV, SettlementRecord, SettlementStatus, SettlementV, TraceOutcome, WebSearchUsageSettlement,
};
use crate::sse::{emits, opt_metering, typed, typed_json, Ev, MeteringEvent, MeteringV, SseEvent};
use crate::stream::jsons;
use crate::text::{chars_of, opt_text, push_text, same_text};
use crate::tokens::TokenUsage;
use crate::tool_json::CallV;
use vstd::prelude::*;

verus! {

/// The answer, ready to be sent.
pub struct Flushed {
    pub content: Vec<Json>,
    pub stop_reason: String,
    pub usage: TokenUsage,
    pub thinking: String,
    pub metering: Option<MeteringEvent>,
}

pub ghost struct FlushedV {
    pub content: Seq<JsonV>,
    pub stop_reason: Seq<char>,
    pub usage: TokenUsage,
    pub thinking: Seq<char>,
    pub metering: Option<MeteringV>,
}

impl View for Flushed {
    type V = FlushedV;

    open spec fn view(&self) -> FlushedV {
        FlushedV {
            content: jsons(self.content@),
            stop_reason: self.stop_reason@,
            usage: self.usage,
            thinking: self.thinking@,
            metering: opt_metering(self.metering),
        }
    }
}

/// What is to be done next.
pub enum SearchStep {
    /// Put the conversation to the upstream.
    Round,
    /// Run a search; without a query, find nothing.
    Search { query: Option<String> },
    /// Send the answer.
    Done(Flushed),
    /// Report a failure.
    Fail { status: u16, error_type: String, message: String },
}

pub ghost enum StepV {
    Round,
    Search(Option<Seq<char>>),
    Done(FlushedV),
    Fail(u16, Seq<char>, Seq<char>),
}

impl View for SearchStep {
    type V = StepV;

    open spec fn view(&self) -> StepV {
        match self {
            SearchStep::Round => StepV::Round,
            SearchStep::Search { query } => StepV::Search(opt_text(*query)),
            SearchStep::Done(f) => StepV::Done(f@),
            SearchStep::Fail { status, error_type, message } => StepV::Fail(
                *status,
                error_type@,
                message@,
            ),
        }
    }
}

/// A step of the loop: the events to send, what to do next, and what to record.
pub struct Turn {
    pub events: Vec<SseEvent>,
    pub step: SearchStep,
    pub record: Option<SettlementRecord>,
}

pub ghost struct TurnV {
    pub evs: Seq<Ev>,
    pub step: StepV,
    pub record: Option<RecordV>,
}

/// The turn is that of the model.
pub open spec fn is_turn(t: Turn, v: TurnV) -> bool {
    emits(t.events@, v.evs) && t.step@ == v.step && opt_record(t.record) == v.record
}

pub struct SearchLoop<R = NameMap> {
    pub streaming: bool,
    pub messages: Vec<Message>,
    pub presentation: Vec<Json>,
    pub settlement: WebSearchUsageSettlement,
    pub latest_metering: Option<MeteringEvent>,
    pub all_thinking: String,
    pub round_idx: usize,
    pub empty_retries: usize,
    pub emitter: WebSearchSseEmitter,
    pub round: Option<RoundOutcome<R>>,
    pub searched: Vec<Option<WebSearchResults>>,
    pub summaries: Vec<String>,
    pub pending: i32,
}

pub ghost struct LoopV {
    pub streaming: bool,
    pub messages: Seq<MessageV>,
    pub shown: Seq<JsonV>,
    pub settlement: SettlementV,
    pub metering: Option<MeteringV>,
    pub thinking: Seq<char>,
    pub round_idx: int,
    pub retries: int,
    pub emitter: EmitterV,
    pub round: Option<RoundV>,
    pub searched: Seq<Option<Seq<PageV>>>,
    pub summaries: Seq<Seq<char>>,
    pub pending: int,
}

pub open spec fn opt_round<R: ToolRestorer>(r: Option<RoundOutcome<R>>) -> Option<RoundV> {
    match r {
        Some(x) => Some(x@),
        None => None,
    }
}

impl<R: ToolRestorer> View for SearchLoop<R> {
    type V = LoopV;

    open spec fn view(&self) -> LoopV {
        LoopV {
            streaming: self.streaming,
            messages: messages_view(self.messages@),
            shown: jsons(self.presentation@),
            settlement: self.settlement@,
            metering: opt_metering(self.latest_metering),
            thinking: self.all_thinking@,
            round_idx: self.round_idx as int,
            retries: self.empty_retries as int,
            emitter: self.emitter@,
            round: opt_round(self.round),
            searched: results_view(self.searched@),
            summaries: texts(self.summaries@),
            pending: self.pending as int,
        }
    }
}

/// The identifiers that a turn draws.
pub ghost struct DrawnV {
    /// For a search that is shown to begin.
    pub begun: Seq<char>,
    /// For the searches of a round that has been searched.
    pub shown: Seq<Seq<char>>,
    /// For the calls that were written into the text.
    pub pieces: Seq<Seq<char>>,
    /// For the searches of the last round.
    pub flushed: Seq<Seq<char>>,
}

pub open spec fn empty_answer_message() -> Seq<char> {
    "Upstream returned no assistant text or tool call after a tool result."@
}

pub open spec fn unexpected_message() -> Seq<char> {
    "web_search loop exited unexpectedly"@
}

/// The result of a search, as the upstream gets it.
pub open spec fn tool_result_block(id: Seq<char>, summary: Seq<char>) -> JsonV {
    typed("tool_result"@).put("tool_use_id"@, JsonV::Text(id)).put(
        "content"@,
        JsonV::Text(summary),
    )
}

/// The message in which the assistant asks for the searches of a round.
pub open spec fn asking_message(round: RoundV) -> MessageV {
    MessageV {
        role: "assistant"@,
        content: JsonV::Array(
            crate::search_round::block_unless_empty(round.text, text_content(round.text))
                + call_blocks(round.calls),
        ),
    }
}

/// The results of the first `n` calls, each with its summary.
pub open spec fn tool_results(calls: Seq<CallV>, summaries: Seq<Seq<char>>, n: int) -> Seq<JsonV> {
    Seq::new(n as nat, |i: int| tool_result_block(calls[i].id, summaries[i]))
}

/// The first `n` searches as the client sees them.
pub open spec fn shown_searches(
    calls: Seq<CallV>,
    searched: Seq<Option<Seq<PageV>>>,
    ids: Seq<Seq<char>>,
    n: int,
) -> Seq<JsonV>
    decreases n,
{
    if n <= 0 {
        Seq::empty()
    } else {
        shown_searches(calls, searched, ids, n - 1).push(
            search_use_block(ids[n - 1], query_or_empty(calls[n - 1])),
        ).push(search_result_block(searched[n - 1]))
    }
}

/// The message in which the results of the searches go back.
pub open spec fn answering_message(calls: Seq<CallV>, summaries: Seq<Seq<char>>) -> MessageV {
    MessageV {
        role: "user"@,
        content: JsonV::Array(tool_results(calls, summaries, calls.len() as int)),
    }
}

/// Adds a round that has been searched to the conversation and to what the client
/// is shown.
pub fn append_search_round<R: ToolRestorer>(
    messages: &mut Vec<Message>,
    round: &RoundOutcome<R>,
    searched: &Vec<Option<WebSearchResults>>,
    summaries: &Vec<String>,
    ids: &Vec<String>,
    presentation: &mut Vec<Json>,
)
    requires
        searched@.len() == round.tool_uses@.len(),
        summaries@.len() == round.tool_uses@.len(),
        ids@.len() == round.tool_uses@.len(),
    ensures
        messages_view(final(messages)@) == messages_view(old(messages)@).push(
            asking_message(round@),
        ).push(answering_message(round@.calls, texts(summaries@))),
        jsons(final(presentation)@) == jsons(old(presentation)@) + shown_searches(
            round@.calls,
            results_view(searched@),
            texts(ids@),
            round@.calls.len() as int,
        ),
{
    let ghost calls = round@.calls;
    let ghost found = results_view(searched@);
    let ghost sums = texts(summaries@);
    let ghost names = texts(ids@);
    let mut asked: Vec<Json> = Vec::new();
    if chars_of(round.text.as_str()).len() > 0 {
        asked.push(text_content_json(round.text.as_str()));
    }
    assert(jsons(asked@) =~= crate::search_round::block_unless_empty(
        round@.text,
        text_content(round@.text),
    ));
    push_call_blocks(&mut asked, &round.tool_uses);
    let ghost asked_view = jsons(asked@);
    let content = Json::array(asked);
    assert(content@->Array_0 =~= asked_view);
    let ghost before = messages_view(messages@);
    messages.push(Message { role: "assistant".to_owned(), content });
    assert(messages_view(messages@) =~= before.push(asking_message(round@)));
    let ghost shown = jsons(presentation@);
    let mut results: Vec<Json> = Vec::new();
    let mut i: usize = 0;
    assert(jsons(results@) =~= tool_results(calls, sums, 0));
    assert(shown + shown_searches(calls, found, names, 0) =~= shown);
    while i < round.tool_uses.len()
        invariant
            i <= round.tool_uses@.len(),
            searched@.len() == round.tool_uses@.len(),
            summaries@.len() == round.tool_uses@.len(),
            ids@.len() == round.tool_uses@.len(),
            calls == round@.calls,
            found == results_view(searched@),
            sums == texts(summaries@),
            names == texts(ids@),
            jsons(results@) == tool_results(calls, sums, i as int),
            jsons(presentation@) == shown + shown_searches(calls, found, names, i as int),
        decreases round.tool_uses.len() - i,
    {
        let tu = &round.tool_uses[i];
        assert(calls[i as int] == tu@);
        assert(found[i as int] == opt_results(searched@[i as int]));
        assert(sums[i as int] == summaries@[i as int]@);
        assert(names[i as int] == ids@[i as int]@);
        let query = match tool_query(tu) {
            Some(q) => q,
            None => "".to_owned(),
        };
        let ghost r0 = jsons(results@);
        let block = typed_json("tool_result").with("tool_use_id", Json::text(tu.id.as_str())).with(
            "content",
            Json::text(summaries[i].as_str()),
        );
        results.push(block);
        assert(jsons(results@) =~= r0.push(block@));
        assert(r0.push(block@) =~= tool_results(calls, sums, i + 1));
        let ghost p0 = jsons(presentation@);
        let begun = search_use_json(ids[i].as_str(), query.as_str());
        let done = search_result_json(&searched[i]);
        presentation.push(begun);
        presentation.push(done);
        assert(jsons(presentation@) =~= p0.push(begun@).push(done@));
        assert(p0.push(begun@).push(done@) =~= shown + shown_searches(calls, found, names, i + 1));
        i = i + 1;
    }
    let ghost results_seen = jsons(results@);
    let content = Json::array(results);
    assert(content@->Array_0 =~= results_seen);
    let ghost mid = messages_view(messages@);
    messages.push(Message { role: "user".to_owned(), content });
    assert(messages_view(messages@) =~= mid.push(answering_message(calls, sums)));
}

/// The first search from `from` on among the calls, or their number.
pub open spec fn next_search(calls: Seq<CallV>, from: int) -> int
    decreases calls.len() - from,
{
    if 0 <= from < calls.len() && calls[from].name != search_tool() {
        next_search(calls, from + 1)
    } else {
        from
    }
}

impl LoopV {
    pub open spec fn fresh(messages: Seq<MessageV>, streaming: bool) -> LoopV {
        LoopV {
            streaming,
            messages,
            shown: Seq::empty(),
            settlement: SettlementV::fresh(),
            metering: None,
            thinking: Seq::empty(),
            round_idx: 0,
            retries: 0,
            emitter: EmitterV::fresh(),
            round: None,
            searched: Seq::empty(),
            summaries: Seq::empty(),
            pending: 0,
        }
    }

    /// Events are sent to a client that takes them one by one.
    pub open spec fn sends(self, evs: Seq<Ev>) -> Seq<Ev> {
        if self.streaming {
            evs
        } else {
            Seq::empty()
        }
    }

    /// The loop fails.
    pub open spec fn failing(
        self,
        evs: Seq<Ev>,
        status: u16,
        error_type: Seq<char>,
        message: Seq<char>,
        trace: TraceOutcome,
        trace_message: Seq<char>,
    ) -> (LoopV, TurnV) {
        let (emitter, end) = self.emitter.failed(error_type, message);
        let (settlement, record) = self.settlement.finished(
            SettlementStatus::Error,
            Some((trace, trace_message)),
        );
        (
            LoopV { emitter, settlement, round: None, ..self },
            TurnV {
                evs: evs + self.sends(end),
                step: StepV::Fail(status, error_type, message),
                record,
            },
        )
    }

    /// A round has failed: what it cost is added.
    pub open spec fn round_failed(self, f: FailureV) -> (LoopV, TurnV) {
        let usage = match f.token_usage {
            Some(u) => u,
            None => no_usage(),
        };
        LoopV {
            settlement: self.settlement.with(f.credential_id, usage, f.metered),
            ..self
        }.failing(
            Seq::empty(),
            f.status,
            f.client_error,
            f.client_message,
            f.trace,
            f.error_message,
        )
    }

    /// The thinking of a round follows that of the rounds before.
    pub open spec fn thinking_with(self, t: Seq<char>) -> Seq<char> {
        if t.len() == 0 {
            self.thinking
        } else if self.thinking.len() == 0 {
            t
        } else {
            self.thinking + "\n\n"@ + t
        }
    }

    /// A round has been read. An empty answer to a tool result is asked for once
    /// more and then fails; otherwise its searches are next.
    pub open spec fn round_taken(
        self,
        round: RoundV,
        credential_id: u64,
        fallback_input: int,
        estimated_output: i32,
        d: DrawnV,
    ) -> (LoopV, TurnV) {
        match checked_round(round, credential_id, fallback_input, estimated_output) {
            Some(f) => self.round_failed(f),
            None => {
                let v = LoopV {
                    settlement: self.settlement.with(
                        credential_id,
                        round.usage(fallback_input, estimated_output),
                        round.metered,
                    ),
                    metering: match round.metering {
                        Some(m) => Some(m),
                        None => self.metering,
                    },
                    ..self
                };
                match disposition(v.messages, round, v.retries) {
                    EmptyToolResultDisposition::Retry => (
                        LoopV { retries: v.retries + 1, ..v },
                        TurnV { evs: Seq::empty(), step: StepV::Round, record: None },
                    ),
                    EmptyToolResultDisposition::Fail => v.failing(
                        Seq::empty(),
                        502,
                        "upstream_error"@,
                        empty_answer_message(),
                        TraceOutcome::Unknown,
                        empty_answer_message(),
                    ),
                    EmptyToolResultDisposition::Accept => LoopV {
                        thinking: v.thinking_with(round.thinking),
                        round: Some(round),
                        searched: Seq::empty(),
                        summaries: Seq::empty(),
                        ..v
                    }.advanced(round, Seq::empty(), d),
                }
            },
        }
    }

    /// The next search of the round begins; after the last, the round ends.
    pub open spec fn advanced(self, round: RoundV, evs: Seq<Ev>, d: DrawnV) -> (LoopV, TurnV) {
        let at = next_search(round.calls, self.searched.len() as int);
        let gap = at - self.searched.len();
        let v = LoopV {
            searched: self.searched + Seq::new(gap as nat, |i: int| None),
            summaries: self.summaries + Seq::new(gap as nat, |i: int| Seq::empty()),
            ..self
        };
        if at < round.calls.len() {
            let call = round.calls[at];
            let (emitter, begun) = v.emitter.begun(d.begun, query_or_empty(call));
            (
                LoopV { emitter, pending: v.emitter.next_index, ..v },
                TurnV {
                    evs: evs + v.sends(begun),
                    step: StepV::Search(call_query(call.input)),
                    record: None,
                },
            )
        } else if goes_on(v.round_idx, round.calls) {
            (v.searched_round(round, d), TurnV { evs, step: StepV::Round, record: None })
        } else {
            v.flushed(round, evs, d)
        }
    }

    /// The results go back, and another round follows.
    pub open spec fn searched_round(self, round: RoundV, d: DrawnV) -> LoopV {
        LoopV {
            messages: self.messages.push(asking_message(round)).push(
                answering_message(round.calls, self.summaries),
            ),
            shown: self.shown + shown_searches(
                round.calls,
                self.searched,
                d.shown,
                round.calls.len() as int,
            ),
            round_idx: self.round_idx + 1,
            retries: 0,
            round: None,
            searched: Seq::empty(),
            summaries: Seq::empty(),
            ..self
        }
    }

    /// The answer of the last round.
    pub open spec fn answer(self, round: RoundV, d: DrawnV) -> FlushedV {
        let content = flush_content(
            self.shown,
            answer_pieces(round.text, round.known.remove(search_tool())),
            d.pieces,
            round.calls,
            self.searched,
            d.flushed,
            round.names,
        );
        FlushedV {
            content,
            stop_reason: flush_reason(
                round.stop_reason,
                only_calls(round.calls, false).len() == 0,
                content,
            ),
            usage: self.settlement.usage.sane(),
            thinking: self.thinking,
            metering: self.metering,
        }
    }

    /// The answer is sent and what it cost recorded.
    pub open spec fn flushed(self, round: RoundV, evs: Seq<Ev>, d: DrawnV) -> (LoopV, TurnV) {
        let a = self.answer(round, d);
        let (emitter, end) = self.emitter.finished(
            a.content,
            a.stop_reason,
            a.usage,
            a.thinking,
            a.metering,
        );
        let (settlement, record) = self.settlement.finished(SettlementStatus::Success, None);
        (
            LoopV { emitter, settlement, round: None, ..self },
            TurnV { evs: evs + self.sends(end), step: StepV::Done(a), record },
        )
    }

    /// Nothing was to be searched.
    pub open spec fn out_of_step(self) -> (LoopV, TurnV) {
        self.failing(
            Seq::empty(),
            500,
            "internal_error"@,
            unexpected_message(),
            TraceOutcome::Unknown,
            unexpected_message(),
        )
    }

    /// A search is over.
    pub open spec fn search_taken(
        self,
        results: Option<Seq<PageV>>,
        summary: Seq<char>,
        d: DrawnV,
    ) -> (LoopV, TurnV) {
        match self.round {
            Some(round) => if self.searched.len() >= round.calls.len() {
                self.out_of_step()
            } else {
                let (emitter, evs) = self.emitter.completed(self.pending, results);
                LoopV {
                    emitter,
                    searched: self.searched.push(results),
                    summaries: self.summaries.push(summary),
                    ..self
                }.advanced(round, self.sends(evs), d)
            },
            None => self.out_of_step(),
        }
    }

    /// A search has failed. If it says no more than that it found nothing, it is
    /// over; otherwise the loop fails.
    pub open spec fn search_failed(
        self,
        error: Seq<char>,
        summary: Seq<char>,
        status: u16,
        client_error: Seq<char>,
        client_message: Seq<char>,
        d: DrawnV,
    ) -> (LoopV, TurnV) {
        if found_nothing(error) {
            self.search_taken(None, summary, d)
        } else {
            let (emitter, evs) = self.emitter.aborted(self.pending);
            LoopV { emitter, ..self }.failing(
                self.sends(evs),
                status,
                client_error,
                client_message,
                TraceOutcome::LastAttempt,
                error,
            )
        }
    }
}

/// The identifiers that a turn has used were drawn for what they identify.
pub open spec fn drawn_for(turn: TurnV, round: RoundV, d: DrawnV) -> bool {
    match turn.step {
        StepV::Search(_) => is_search_id(d.begun),
        StepV::Round => searches_identified(round.calls, d.shown),
        StepV::Done(_) => calls_identified(
            answer_pieces(round.text, round.known.remove(search_tool())),
            d.pieces,
        ) && searches_identified(round.calls, d.flushed),
        StepV::Fail(_, _, _) => true,
    }
}

pub open spec fn nothing_drawn() -> DrawnV {
    DrawnV {
        begun: Seq::empty(),
        shown: Seq::empty(),
        pieces: Seq::empty(),
        flushed: Seq::empty(),
    }
}

fn copy_metering(m: &Option<MeteringEvent>) -> (r: Option<MeteringEvent>)
    ensures
        opt_metering(r) == opt_metering(*m),
{
    match m {
        Some(x) => Some(x.copy()),
        None => None,
    }
}

/// Appends events for a client that takes them one by one.
fn send(
    streaming: bool,
    events: &mut Vec<SseEvent>,
    more: Vec<SseEvent>,
    evs: Ghost<Seq<Ev>>,
    add: Ghost<Seq<Ev>>,
)
    requires
        emits(old(events)@, evs@),
        emits(more@, add@),
    ensures
        emits(
            final(events)@,
            evs@ + if streaming {
                add@
            } else {
                Seq::empty()
            },
        ),
{
    if streaming {
        crate::sse::emit_all(events, more, evs, add);
    } else {
        assert(evs@ + Seq::<Ev>::empty() =~= evs@);
    }
}

impl<R: ToolRestorer> SearchLoop<R> {
    /// The loop before its first round.
    pub fn new(messages: Vec<Message>, streaming: bool) -> (r: Self)
        ensures
            r@ == LoopV::fresh(messages_view(messages@), streaming),
    {
        let r = SearchLoop {
            streaming,
            messages,
            presentation: Vec::new(),
            settlement: WebSearchUsageSettlement::new(),
            latest_metering: None,
            all_thinking: String::new(),
            round_idx: 0,
            empty_retries: 0,
            emitter: WebSearchSseEmitter::new(),
            round: None,
            searched: Vec::new(),
            summaries: Vec::new(),
            pending: 0,
        };
        assert(r@.shown =~= Seq::<JsonV>::empty());
        assert(r@.thinking =~= Seq::<char>::empty());
        assert(r@.searched =~= Seq::<Option<Seq<PageV>>>::empty());
        assert(r@.summaries =~= Seq::<Seq<char>>::empty());
        r
    }

    fn fail(
        &mut self,
        events: Vec<SseEvent>,
        evs: Ghost<Seq<Ev>>,
        status: u16,
        error_type: &str,
        message: &str,
        trace: TraceOutcome,
        trace_message: &str,
    ) -> (r: Turn)
        requires
            emits(events@, evs@),
        ensures
            ({
                let s = old(self)@.failing(
                    evs@,
                    status,
                    error_type@,
                    message@,
                    trace,
                    trace_message@,
                );
                final(self)@ == s.0 && is_turn(r, s.1)
            }),
    {
        let ghost v = self@;
        let mut events = events;
        let end = self.emitter.fail(error_type, message);
        send(
            self.streaming,
            &mut events,
            end,
            evs,
            Ghost(v.emitter.failed(error_type@, message@).1),
        );
        let record = self.settlement.finish(
            SettlementStatus::Error,
            Some((trace, trace_message.to_owned())),
        );
        self.round = None;
        Turn {
            events,
            step: SearchStep::Fail {
                status,
                error_type: error_type.to_owned(),
                message: message.to_owned(),
            },
            record,
        }
    }

    /// A round has failed.
    pub fn fail_round(&mut self, failure: &RoundFailure) -> (r: Turn)
        ensures
            ({
                let s = old(self)@.round_failed(failure@);
                final(self)@ == s.0 && is_turn(r, s.1)
            }),
    {
        let usage = match failure.token_usage {
            Some(u) => u,
            None => TokenUsage {
                uncached_input_tokens: 0,
                output_tokens: 0,
                cache_read_input_tokens: 0,
                cache_write_input_tokens: 0,
            },
        };
        self.settlement.add(failure.credential_id, usage, &failure.credits);
        self.fail(
            Vec::new(),
            Ghost(Seq::empty()),
            failure.status,
            failure.client_error.as_str(),
            failure.client_message.as_str(),
            failure.trace,
            failure.error_message.as_str(),
        )
    }

    fn out_of_step(&mut self) -> (r: Turn)
        ensures
            ({
                let s = old(self)@.out_of_step();
                final(self)@ == s.0 && is_turn(r, s.1)
            }),
    {
        self.fail(
            Vec::new(),
            Ghost(Seq::empty()),
            500,
            "internal_error",
            "web_search loop exited unexpectedly",
            TraceOutcome::Unknown,
            "web_search loop exited unexpectedly",
        )
    }

    /// Sends the answer of the last round.
    fn flush(&mut self, round: RoundOutcome<R>, events: Vec<SseEvent>, evs: Ghost<Seq<Ev>>) -> (r: (
        Turn,
        Ghost<DrawnV>,
    ))
        requires
            emits(events@, evs@),
        ensures
            ({
                let s = old(self)@.flushed(round@, evs@, r.1@);
                final(self)@ == s.0 && is_turn(r.0, s.1) && drawn_for(s.1, round@, r.1@)
            }),
    {
        let ghost v = self@;
        let mut events = events;
        let callable = round.known_tool_names.without("web_search");
        let pieces = split_answer(round.text.as_str(), &callable);
        let piece_ids = draw_piece_ids(&pieces);
        let search_ids = draw_search_ids(&round.tool_uses);
        let ghost d = DrawnV {
            pieces: texts(piece_ids@),
            flushed: texts(search_ids@),
            ..nothing_drawn()
        };
        let shown = crate::buffered::copy_jsons(&self.presentation);
        assert(search_ids@.len() == texts(search_ids@).len());
        assert(piece_ids@.len() == texts(piece_ids@).len());
        assert(pieces@.len() == pieces_view(pieces@).len());
        let content = flush_content_with(
            shown,
            &pieces,
            &piece_ids,
            &round.tool_uses,
            &self.searched,
            &search_ids,
            &round.tool_name_map,
        );
        let (_, client) = partition_tool_uses(&round.tool_uses);
        assert(client@.len() == only_calls(round@.calls, false).len()) by {
            assert(crate::search_content::call_refs(client@).len() == client@.len());
        }
        let stop_reason = resolve_flush_stop_reason(
            &round.stop_reason_override,
            client.len() == 0,
            &content,
        );
        let usage = self.settlement.usage();
        let record = self.settlement.finish(SettlementStatus::Success, None);
        let metering = copy_metering(&self.latest_metering);
        let thinking = self.all_thinking.clone();
        let ghost a = v.answer(round@, d);
        let end = self.emitter.finish(
            &content,
            stop_reason.as_str(),
            usage,
            thinking.as_str(),
            &metering,
        );
        send(
            self.streaming,
            &mut events,
            end,
            evs,
            Ghost(
                v.emitter.finished(a.content, a.stop_reason, a.usage, a.thinking, a.metering).1,
            ),
        );
        self.round = None;
        (
            Turn {
                events,
                step: SearchStep::Done(
                    Flushed { content, stop_reason, usage, thinking, metering },
                ),
                record,
            },
            Ghost(d),
        )
    }

    /// Begins the next search of the round, or ends the round.
    fn advance(&mut self, round: RoundOutcome<R>, events: Vec<SseEvent>, evs: Ghost<Seq<Ev>>) -> (r: (
        Turn,
        Ghost<DrawnV>,
    ))
        requires
            emits(events@, evs@),
            opt_round(old(self).round) == Some(round@) || old(self).round is None,
            old(self).searched@.len() == old(self).summaries@.len(),
            old(self).searched@.len() <= round.tool_uses@.len(),
        ensures
            ({
                let start = LoopV { round: Some(round@), ..old(self)@ };
                let s = start.advanced(round@, evs@, r.1@);
                final(self)@ == s.0 && is_turn(r.0, s.1) && drawn_for(s.1, round@, r.1@)
            }),
            final(self).searched@.len() == final(self).summaries@.len(),
    {
        let ghost start = LoopV { round: Some(round@), ..self@ };
        let ghost calls = round@.calls;
        let ghost n = self.searched@.len() as int;
        let mut events = events;
        while self.searched.len() < round.tool_uses.len() && !same_text(
            round.tool_uses[self.searched.len()].name.as_str(),
            "web_search",
        )
            invariant
                calls == round@.calls,
                n <= self.searched@.len() <= round.tool_uses@.len(),
                self.searched@.len() == self.summaries@.len(),
                next_search(calls, n) == next_search(calls, self.searched@.len() as int),
                start == (LoopV { round: Some(round@), ..old(self)@ }),
                self@.searched == start.searched + Seq::new(
                    (self.searched@.len() - n) as nat,
                    |i: int| None,
                ),
                self@.summaries == start.summaries + Seq::new(
                    (self.searched@.len() - n) as nat,
                    |i: int| Seq::<char>::empty(),
                ),
                n == start.searched.len(),
                (LoopV {
                    searched: start.searched,
                    summaries: start.summaries,
                    round: start.round,
                    ..self@
                }) == start,
            decreases round.tool_uses.len() - self.searched.len(),
        {
            let ghost s0 = self@.searched;
            let ghost m0 = self@.summaries;
            let ghost k = self.searched@.len();
            assert(calls[k as int] == round.tool_uses@[k as int]@);
            self.searched.push(None);
            self.summaries.push(String::new());
            assert(self.summaries@[k as int]@ =~= Seq::<char>::empty());
            assert(self@.searched =~= s0.push(None));
            assert(self@.summaries =~= m0.push(Seq::empty()));
            assert(self@.searched =~= start.searched + Seq::new(
                (self.searched@.len() - n) as nat,
                |i: int| None,
            ));
            assert(self@.summaries =~= start.summaries + Seq::new(
                (self.searched@.len() - n) as nat,
                |i: int| Seq::<char>::empty(),
            ));
        }
        let at: usize = self.searched.len();
        if at < round.tool_uses.len() {
            assert(calls[at as int] == round.tool_uses@[at as int]@);
        }
        assert(next_search(calls, n) == at);
        let ghost v = LoopV { round: Some(round@), ..self@ };
        if at < round.tool_uses.len() {
            let query = tool_query(&round.tool_uses[at]);
            let shown = match &query {
                Some(q) => q.clone(),
                None => "".to_owned(),
            };
            let id = fresh_search_id();
            let ghost d = DrawnV { begun: id@, ..nothing_drawn() };
            let (pending, begun) = self.emitter.begin_search(id.as_str(), shown.as_str());
            self.pending = pending.block_index;
            send(
                self.streaming,
                &mut events,
                begun,
                evs,
                Ghost(v.emitter.begun(id@, shown@).1),
            );
            self.round = Some(round);
            return (Turn { events, step: SearchStep::Search { query }, record: None }, Ghost(d));
        }
        if should_search_round(self.round_idx, &round.tool_uses) {
            let ids = draw_search_ids(&round.tool_uses);
            let ghost d = DrawnV { shown: texts(ids@), ..nothing_drawn() };
            assert(ids@.len() == texts(ids@).len());
            append_search_round(
                &mut self.messages,
                &round,
                &self.searched,
                &self.summaries,
                &ids,
                &mut self.presentation,
            );
            self.round_idx = self.round_idx + 1;
            self.empty_retries = 0;
            self.round = None;
            self.searched = Vec::new();
            self.summaries = Vec::new();
            assert(self@.searched =~= Seq::<Option<Seq<PageV>>>::empty());
            assert(self@.summaries =~= Seq::<Seq<char>>::empty());
            return (Turn { events, step: SearchStep::Round, record: None }, Ghost(d));
        }
        self.flush(round, events, evs)
    }
}

impl<R: ToolRestorer> SearchLoop<R> {
    /// Every result has its summary.
    pub open spec fn wf(self) -> bool {
        self@.searched.len() == self@.summaries.len()
    }

    /// A round has been read, at the cost of `credential_id`.
    ///
    /// `fallback_input_tokens` and `estimated_output_tokens` count where the
    /// provider gave no figures.
    pub fn take_round(
        &mut self,
        round: RoundOutcome<R>,
        credential_id: u64,
        fallback_input_tokens: i32,
        estimated_output_tokens: i32,
    ) -> (r: Turn)
        requires
            old(self).wf(),
        ensures
            final(self).wf(),
            exists|d: DrawnV|
                ({
                    let s = #[trigger] old(self)@.round_taken(
                        round@,
                        credential_id,
                        fallback_input_tokens as int,
                        estimated_output_tokens,
                        d,
                    );
                    final(self)@ == s.0 && is_turn(r, s.1) && (s.1.step is Round && s.0.round_idx
                        == old(self)@.round_idx || drawn_for(s.1, round@, d))
                }),
    {
        let ghost v0 = self@;
        match stream_failure(
            &round,
            credential_id,
            fallback_input_tokens,
            estimated_output_tokens,
        ) {
            Some(f) => {
                let t = self.fail_round(&f);
                assert(is_turn(
                    t,
                    v0.round_taken(
                        round@,
                        credential_id,
                        fallback_input_tokens as int,
                        estimated_output_tokens,
                        nothing_drawn(),
                    ).1,
                ));
                return t;
            },
            None => {},
        }
        let usage = round.resolved_token_usage(fallback_input_tokens, estimated_output_tokens);
        self.settlement.add(credential_id, usage, &round.credits);
        match &round.last_metering {
            Some(m) => {
                self.latest_metering = Some(m.copy());
            },
            None => {},
        }
        let ghost v = self@;
        match empty_tool_result_disposition(&self.messages, &round, self.empty_retries) {
            EmptyToolResultDisposition::Retry => {
                self.empty_retries = self.empty_retries + 1;
                let t = Turn { events: Vec::new(), step: SearchStep::Round, record: None };
                assert(is_turn(
                    t,
                    v0.round_taken(
                        round@,
                        credential_id,
                        fallback_input_tokens as int,
                        estimated_output_tokens,
                        nothing_drawn(),
                    ).1,
                ));
                t
            },
            EmptyToolResultDisposition::Fail => {
                let t = self.fail(
                    Vec::new(),
                    Ghost(Seq::empty()),
                    502,
                    "upstream_error",
                    "Upstream returned no assistant text or tool call after a tool result.",
                    TraceOutcome::Unknown,
                    "Upstream returned no assistant text or tool call after a tool result.",
                );
                assert(is_turn(
                    t,
                    v0.round_taken(
                        round@,
                        credential_id,
                        fallback_input_tokens as int,
                        estimated_output_tokens,
                        nothing_drawn(),
                    ).1,
                ));
                t
            },
            EmptyToolResultDisposition::Accept => {
                if chars_of(round.thinking.as_str()).len() > 0 {
                    if chars_of(self.all_thinking.as_str()).len() > 0 {
                        push_text(&mut self.all_thinking, "\n\n");
                        push_text(&mut self.all_thinking, round.thinking.as_str());
                    } else {
                        self.all_thinking = round.thinking.clone();
                    }
                }
                assert(self@.thinking == v.thinking_with(round@.thinking));
                self.round = None;
                self.searched = Vec::new();
                self.summaries = Vec::new();
                assert(self@.searched =~= Seq::<Option<Seq<PageV>>>::empty());
                assert(self@.summaries =~= Seq::<Seq<char>>::empty());
                let ghost rv = round@;
                let (t, d) = self.advance(round, Vec::new(), Ghost(Seq::empty()));
                assert(is_turn(
                    t,
                    v0.round_taken(
                        rv,
                        credential_id,
                        fallback_input_tokens as int,
                        estimated_output_tokens,
                        d@,
                    ).1,
                ));
                t
            },
        }
    }

    /// A search is over; `summary` is what the upstream is told of it.
    pub fn take_search(&mut self, results: Option<WebSearchResults>, summary: String) -> (r: Turn)
        requires
            old(self).wf(),
        ensures
            final(self).wf(),
            exists|d: DrawnV|
                ({
                    let s = #[trigger] old(self)@.search_taken(opt_results(results), summary@, d);
                    final(self)@ == s.0 && is_turn(r, s.1) && (old(self)@.round matches Some(x)
                        ==> drawn_for(s.1, x, d))
                }),
    {
        let ghost v0 = self@;
        let current = self.round.take();
        match current {
            Some(round) => {
                if self.searched.len() >= round.tool_uses.len() {
                    let t = self.out_of_step();
                    assert(is_turn(
                        t,
                        v0.search_taken(opt_results(results), summary@, nothing_drawn()).1,
                    ));
                    return t;
                }
                let mut events: Vec<SseEvent> = Vec::new();
                let pending = PendingWebSearch { block_index: self.pending };
                let done = self.emitter.complete_search(pending, &results);
                let ghost add = v0.emitter.completed(v0.pending, opt_results(results)).1;
                send(self.streaming, &mut events, done, Ghost(Seq::empty()), Ghost(add));
                let ghost evs = v0.sends(add);
                assert(Seq::<Ev>::empty() + evs =~= evs);
                let ghost found = opt_results(results);
                let ghost told = summary@;
                self.searched.push(results);
                self.summaries.push(summary);
                assert(self@.searched =~= v0.searched.push(found));
                assert(self@.summaries =~= v0.summaries.push(told));
                let (t, d) = self.advance(round, events, Ghost(evs));
                assert(is_turn(t, v0.search_taken(found, told, d@).1));
                t
            },
            None => {
                let t = self.out_of_step();
                assert(is_turn(
                    t,
                    v0.search_taken(opt_results(results), summary@, nothing_drawn()).1,
                ));
                t
            },
        }
    }

    /// A search has failed with `error`. Where that says no more than that nothing
    /// was found, the search is over, with `summary`; otherwise the client is told
    /// `client_error` and `client_message` under `status`.
    pub fn fail_search(
        &mut self,
        error: &str,
        summary: String,
        status: u16,
        client_error: &str,
        client_message: &str,
    ) -> (r: Turn)
        requires
            old(self).wf(),
        ensures
            final(self).wf(),
            exists|d: DrawnV|
                ({
                    let s = #[trigger] old(self)@.search_failed(
                        error@,
                        summary@,
                        status,
                        client_error@,
                        client_message@,
                        d,
                    );
                    final(self)@ == s.0 && is_turn(r, s.1) && (old(self)@.round matches Some(x)
                        ==> drawn_for(s.1, x, d))
                }),
    {
        let ghost v0 = self@;
        let ghost told = summary@;
        if is_no_results_mcp_error(error) {
            let t = self.take_search(None, summary);
            proof {
                let d = choose|d: DrawnV|
                    ({
                        let s = #[trigger] v0.search_taken(None, told, d);
                        self@ == s.0 && is_turn(t, s.1) && (v0.round matches Some(x) ==> drawn_for(
                            s.1,
                            x,
                            d,
                        ))
                    });
                assert(is_turn(
                    t,
                    v0.search_failed(error@, told, status, client_error@, client_message@, d).1,
                ));
            }
            return t;
        }
        let mut events: Vec<SseEvent> = Vec::new();
        let pending = PendingWebSearch { block_index: self.pending };
        let stop = self.emitter.abort_search(pending);
        let ghost add = v0.emitter.aborted(v0.pending).1;
        send(self.streaming, &mut events, stop, Ghost(Seq::empty()), Ghost(add));
        let ghost evs = v0.sends(add);
        assert(Seq::<Ev>::empty() + evs =~= evs);
        let t = self.fail(
            events,
            Ghost(evs),
            status,
            client_error,
            client_message,
            TraceOutcome::LastAttempt,
            error,
        );
        assert(is_turn(
            t,
            v0.search_failed(
                error@,
                told,
                status,
                client_error@,
                client_message@,
                nothing_drawn(),
            ).1,
        ));
        t
    }
}

} // verus!
