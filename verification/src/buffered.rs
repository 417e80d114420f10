//! A stream whose events are held until its end, so that the first of them can
//! carry the counts that are known only then.
use crate::json::{Json, JsonV};
use crate::names::{NameMap, NameSet, ToolRestorer};
use crate::sse::{emits, Ev, SseEvent, SseV};
use crate::stream::{agrees, draws_more, jsons, log_draws, Event, StreamContext};
use crate::stream_laws::the_end_does_not_change_the_input;
use crate::stream_model::{Draws, EventV, StreamV};
use crate::text::{opt_text, same_text};
use crate::tokens::CacheUsage;
use vstd::prelude::*;

verus! {

/// Events as they are sent.
pub open spec fn rendered(evs: Seq<Ev>) -> Seq<SseV> {
    Seq::new(evs.len(), |i: int| evs[i].render())
}

pub open spec fn events_view(v: Seq<SseEvent>) -> Seq<SseV> {
    Seq::new(v.len(), |i: int| v[i]@)
}

/// The data of a `message_start` with its input counts set.
pub open spec fn with_counts(data: JsonV, counts: (int, int, int)) -> JsonV {
    match data.field("message"@) {
        Some(message) => match message.field("usage"@) {
            Some(usage) => data.put(
                "message"@,
                message.put(
                    "usage"@,
                    usage.put("input_tokens"@, JsonV::of_int(counts.0 as i64)).put(
                        "cache_creation_input_tokens"@,
                        JsonV::of_int(counts.1 as i64),
                    ).put("cache_read_input_tokens"@, JsonV::of_int(counts.2 as i64)),
                ),
            ),
            None => data,
        },
        None => data,
    }
}

/// An event with the input counts set, if it opens the message.
pub open spec fn corrected(e: SseV, counts: (int, int, int)) -> SseV {
    if e.event == "message_start"@ {
        SseV { event: e.event, data: with_counts(e.data, counts) }
    } else {
        e
    }
}

pub open spec fn all_corrected(evs: Seq<SseV>, counts: (int, int, int)) -> Seq<SseV> {
    Seq::new(evs.len(), |i: int| corrected(evs[i], counts))
}

/// The state of a buffered stream.
pub ghost struct BufferedV {
    pub inner: StreamV,
    pub buffer: Seq<SseV>,
    pub opened: bool,
}

impl BufferedV {
    /// The message is opened, once.
    pub open spec fn begun(self) -> BufferedV {
        if self.opened {
            self
        } else {
            BufferedV {
                inner: self.inner.opened().0,
                buffer: self.buffer + rendered(self.inner.opened().1),
                opened: true,
            }
        }
    }

    /// An upstream event has arrived.
    pub open spec fn processed(self, event: EventV, ids: Draws) -> BufferedV {
        let b = self.begun();
        let s = b.inner.processed(event, ids);
        BufferedV { inner: s.0, buffer: b.buffer + rendered(s.1), ..b }
    }

    /// The stream has ended: all events, the first with the counts.
    pub open spec fn finished(self, ids: Draws) -> (BufferedV, Seq<SseV>) {
        let b = self.begun();
        let s = b.inner.ended(ids);
        (
            BufferedV { inner: s.0, buffer: Seq::empty(), opened: true },
            all_corrected(b.buffer + rendered(s.1), b.inner.usage()),
        )
    }
}

pub struct BufferedStreamContext<R = NameMap> {
    pub inner: StreamContext<R>,
    pub event_buffer: Vec<SseEvent>,
    pub initial_events_generated: bool,
}

impl<R: ToolRestorer> View for BufferedStreamContext<R> {
    type V = BufferedV;

    open spec fn view(&self) -> BufferedV {
        BufferedV {
            inner: self.inner@,
            buffer: events_view(self.event_buffer@),
            opened: self.initial_events_generated,
        }
    }
}

fn set_counts(data: &Json, input: i32, creation: i32, read: i32) -> (r: Json)
    ensures
        r@ == with_counts(data@, (input as int, creation as int, read as int)),
{
    match data.get("message") {
        Some(message) => match message.get("usage") {
            Some(usage) => {
                let usage = usage.copy().with("input_tokens", Json::of_int(input as i64)).with(
                    "cache_creation_input_tokens",
                    Json::of_int(creation as i64),
                ).with("cache_read_input_tokens", Json::of_int(read as i64));
                let message = message.copy().with("usage", usage);
                data.copy().with("message", message)
            },
            None => data.copy(),
        },
        None => data.copy(),
    }
}

impl<R: ToolRestorer> BufferedStreamContext<R> {
    /// The state of a buffered stream that has not begun.
    pub fn new(
        model: &str,
        estimated_input_tokens: i32,
        thinking_enabled: bool,
        tool_name_map: R,
        known_tool_names: NameSet,
    ) -> (r: Self)
        ensures
            crate::ids::is_message_id(r.inner.message_id@),
            r@ == (BufferedV {
                inner: StreamV::fresh(
                    model@,
                    r.inner.message_id@,
                    estimated_input_tokens as int,
                    thinking_enabled,
                    tool_name_map.restoring(),
                    known_tool_names@,
                ),
                buffer: Seq::empty(),
                opened: false,
            }),
    {
        let inner = StreamContext::new_with_thinking(
            model,
            estimated_input_tokens,
            thinking_enabled,
            tool_name_map,
            known_tool_names,
        );
        let r = BufferedStreamContext {
            inner,
            event_buffer: Vec::new(),
            initial_events_generated: false,
        };
        assert(r@.buffer =~= Seq::<SseV>::empty());
        r
    }

    /// Sets how much of the prompt the cache model covers.
    pub fn set_cache_usage(&mut self, cache_usage: CacheUsage)
        ensures
            final(self)@ == (BufferedV {
                inner: StreamV { cache_usage, ..old(self)@.inner },
                ..old(self)@
            }),
    {
        self.inner.cache_usage = cache_usage;
    }

    fn buffer_all(&mut self, more: Vec<SseEvent>, evs: Ghost<Seq<Ev>>)
        requires
            emits(more@, evs@),
        ensures
            final(self)@ == (BufferedV {
                buffer: old(self)@.buffer + rendered(evs@),
                ..old(self)@
            }),
            final(self).inner == old(self).inner,
    {
        let mut tail = more;
        self.event_buffer.append(&mut tail);
        assert(events_view(self.event_buffer@) =~= old(self)@.buffer + rendered(evs@));
    }

    fn begin(&mut self)
        ensures
            final(self)@ == old(self)@.begun(),
            final(self).inner.issued == old(self).inner.issued,
    {
        if !self.initial_events_generated {
            let ghost evs = self.inner@.opened().1;
            let events = self.inner.generate_initial_events();
            self.buffer_all(events, Ghost(evs));
            self.initial_events_generated = true;
        }
    }

    /// Takes an upstream event and holds what follows from it.
    pub fn process_and_buffer(&mut self, event: &Event)
        ensures
            draws_more(old(self).inner.issued@, final(self).inner.issued@),
            final(self)@ == old(self)@.processed(event@, log_draws(final(self).inner.issued@)),
            forall|ids: Draws|
                agrees(ids, final(self).inner.issued@) ==> (#[trigger] old(self)@.processed(
                    event@,
                    ids,
                )) == old(self)@.processed(event@, log_draws(final(self).inner.issued@)),
    {
        self.begin();
        let ghost b = self@;
        let events = self.inner.process_kiro_event(event);
        let ghost evs = b.inner.processed(event@, log_draws(self.inner.issued@)).1;
        self.buffer_all(events, Ghost(evs));
        proof {
            let log = self.inner.issued@;
            assert forall|ids: Draws| agrees(ids, log) implies (#[trigger] old(self)@.processed(
                event@,
                ids,
            )) == old(self)@.processed(event@, log_draws(log)) by {
                assert(b.inner.processed(event@, ids) == b.inner.processed(
                    event@,
                    log_draws(log),
                ));
            }
        }
    }

    /// Ends the stream and gives all of its events.
    pub fn finish_and_get_all_events(&mut self) -> (r: Vec<SseEvent>)
        ensures
            draws_more(old(self).inner.issued@, final(self).inner.issued@),
            (final(self)@, events_view(r@)) == old(self)@.finished(
                log_draws(final(self).inner.issued@),
            ),
            forall|ids: Draws|
                agrees(ids, final(self).inner.issued@) ==> (#[trigger] old(self)@.finished(ids))
                    == old(self)@.finished(log_draws(final(self).inner.issued@)),
    {
        self.begin();
        let ghost b = self@;
        let (input, creation, read) = self.inner.resolved_usage();
        let events = self.inner.generate_final_events();
        let ghost evs = b.inner.ended(log_draws(self.inner.issued@)).1;
        self.buffer_all(events, Ghost(evs));
        let ghost held = self@.buffer;
        let mut out: Vec<SseEvent> = Vec::new();
        let mut i: usize = 0;
        while i < self.event_buffer.len()
            invariant
                i <= self.event_buffer@.len(),
                held == events_view(self.event_buffer@),
                out@.len() == i,
                forall|k: int|
                    0 <= k < i ==> (#[trigger] out@[k])@ == corrected(
                        held[k],
                        (input as int, creation as int, read as int),
                    ),
            decreases self.event_buffer.len() - i,
        {
            let e = &self.event_buffer[i];
            assert(e@ == held[i as int]);
            let data = if same_text(e.event.as_str(), "message_start") {
                set_counts(&e.data, input, creation, read)
            } else {
                e.data.copy()
            };
            out.push(SseEvent { event: e.event.clone(), data });
            i = i + 1;
        }
        self.event_buffer = Vec::new();
        assert(self@.buffer =~= Seq::<SseV>::empty());
        assert(events_view(out@) =~= all_corrected(held, b.inner.usage()));
        proof {
            let log = self.inner.issued@;
            assert forall|ids: Draws| agrees(ids, log) implies (#[trigger] old(self)@.finished(ids))
                == old(self)@.finished(log_draws(log)) by {
                assert(b.inner.ended(ids) == b.inner.ended(log_draws(log)));
            }
        }
        out
    }

    /// The counts and what was charged: input that is not cached, output, input
    /// written to the cache, input read from it, and each metered amount.
    pub fn final_usage(&self) -> (r: (i32, i32, i32, i32, Vec<Json>))
        ensures
            (r.0 as int, r.2 as int, r.3 as int) == self@.inner.usage(),
            r.1 == self@.inner.output(),
            jsons(r.4@) == self@.inner.metered,
    {
        let (input, creation, read) = self.inner.resolved_usage();
        let credits = copy_jsons(&self.inner.credits);
        (input, self.inner.resolved_output_tokens(), creation, read, credits)
    }

    /// The error that a tool call ran into, if one did.
    pub fn tool_json_error_message(&self) -> (r: Option<String>)
        ensures
            opt_text(r) == match self@.inner.tool_error {
                Some(e) => Some(crate::tool_json::tool_error_message(e)),
                None => None,
            },
    {
        self.inner.tool_json_error_message()
    }
}

/// Copies of values.
pub fn copy_jsons(v: &Vec<Json>) -> (r: Vec<Json>)
    ensures
        jsons(r@) == jsons(v@),
{
    let mut out: Vec<Json> = Vec::new();
    let mut i: usize = 0;
    while i < v.len()
        invariant
            i <= v@.len(),
            out@.len() == i,
            forall|k: int| 0 <= k < i ==> (#[trigger] out@[k])@ == v@[k]@,
        decreases v.len() - i,
    {
        out.push(v[i].copy());
        i = i + 1;
    }
    assert(jsons(out@) =~= jsons(v@));
    out
}

/// The counts that open a buffered message are those that it ends with.
pub proof fn the_opening_carries_the_final_counts(b: BufferedV, ids: Draws)
    ensures
        b.finished(ids).1 == all_corrected(
            b.begun().buffer + rendered(b.begun().inner.ended(ids).1),
            b.finished(ids).0.inner.usage(),
        ),
{
    the_end_does_not_change_the_input(b.begun().inner, ids);
}

} // verus!
