//! Server-sent events and the order in which they may be sent.
//!
//! The events of one message are: one `message_start`; for each content block a
//! start, deltas and a stop; one `message_delta` once all blocks have stopped;
//! and `message_stop`, or an `error` in place of the last two.
use crate::json::{json_printed, Json, JsonV};
use crate::text::{opt_int, opt_text, push_text, same_text};
use vstd::prelude::*;

verus! {

/// An event: its name and its data.
#[derive(Debug)]
pub struct SseEvent {
    pub event: String,
    pub data: Json,
}

/// An event, mathematically.
pub ghost struct SseV {
    pub event: Seq<char>,
    pub data: JsonV,
}

impl View for SseEvent {
    type V = SseV;

    open spec fn view(&self) -> SseV {
        SseV { event: self.event@, data: self.data@ }
    }
}

impl SseEvent {
    pub fn new(event: &str, data: Json) -> (r: Self)
        ensures
            r@ == (SseV { event: event@, data: data@ }),
    {
        SseEvent { event: event.to_owned(), data }
    }

    /// The event as it goes over the wire.
    pub fn to_sse_string(&self) -> (r: String)
        ensures
            r@ == "event: "@ + self.event@ + "\ndata: "@ + json_printed(self.data@) + "\n\n"@,
    {
        let mut s = "event: ".to_owned();
        push_text(&mut s, self.event.as_str());
        push_text(&mut s, "\ndata: ");
        let data = self.data.to_text();
        push_text(&mut s, data.as_str());
        push_text(&mut s, "\n\n");
        s
    }
}

/// The events that the library sends, by what they mean: a block is given by its
/// index and, where it starts, its kind.
pub ghost enum Ev {
    MessageStart(JsonV),
    BlockStart(int, Seq<char>, JsonV),
    Delta(int, JsonV),
    BlockStop(int),
    MessageDelta(JsonV),
    MessageStop,
    Error(JsonV),
}

pub open spec fn typed(t: Seq<char>) -> JsonV {
    JsonV::object().put("type"@, JsonV::Text(t))
}

/// The data of an event that concerns the block `index`.
pub open spec fn indexed(t: Seq<char>, index: int) -> JsonV {
    typed(t).put("index"@, JsonV::of_int(index as i64))
}

pub open spec fn stop_data(index: int) -> JsonV {
    indexed("content_block_stop"@, index)
}

pub open spec fn start_data(index: int, block: JsonV) -> JsonV {
    indexed("content_block_start"@, index).put("content_block"@, block)
}

pub open spec fn delta_data(index: int, delta: JsonV) -> JsonV {
    indexed("content_block_delta"@, index).put("delta"@, delta)
}

pub open spec fn error_data(error_type: Seq<char>, message: Seq<char>) -> JsonV {
    typed("error"@).put("error"@, typed(error_type).put("message"@, JsonV::Text(message)))
}

impl Ev {
    /// The event as a name and its data.
    pub open spec fn render(self) -> SseV {
        match self {
            Ev::MessageStart(data) => SseV { event: "message_start"@, data },
            Ev::BlockStart(_, _, data) => SseV { event: "content_block_start"@, data },
            Ev::Delta(_, data) => SseV { event: "content_block_delta"@, data },
            Ev::BlockStop(index) => SseV { event: "content_block_stop"@, data: stop_data(index) },
            Ev::MessageDelta(data) => SseV { event: "message_delta"@, data },
            Ev::MessageStop => SseV { event: "message_stop"@, data: typed("message_stop"@) },
            Ev::Error(data) => SseV { event: "error"@, data },
        }
    }
}

/// The events of `v` are those of `evs`.
pub open spec fn emits(v: Seq<SseEvent>, evs: Seq<Ev>) -> bool {
    v.len() == evs.len() && forall|i: int| 0 <= i < v.len() ==> (#[trigger] v[i])@ == evs[i].render()
}

pub open spec fn emits_opt(v: Option<SseEvent>, ev: Option<Ev>) -> bool {
    match v {
        Some(e) => ev is Some && e@ == ev->Some_0.render(),
        None => ev is None,
    }
}

pub open spec fn opt_seq(ev: Option<Ev>) -> Seq<Ev> {
    match ev {
        Some(e) => seq![e],
        None => Seq::empty(),
    }
}

/// Appends events.
pub(crate) fn emit_all(events: &mut Vec<SseEvent>, more: Vec<SseEvent>, evs: Ghost<Seq<Ev>>, add: Ghost<Seq<Ev>>)
    requires
        emits(old(events)@, evs@),
        emits(more@, add@),
    ensures
        emits(final(events)@, evs@ + add@),
{
    let mut tail = more;
    events.append(&mut tail);
}

/// Appends an event.
pub(crate) fn emit_one(events: &mut Vec<SseEvent>, e: SseEvent, evs: Ghost<Seq<Ev>>, ev: Ghost<Ev>)
    requires
        emits(old(events)@, evs@),
        e@ == ev@.render(),
    ensures
        emits(final(events)@, evs@.push(ev@)),
{
    events.push(e);
}

/// Appends an event if there is one.
pub(crate) fn emit_opt(
    events: &mut Vec<SseEvent>,
    e: Option<SseEvent>,
    evs: Ghost<Seq<Ev>>,
    ev: Ghost<Option<Ev>>,
)
    requires
        emits(old(events)@, evs@),
        emits_opt(e, ev@),
    ensures
        emits(final(events)@, evs@ + opt_seq(ev@)),
{
    match e {
        Some(x) => {
            events.push(x);
        },
        None => {},
    }
}

pub fn typed_json(t: &str) -> (r: Json)
    ensures
        r@ == typed(t@),
{
    Json::object().with("type", Json::text(t))
}

fn indexed_json(t: &str, index: i32) -> (r: Json)
    ensures
        r@ == indexed(t@, index as int),
{
    typed_json(t).with("index", Json::of_int(index as i64))
}

pub fn start_json(index: i32, block: Json) -> (r: Json)
    ensures
        r@ == start_data(index as int, block@),
{
    indexed_json("content_block_start", index).with("content_block", block)
}

pub fn delta_json(index: i32, delta: Json) -> (r: Json)
    ensures
        r@ == delta_data(index as int, delta@),
{
    indexed_json("content_block_delta", index).with("delta", delta)
}

pub fn stop_event(index: i32) -> (r: SseEvent)
    ensures
        r@ == Ev::BlockStop(index as int).render(),
{
    SseEvent::new("content_block_stop", indexed_json("content_block_stop", index))
}

pub fn error_event(error_type: &str, message: &str) -> (r: SseEvent)
    ensures
        r@ == Ev::Error(error_data(error_type@, message@)).render(),
{
    let inner = typed_json(error_type).with("message", Json::text(message));
    SseEvent::new("error", typed_json("error").with("error", inner))
}

/// What the upstream reports of the cost of an answer.
#[derive(Debug)]
pub struct MeteringEvent {
    pub unit: String,
    pub unit_plural: String,
    pub usage: Json,
}

pub ghost struct MeteringV {
    pub unit: Seq<char>,
    pub unit_plural: Seq<char>,
    pub usage: JsonV,
}

impl View for MeteringEvent {
    type V = MeteringV;

    open spec fn view(&self) -> MeteringV {
        MeteringV { unit: self.unit@, unit_plural: self.unit_plural@, usage: self.usage@ }
    }
}

impl MeteringEvent {
    pub fn copy(&self) -> (r: Self)
        ensures
            r@ == self@,
    {
        MeteringEvent {
            unit: self.unit.clone(),
            unit_plural: self.unit_plural.clone(),
            usage: self.usage.copy(),
        }
    }
}

pub open spec fn opt_metering(m: Option<MeteringEvent>) -> Option<MeteringV> {
    match m {
        Some(x) => Some(x@),
        None => None,
    }
}

/// The four token counts of an answer.
#[derive(Clone, Copy, Debug, PartialEq, Eq, Structural)]
pub struct Usage {
    pub input_tokens: i32,
    pub output_tokens: i32,
    pub cache_creation_input_tokens: i32,
    pub cache_read_input_tokens: i32,
}

pub open spec fn usage_data(u: Usage) -> JsonV {
    JsonV::object().put("input_tokens"@, JsonV::of_int(u.input_tokens as i64)).put(
        "output_tokens"@,
        JsonV::of_int(u.output_tokens as i64),
    ).put(
        "cache_creation_input_tokens"@,
        JsonV::of_int(u.cache_creation_input_tokens as i64),
    ).put("cache_read_input_tokens"@, JsonV::of_int(u.cache_read_input_tokens as i64))
}

/// The token counts, with the cost where the upstream reported it.
pub open spec fn metered_usage(u: Usage, m: Option<MeteringV>) -> JsonV {
    match m {
        Some(x) => usage_data(u).put("credit_usage"@, x.usage).put(
            "credit_unit"@,
            JsonV::Text(x.unit),
        ).put("credit_unit_plural"@, JsonV::Text(x.unit_plural)),
        None => usage_data(u),
    }
}

pub fn usage_json(u: Usage) -> (r: Json)
    ensures
        r@ == usage_data(u),
{
    Json::object().with("input_tokens", Json::of_int(u.input_tokens as i64)).with(
        "output_tokens",
        Json::of_int(u.output_tokens as i64),
    ).with(
        "cache_creation_input_tokens",
        Json::of_int(u.cache_creation_input_tokens as i64),
    ).with("cache_read_input_tokens", Json::of_int(u.cache_read_input_tokens as i64))
}

pub fn metered_usage_json(u: Usage, m: &Option<MeteringEvent>) -> (r: Json)
    ensures
        r@ == metered_usage(u, opt_metering(*m)),
{
    let usage = usage_json(u);
    match m {
        Some(x) => usage.with("credit_usage", x.usage.copy()).with(
            "credit_unit",
            Json::text(x.unit.as_str()),
        ).with("credit_unit_plural", Json::text(x.unit_plural.as_str())),
        None => usage,
    }
}

pub open spec fn message_delta_data(stop_reason: Seq<char>, usage: JsonV) -> JsonV {
    typed("message_delta"@).put(
        "delta"@,
        JsonV::object().put("stop_reason"@, JsonV::Text(stop_reason)).put(
            "stop_sequence"@,
            JsonV::Null,
        ),
    ).put("usage"@, usage)
}

pub fn message_delta_event(stop_reason: &str, usage: Json) -> (r: SseEvent)
    ensures
        r@ == Ev::MessageDelta(message_delta_data(stop_reason@, usage@)).render(),
{
    let delta = Json::object().with("stop_reason", Json::text(stop_reason)).with(
        "stop_sequence",
        Json::Null,
    );
    SseEvent::new("message_delta", typed_json("message_delta").with("delta", delta).with("usage", usage))
}

pub fn message_stop_event() -> (r: SseEvent)
    ensures
        r@ == Ev::MessageStop.render(),
{
    SseEvent::new("message_stop", typed_json("message_stop"))
}

/// A content block that has been announced.
pub struct BlockState {
    pub index: i32,
    pub block_type: String,
    pub started: bool,
    pub stopped: bool,
}

pub ghost struct BlockV {
    pub index: int,
    pub kind: Seq<char>,
    pub started: bool,
    pub stopped: bool,
}

impl View for BlockState {
    type V = BlockV;

    open spec fn view(&self) -> BlockV {
        BlockV {
            index: self.index as int,
            kind: self.block_type@,
            started: self.started,
            stopped: self.stopped,
        }
    }
}

impl BlockV {
    pub open spec fn open(self) -> bool {
        self.started && !self.stopped
    }
}

/// Keeps the events of one message in their order.
pub struct SseStateManager {
    pub message_started: bool,
    pub message_delta_sent: bool,
    pub active_blocks: Vec<BlockState>,
    pub message_ended: bool,
    pub next_block_index: i32,
    pub stop_reason: Option<String>,
    pub has_tool_use: bool,
}

pub ghost struct ManagerV {
    pub message_started: bool,
    pub message_delta_sent: bool,
    pub blocks: Seq<BlockV>,
    pub message_ended: bool,
    pub next_block_index: int,
    pub stop_reason: Option<Seq<char>>,
    pub has_tool_use: bool,
}

pub open spec fn blocks_view(v: Seq<BlockState>) -> Seq<BlockV> {
    Seq::new(v.len(), |i: int| v[i]@)
}

impl View for SseStateManager {
    type V = ManagerV;

    open spec fn view(&self) -> ManagerV {
        ManagerV {
            message_started: self.message_started,
            message_delta_sent: self.message_delta_sent,
            blocks: blocks_view(self.active_blocks@),
            message_ended: self.message_ended,
            next_block_index: self.next_block_index as int,
            stop_reason: opt_text(self.stop_reason),
            has_tool_use: self.has_tool_use,
        }
    }
}

/// The first block from `from` on with that index.
pub open spec fn block_at(blocks: Seq<BlockV>, index: int, from: int) -> Option<int>
    decreases blocks.len() - from,
{
    if from < 0 || from >= blocks.len() {
        None
    } else if blocks[from].index == index {
        Some(from)
    } else {
        block_at(blocks, index, from + 1)
    }
}

pub proof fn lemma_block_at(blocks: Seq<BlockV>, index: int, from: int)
    requires
        0 <= from,
    ensures
        match block_at(blocks, index, from) {
            Some(i) => from <= i < blocks.len() && blocks[i].index == index && forall|j: int|
                from <= j < i ==> (#[trigger] blocks[j]).index != index,
            None => forall|j: int| from <= j < blocks.len() ==> (#[trigger] blocks[j]).index != index,
        },
    decreases blocks.len() - from,
{
    if from < blocks.len() && blocks[from].index != index {
        lemma_block_at(blocks, index, from + 1);
    }
}

/// A block is to be closed: it is open and, if only text blocks are meant, one
/// of text.
pub open spec fn to_close(b: BlockV, only_text: bool) -> bool {
    b.open() && (only_text ==> b.kind == "text"@)
}

/// The blocks after those to be closed have been.
pub open spec fn all_closed(blocks: Seq<BlockV>, only_text: bool) -> Seq<BlockV> {
    Seq::new(
        blocks.len(),
        |i: int|
            if to_close(blocks[i], only_text) {
                BlockV { stopped: true, ..blocks[i] }
            } else {
                blocks[i]
            },
    )
}

/// The events that close them, in the order of the blocks.
pub open spec fn closing_events(blocks: Seq<BlockV>, only_text: bool) -> Seq<Ev>
    decreases blocks.len(),
{
    if blocks.len() == 0 {
        Seq::empty()
    } else {
        let before = closing_events(blocks.drop_last(), only_text);
        if to_close(blocks.last(), only_text) {
            before.push(Ev::BlockStop(blocks.last().index))
        } else {
            before
        }
    }
}

impl ManagerV {
    pub open spec fn fresh() -> ManagerV {
        ManagerV {
            message_started: false,
            message_delta_sent: false,
            blocks: Seq::empty(),
            message_ended: false,
            next_block_index: 0,
            stop_reason: None,
            has_tool_use: false,
        }
    }

    /// The block `index` is open and of that kind.
    pub open spec fn is_open(self, index: int, kind: Seq<char>) -> bool {
        match block_at(self.blocks, index, 0) {
            Some(i) => self.blocks[i].open() && self.blocks[i].kind == kind,
            None => false,
        }
    }

    /// The state after an index has been given out.
    pub open spec fn index_taken(self) -> ManagerV {
        ManagerV {
            next_block_index: if self.next_block_index < i32::MAX {
                self.next_block_index + 1
            } else {
                self.next_block_index
            },
            ..self
        }
    }

    pub open spec fn reason(self) -> Seq<char> {
        match self.stop_reason {
            Some(r) => r,
            None => if self.has_tool_use {
                "tool_use"@
            } else {
                "end_turn"@
            },
        }
    }

    pub open spec fn with_reason(self, reason: Seq<char>) -> ManagerV {
        ManagerV { stop_reason: Some(reason), ..self }
    }

    /// A tool call closes the open blocks of text.
    pub open spec fn before_block(self, kind: Seq<char>) -> (ManagerV, Seq<Ev>) {
        if kind == "tool_use"@ {
            (
                ManagerV { has_tool_use: true, blocks: all_closed(self.blocks, true), ..self },
                closing_events(self.blocks, true),
            )
        } else {
            (self, Seq::empty())
        }
    }

    pub open spec fn block_started(self, index: int, kind: Seq<char>, data: JsonV) -> (
        ManagerV,
        Seq<Ev>,
    ) {
        let (m, evs) = self.before_block(kind);
        match block_at(m.blocks, index, 0) {
            Some(i) => if m.blocks[i].started {
                (m, evs)
            } else {
                (
                    ManagerV {
                        blocks: m.blocks.update(i, BlockV { started: true, ..m.blocks[i] }),
                        ..m
                    },
                    evs.push(Ev::BlockStart(index, m.blocks[i].kind, data)),
                )
            },
            None => (
                ManagerV {
                    blocks: m.blocks.push(BlockV { index, kind, started: true, stopped: false }),
                    ..m
                },
                evs.push(Ev::BlockStart(index, kind, data)),
            ),
        }
    }

    pub open spec fn delta(self, index: int, data: JsonV) -> Option<Ev> {
        match block_at(self.blocks, index, 0) {
            Some(i) => if self.blocks[i].open() {
                Some(Ev::Delta(index, data))
            } else {
                None
            },
            None => None,
        }
    }

    pub open spec fn block_stopped(self, index: int) -> (ManagerV, Option<Ev>) {
        match block_at(self.blocks, index, 0) {
            Some(i) => if self.blocks[i].stopped {
                (self, None)
            } else {
                (
                    ManagerV {
                        blocks: self.blocks.update(i, BlockV { stopped: true, ..self.blocks[i] }),
                        ..self
                    },
                    Some(Ev::BlockStop(index)),
                )
            },
            None => (self, None),
        }
    }

    /// All open blocks are closed; then the message is, once. A message that an error
    /// has ended gets neither counts nor a regular stop.
    pub open spec fn finished(self, usage: Usage, metering: Option<MeteringV>) -> (
        ManagerV,
        Seq<Ev>,
    ) {
        let evs = closing_events(self.blocks, false);
        let evs = if self.message_delta_sent || self.message_ended {
            evs
        } else {
            evs.push(
                Ev::MessageDelta(message_delta_data(self.reason(), metered_usage(usage, metering))),
            )
        };
        let evs = if self.message_ended {
            evs
        } else {
            evs.push(Ev::MessageStop)
        };
        (
            ManagerV {
                blocks: all_closed(self.blocks, false),
                message_delta_sent: self.message_delta_sent || !self.message_ended,
                message_ended: true,
                ..self
            },
            evs,
        )
    }

    /// All open blocks are closed and the error is reported.
    pub open spec fn failed(self, error_type: Seq<char>, message: Seq<char>) -> (
        ManagerV,
        Seq<Ev>,
    ) {
        (
            ManagerV { blocks: all_closed(self.blocks, false), message_ended: true, ..self },
            closing_events(self.blocks, false).push(Ev::Error(error_data(error_type, message))),
        )
    }
}

impl Default for SseStateManager {
    fn default() -> (r: Self)
        ensures
            r@ == ManagerV::fresh(),
    {
        SseStateManager::new()
    }
}

impl SseStateManager {
    pub fn new() -> (r: Self)
        ensures
            r@ == ManagerV::fresh(),
    {
        let r = SseStateManager {
            message_started: false,
            message_delta_sent: false,
            active_blocks: Vec::new(),
            message_ended: false,
            next_block_index: 0,
            stop_reason: None,
            has_tool_use: false,
        };
        assert(r@.blocks =~= Seq::<BlockV>::empty());
        r
    }

    fn position(&self, index: i32) -> (r: Option<usize>)
        ensures
            opt_int(r) == block_at(self@.blocks, index as int, 0),
            r matches Some(i) ==> i < self.active_blocks@.len(),
    {
        let mut i: usize = 0;
        while i < self.active_blocks.len()
            invariant
                i <= self.active_blocks@.len(),
                block_at(self@.blocks, index as int, 0) == block_at(
                    self@.blocks,
                    index as int,
                    i as int,
                ),
            decreases self.active_blocks.len() - i,
        {
            if self.active_blocks[i].index == index {
                return Some(i);
            }
            i = i + 1;
        }
        None
    }

    /// The block `index` takes deltas and is of that kind.
    pub fn is_block_open_of_type(&self, index: i32, expected_type: &str) -> (r: bool)
        ensures
            r == self@.is_open(index as int, expected_type@),
    {
        match self.position(index) {
            Some(i) => {
                let b = &self.active_blocks[i];
                b.started && !b.stopped && same_text(b.block_type.as_str(), expected_type)
            },
            None => false,
        }
    }

    /// Gives out the next index.
    pub fn next_block_index(&mut self) -> (r: i32)
        ensures
            r == old(self)@.next_block_index,
            final(self)@ == old(self)@.index_taken(),
    {
        let index: i32 = self.next_block_index;
        if index < i32::MAX {
            self.next_block_index = index + 1;
        }
        index
    }

    pub fn set_has_tool_use(&mut self, has: bool)
        ensures
            final(self)@ == (ManagerV { has_tool_use: has, ..old(self)@ }),
    {
        self.has_tool_use = has;
    }

    pub fn set_stop_reason(&mut self, reason: &str)
        ensures
            final(self)@ == old(self)@.with_reason(reason@),
    {
        self.stop_reason = Some(reason.to_owned());
    }

    /// Some block is not one of thinking.
    pub fn has_non_thinking_blocks(&self) -> (r: bool)
        ensures
            r == self@.has_other_than_thinking(),
    {
        let mut i: usize = 0;
        while i < self.active_blocks.len()
            invariant
                i <= self.active_blocks@.len(),
                forall|j: int| 0 <= j < i ==> (#[trigger] self@.blocks[j]).kind == "thinking"@,
            decreases self.active_blocks.len() - i,
        {
            if !same_text(self.active_blocks[i].block_type.as_str(), "thinking") {
                assert(self@.blocks[i as int].kind != "thinking"@);
                return true;
            }
            assert(self@.blocks[i as int].kind == "thinking"@);
            i = i + 1;
        }
        false
    }

    /// Why the message ends: the reason that was set, or `tool_use` where there
    /// was a tool call, or `end_turn`.
    pub fn get_stop_reason(&self) -> (r: String)
        ensures
            r@ == self@.reason(),
    {
        match &self.stop_reason {
            Some(r) => r.clone(),
            None => if self.has_tool_use {
                "tool_use".to_owned()
            } else {
                "end_turn".to_owned()
            },
        }
    }

    /// The event that opens the message, the first time.
    pub fn handle_message_start(&mut self, event: Json) -> (r: Option<SseEvent>)
        ensures
            final(self)@ == (ManagerV { message_started: true, ..old(self)@ }),
            emits_opt(
                r,
                if old(self)@.message_started {
                    None
                } else {
                    Some(Ev::MessageStart(event@))
                },
            ),
    {
        if self.message_started {
            return None;
        }
        self.message_started = true;
        Some(SseEvent::new("message_start", event))
    }

    /// Closes the open blocks, all or those of text.
    fn close_blocks(&mut self, only_text: bool) -> (r: Vec<SseEvent>)
        ensures
            final(self)@ == (ManagerV {
                blocks: all_closed(old(self)@.blocks, only_text),
                ..old(self)@
            }),
            emits(r@, closing_events(old(self)@.blocks, only_text)),
    {
        let ghost start = self@;
        let mut events: Vec<SseEvent> = Vec::new();
        let mut i: usize = 0;
        while i < self.active_blocks.len()
            invariant
                i <= self.active_blocks@.len(),
                start.blocks.len() == self.active_blocks@.len(),
                start == old(self)@,
                self@ == (ManagerV { blocks: self@.blocks, ..start }),
                forall|j: int| 0 <= j < i ==> (#[trigger] self@.blocks[j]) == all_closed(start.blocks, only_text)[j],
                forall|j: int| i <= j < start.blocks.len() ==> (#[trigger] self@.blocks[j]) == start.blocks[j],
                emits(events@, closing_events(start.blocks.take(i as int), only_text)),
            decreases self.active_blocks.len() - i,
        {
            assert(start.blocks.take(i + 1).drop_last() =~= start.blocks.take(i as int));
            assert(self@.blocks[i as int] == start.blocks[i as int]);
            let index: i32 = self.active_blocks[i].index;
            let open = self.active_blocks[i].started && !self.active_blocks[i].stopped;
            if open && (!only_text || same_text(self.active_blocks[i].block_type.as_str(), "text")) {
                emit_one(
                    &mut events,
                    stop_event(index),
                    Ghost(closing_events(start.blocks.take(i as int), only_text)),
                    Ghost(Ev::BlockStop(index as int)),
                );
                let ghost before = self@.blocks;
                let block_type = self.active_blocks[i].block_type.clone();
                self.active_blocks.set(i, BlockState { index, block_type, started: true, stopped: true });
                assert(self@.blocks =~= before.update(i as int, BlockV { stopped: true, ..before[i as int] }));
            }
            i = i + 1;
        }
        assert(start.blocks.take(i as int) =~= start.blocks);
        assert(self@.blocks =~= all_closed(start.blocks, only_text));
        events
    }

    fn set_block(&mut self, i: usize, started: bool, stopped: bool)
        requires
            i < old(self).active_blocks@.len(),
        ensures
            final(self)@ == (ManagerV {
                blocks: old(self)@.blocks.update(
                    i as int,
                    BlockV { started, stopped, ..old(self)@.blocks[i as int] },
                ),
                ..old(self)@
            }),
    {
        let index: i32 = self.active_blocks[i].index;
        let block_type = self.active_blocks[i].block_type.clone();
        self.active_blocks.set(i, BlockState { index, block_type, started, stopped });
        assert(self@.blocks =~= old(self)@.blocks.update(
            i as int,
            BlockV { started, stopped, ..old(self)@.blocks[i as int] },
        ));
    }

    /// Announces the block `index`, the first time. A tool call closes the open
    /// blocks of text first.
    pub fn handle_content_block_start(&mut self, index: i32, block_type: &str, data: Json) -> (r: Vec<
        SseEvent,
    >)
        ensures
            final(self)@ == old(self)@.block_started(index as int, block_type@, data@).0,
            emits(r@, old(self)@.block_started(index as int, block_type@, data@).1),
    {
        let ghost (m, evs) = self@.before_block(block_type@);
        let mut events: Vec<SseEvent> = Vec::new();
        if same_text(block_type, "tool_use") {
            self.has_tool_use = true;
            events = self.close_blocks(true);
        }
        assert(self@ == m);
        match self.position(index) {
            Some(i) => {
                if self.active_blocks[i].started {
                    return events;
                }
                let stopped = self.active_blocks[i].stopped;
                self.set_block(i, true, stopped);
            },
            None => {
                self.active_blocks.push(
                    BlockState {
                        index,
                        block_type: block_type.to_owned(),
                        started: true,
                        stopped: false,
                    },
                );
                assert(self@.blocks =~= m.blocks.push(
                    BlockV { index: index as int, kind: block_type@, started: true, stopped: false },
                ));
            },
        }
        emit_one(
            &mut events,
            SseEvent::new("content_block_start", data),
            Ghost(evs),
            Ghost(Ev::BlockStart(index as int, block_type@, data@)),
        );
        events
    }

    /// A delta for the block `index`, if that is open.
    pub fn handle_content_block_delta(&mut self, index: i32, data: Json) -> (r: Option<SseEvent>)
        ensures
            final(self)@ == old(self)@,
            emits_opt(r, old(self)@.delta(index as int, data@)),
    {
        match self.position(index) {
            Some(i) => if self.active_blocks[i].started && !self.active_blocks[i].stopped {
                Some(SseEvent::new("content_block_delta", data))
            } else {
                None
            },
            None => None,
        }
    }

    /// Stops the block `index`, once.
    pub fn handle_content_block_stop(&mut self, index: i32) -> (r: Option<SseEvent>)
        ensures
            final(self)@ == old(self)@.block_stopped(index as int).0,
            emits_opt(r, old(self)@.block_stopped(index as int).1),
    {
        match self.position(index) {
            Some(i) => {
                if self.active_blocks[i].stopped {
                    return None;
                }
                let started = self.active_blocks[i].started;
                self.set_block(i, started, true);
                Some(stop_event(index))
            },
            None => None,
        }
    }

    /// Ends the message: closes what is open, gives the counts and the reason,
    /// and stops, each once, and not after an error.
    pub fn generate_final_events(
        &mut self,
        input_tokens: i32,
        output_tokens: i32,
        cache_creation_input_tokens: i32,
        cache_read_input_tokens: i32,
        metering: &Option<MeteringEvent>,
    ) -> (r: Vec<SseEvent>)
        ensures
            ({
                let usage = Usage {
                    input_tokens,
                    output_tokens,
                    cache_creation_input_tokens,
                    cache_read_input_tokens,
                };
                let end = old(self)@.finished(usage, opt_metering(*metering));
                final(self)@ == end.0 && emits(r@, end.1)
            }),
    {
        let usage = Usage {
            input_tokens,
            output_tokens,
            cache_creation_input_tokens,
            cache_read_input_tokens,
        };
        let ghost mut evs = closing_events(self@.blocks, false);
        let mut events = self.close_blocks(false);
        if !self.message_delta_sent && !self.message_ended {
            self.message_delta_sent = true;
            let reason = self.get_stop_reason();
            let event = message_delta_event(reason.as_str(), metered_usage_json(usage, metering));
            let ghost ev = Ev::MessageDelta(
                message_delta_data(self@.reason(), metered_usage(usage, opt_metering(*metering))),
            );
            emit_one(&mut events, event, Ghost(evs), Ghost(ev));
            proof {
                evs = evs.push(ev);
            }
        }
        if !self.message_ended {
            self.message_ended = true;
            emit_one(&mut events, message_stop_event(), Ghost(evs), Ghost(Ev::MessageStop));
        }
        events
    }

    /// Ends the message with an error: closes what is open and reports the
    /// error, with neither counts nor a regular stop.
    pub fn generate_error_events(&mut self, error_type: &str, message: &str) -> (r: Vec<SseEvent>)
        ensures
            final(self)@ == old(self)@.failed(error_type@, message@).0,
            emits(r@, old(self)@.failed(error_type@, message@).1),
    {
        let ghost evs = closing_events(self@.blocks, false);
        let mut events = self.close_blocks(false);
        self.message_ended = true;
        emit_one(
            &mut events,
            error_event(error_type, message),
            Ghost(evs),
            Ghost(Ev::Error(error_data(error_type@, message@))),
        );
        events
    }
}

impl ManagerV {
    /// Some block is not one of thinking.
    pub open spec fn has_other_than_thinking(self) -> bool {
        exists|i: int| 0 <= i < self.blocks.len() && (#[trigger] self.blocks[i]).kind != "thinking"@
    }
}

} // verus!
