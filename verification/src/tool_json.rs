//! Tool calls whose arguments arrive in fragments.
use crate::json::{json_parsed, Json, JsonV};
use crate::names::{Restoring, ToolRestorer};
use crate::text::{
    byte_len, byte_length, chars_of, decimal, decimal_text, is_blank, join2, push_text, same_text,
    trimmed,
};
use vstd::prelude::*;

verus! {

/// A fragment of a tool call.
#[derive(Debug)]
pub struct ToolUseEvent {
    pub name: String,
    pub tool_use_id: String,
    pub input: String,
    pub stop: bool,
}

/// A fragment of a tool call, mathematically.
pub ghost struct FragmentV {
    pub name: Seq<char>,
    pub id: Seq<char>,
    pub input: Seq<char>,
    pub stop: bool,
}

impl View for ToolUseEvent {
    type V = FragmentV;

    open spec fn view(&self) -> FragmentV {
        FragmentV {
            name: self.name@,
            id: self.tool_use_id@,
            input: self.input@,
            stop: self.stop,
        }
    }
}

/// A complete tool call.
#[derive(Debug)]
pub struct CompletedToolUse {
    pub id: String,
    pub name: String,
    pub input: Json,
}

/// A complete tool call, mathematically.
pub ghost struct CallV {
    pub id: Seq<char>,
    pub name: Seq<char>,
    pub input: JsonV,
}

impl View for CompletedToolUse {
    type V = CallV;

    open spec fn view(&self) -> CallV {
        CallV { id: self.id@, name: self.name@, input: self.input@ }
    }
}

/// A call as the client is to see it: with the name and the arguments of the tool that
/// the client declared.
pub open spec fn restored_call(
    id: Seq<char>,
    name: Seq<char>,
    input: JsonV,
    names: Restoring,
) -> CallV {
    let (name, input) = names(name, input);
    CallV { id, name, input }
}

/// The content block of a tool call.
pub open spec fn call_block(call: CallV) -> JsonV {
    JsonV::object().put("type"@, JsonV::Text("tool_use"@)).put("id"@, JsonV::Text(call.id)).put(
        "name"@,
        JsonV::Text(call.name),
    ).put("input"@, call.input)
}

impl CompletedToolUse {
    /// A call as the client is to see it, with the name and the arguments of the tool
    /// that it declared.
    pub fn from_kiro<R: ToolRestorer>(
        id: String,
        kiro_name: &str,
        input: Json,
        tool_name_map: &R,
    ) -> (r: Self)
        ensures
            r@ == restored_call(id@, kiro_name@, input@, tool_name_map.restoring()),
    {
        let (name, input) = tool_name_map.restore_call(kiro_name, input);
        CompletedToolUse { id, name, input }
    }

    /// The content block of the call.
    pub fn to_anthropic_block(&self) -> (r: Json)
        ensures
            r@ == call_block(self@),
    {
        Json::object().with("type", Json::text("tool_use")).with("id", Json::text(self.id.as_str())).with(
            "name",
            Json::text(self.name.as_str()),
        ).with("input", self.input.copy())
    }

    pub fn copy(&self) -> (r: Self)
        ensures
            r@ == self@,
    {
        CompletedToolUse { id: self.id.clone(), name: self.name.clone(), input: self.input.copy() }
    }
}

/// Why the arguments of a tool call cannot be passed on.
#[derive(Debug)]
pub enum ToolJsonAccumulatorError {
    InvalidJson { tool_use_id: String, name: String, message: String },
    IncompleteJson { tool_use_id: String, name: String, bytes: usize },
}

/// Why the arguments of a tool call cannot be passed on, mathematically.
pub ghost enum ToolErrorV {
    InvalidJson { id: Seq<char>, name: Seq<char>, message: Seq<char> },
    IncompleteJson { id: Seq<char>, name: Seq<char>, bytes: int },
}

impl View for ToolJsonAccumulatorError {
    type V = ToolErrorV;

    open spec fn view(&self) -> ToolErrorV {
        match self {
            ToolJsonAccumulatorError::InvalidJson { tool_use_id, name, message } =>
                ToolErrorV::InvalidJson { id: tool_use_id@, name: name@, message: message@ },
            ToolJsonAccumulatorError::IncompleteJson { tool_use_id, name, bytes } =>
                ToolErrorV::IncompleteJson { id: tool_use_id@, name: name@, bytes: *bytes as int },
        }
    }
}

/// The text of an error.
pub open spec fn tool_error_message(e: ToolErrorV) -> Seq<char> {
    match e {
        ToolErrorV::InvalidJson { id, name, message } =>
            "Upstream returned invalid JSON for tool_use "@ + id + " ("@ + name + "): "@ + message,
        ToolErrorV::IncompleteJson { id, name, bytes } =>
            "Upstream ended before completing tool_use "@ + id + " ("@ + name
                + ") JSON input; buffered "@ + decimal_text(bytes as nat)
                + " bytes. The tool call was not forwarded to the client."@,
    }
}

pub open spec fn tool_error_type() -> Seq<char> {
    "upstream_tool_json_error"@
}

impl ToolJsonAccumulatorError {
    /// The type of the error that is reported to the client.
    pub fn error_type(&self) -> (r: &'static str)
        ensures
            r@ == tool_error_type(),
    {
        "upstream_tool_json_error"
    }

    /// The text of the error.
    pub fn message(&self) -> (r: String)
        ensures
            r@ == tool_error_message(self@),
    {
        match self {
            ToolJsonAccumulatorError::InvalidJson { tool_use_id, name, message } => {
                let mut s = "Upstream returned invalid JSON for tool_use ".to_owned();
                push_text(&mut s, tool_use_id.as_str());
                push_text(&mut s, " (");
                push_text(&mut s, name.as_str());
                push_text(&mut s, "): ");
                push_text(&mut s, message.as_str());
                s
            },
            ToolJsonAccumulatorError::IncompleteJson { tool_use_id, name, bytes } => {
                let mut s = "Upstream ended before completing tool_use ".to_owned();
                push_text(&mut s, tool_use_id.as_str());
                push_text(&mut s, " (");
                push_text(&mut s, name.as_str());
                push_text(&mut s, ") JSON input; buffered ");
                let n = decimal(*bytes as u64);
                push_text(&mut s, n.as_str());
                push_text(&mut s, " bytes. The tool call was not forwarded to the client.");
                s
            },
        }
    }
}

/// The fragments of one call so far.
pub struct PendingToolUse {
    pub id: String,
    pub name: String,
    pub input: String,
}

/// The fragments of one call so far, mathematically.
pub ghost struct PendingV {
    pub id: Seq<char>,
    pub name: Seq<char>,
    pub input: Seq<char>,
}

impl View for PendingToolUse {
    type V = PendingV;

    open spec fn view(&self) -> PendingV {
        PendingV { id: self.id@, name: self.name@, input: self.input@ }
    }
}

/// Puts the fragments of tool calls together, call by call.
pub struct ToolJsonAccumulator {
    pub pending: Vec<PendingToolUse>,
}

impl View for ToolJsonAccumulator {
    type V = Seq<PendingV>;

    open spec fn view(&self) -> Seq<PendingV> {
        Seq::new(self.pending@.len(), |i: int| self.pending@[i]@)
    }
}

/// The first pending call from `from` on with that identifier.
pub open spec fn pending_at(s: Seq<PendingV>, id: Seq<char>, from: int) -> Option<int>
    decreases s.len() - from,
{
    if from < 0 || from >= s.len() {
        None
    } else if s[from].id == id {
        Some(from)
    } else {
        pending_at(s, id, from + 1)
    }
}

pub proof fn lemma_pending_at(s: Seq<PendingV>, id: Seq<char>, from: int)
    requires
        0 <= from,
    ensures
        match pending_at(s, id, from) {
            Some(i) => from <= i < s.len() && s[i].id == id && forall|j: int|
                from <= j < i ==> (#[trigger] s[j]).id != id,
            None => forall|j: int| from <= j < s.len() ==> (#[trigger] s[j]).id != id,
        },
    decreases s.len() - from,
{
    if from < s.len() && s[from].id != id {
        lemma_pending_at(s, id, from + 1);
    }
}

/// The pending calls once a fragment has been added: its text goes to the end of
/// its call, which it opens if it is the first. A call without a name takes that
/// of the fragment.
pub open spec fn with_fragment(s: Seq<PendingV>, f: FragmentV) -> Seq<PendingV> {
    match pending_at(s, f.id, 0) {
        Some(i) => s.update(
            i,
            PendingV {
                id: f.id,
                name: if s[i].name.len() == 0 {
                    f.name
                } else {
                    s[i].name
                },
                input: s[i].input + f.input,
            },
        ),
        None => s.push(PendingV { id: f.id, name: f.name, input: f.input }),
    }
}

/// The arguments that a complete text gives: nothing but white space stands for
/// an object without members.
pub open spec fn arguments(input: Seq<char>) -> Result<JsonV, Seq<char>> {
    if trimmed(input).len() == 0 {
        Ok(JsonV::object())
    } else {
        json_parsed(input)
    }
}

/// What becomes of a call when all of it has arrived.
pub open spec fn completed(
    p: PendingV,
    input: Result<JsonV, Seq<char>>,
    names: Restoring,
) -> Result<CallV, ToolErrorV> {
    match input {
        Ok(v) => Ok(restored_call(p.id, p.name, v, names)),
        Err(message) => Err(ToolErrorV::InvalidJson { id: p.id, name: p.name, message }),
    }
}

pub open spec fn result_json(r: Result<Json, String>) -> Result<JsonV, Seq<char>> {
    match r {
        Ok(j) => Ok(j@),
        Err(e) => Err(e@),
    }
}

pub open spec fn result_call(
    r: Result<CompletedToolUse, ToolJsonAccumulatorError>,
) -> Result<CallV, ToolErrorV> {
    match r {
        Ok(c) => Ok(c@),
        Err(e) => Err(e@),
    }
}

/// What becomes of a call when all of it has arrived and its arguments were
/// read as `input`.
pub fn complete<R: ToolRestorer>(
    pending: &PendingToolUse,
    input: Result<Json, String>,
    tool_name_map: &R,
) -> (r: Result<CompletedToolUse, ToolJsonAccumulatorError>)
    ensures
        result_call(r) == completed(pending@, result_json(input), tool_name_map.restoring()),
{
    match input {
        Ok(v) => Ok(
            CompletedToolUse::from_kiro(pending.id.clone(), pending.name.as_str(), v, tool_name_map),
        ),
        Err(message) => Err(
            ToolJsonAccumulatorError::InvalidJson {
                tool_use_id: pending.id.clone(),
                name: pending.name.clone(),
                message,
            },
        ),
    }
}

/// What a fragment leads to: the calls still pending, and the call that it
/// completes or the error that it brings up.
pub open spec fn pushed(
    s: Seq<PendingV>,
    f: FragmentV,
    names: Restoring,
) -> (Seq<PendingV>, Result<Option<CallV>, ToolErrorV>) {
    let next = with_fragment(s, f);
    if !f.stop {
        (next, Ok(None))
    } else {
        match pending_at(next, f.id, 0) {
            Some(i) => (
                next.remove(i),
                match completed(next[i], arguments(next[i].input), names) {
                    Ok(call) => Ok(Some(call)),
                    Err(e) => Err(e),
                },
            ),
            None => (next, Ok(None)),
        }
    }
}

pub open spec fn result_option(
    r: Result<Option<CompletedToolUse>, ToolJsonAccumulatorError>,
) -> Result<Option<CallV>, ToolErrorV> {
    match r {
        Ok(Some(c)) => Ok(Some(c@)),
        Ok(None) => Ok(None),
        Err(e) => Err(e@),
    }
}

/// The last of the pending calls whose text is longest in bytes.
pub open spec fn longest(s: Seq<PendingV>, to: int) -> int
    decreases to,
{
    if to <= 1 {
        0
    } else if byte_len(s[to - 1].input) >= byte_len(s[longest(s, to - 1)].input) {
        to - 1
    } else {
        longest(s, to - 1)
    }
}

/// What is pending at the end of a stream: nothing, or an error for the call
/// with the longest text.
pub open spec fn finished(s: Seq<PendingV>) -> (Seq<PendingV>, Option<ToolErrorV>) {
    if s.len() == 0 {
        (s, None)
    } else {
        let i = longest(s, s.len() as int);
        (
            s.remove(i),
            Some(
                ToolErrorV::IncompleteJson {
                    id: s[i].id,
                    name: s[i].name,
                    bytes: byte_len(s[i].input),
                },
            ),
        )
    }
}

impl ToolJsonAccumulator {
    pub fn new() -> (r: Self)
        ensures
            r@ == Seq::<PendingV>::empty(),
    {
        let r = ToolJsonAccumulator { pending: Vec::new() };
        assert(r@ =~= Seq::<PendingV>::empty());
        r
    }

    fn position(&self, id: &str) -> (r: Option<usize>)
        ensures
            crate::text::opt_int(r) == pending_at(self@, id@, 0),
            r matches Some(i) ==> i < self.pending@.len(),
    {
        let mut i: usize = 0;
        while i < self.pending.len()
            invariant
                i <= self.pending@.len(),
                pending_at(self@, id@, 0) == pending_at(self@, id@, i as int),
            decreases self.pending.len() - i,
        {
            if same_text(self.pending[i].id.as_str(), id) {
                return Some(i);
            }
            i = i + 1;
        }
        None
    }

    /// Adds a fragment to its call, which it opens if it is the first.
    pub fn add_fragment(&mut self, f: &ToolUseEvent)
        ensures
            final(self)@ == with_fragment(old(self)@, f@),
    {
        match self.position(f.tool_use_id.as_str()) {
            Some(i) => {
                let name = if chars_of(self.pending[i].name.as_str()).len() == 0 {
                    f.name.clone()
                } else {
                    self.pending[i].name.clone()
                };
                let input = join2(self.pending[i].input.as_str(), f.input.as_str());
                let entry = PendingToolUse { id: f.tool_use_id.clone(), name, input };
                self.pending.set(i, entry);
                assert(self@ =~= with_fragment(old(self)@, f@));
            },
            None => {
                self.pending.push(
                    PendingToolUse {
                        id: f.tool_use_id.clone(),
                        name: f.name.clone(),
                        input: f.input.clone(),
                    },
                );
                assert(self@ =~= with_fragment(old(self)@, f@));
            },
        }
    }

    /// Adds a fragment. The fragment with which a call stops gives the call, or
    /// an error where its text is not valid JSON.
    pub fn push<R: ToolRestorer>(
        &mut self,
        tool_use: &ToolUseEvent,
        tool_name_map: &R,
    ) -> (r: Result<Option<CompletedToolUse>, ToolJsonAccumulatorError>)
        ensures
            (final(self)@, result_option(r)) == pushed(old(self)@, tool_use@, tool_name_map.restoring()),
    {
        self.add_fragment(tool_use);
        if !tool_use.stop {
            return Ok(None);
        }
        match self.position(tool_use.tool_use_id.as_str()) {
            Some(i) => {
                let ghost before = self@;
                let entry = self.pending.remove(i);
                assert(self@ =~= before.remove(i as int));
                let input = if is_blank(entry.input.as_str()) {
                    Ok(Json::object())
                } else {
                    Json::parse(entry.input.as_str())
                };
                match complete(&entry, input, tool_name_map) {
                    Ok(call) => Ok(Some(call)),
                    Err(e) => Err(e),
                }
            },
            None => Ok(None),
        }
    }

    /// Ends the stream: a call that never stopped is an error.
    pub fn finish(&mut self) -> (r: Result<(), ToolJsonAccumulatorError>)
        ensures
            (final(self)@, match r {
                Ok(_) => None,
                Err(e) => Some(e@),
            }) == finished(old(self)@),
    {
        if self.pending.len() == 0 {
            return Ok(());
        }
        let mut best: usize = 0;
        let mut most: usize = byte_length(self.pending[0].input.as_str());
        let mut i: usize = 1;
        while i < self.pending.len()
            invariant
                1 <= i <= self.pending@.len(),
                best < i,
                *self == *old(self),
                best == longest(self@, i as int),
                most == byte_len(self@[best as int].input),
            decreases self.pending.len() - i,
        {
            let n: usize = byte_length(self.pending[i].input.as_str());
            if n >= most {
                best = i;
                most = n;
            }
            i = i + 1;
        }
        let ghost before = self@;
        let entry = self.pending.remove(best);
        assert(self@ =~= before.remove(best as int));
        Err(
            ToolJsonAccumulatorError::IncompleteJson {
                tool_use_id: entry.id,
                name: entry.name,
                bytes: most,
            },
        )
    }
}

/// A fragment cut in two, neither of which stops the call, adds up to the whole:
/// what is pending depends on the text alone and not on how it was cut.
pub proof fn fragments_add_up(s: Seq<PendingV>, f: FragmentV, a: Seq<char>, b: Seq<char>)
    requires
        f.input == a + b,
    ensures
        with_fragment(
            with_fragment(s, FragmentV { input: a, ..f }),
            FragmentV { input: b, ..f },
        ) == with_fragment(s, f),
{
    let f1 = FragmentV { input: a, ..f };
    let f2 = FragmentV { input: b, ..f };
    let s1 = with_fragment(s, f1);
    lemma_pending_at(s, f.id, 0);
    lemma_pending_at(s1, f.id, 0);
    match pending_at(s, f.id, 0) {
        Some(i) => {
            let j = pending_at(s1, f.id, 0)->Some_0;
            assert(s1[i].id == f.id);
            if j < i {
                assert(s1[j].id == s[j].id);
            }
            assert((s[i].input + a) + b =~= s[i].input + (a + b));
            assert(with_fragment(s1, f2) =~= with_fragment(s, f));
        },
        None => {
            let n = s.len() as int;
            assert(s1[n].id == f.id);
            let j = pending_at(s1, f.id, 0)->Some_0;
            if j < n {
                assert(s1[j].id == s[j].id);
            }
            assert(with_fragment(s1, f2) =~= with_fragment(s, f));
        },
    }
}

/// Fragments of different calls do not touch one another.
pub proof fn calls_are_kept_apart(s: Seq<PendingV>, f: FragmentV, id: Seq<char>)
    requires
        id != f.id,
    ensures
        match pending_at(s, id, 0) {
            Some(i) => pending_at(with_fragment(s, f), id, 0) == Some(i) && with_fragment(s, f)[i]
                == s[i],
            None => pending_at(with_fragment(s, f), id, 0) is None,
        },
{
    let t = with_fragment(s, f);
    lemma_pending_at(s, f.id, 0);
    lemma_pending_at(s, id, 0);
    lemma_pending_at(t, id, 0);
    if let Some(i) = pending_at(s, id, 0) {
        assert(t[i] == s[i]);
        let j = pending_at(t, id, 0)->Some_0;
        if j < i {
            assert(t[j].id == s[j].id);
        }
    } else if let Some(j) = pending_at(t, id, 0) {
        if j < s.len() {
            assert(t[j].id == s[j].id);
        }
    }
}

} // verus!
