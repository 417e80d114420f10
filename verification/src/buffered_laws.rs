//! Laws on a stream whose events are held until its end, and on the names of tools.
use crate::buffered::{corrected, rendered, with_counts, BufferedV};
use crate::endpoint::payload_laws::agree_on;
use crate::json::JsonV;
use crate::message_laws::number;
use crate::names::{arguments_restored, forms_restored, names_restored, RenamedV};
use crate::sse::{Ev, SseV};
use crate::stream_laws::fed;
use crate::stream_model::{Draws, EventV};
use vstd::prelude::*;

verus! {

/// Events arrive at a buffered stream, one after the other.
pub open spec fn buffered(b: BufferedV, events: Seq<EventV>, ids: Draws) -> BufferedV
    decreases events.len(),
{
    if events.len() == 0 {
        b
    } else {
        buffered(b, events.drop_last(), ids).processed(events.last(), ids)
    }
}

proof fn lemma_rendered(a: Seq<Ev>, b: Seq<Ev>)
    ensures
        rendered(a + b) == rendered(a) + rendered(b),
{
    assert(rendered(a + b) =~= rendered(a) + rendered(b));
}

/// A buffered stream holds what the same stream would have sent by then, all of it and in
/// order, its opening first.
pub proof fn a_buffer_holds_what_would_have_been_sent(
    b: BufferedV,
    events: Seq<EventV>,
    ids: Draws,
)
    requires
        !b.opened,
        b.buffer.len() == 0,
        events.len() > 0,
    ensures
        ({
            let opening = b.inner.opened();
            let sent = fed(opening.0, events, ids);
            let after = buffered(b, events, ids);
            after.opened && after.inner == sent.0 && after.buffer == rendered(opening.1 + sent.1)
        }),
    decreases events.len(),
{
    let opening = b.inner.opened();
    let head = events.drop_last();
    let e = events.last();
    let before = fed(opening.0, head, ids);
    let step = before.0.processed(e, ids);
    if head.len() == 0 {
        assert(buffered(b, head, ids) == b);
        assert(b.begun().buffer =~= rendered(opening.1));
        assert(before.1 =~= Seq::<Ev>::empty());
        assert(before.1 + step.1 =~= step.1);
    } else {
        a_buffer_holds_what_would_have_been_sent(b, head, ids);
        assert(opening.1 + (before.1 + step.1) =~= (opening.1 + before.1) + step.1);
        lemma_rendered(opening.1 + before.1, step.1);
    }
    lemma_rendered(opening.1, fed(opening.0, events, ids).1);
    assert(buffered(b, events, ids).buffer =~= rendered(
        opening.1 + fed(opening.0, events, ids).1,
    ));
}

/// In the end a buffered stream gives out everything that it holds and what its end sends,
/// event by event and in order. All of it is as the stream itself would have sent it, but
/// for the counts in the opening of the message; nothing stays behind.
pub proof fn a_buffer_gives_out_all_that_it_holds(b: BufferedV, ids: Draws, i: int)
    requires
        b.opened,
    ensures
        ({
            let held = b.buffer + rendered(b.inner.ended(ids).1);
            let out = b.finished(ids).1;
            &&& out.len() == held.len()
            &&& 0 <= i < held.len() ==> out[i].event == held[i].event
            &&& 0 <= i < held.len() && held[i].event != "message_start"@ ==> out[i] == held[i]
            &&& 0 <= i < held.len() && held[i].event == "message_start"@ ==> out[i].data
                == with_counts(held[i].data, b.inner.usage())
            &&& b.finished(ids).0.buffer.len() == 0
        }),
{
}

/// The opening of a message takes the three counts of its input, each under its name; no
/// other member of it changes, nor of the message, nor of its usage.
pub proof fn only_the_counts_of_the_opening_change(
    d: Map<Seq<char>, JsonV>,
    m: Map<Seq<char>, JsonV>,
    u: Map<Seq<char>, JsonV>,
    counts: (int, int, int),
    k: Seq<char>,
)
    requires
        d.dom().contains("message"@),
        d["message"@] == JsonV::Object(m),
        m.dom().contains("usage"@),
        m["usage"@] == JsonV::Object(u),
    ensures
        ({
            let r = with_counts(JsonV::Object(d), counts);
            let d2 = r->Object_0;
            let m2 = d2["message"@]->Object_0;
            let u2 = m2["usage"@]->Object_0;
            &&& r is Object
            &&& d2.dom().contains("message"@) && d2["message"@] is Object
            &&& m2.dom().contains("usage"@) && m2["usage"@] is Object
            &&& k != "message"@ ==> agree_on(d, d2, k)
            &&& k != "usage"@ ==> agree_on(m, m2, k)
            &&& k != "input_tokens"@ && k != "cache_creation_input_tokens"@ && k
                != "cache_read_input_tokens"@ ==> agree_on(u, u2, k)
            &&& u2.dom().contains("input_tokens"@) && u2["input_tokens"@] == number(counts.0)
            &&& u2.dom().contains("cache_creation_input_tokens"@)
                && u2["cache_creation_input_tokens"@] == number(counts.1)
            &&& u2.dom().contains("cache_read_input_tokens"@) && u2["cache_read_input_tokens"@]
                == number(counts.2)
        }),
{
    reveal_strlit("input_tokens");
    reveal_strlit("cache_creation_input_tokens");
    reveal_strlit("cache_read_input_tokens");
    assert("input_tokens"@.len() == 12);
    assert("cache_creation_input_tokens"@.len() == 27);
    assert("cache_read_input_tokens"@.len() == 23);
}

/// An event that does not open the message is not changed at all.
pub proof fn other_events_are_not_corrected(e: SseV, counts: (int, int, int))
    ensures
        corrected(e, counts).event == e.event,
        e.event != "message_start"@ ==> corrected(e, counts) == e,
{
}

/// A tool that goes by a short name is called by the client's name for it, and any other by
/// its own; the arguments are passed on as they are where none of them is known by another
/// name.
pub proof fn tools_are_called_by_the_names_of_the_client(
    map: Map<Seq<char>, Seq<char>>,
    name: Seq<char>,
    input: JsonV,
)
    ensures
        map.dom().contains(name) ==> names_restored(map)(name, input) == (map[name], input),
        !map.dom().contains(name) ==> names_restored(map)(name, input) == (name, input),
        forms_restored(map, Seq::empty())(name, input) == names_restored(map)(name, input),
{
}

/// Names of arguments that belong to other tools change nothing.
pub proof fn arguments_of_other_tools_are_kept(
    renamed: Seq<RenamedV>,
    tool: Seq<char>,
    input: JsonV,
    n: int,
)
    requires
        n <= renamed.len(),
        forall|i: int| 0 <= i < renamed.len() ==> (#[trigger] renamed[i]).tool != tool,
    ensures
        arguments_restored(renamed, tool, input, n) == input,
    decreases n,
{
    if n > 0 {
        arguments_of_other_tools_are_kept(renamed, tool, input, n - 1);
        assert(renamed[n - 1].tool != tool);
    }
}

/// An argument that is known by another name goes to the client under the client's name for
/// it, with its value; all other arguments stay as they are, and so do all where it is not
/// given.
pub proof fn arguments_are_called_by_the_names_of_the_client(
    map: Map<Seq<char>, Seq<char>>,
    one: RenamedV,
    m: Map<Seq<char>, JsonV>,
    k: Seq<char>,
)
    ensures
        ({
            let r = forms_restored(map, seq![one])(one.tool, JsonV::Object(m)).1;
            let given = m.dom().contains(one.from);
            &&& r is Object
            &&& given ==> r->Object_0.dom().contains(one.to) && r->Object_0[one.to] == m[one.from]
            &&& given && one.from != one.to ==> !r->Object_0.dom().contains(one.from)
            &&& k != one.from && k != one.to ==> agree_on(m, r->Object_0, k)
            &&& !given ==> r == JsonV::Object(m)
        }),
{
    reveal_with_fuel(arguments_restored, 2);
}

} // verus!
