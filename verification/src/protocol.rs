//! The order of the events of one message.
//!
//! [`ProtoV`] follows the events of a message as a client would. An event is
//! allowed where the client may expect it, and a sequence is legal if each of its
//! events is allowed where it stands.
use crate::json::JsonV;
use crate::sse::{
    all_closed, block_at, closing_events, delta_data, lemma_block_at, opt_seq, to_close, BlockV, Ev,
    ManagerV, MeteringV, Usage,
};
use crate::stream_model::signature_delta;
use vstd::prelude::*;

verus! {

/// What a client has seen of a message.
#[verifier::ext_equal]
pub ghost struct ProtoV {
    pub started: bool,
    pub counted: bool,
    pub ended: bool,
    /// The kinds of the blocks that were announced.
    pub kinds: Map<int, Seq<char>>,
    /// The blocks that have not stopped.
    pub open: Set<int>,
    /// The blocks whose last delta was a signature.
    pub signed: Set<int>,
}

/// The data is a signature for the block `index`.
pub open spec fn is_signature(index: int, data: JsonV) -> bool {
    exists|s: Seq<char>| data == #[trigger] delta_data(index, signature_delta(s))
}

/// The event may come now:
/// - a message starts once, and nothing comes after its end;
/// - a block starts once, before the counts, and takes deltas until it stops, once;
/// - a block of thinking is signed right before it stops;
/// - the counts come once, when all blocks have stopped;
/// - the end comes after the counts, an error when all blocks have stopped.
pub open spec fn allowed(p: ProtoV, ev: Ev) -> bool {
    !p.ended && match ev {
        Ev::MessageStart(_) => !p.started,
        Ev::BlockStart(i, _, _) => !p.counted && !p.kinds.dom().contains(i),
        Ev::Delta(i, _) => p.open.contains(i),
        Ev::BlockStop(i) => p.open.contains(i) && (p.kinds[i] == "thinking"@ ==> p.signed.contains(
            i,
        )),
        Ev::MessageDelta(_) => !p.counted && p.open == Set::<int>::empty(),
        Ev::MessageStop => p.counted && p.open == Set::<int>::empty(),
        Ev::Error(_) => p.open == Set::<int>::empty(),
    }
}

/// What a client has seen once the event has come.
pub open spec fn seen(p: ProtoV, ev: Ev) -> ProtoV {
    match ev {
        Ev::MessageStart(_) => ProtoV { started: true, ..p },
        Ev::BlockStart(i, kind, _) => ProtoV {
            kinds: p.kinds.insert(i, kind),
            open: p.open.insert(i),
            signed: p.signed.remove(i),
            ..p
        },
        Ev::Delta(i, data) => ProtoV {
            signed: if is_signature(i, data) {
                p.signed.insert(i)
            } else {
                p.signed.remove(i)
            },
            ..p
        },
        Ev::BlockStop(i) => ProtoV { open: p.open.remove(i), ..p },
        Ev::MessageDelta(_) => ProtoV { counted: true, ..p },
        Ev::MessageStop => ProtoV { ended: true, ..p },
        Ev::Error(_) => ProtoV { ended: true, ..p },
    }
}

pub open spec fn run(p: ProtoV, evs: Seq<Ev>) -> ProtoV
    decreases evs.len(),
{
    if evs.len() == 0 {
        p
    } else {
        seen(run(p, evs.drop_last()), evs.last())
    }
}

/// Each of the events may come where it stands.
pub open spec fn legal(p: ProtoV, evs: Seq<Ev>) -> bool
    decreases evs.len(),
{
    evs.len() == 0 || (legal(p, evs.drop_last()) && allowed(run(p, evs.drop_last()), evs.last()))
}

pub proof fn lemma_run_append(p: ProtoV, a: Seq<Ev>, b: Seq<Ev>)
    ensures
        run(p, a + b) == run(run(p, a), b),
        legal(p, a + b) == (legal(p, a) && legal(run(p, a), b)),
    decreases b.len(),
{
    if b.len() == 0 {
        assert(a + b =~= a);
    } else {
        lemma_run_append(p, a, b.drop_last());
        assert((a + b).drop_last() =~= a + b.drop_last());
    }
}

pub proof fn lemma_run_one(p: ProtoV, ev: Ev)
    ensures
        run(p, seq![ev]) == seen(p, ev),
        legal(p, seq![ev]) == allowed(p, ev),
{
    let evs = seq![ev];
    assert(evs.drop_last() =~= Seq::<Ev>::empty());
    assert(run(p, evs.drop_last()) == p);
    assert(legal(p, evs.drop_last()));
}

pub proof fn lemma_run_push(p: ProtoV, evs: Seq<Ev>, ev: Ev)
    ensures
        run(p, evs.push(ev)) == seen(run(p, evs), ev),
        legal(p, evs.push(ev)) == (legal(p, evs) && allowed(run(p, evs), ev)),
{
    assert(evs.push(ev).drop_last() =~= evs);
}

/// The blocks of a message are in order: no index occurs twice, none is yet to
/// be given out, and every block has started.
pub open spec fn blocks_ordered(m: ManagerV) -> bool {
    &&& forall|i: int, j: int|
        0 <= i < j < m.blocks.len() ==> (#[trigger] m.blocks[i]).index != (
        #[trigger] m.blocks[j]).index
    &&& forall|i: int|
        0 <= i < m.blocks.len() ==> (#[trigger] m.blocks[i]).started && m.blocks[i].index
            < m.next_block_index
}

/// What a client has seen of a message is what the manager knows of it.
pub open spec fn mirrors(p: ProtoV, m: ManagerV) -> bool {
    &&& p.started == m.message_started
    &&& p.counted == m.message_delta_sent
    &&& p.ended == m.message_ended
    &&& forall|i: int|
        #[trigger] p.kinds.dom().contains(i) == (block_at(m.blocks, i, 0) is Some)
    &&& forall|i: int|
        p.kinds.dom().contains(i) ==> #[trigger] p.kinds[i] == m.blocks[block_at(
            m.blocks,
            i,
            0,
        )->Some_0].kind
    &&& forall|i: int|
        #[trigger] p.open.contains(i) == (match block_at(m.blocks, i, 0) {
            Some(k) => m.blocks[k].open(),
            None => false,
        })
}

/// The block `i` is open.
pub open spec fn open_at(m: ManagerV, i: int) -> bool {
    match block_at(m.blocks, i, 0) {
        Some(k) => m.blocks[k].open(),
        None => false,
    }
}

/// In a list without repeated indices, a block is found where it stands.
pub proof fn lemma_found_at(m: ManagerV, k: int)
    requires
        blocks_ordered(m),
        0 <= k < m.blocks.len(),
    ensures
        block_at(m.blocks, m.blocks[k].index, 0) == Some(k),
{
    let i = m.blocks[k].index;
    lemma_block_at(m.blocks, i, 0);
    match block_at(m.blocks, i, 0) {
        Some(j) => {
            if j < k {
                assert(m.blocks[j].index != m.blocks[k].index);
            } else if k < j {
                assert(m.blocks[k].index != i);
            }
        },
        None => {
            assert(m.blocks[k].index != i);
        },
    }
}

/// Changing the flags of one block leaves the others where they were.
proof fn lemma_block_at_update(blocks: Seq<BlockV>, k: int, b: BlockV, i: int)
    requires
        0 <= k < blocks.len(),
        b.index == blocks[k].index,
    ensures
        block_at(blocks.update(k, b), i, 0) == block_at(blocks, i, 0),
{
    let after = blocks.update(k, b);
    lemma_block_at(blocks, i, 0);
    lemma_block_at(after, i, 0);
    if let Some(x) = block_at(blocks, i, 0) {
        assert(after[x].index == i);
    }
    if let Some(y) = block_at(after, i, 0) {
        assert(blocks[y].index == i);
    }
    match (block_at(blocks, i, 0), block_at(after, i, 0)) {
        (Some(x), Some(y)) => {
            if x < y {
                assert(after[x].index != i);
            } else if y < x {
                assert(blocks[y].index != i);
            }
        },
        (Some(x), None) => {
            assert(after[x].index != i);
        },
        (None, Some(y)) => {
            assert(blocks[y].index != i);
        },
        _ => {},
    }
}

proof fn lemma_block_at_push(blocks: Seq<BlockV>, b: BlockV, i: int)
    ensures
        block_at(blocks.push(b), i, 0) == match block_at(blocks, i, 0) {
            Some(k) => Some(k),
            None => if b.index == i {
                Some(blocks.len() as int)
            } else {
                None
            },
        },
{
    let after = blocks.push(b);
    lemma_block_at(blocks, i, 0);
    lemma_block_at(after, i, 0);
    let n = blocks.len() as int;
    match (block_at(blocks, i, 0), block_at(after, i, 0)) {
        (Some(x), Some(y)) => {
            if x < y {
                assert(after[x].index != i);
            } else if y < x {
                assert(blocks[y].index != i);
            }
        },
        (Some(x), None) => {
            assert(after[x].index != i);
        },
        (None, Some(y)) => {
            if y < n {
                assert(blocks[y].index != i);
            }
        },
        (None, None) => {
            assert(after[n].index != i);
        },
    }
}

/// A delta that the manager lets through is allowed.
pub proof fn delta_is_allowed(p: ProtoV, m: ManagerV, index: int, data: JsonV)
    requires
        mirrors(p, m),
        !m.message_ended,
    ensures
        legal(p, opt_seq(m.delta(index, data))),
        mirrors(run(p, opt_seq(m.delta(index, data))), m),
{
    match m.delta(index, data) {
        Some(ev) => {
            lemma_run_one(p, ev);
        },
        None => {},
    }
}

/// A delta for an open block is allowed.
pub proof fn open_delta_is_allowed(p: ProtoV, m: ManagerV, index: int, data: JsonV)
    requires
        mirrors(p, m),
        !m.message_ended,
        open_at(m, index),
    ensures
        legal(p, seq![Ev::Delta(index, data)]),
        mirrors(run(p, seq![Ev::Delta(index, data)]), m),
        is_signature(index, data) ==> run(p, seq![Ev::Delta(index, data)]).signed.contains(index),
{
    lemma_run_one(p, Ev::Delta(index, data));
    assert(p.open.contains(index));
}

/// A stop that the manager gives is allowed, if thinking was signed first.
pub proof fn stop_is_allowed(p: ProtoV, m: ManagerV, index: int)
    requires
        mirrors(p, m),
        blocks_ordered(m),
        !m.message_ended,
        m.is_open(index, "thinking"@) ==> p.signed.contains(index),
    ensures
        ({
            let (n, stop) = m.block_stopped(index);
            &&& legal(p, opt_seq(stop))
            &&& mirrors(run(p, opt_seq(stop)), n)
            &&& blocks_ordered(n)
            &&& n.next_block_index == m.next_block_index
            &&& forall|i: int| #[trigger]
                block_at(n.blocks, i, 0) == block_at(m.blocks, i, 0)
            &&& n.blocks.len() == m.blocks.len()
            &&& forall|k: int|
                0 <= k < m.blocks.len() && m.blocks[k].index != index ==> n.blocks[k]
                    == #[trigger] m.blocks[k]
            &&& forall|k: int|
                0 <= k < m.blocks.len() ==> (#[trigger] n.blocks[k]).kind == m.blocks[k].kind
                    && n.blocks[k].index == m.blocks[k].index
            &&& !open_at(n, index)
        }),
{
    lemma_block_at(m.blocks, index, 0);
    let (n, stop) = m.block_stopped(index);
    match stop {
        Some(ev) => {
            let k = block_at(m.blocks, index, 0)->Some_0;
            let b = BlockV { stopped: true, ..m.blocks[k] };
            assert forall|i: int| #[trigger] block_at(n.blocks, i, 0) == block_at(m.blocks, i, 0) by {
                lemma_block_at_update(m.blocks, k, b, i);
            }
            assert(m.blocks[k].started);
            assert(p.open.contains(index));
            assert(p.kinds.dom().contains(index));
            assert(p.kinds[index] == m.blocks[k].kind);
            lemma_run_one(p, ev);
            let q = run(p, opt_seq(stop));
            assert(blocks_ordered(n)) by {
                assert forall|i: int, j: int| 0 <= i < j < n.blocks.len() implies (
                #[trigger] n.blocks[i]).index != (#[trigger] n.blocks[j]).index by {
                    assert(m.blocks[i].index != m.blocks[j].index);
                }
                assert forall|i: int| 0 <= i < n.blocks.len() implies (
                #[trigger] n.blocks[i]).started && n.blocks[i].index < n.next_block_index by {
                    assert(m.blocks[i].started);
                }
            }
            assert forall|i: int| #[trigger] q.open.contains(i) == (match block_at(n.blocks, i, 0) {
                Some(x) => n.blocks[x].open(),
                None => false,
            }) by {
                assert(p.open.contains(i) == open_at(m, i));
                lemma_block_at(m.blocks, i, 0);
                assert(block_at(n.blocks, i, 0) == block_at(m.blocks, i, 0));
                if i != index {
                    if let Some(x) = block_at(m.blocks, i, 0) {
                        assert(x != k);
                    }
                }
            }
            assert forall|i: int| #[trigger] q.kinds.dom().contains(i) == (block_at(
                n.blocks,
                i,
                0,
            ) is Some) by {
                assert(p.kinds.dom().contains(i) == (block_at(m.blocks, i, 0) is Some));
                assert(block_at(n.blocks, i, 0) == block_at(m.blocks, i, 0));
            }
            assert forall|i: int| q.kinds.dom().contains(i) implies #[trigger] q.kinds[i]
                == n.blocks[block_at(n.blocks, i, 0)->Some_0].kind by {
                assert(p.kinds[i] == m.blocks[block_at(m.blocks, i, 0)->Some_0].kind);
                assert(block_at(n.blocks, i, 0) == block_at(m.blocks, i, 0));
                lemma_block_at(m.blocks, i, 0);
            }
        },
        None => {},
    }
}

/// Closing blocks one after the other is allowed, if no open one is of thinking.
proof fn lemma_closing(p: ProtoV, m: ManagerV, only_text: bool)
    requires
        mirrors(p, m),
        blocks_ordered(m),
        !m.message_ended,
        forall|k: int|
            0 <= k < m.blocks.len() && to_close(#[trigger] m.blocks[k], only_text)
                ==> m.blocks[k].kind != "thinking"@,
    ensures
        ({
            let n = ManagerV { blocks: all_closed(m.blocks, only_text), ..m };
            let evs = closing_events(m.blocks, only_text);
            &&& legal(p, evs)
            &&& mirrors(run(p, evs), n)
            &&& blocks_ordered(n)
            &&& forall|i: int| #[trigger] block_at(n.blocks, i, 0) == block_at(m.blocks, i, 0)
        }),
{
    let n = ManagerV { blocks: all_closed(m.blocks, only_text), ..m };
    lemma_closing_up_to(p, m, only_text, m.blocks.len() as int);
    assert(m.blocks.take(m.blocks.len() as int) =~= m.blocks);
    assert(closed_up_to(m.blocks, only_text, m.blocks.len() as int) =~= n.blocks);
}

/// The blocks after the first `k` have been looked at.
spec fn closed_up_to(blocks: Seq<BlockV>, only_text: bool, k: int) -> Seq<BlockV> {
    Seq::new(
        blocks.len(),
        |i: int|
            if i < k {
                all_closed(blocks, only_text)[i]
            } else {
                blocks[i]
            },
    )
}

proof fn lemma_closing_up_to(p: ProtoV, m: ManagerV, only_text: bool, k: int)
    requires
        mirrors(p, m),
        blocks_ordered(m),
        !m.message_ended,
        0 <= k <= m.blocks.len(),
        forall|j: int|
            0 <= j < m.blocks.len() && to_close(#[trigger] m.blocks[j], only_text)
                ==> m.blocks[j].kind != "thinking"@,
    ensures
        ({
            let n = ManagerV { blocks: closed_up_to(m.blocks, only_text, k), ..m };
            let evs = closing_events(m.blocks.take(k), only_text);
            &&& legal(p, evs)
            &&& mirrors(run(p, evs), n)
            &&& blocks_ordered(n)
            &&& forall|i: int| #[trigger] block_at(n.blocks, i, 0) == block_at(m.blocks, i, 0)
        }),
    decreases k,
{
    let n = ManagerV { blocks: closed_up_to(m.blocks, only_text, k), ..m };
    if k == 0 {
        assert(n.blocks =~= m.blocks);
        assert(n == m);
    } else {
        lemma_closing_up_to(p, m, only_text, k - 1);
        let before = ManagerV { blocks: closed_up_to(m.blocks, only_text, k - 1), ..m };
        let evs = closing_events(m.blocks.take(k - 1), only_text);
        assert(m.blocks.take(k).drop_last() =~= m.blocks.take(k - 1));
        let b = m.blocks[k - 1];
        assert(before.blocks[k - 1] == b);
        if to_close(b, only_text) {
            lemma_found_at(before, k - 1);
            let q = run(p, evs);
            stop_is_allowed(q, before, b.index);
            lemma_run_push(p, evs, Ev::BlockStop(b.index));
            lemma_run_one(q, Ev::BlockStop(b.index));
            assert(n.blocks =~= before.block_stopped(b.index).0.blocks);
            assert(n == before.block_stopped(b.index).0);
            assert forall|i: int| #[trigger] block_at(n.blocks, i, 0) == block_at(m.blocks, i, 0) by {
                assert(block_at(before.blocks, i, 0) == block_at(m.blocks, i, 0));
            }
        } else {
            assert(n.blocks =~= before.blocks);
            assert(n == before);
        }
    }
}

/// Announcing a block is allowed, before the counts.
pub proof fn start_is_allowed(p: ProtoV, m: ManagerV, index: int, kind: Seq<char>, data: JsonV)
    requires
        mirrors(p, m),
        blocks_ordered(m),
        !m.message_ended,
        !m.message_delta_sent,
        index < m.next_block_index,
    ensures
        ({
            let (n, evs) = m.block_started(index, kind, data);
            &&& legal(p, evs)
            &&& mirrors(run(p, evs), n)
            &&& blocks_ordered(n)
            &&& n.next_block_index == m.next_block_index
            &&& !n.message_ended && !n.message_delta_sent
            &&& m.blocks.len() <= n.blocks.len() <= m.blocks.len() + 1
            &&& forall|k: int|
                0 <= k < m.blocks.len() ==> (#[trigger] n.blocks[k]).index == m.blocks[k].index
                    && n.blocks[k].kind == m.blocks[k].kind && (n.blocks[k].open()
                    ==> m.blocks[k].open()) && (m.blocks[k].kind != "text"@ ==> n.blocks[k]
                    == m.blocks[k])
            &&& n.blocks.len() == m.blocks.len() + 1 ==> n.blocks.last() == (BlockV {
                index,
                kind,
                started: true,
                stopped: false,
            })
            &&& (block_at(m.blocks, index, 0) is None) == (n.blocks.len() == m.blocks.len() + 1)
        }),
{
    reveal_strlit("tool_use");
    reveal_strlit("text");
    reveal_strlit("thinking");
    let (c, first) = m.before_block(kind);
    assert("text"@ != "thinking"@) by {
        assert("text"@.len() == 4);
        assert("thinking"@.len() == 8);
    }
    if kind == "tool_use"@ {
        lemma_closing(p, m, true);
        let x = ManagerV { blocks: all_closed(m.blocks, true), ..m };
        let q = run(p, first);
        assert(mirrors(q, c));
        assert(blocks_ordered(c));
    } else {
        assert(run(p, first) == p);
    }
    let q = run(p, first);
    lemma_block_at(c.blocks, index, 0);
    let (n, evs) = m.block_started(index, kind, data);
    match block_at(c.blocks, index, 0) {
        Some(k) => {
            assert(c.blocks[k].started);
        },
        None => {
            let b = BlockV { index, kind, started: true, stopped: false };
            lemma_run_push(p, first, Ev::BlockStart(index, kind, data));
            assert(!q.kinds.dom().contains(index));
            let r = run(p, evs);
            assert forall|i: int| #[trigger] r.kinds.dom().contains(i) == (block_at(
                n.blocks,
                i,
                0,
            ) is Some) by {
                lemma_block_at_push(c.blocks, b, i);
                assert(q.kinds.dom().contains(i) == (block_at(c.blocks, i, 0) is Some));
            }
            assert forall|i: int| r.kinds.dom().contains(i) implies #[trigger] r.kinds[i]
                == n.blocks[block_at(n.blocks, i, 0)->Some_0].kind by {
                lemma_block_at_push(c.blocks, b, i);
                lemma_block_at(c.blocks, i, 0);
                if i != index {
                    assert(q.kinds.dom().contains(i));
                    assert(q.kinds[i] == c.blocks[block_at(c.blocks, i, 0)->Some_0].kind);
                }
            }
            assert forall|i: int| #[trigger] r.open.contains(i) == (match block_at(n.blocks, i, 0) {
                Some(x) => n.blocks[x].open(),
                None => false,
            }) by {
                lemma_block_at_push(c.blocks, b, i);
                lemma_block_at(c.blocks, i, 0);
                assert(q.open.contains(i) == open_at(c, i));
            }
            assert(blocks_ordered(n)) by {
                assert forall|i: int, j: int| 0 <= i < j < n.blocks.len() implies (
                #[trigger] n.blocks[i]).index != (#[trigger] n.blocks[j]).index by {
                    if j == c.blocks.len() {
                        assert(c.blocks[i].index != index);
                    } else {
                        assert(c.blocks[i].index != c.blocks[j].index);
                    }
                }
                assert forall|i: int| 0 <= i < n.blocks.len() implies (
                #[trigger] n.blocks[i]).started && n.blocks[i].index < n.next_block_index by {
                    if i < c.blocks.len() {
                        assert(c.blocks[i].started);
                    }
                }
            }
        },
    }
    assert(c.blocks.len() == m.blocks.len());
    if kind == "tool_use"@ {
        assert(block_at(c.blocks, index, 0) == block_at(m.blocks, index, 0));
    }
}

/// The end of a message is allowed once, if no block of thinking is open.
pub proof fn finish_is_allowed(p: ProtoV, m: ManagerV, usage: Usage, metering: Option<MeteringV>)
    requires
        mirrors(p, m),
        blocks_ordered(m),
        !m.message_ended,
        !m.message_delta_sent,
        forall|k: int|
            0 <= k < m.blocks.len() && (#[trigger] m.blocks[k]).open() ==> m.blocks[k].kind
                != "thinking"@,
    ensures
        legal(p, m.finished(usage, metering).1),
        run(p, m.finished(usage, metering).1).ended,
        run(p, m.finished(usage, metering).1).counted,
        m.finished(usage, metering).0.message_ended,
{
    lemma_closing(p, m, false);
    let n = ManagerV { blocks: all_closed(m.blocks, false), ..m };
    let evs = closing_events(m.blocks, false);
    let q = run(p, evs);
    lemma_all_closed(q, n, m);
    let ev = Ev::MessageDelta(
        crate::sse::message_delta_data(m.reason(), crate::sse::metered_usage(usage, metering)),
    );
    lemma_run_push(p, evs, ev);
    lemma_run_push(p, evs.push(ev), Ev::MessageStop);
}

proof fn lemma_all_closed(q: ProtoV, n: ManagerV, m: ManagerV)
    requires
        mirrors(q, n),
        n.blocks == all_closed(m.blocks, false),
    ensures
        q.open == Set::<int>::empty(),
{
    assert forall|i: int| !#[trigger] q.open.contains(i) by {
        lemma_block_at(n.blocks, i, 0);
    }
    assert(q.open =~= Set::<int>::empty());
}

/// An error is allowed once, if no block of thinking is open; the client then
/// sees neither counts nor a regular stop.
pub proof fn failure_is_allowed(p: ProtoV, m: ManagerV, error_type: Seq<char>, message: Seq<char>)
    requires
        mirrors(p, m),
        blocks_ordered(m),
        !m.message_ended,
        forall|k: int|
            0 <= k < m.blocks.len() && (#[trigger] m.blocks[k]).open() ==> m.blocks[k].kind
                != "thinking"@,
    ensures
        legal(p, m.failed(error_type, message).1),
        run(p, m.failed(error_type, message).1).ended,
        run(p, m.failed(error_type, message).1).counted == p.counted,
        m.failed(error_type, message).0.message_ended,
{
    lemma_closing(p, m, false);
    let n = ManagerV { blocks: all_closed(m.blocks, false), ..m };
    let evs = closing_events(m.blocks, false);
    let q = run(p, evs);
    lemma_all_closed(q, n, m);
    lemma_run_push(p, evs, Ev::Error(crate::sse::error_data(error_type, message)));
}

/// Once a message has ended, with an error or regularly, ending it sends neither
/// counts nor a regular stop, only the stops of blocks that are still open.
pub proof fn an_ended_message_is_not_ended_again(
    m: ManagerV,
    usage: Usage,
    metering: Option<MeteringV>,
)
    requires
        m.message_ended,
    ensures
        m.finished(usage, metering).1 == closing_events(m.blocks, false),
        m.finished(usage, metering).0 == (ManagerV {
            blocks: all_closed(m.blocks, false),
            ..m
        }),
{
}

/// After an error nothing at all is left to send.
pub proof fn nothing_follows_a_failure(
    m: ManagerV,
    error_type: Seq<char>,
    message: Seq<char>,
    usage: Usage,
    metering: Option<MeteringV>,
)
    ensures
        m.failed(error_type, message).0.finished(usage, metering).1 == Seq::<Ev>::empty(),
{
    lemma_closed_stay_closed(m.blocks);
}

proof fn lemma_closed_stay_closed(blocks: Seq<BlockV>)
    ensures
        closing_events(all_closed(blocks, false), false) == Seq::<Ev>::empty(),
    decreases blocks.len(),
{
    if blocks.len() > 0 {
        lemma_closed_stay_closed(blocks.drop_last());
        assert(all_closed(blocks, false).drop_last() =~= all_closed(blocks.drop_last(), false));
    }
}

} // verus!
