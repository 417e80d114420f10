//! Cutting a complete answer into content blocks.
use crate::fence::{
    advance_code_fence_state, fence_after, fence_is_independent_of_cuts, fence_open_after, FenceV,
};
use crate::ids::{fresh_tool_id, is_tool_id};
use crate::invoke::{
    find_invoke_block_end, find_invoke_start, invoke_end, invoke_parsed, invoke_start,
    lemma_invoke_start_fits, parse_invoke_block,
};
use crate::json::{Json, JsonV};
use crate::names::{NameSet, Restoring, ToolRestorer};
use crate::sse::{typed, typed_json};
use crate::stray::{
    at_line_start, collapse_stray_token_floods, find_lead, fresh_guard, guard_filter, lead,
};
use crate::stream::jsons;
use crate::text::{chars_of, push_text, text_between};
use crate::tool_json::{call_block, restored_call, CompletedToolUse};
use vstd::prelude::*;
use vstd::slice::slice_subrange;

verus! {

/// A part of an answer: text, or a tool call that was written into it.
pub enum Piece {
    Text(String),
    Call(String, Json),
}

pub ghost enum PieceV {
    Text(Seq<char>),
    Call(Seq<char>, JsonV),
}

impl View for Piece {
    type V = PieceV;

    open spec fn view(&self) -> PieceV {
        match self {
            Piece::Text(t) => PieceV::Text(t@),
            Piece::Call(name, input) => PieceV::Call(name@, input@),
        }
    }
}

pub open spec fn pieces_view(v: Seq<Piece>) -> Seq<PieceV> {
    Seq::new(v.len(), |i: int| v[i]@)
}

/// A text that is not empty is a piece.
pub open spec fn text_piece(t: Seq<char>) -> Seq<PieceV> {
    if t.len() == 0 {
        Seq::empty()
    } else {
        seq![PieceV::Text(t)]
    }
}

/// The block `rest[start..end]`, behind the text `pending`, may be run as a tool call:
/// it stands at the beginning of a line and outside of a code fence, and names a known
/// tool.
pub open spec fn callable(
    pending: Seq<char>,
    rest: Seq<char>,
    start: int,
    end: int,
    fence: FenceV,
    known: Set<Seq<char>>,
) -> bool {
    &&& at_line_start(pending, rest.take(start))
    &&& !fence_after(fence, rest.take(start)).open
    &&& match invoke_parsed(rest.subrange(start, end)) {
        Some((name, _)) => known.contains(name),
        None => false,
    }
}

/// The pieces of `rest`, behind the text `pending` that is not a piece yet.
pub open spec fn pieces(
    rest: Seq<char>,
    pending: Seq<char>,
    fence: FenceV,
    known: Set<Seq<char>>,
) -> Seq<PieceV>
    decreases rest.len(),
{
    match invoke_start(rest) {
        Some(start) => match invoke_end(rest, start) {
            Some(end) => if end <= 0 || end > rest.len() {
                text_piece(pending + rest)
            } else if callable(pending, rest, start, end, fence, known) {
                let before = lead(pending, rest.take(start));
                let (name, input) = invoke_parsed(rest.subrange(start, end))->Some_0;
                text_piece(pending + before).push(PieceV::Call(name, input)) + pieces(
                    rest.skip(end),
                    Seq::empty(),
                    fence_after(fence, before),
                    known,
                )
            } else {
                pieces(
                    rest.skip(end),
                    pending + rest.take(end),
                    fence_after(fence, rest.take(end)),
                    known,
                )
            },
            None => text_piece(pending + rest),
        },
        None => text_piece(pending + rest),
    }
}

pub open spec fn no_fence() -> FenceV {
    FenceV { open: false, partial: Seq::empty() }
}

/// The pieces of a complete answer, a flood of stray words cut off.
pub open spec fn answer_pieces(text: Seq<char>, known: Set<Seq<char>>) -> Seq<PieceV> {
    pieces(guard_filter(fresh_guard(), text).1, Seq::empty(), no_fence(), known)
}

fn push_piece(out: &mut Vec<Piece>, pending: &str)
    ensures
        pieces_view(final(out)@) == pieces_view(old(out)@) + text_piece(pending@),
{
    if chars_of(pending).len() > 0 {
        out.push(Piece::Text(pending.to_owned()));
    }
    assert(pieces_view(out@) =~= pieces_view(old(out)@) + text_piece(pending@));
}

/// The pieces of `text`.
fn split_pieces(text: &str, known: &NameSet) -> (r: Vec<Piece>)
    ensures
        pieces_view(r@) == pieces(text@, Seq::empty(), no_fence(), known@),
{
    let v = chars_of(text);
    let all = v.as_slice();
    let n: usize = all.len();
    let mut out: Vec<Piece> = Vec::new();
    let mut pending = String::new();
    let mut open = false;
    let mut partial = String::new();
    let mut pos: usize = 0;
    assert(all@.skip(0) =~= all@);
    assert(pending@ =~= Seq::<char>::empty());
    assert(partial@ =~= Seq::<char>::empty());
    let ghost whole = pieces(text@, Seq::empty(), no_fence(), known@);
    assert(pieces_view(out@) + whole =~= whole);
    loop
        invariant
            pos <= n,
            n == all@.len(),
            all@ == text@,
            whole == pieces(text@, Seq::empty(), no_fence(), known@),
            whole == pieces_view(out@) + pieces(
                all@.skip(pos as int),
                pending@,
                FenceV { open, partial: partial@ },
                known@,
            ),
        decreases n - pos,
    {
        let rest = slice_subrange(all, pos, n);
        assert(rest@ =~= all@.skip(pos as int));
        let start: usize = match find_invoke_start(rest) {
            Some(s) => s,
            None => {
                let tail = text_between(rest, 0, rest.len());
                assert(tail@ =~= rest@);
                push_text(&mut pending, tail.as_str());
                push_piece(&mut out, pending.as_str());
                return out;
            },
        };
        let end: usize = match find_invoke_block_end(rest, start) {
            Some(e) => e,
            None => {
                let tail = text_between(rest, 0, rest.len());
                assert(tail@ =~= rest@);
                push_text(&mut pending, tail.as_str());
                push_piece(&mut out, pending.as_str());
                return out;
            },
        };
        let head = slice_subrange(rest, 0, start);
        assert(head@ =~= rest@.take(start as int));
        let before = text_between(rest, 0, start);
        assert(before@ =~= head@);
        let (cut, at_line) = find_lead(pending.as_str(), head);
        let fenced = fence_open_after(open, partial.as_str(), before.as_str());
        let block = slice_subrange(rest, start, end);
        let parsed = parse_invoke_block(block);
        assert(rest@.skip(end as int) =~= all@.skip(pos + end));
        let mut taken = false;
        match parsed {
            Some((name, input)) => {
                if at_line && !fenced && known.contains(name.as_str()) {
                    taken = true;
                    let lead_text = text_between(head, 0, cut);
                    assert(lead_text@ =~= lead(pending@, head@));
                    push_text(&mut pending, lead_text.as_str());
                    advance_code_fence_state(&mut open, &mut partial, lead_text.as_str());
                    let ghost first = pieces_view(out@);
                    let ghost shown = pending@;
                    push_piece(&mut out, pending.as_str());
                    let ghost mid = pieces_view(out@);
                    out.push(Piece::Call(name, input));
                    assert(pieces_view(out@) =~= mid.push(PieceV::Call(name@, input@)));
                    pending = String::new();
                    assert(pending@ =~= Seq::<char>::empty());
                    proof {
                        let tail = pieces(
                            rest@.skip(end as int),
                            Seq::empty(),
                            FenceV { open, partial: partial@ },
                            known@,
                        );
                        assert(first + (text_piece(shown).push(PieceV::Call(name@, input@)) + tail)
                            =~= pieces_view(out@) + tail);
                    }
                }
            },
            None => {},
        }
        if !taken {
            let chunk = text_between(rest, 0, end);
            assert(chunk@ =~= rest@.take(end as int));
            advance_code_fence_state(&mut open, &mut partial, chunk.as_str());
            push_text(&mut pending, chunk.as_str());
        }
        pos = pos + end;
    }
}

/// The pieces of a complete answer.
pub fn split_answer(text: &str, known_tool_names: &NameSet) -> (r: Vec<Piece>)
    ensures
        pieces_view(r@) == answer_pieces(text@, known_tool_names@),
{
    let kept = collapse_stray_token_floods(text);
    split_pieces(kept.as_str(), known_tool_names)
}

/// A content block of text.
pub open spec fn text_content(t: Seq<char>) -> JsonV {
    typed("text"@).put("text"@, JsonV::Text(t))
}

/// The content block of a piece; `id` identifies it if it is a call.
pub open spec fn piece_block(
    piece: PieceV,
    id: Seq<char>,
    names: Restoring,
) -> JsonV {
    match piece {
        PieceV::Text(t) => text_content(t),
        PieceV::Call(name, input) => call_block(restored_call(id, name, input, names)),
    }
}

/// The content blocks of pieces, the calls among them identified by `ids`.
pub open spec fn piece_blocks(
    pieces: Seq<PieceV>,
    ids: Seq<Seq<char>>,
    names: Restoring,
) -> Seq<JsonV> {
    Seq::new(pieces.len(), |i: int| piece_block(pieces[i], ids[i], names))
}

/// The calls among the pieces have identifiers.
pub open spec fn calls_identified(pieces: Seq<PieceV>, ids: Seq<Seq<char>>) -> bool {
    ids.len() == pieces.len() && forall|i: int|
        0 <= i < pieces.len() && pieces[i] is Call ==> is_tool_id(#[trigger] ids[i])
}

pub fn text_content_json(t: &str) -> (r: Json)
    ensures
        r@ == text_content(t@),
{
    typed_json("text").with("text", Json::text(t))
}

/// The content block of a piece.
pub fn block_of_piece<R: ToolRestorer>(piece: &Piece, id: &str, tool_name_map: &R) -> (r: Json)
    ensures
        r@ == piece_block(piece@, id@, tool_name_map.restoring()),
{
    match piece {
        Piece::Text(t) => text_content_json(t.as_str()),
        Piece::Call(name, input) => CompletedToolUse::from_kiro(
            id.to_owned(),
            name.as_str(),
            input.copy(),
            tool_name_map,
        ).to_anthropic_block(),
    }
}

/// The content blocks of a complete answer, in which tool calls that were written
/// into the text are calls again, under fresh identifiers.
pub fn extract_invoke_content_blocks<R: ToolRestorer>(
    text: &str,
    known_tool_names: &NameSet,
    tool_name_map: &R,
) -> (r: Vec<Json>)
    ensures
        exists|ids: Seq<Seq<char>>|
            calls_identified(answer_pieces(text@, known_tool_names@), ids) && jsons(r@)
                == #[trigger] piece_blocks(
                answer_pieces(text@, known_tool_names@),
                ids,
                tool_name_map.restoring(),
            ),
{
    let parts = split_answer(text, known_tool_names);
    let ghost all = pieces_view(parts@);
    let ghost mut ids = Seq::<Seq<char>>::empty();
    let mut blocks: Vec<Json> = Vec::new();
    let mut i: usize = 0;
    while i < parts.len()
        invariant
            i <= parts@.len(),
            all == pieces_view(parts@),
            ids.len() == i,
            blocks@.len() == i,
            forall|k: int| 0 <= k < i && all[k] is Call ==> is_tool_id(#[trigger] ids[k]),
            forall|k: int|
                0 <= k < i ==> (#[trigger] blocks@[k])@ == piece_block(
                    all[k],
                    ids[k],
                    tool_name_map.restoring(),
                ),
        decreases parts.len() - i,
    {
        let id = match &parts[i] {
            Piece::Text(_) => String::new(),
            Piece::Call(_, _) => fresh_tool_id(),
        };
        let ghost before = ids;
        proof {
            ids = ids.push(id@);
        }
        blocks.push(block_of_piece(&parts[i], id.as_str(), tool_name_map));
        assert forall|k: int| 0 <= k < i + 1 && all[k] is Call implies is_tool_id(
            #[trigger] ids[k],
        ) by {
            if k < i {
                assert(ids[k] == before[k]);
            }
        }
        assert forall|k: int| 0 <= k < i + 1 implies (#[trigger] blocks@[k])@ == piece_block(
            all[k],
            ids[k],
            tool_name_map.restoring(),
        ) by {
            if k < i {
                assert(ids[k] == before[k]);
            }
        }
        i = i + 1;
    }
    assert(jsons(blocks@) =~= piece_blocks(all, ids, tool_name_map.restoring()));
    blocks
}

/// An answer in which no tool call is found is one text, unchanged.
pub proof fn text_without_calls_is_unchanged(
    rest: Seq<char>,
    pending: Seq<char>,
    fence: FenceV,
    known: Set<Seq<char>>,
)
    requires
        forall|i: int|
            0 <= i < pieces(rest, pending, fence, known).len() ==> #[trigger] pieces(
                rest,
                pending,
                fence,
                known,
            )[i] is Text,
    ensures
        pieces(rest, pending, fence, known) == text_piece(pending + rest),
    decreases rest.len(),
{
    if let Some(start) = invoke_start(rest) {
        if let Some(end) = invoke_end(rest, start) {
            if 0 < end <= rest.len() {
                if callable(pending, rest, start, end, fence, known) {
                    let before = lead(pending, rest.take(start));
                    let k = text_piece(pending + before).len() as int;
                    assert(pieces(rest, pending, fence, known)[k] is Call);
                } else {
                    text_without_calls_is_unchanged(
                        rest.skip(end),
                        pending + rest.take(end),
                        fence_after(fence, rest.take(end)),
                        known,
                    );
                    assert((pending + rest.take(end)) + rest.skip(end) =~= pending + rest);
                }
            }
        }
    }
}

/// Only declared tools are called: every call that is found names a known tool.
pub proof fn only_known_tools_are_called(
    rest: Seq<char>,
    pending: Seq<char>,
    fence: FenceV,
    known: Set<Seq<char>>,
)
    ensures
        forall|i: int|
            0 <= i < pieces(rest, pending, fence, known).len() ==> match #[trigger] pieces(
                rest,
                pending,
                fence,
                known,
            )[i] {
                PieceV::Call(name, _) => known.contains(name),
                PieceV::Text(t) => t.len() > 0,
            },
    decreases rest.len(),
{
    if let Some(start) = invoke_start(rest) {
        if let Some(end) = invoke_end(rest, start) {
            if 0 < end <= rest.len() {
                if callable(pending, rest, start, end, fence, known) {
                    only_known_tools_are_called(
                        rest.skip(end),
                        Seq::empty(),
                        fence_after(fence, lead(pending, rest.take(start))),
                        known,
                    );
                } else {
                    only_known_tools_are_called(
                        rest.skip(end),
                        pending + rest.take(end),
                        fence_after(fence, rest.take(end)),
                        known,
                    );
                }
            }
        }
    }
}

/// Nothing inside a code fence is called: a text that stands in an open fence from
/// its beginning to its end stays text.
pub proof fn a_fence_holds_no_calls(
    rest: Seq<char>,
    pending: Seq<char>,
    fence: FenceV,
    known: Set<Seq<char>>,
)
    requires
        forall|n: int| 0 <= n <= rest.len() ==> fence_after(fence, #[trigger] rest.take(n)).open,
    ensures
        pieces(rest, pending, fence, known) == text_piece(pending + rest),
    decreases rest.len(),
{
    if let Some(start) = invoke_start(rest) {
        if let Some(end) = invoke_end(rest, start) {
            if 0 < end <= rest.len() {
                lemma_invoke_start_fits(rest);
                assert(fence_after(fence, rest.take(start)).open);
                let head = rest.take(end);
                let tail = rest.skip(end);
                assert forall|n: int| 0 <= n <= tail.len() implies fence_after(
                    fence_after(fence, head),
                    #[trigger] tail.take(n),
                ).open by {
                    fence_is_independent_of_cuts(fence, head, tail.take(n));
                    assert(head + tail.take(n) =~= rest.take(end + n));
                }
                a_fence_holds_no_calls(tail, pending + head, fence_after(fence, head), known);
                assert((pending + head) + tail =~= pending + rest);
            }
        }
    }
}

} // verus!
