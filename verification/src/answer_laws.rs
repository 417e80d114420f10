//! Laws on the content of an answer that web searches went into: what the client is shown
//! of them, block by block.
use crate::content_blocks::{piece_block, PieceV};
use crate::json::{json_printed, JsonV};
use crate::names::Restoring;
use crate::search_content::{
    date_text, flush_content, flush_reason, goes_on, is_client_call, new_pieces, only_calls,
    page_blocks, repeats, search_result_block, search_use_block, shown_calls, PageV,
};
use crate::search_loop::shown_searches;
use crate::search_query::call_query;
use crate::tool_json::{call_block, CallV};
use vstd::prelude::*;

verus! {

/// The block of a page: its kind, its title, its address, what was quoted of it and its
/// date, `null` where there is none.
pub open spec fn page_members(p: PageV) -> JsonV {
    JsonV::Object(
        map![
            "type"@ => JsonV::Text("web_search_result"@),
            "title"@ => JsonV::Text(p.title),
            "url"@ => JsonV::Text(p.url),
            "encrypted_content"@ => JsonV::Text(match p.snippet {
                Some(s) => s,
                None => ""@,
            }),
            "page_age"@ => match p.published {
                Some(ms) => match date_text(ms) {
                    Some(d) => JsonV::Text(d),
                    None => JsonV::Null,
                },
                None => JsonV::Null,
            },
        ],
    )
}

/// A search shows exactly as many entries as it found pages, and entry by entry the title,
/// the address, the quote and the date of the page; a search that failed shows none.
pub proof fn every_page_is_shown(pages: Seq<PageV>)
    ensures
        page_blocks(Some(pages)).len() == pages.len(),
        forall|i: int|
            0 <= i < pages.len() ==> #[trigger] page_blocks(Some(pages))[i] == page_members(
                pages[i],
            ),
        page_blocks(None).len() == 0,
        search_result_block(Some(pages)) == JsonV::Object(
            map![
                "type"@ => JsonV::Text("web_search_tool_result"@),
                "content"@ => JsonV::Array(Seq::new(pages.len(), |i: int| page_members(pages[i]))),
            ],
        ),
        search_result_block(None) == JsonV::Object(
            map![
                "type"@ => JsonV::Text("web_search_tool_result"@),
                "content"@ => JsonV::Array(Seq::empty()),
            ],
        ),
{
    assert(page_blocks(Some(pages)) =~= Seq::new(pages.len(), |i: int| page_members(pages[i])));
}

/// A search is shown under its identifier, with the query that is searched for.
pub proof fn a_search_is_shown_with_its_query(id: Seq<char>, query: Seq<char>)
    ensures
        search_use_block(id, query) == JsonV::Object(
            map![
                "type"@ => JsonV::Text("server_tool_use"@),
                "id"@ => JsonV::Text(id),
                "name"@ => JsonV::Text("web_search"@),
                "input"@ => JsonV::Object(map!["query"@ => JsonV::Text(query)]),
            ],
        ),
{
}

/// A call is shown with its identifier, its name and its arguments.
pub proof fn a_call_is_shown_with_its_arguments(call: CallV)
    ensures
        call_block(call) == JsonV::Object(
            map![
                "type"@ => JsonV::Text("tool_use"@),
                "id"@ => JsonV::Text(call.id),
                "name"@ => JsonV::Text(call.name),
                "input"@ => call.input,
            ],
        ),
{
}

/// A piece of an answer is shown as the text that it is, or as the call that it is, under
/// its identifier and in the form in which the client declared the tool.
pub proof fn a_piece_is_shown_as_what_it_is(
    text: Seq<char>,
    name: Seq<char>,
    input: JsonV,
    id: Seq<char>,
    names: Restoring,
)
    ensures
        piece_block(PieceV::Text(text), id, names) == JsonV::Object(
            map!["type"@ => JsonV::Text("text"@), "text"@ => JsonV::Text(text)],
        ),
        piece_block(PieceV::Call(name, input), id, names) == JsonV::Object(
            map![
                "type"@ => JsonV::Text("tool_use"@),
                "id"@ => JsonV::Text(id),
                "name"@ => JsonV::Text(names(name, input).0),
                "input"@ => names(name, input).1,
            ],
        ),
{
}

/// Each search of a round is shown with its own identifier and query, and right behind it
/// what it found.
pub proof fn each_search_is_shown_with_what_it_found(
    calls: Seq<CallV>,
    searched: Seq<Option<Seq<PageV>>>,
    ids: Seq<Seq<char>>,
    n: int,
)
    requires
        0 <= n <= calls.len(),
    ensures
        shown_searches(calls, searched, ids, n).len() == 2 * n,
        forall|i: int|
            0 <= i < n ==> #[trigger] shown_searches(calls, searched, ids, n)[2 * i]
                == search_use_block(
                ids[i],
                match call_query(calls[i].input) {
                    Some(q) => q,
                    None => ""@,
                },
            ),
        forall|i: int|
            0 <= i < n ==> #[trigger] shown_searches(calls, searched, ids, n)[2 * i + 1]
                == search_result_block(searched[i]),
    decreases n,
{
    if n > 0 {
        each_search_is_shown_with_what_it_found(calls, searched, ids, n - 1);
        let before = shown_searches(calls, searched, ids, n - 1);
        let after = shown_searches(calls, searched, ids, n);
        assert forall|i: int| 0 <= i < n implies #[trigger] after[2 * i] == search_use_block(
            ids[i],
            match call_query(calls[i].input) {
                Some(q) => q,
                None => ""@,
            },
        ) by {
            if i < n - 1 {
                assert(after[2 * i] == before[2 * i]);
            }
        }
        assert forall|i: int| 0 <= i < n implies #[trigger] after[2 * i + 1] == search_result_block(
            searched[i],
        ) by {
            if i < n - 1 {
                assert(after[2 * i + 1] == before[2 * i + 1]);
            }
        }
    }
}

/// How many of the first `n` calls are searches.
pub open spec fn searches_among(calls: Seq<CallV>, n: int) -> int
    decreases n,
{
    if n <= 0 {
        0
    } else {
        searches_among(calls, n - 1) + if calls[n - 1].name == "web_search"@ {
            1int
        } else {
            0
        }
    }
}

proof fn lemma_searches_among(calls: Seq<CallV>, i: int, n: int)
    requires
        0 <= i <= n,
    ensures
        0 <= searches_among(calls, i) <= searches_among(calls, n),
        searches_among(calls, n) - searches_among(calls, i) <= n - i,
        i < n && calls[i].name == "web_search"@ ==> searches_among(calls, i) + 1 <= searches_among(
            calls,
            n,
        ),
    decreases n, i,
{
    if i < n {
        lemma_searches_among(calls, i, n - 1);
    } else if n > 0 {
        lemma_searches_among(calls, n - 1, n - 1);
    }
}

/// The calls of the last round are all shown, in their order: a call of the client as the
/// block that it is, a search as two blocks, the search with its query and what it found.
pub proof fn every_call_is_shown_in_its_place(
    calls: Seq<CallV>,
    searched: Seq<Option<Seq<PageV>>>,
    ids: Seq<Seq<char>>,
    n: int,
)
    requires
        0 <= n <= calls.len(),
    ensures
        shown_calls(calls, searched, ids, n).len() == n + searches_among(calls, n),
        forall|i: int|
            0 <= i < n ==> ({
                let shown = shown_calls(calls, searched, ids, n);
                let at = i + searches_among(calls, i);
                if (#[trigger] calls[i]).name == "web_search"@ {
                    &&& shown[at] == search_use_block(
                        ids[i],
                        match call_query(calls[i].input) {
                            Some(q) => q,
                            None => ""@,
                        },
                    )
                    &&& shown[at + 1] == search_result_block(
                        if i < searched.len() {
                            searched[i]
                        } else {
                            None
                        },
                    )
                } else {
                    shown[at] == call_block(calls[i])
                }
            }),
    decreases n,
{
    if n > 0 {
        every_call_is_shown_in_its_place(calls, searched, ids, n - 1);
        let before = shown_calls(calls, searched, ids, n - 1);
        let after = shown_calls(calls, searched, ids, n);
        lemma_searches_among(calls, n - 1, n);
        assert forall|i: int| 0 <= i < n implies ({
            let at = i + searches_among(calls, i);
            if (#[trigger] calls[i]).name == "web_search"@ {
                &&& after[at] == search_use_block(
                    ids[i],
                    match call_query(calls[i].input) {
                        Some(q) => q,
                        None => ""@,
                    },
                )
                &&& after[at + 1] == search_result_block(
                    if i < searched.len() {
                        searched[i]
                    } else {
                        None
                    },
                )
            } else {
                after[at] == call_block(calls[i])
            }
        }) by {
            let at = i + searches_among(calls, i);
            if i < n - 1 {
                lemma_searches_among(calls, i, n - 1);
                assert(at < before.len());
                assert(after[at] == before[at]);
                if calls[i].name == "web_search"@ {
                    assert(at + 1 < before.len());
                    assert(after[at + 1] == before[at + 1]);
                }
            }
        }
    }
}

/// How many of the first `n` pieces repeat a call.
pub open spec fn repeated_among(
    pieces: Seq<PieceV>,
    calls: Seq<CallV>,
    names: Restoring,
    n: int,
) -> int
    decreases n,
{
    if n <= 0 {
        0
    } else {
        repeated_among(pieces, calls, names, n - 1) + if repeats(pieces[n - 1], calls, names) {
            1int
        } else {
            0
        }
    }
}

proof fn lemma_repeated_among(
    pieces: Seq<PieceV>,
    calls: Seq<CallV>,
    names: Restoring,
    i: int,
    n: int,
)
    requires
        0 <= i <= n,
    ensures
        0 <= repeated_among(pieces, calls, names, i) <= i,
        repeated_among(pieces, calls, names, n) - repeated_among(pieces, calls, names, i) <= n - i,
        i < n && !repeats(pieces[i], calls, names) ==> repeated_among(pieces, calls, names, n)
            - repeated_among(pieces, calls, names, i) < n - i,
    decreases n, i,
{
    if i < n {
        lemma_repeated_among(pieces, calls, names, i, n - 1);
    } else if n > 0 {
        lemma_repeated_among(pieces, calls, names, n - 1, n - 1);
    }
}

/// Every piece of the text of an answer is shown in its place, but for the calls that were
/// made in due form as well. A text is no such call, and a call is one only if a tool of
/// the client was called under its name and with arguments that print alike.
pub proof fn every_piece_is_shown_unless_it_repeats_a_call(
    pieces: Seq<PieceV>,
    ids: Seq<Seq<char>>,
    calls: Seq<CallV>,
    names: Restoring,
    n: int,
)
    requires
        0 <= n <= pieces.len(),
    ensures
        new_pieces(pieces, ids, calls, names, n).len() == n - repeated_among(
            pieces,
            calls,
            names,
            n,
        ),
        forall|i: int|
            0 <= i < n && !repeats(#[trigger] pieces[i], calls, names) ==> new_pieces(
                pieces,
                ids,
                calls,
                names,
                n,
            )[i - repeated_among(pieces, calls, names, i)] == piece_block(
                pieces[i],
                ids[i],
                names,
            ),
        forall|i: int|
            0 <= i < n ==> (repeats(#[trigger] pieces[i], calls, names) <==> (pieces[i] matches PieceV::Call(
                name,
                input,
            ) && exists|k: int|
                0 <= k < calls.len() && (#[trigger] calls[k]).name != "web_search"@
                    && calls[k].name == names(name, input).0 && json_printed(calls[k].input)
                    == json_printed(names(name, input).1))),
    decreases n,
{
    if n > 0 {
        every_piece_is_shown_unless_it_repeats_a_call(pieces, ids, calls, names, n - 1);
        let before = new_pieces(pieces, ids, calls, names, n - 1);
        let after = new_pieces(pieces, ids, calls, names, n);
        assert forall|i: int| 0 <= i < n && !repeats(#[trigger] pieces[i], calls, names) implies after[
            i - repeated_among(pieces, calls, names, i)
        ] == piece_block(pieces[i], ids[i], names) by {
            let at = i - repeated_among(pieces, calls, names, i);
            if i < n - 1 {
                lemma_repeated_among(pieces, calls, names, i, n - 1);
                assert(0 <= at < before.len());
                assert(after[at] == before[at]);
            }
        }
    }
}

/// The content of the last round is what was shown before, then the pieces of its text,
/// then its calls.
pub proof fn content_comes_in_its_order(
    shown: Seq<JsonV>,
    pieces: Seq<PieceV>,
    piece_ids: Seq<Seq<char>>,
    calls: Seq<CallV>,
    searched: Seq<Option<Seq<PageV>>>,
    search_ids: Seq<Seq<char>>,
    names: Restoring,
)
    ensures
        ({
            let content = flush_content(
                shown,
                pieces,
                piece_ids,
                calls,
                searched,
                search_ids,
                names,
            );
            let a = new_pieces(pieces, piece_ids, calls, names, pieces.len() as int);
            let b = shown_calls(calls, searched, search_ids, calls.len() as int);
            &&& content.len() == shown.len() + a.len() + b.len()
            &&& content.take(shown.len() as int) == shown
            &&& content.subrange(shown.len() as int, (shown.len() + a.len()) as int) == a
            &&& content.skip((shown.len() + a.len()) as int) == b
        }),
{
    let content = flush_content(shown, pieces, piece_ids, calls, searched, search_ids, names);
    let a = new_pieces(pieces, piece_ids, calls, names, pieces.len() as int);
    let b = shown_calls(calls, searched, search_ids, calls.len() as int);
    assert(content.take(shown.len() as int) =~= shown);
    assert(content.subrange(shown.len() as int, (shown.len() + a.len()) as int) =~= a);
    assert(content.skip((shown.len() + a.len()) as int) =~= b);
}

/// A round is followed by another one if and only if it called tools, all of them the
/// search, and fewer than five rounds have been searched.
pub proof fn only_searches_lead_to_another_round(round: int, calls: Seq<CallV>)
    ensures
        goes_on(round, calls) <==> (calls.len() > 0 && round < 5 && !(exists|i: int|
            0 <= i < calls.len() && (#[trigger] calls[i]).name != "web_search"@)),
{
}

/// The calls are parted into searches and calls of the client, none being lost, made up or
/// moved past another of its kind.
pub proof fn calls_are_parted_by_their_names(calls: Seq<CallV>)
    ensures
        only_calls(calls, true).len() == searches_among(calls, calls.len() as int),
        only_calls(calls, true).len() + only_calls(calls, false).len() == calls.len(),
        forall|i: int|
            0 <= i < calls.len() ==> ({
                let k = searches_among(calls, i);
                if (#[trigger] calls[i]).name == "web_search"@ {
                    only_calls(calls, true)[k] == calls[i]
                } else {
                    only_calls(calls, false)[i - k] == calls[i]
                }
            }),
    decreases calls.len(),
{
    if calls.len() > 0 {
        let n = calls.len() as int;
        let rest = calls.drop_last();
        calls_are_parted_by_their_names(rest);
        lemma_searches_same(calls, rest, n - 1);
        let a = only_calls(calls, true);
        let b = only_calls(calls, false);
        let a0 = only_calls(rest, true);
        let b0 = only_calls(rest, false);
        assert forall|i: int| 0 <= i < n implies ({
            let k = searches_among(calls, i);
            if (#[trigger] calls[i]).name == "web_search"@ {
                a[k] == calls[i]
            } else {
                b[i - k] == calls[i]
            }
        }) by {
            let k = searches_among(calls, i);
            lemma_searches_among(calls, 0, i);
            lemma_searches_among(calls, i, n - 1);
            if i < n - 1 {
                assert(rest[i] == calls[i]);
                lemma_searches_same(calls, rest, i);
                if calls[i].name == "web_search"@ {
                    assert(k < a0.len());
                    assert(a[k] == a0[k]);
                } else {
                    assert(searches_among(calls, n - 1) - k <= n - 1 - i);
                    lemma_others_left(calls, i, n - 1);
                    assert(0 <= i - k < b0.len());
                    assert(b[i - k] == b0[i - k]);
                }
            }
        }
    }
}

proof fn lemma_others_left(calls: Seq<CallV>, i: int, n: int)
    requires
        0 <= i < n,
        calls[i].name != "web_search"@,
    ensures
        searches_among(calls, n) - searches_among(calls, i) < n - i,
    decreases n,
{
    if i < n - 1 {
        lemma_others_left(calls, i, n - 1);
    }
}

proof fn lemma_searches_same(a: Seq<CallV>, b: Seq<CallV>, n: int)
    requires
        n <= a.len(),
        n <= b.len(),
        forall|i: int| 0 <= i < n ==> a[i] == b[i],
    ensures
        searches_among(a, n) == searches_among(b, n),
    decreases n,
{
    if n > 0 {
        lemma_searches_same(a, b, n - 1);
    }
}

/// A message ends for the reason that the upstream gave; otherwise because the client has
/// to run a tool, if it was called in due form or in the text; otherwise because the
/// answer is complete.
pub proof fn a_message_stops_for_the_first_reason_that_holds(
    given: Seq<char>,
    no_client_calls: bool,
    content: Seq<JsonV>,
    i: int,
    call: Map<Seq<char>, JsonV>,
)
    ensures
        flush_reason(Some(given), no_client_calls, content) == given,
        flush_reason(None, false, content) == "tool_use"@,
        0 <= i < content.len() && content[i] == JsonV::Object(call) && call.dom().contains("type"@)
            && call["type"@] == JsonV::Text("tool_use"@) && !(call.dom().contains("name"@)
            && call["name"@] == JsonV::Text("web_search"@)) ==> flush_reason(
            None,
            no_client_calls,
            content,
        ) == "tool_use"@,
        (forall|k: int|
            0 <= k < content.len() ==> !(#[trigger] content[k] matches JsonV::Object(m)
                && m.dom().contains("type"@) && m["type"@] == JsonV::Text("tool_use"@)
                && !(m.dom().contains("name"@) && m["name"@] == JsonV::Text("web_search"@))))
            ==> flush_reason(None, true, content) == "end_turn"@,
{
    if 0 <= i < content.len() && content[i] == JsonV::Object(call) && call.dom().contains("type"@)
        && call["type"@] == JsonV::Text("tool_use"@) && !(call.dom().contains("name"@)
        && call["name"@] == JsonV::Text("web_search"@)) {
        assert(is_client_call(content[i]));
    }
    if forall|k: int|
        0 <= k < content.len() ==> !(#[trigger] content[k] matches JsonV::Object(m)
            && m.dom().contains("type"@) && m["type"@] == JsonV::Text("tool_use"@)
            && !(m.dom().contains("name"@) && m["name"@] == JsonV::Text("web_search"@))) {
        assert forall|k: int| 0 <= k < content.len() implies !is_client_call(
            #[trigger] content[k],
        ) by {}
    }
}

} // verus!
