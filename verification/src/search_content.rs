//! The content of an answer that web searches went into.
use crate::content_blocks::{
    answer_pieces, block_of_piece, calls_identified, piece_block, pieces_view, split_answer, Piece,
    PieceV,
};
use crate::ids::{fresh_search_id, fresh_tool_id, is_search_id};
use crate::json::{json_printed, Json, JsonV};
use crate::names::{NameSet, Restoring, ToolRestorer};
use crate::search_query::{call_query, search_tool, tool_query};
use crate::sse::{typed, typed_json};
use crate::stream::jsons;
use crate::text::{opt_text, same_text};
use crate::tool_json::{call_block, CallV, CompletedToolUse};
use vstd::prelude::*;

verus! {

/// How many rounds of search one answer may take.
pub const MAX_WEB_SEARCH_ROUNDS: usize = 5;

/// One page that a search found.
#[derive(Debug)]
pub struct WebSearchResult {
    pub title: String,
    pub url: String,
    pub snippet: Option<String>,
    /// When the page was published, in milliseconds since the epoch.
    pub published_date: Option<i64>,
}

/// What a search found.
#[derive(Debug)]
pub struct WebSearchResults {
    pub results: Vec<WebSearchResult>,
}

pub ghost struct PageV {
    pub title: Seq<char>,
    pub url: Seq<char>,
    pub snippet: Option<Seq<char>>,
    pub published: Option<i64>,
}

impl View for WebSearchResult {
    type V = PageV;

    open spec fn view(&self) -> PageV {
        PageV {
            title: self.title@,
            url: self.url@,
            snippet: opt_text(self.snippet),
            published: self.published_date,
        }
    }
}

impl View for WebSearchResults {
    type V = Seq<PageV>;

    open spec fn view(&self) -> Seq<PageV> {
        Seq::new(self.results@.len(), |i: int| self.results@[i]@)
    }
}

pub open spec fn opt_results(r: Option<WebSearchResults>) -> Option<Seq<PageV>> {
    match r {
        Some(x) => Some(x@),
        None => None,
    }
}

/// The date of a time in milliseconds since the epoch, as `chrono` writes it for
/// `%B %-d, %Y`; nothing for a time that it cannot hold.
pub uninterp spec fn date_text(millis: i64) -> Option<Seq<char>>;

/// `chrono::DateTime::from_timestamp_millis`, and `DateTime::format` with the
/// month's name, the day and the year, in UTC. The text depends on the time alone.
#[verifier::external_body]
fn format_date(millis: i64) -> (r: Option<String>)
    ensures
        opt_text(r) == date_text(millis),
{
    chrono::DateTime::from_timestamp_millis(millis).map(|t| t.format("%B %-d, %Y").to_string())
}

/// A text, or `null` where there is none.
pub open spec fn text_or_null(t: Option<Seq<char>>) -> JsonV {
    match t {
        Some(s) => JsonV::Text(s),
        None => JsonV::Null,
    }
}

/// The content block of a page.
pub open spec fn page_block(p: PageV) -> JsonV {
    dated_page_block(
        p,
        match p.published {
            Some(ms) => date_text(ms),
            None => None,
        },
    )
}

/// The pages of a search as content; no content where nothing was found.
pub open spec fn page_blocks(results: Option<Seq<PageV>>) -> Seq<JsonV> {
    match results {
        Some(pages) => Seq::new(pages.len(), |i: int| page_block(pages[i])),
        None => Seq::empty(),
    }
}

/// The content block of a page with its date as given.
pub open spec fn dated_page_block(p: PageV, date: Option<Seq<char>>) -> JsonV {
    typed("web_search_result"@).put("title"@, JsonV::Text(p.title)).put(
        "url"@,
        JsonV::Text(p.url),
    ).put(
        "encrypted_content"@,
        JsonV::Text(
            match p.snippet {
                Some(s) => s,
                None => ""@,
            },
        ),
    ).put("page_age"@, text_or_null(date))
}

/// The content block of a page with its date as given.
pub fn page_json(page: &WebSearchResult, date: Option<String>) -> (r: Json)
    ensures
        r@ == dated_page_block(page@, opt_text(date)),
{
    let snippet = match &page.snippet {
        Some(s) => Json::text(s.as_str()),
        None => Json::text(""),
    };
    let age = match date {
        Some(d) => Json::Text(d),
        None => Json::Null,
    };
    typed_json("web_search_result").with("title", Json::text(page.title.as_str())).with(
        "url",
        Json::text(page.url.as_str()),
    ).with("encrypted_content", snippet).with("page_age", age)
}

/// The pages of a search as content.
pub fn build_result_block(results: &Option<WebSearchResults>) -> (r: Vec<Json>)
    ensures
        jsons(r@) == page_blocks(opt_results(*results)),
{
    let mut out: Vec<Json> = Vec::new();
    match results {
        Some(found) => {
            let mut i: usize = 0;
            while i < found.results.len()
                invariant
                    i <= found.results@.len(),
                    out@.len() == i,
                    forall|k: int| 0 <= k < i ==> (#[trigger] out@[k])@ == page_block(found@[k]),
                decreases found.results.len() - i,
            {
                let page = &found.results[i];
                let date = match page.published_date {
                    Some(ms) => format_date(ms),
                    None => None,
                };
                out.push(page_json(page, date));
                assert(page@ == found@[i as int]);
                i = i + 1;
            }
        },
        None => {},
    }
    assert(jsons(out@) =~= page_blocks(opt_results(*results)));
    out
}

/// The block that shows a search to the client.
pub open spec fn search_use_block(id: Seq<char>, query: Seq<char>) -> JsonV {
    typed("server_tool_use"@).put("id"@, JsonV::Text(id)).put("name"@, JsonV::Text(search_tool())).put(
        "input"@,
        JsonV::object().put("query"@, JsonV::Text(query)),
    )
}

/// The block that shows what a search found.
pub open spec fn search_result_block(results: Option<Seq<PageV>>) -> JsonV {
    typed("web_search_tool_result"@).put("content"@, JsonV::Array(page_blocks(results)))
}

pub fn search_use_json(id: &str, query: &str) -> (r: Json)
    ensures
        r@ == search_use_block(id@, query@),
{
    typed_json("server_tool_use").with("id", Json::text(id)).with("name", Json::text("web_search")).with(
        "input",
        Json::object().with("query", Json::text(query)),
    )
}

pub fn search_result_json(results: &Option<WebSearchResults>) -> (r: Json)
    ensures
        r@ == search_result_block(opt_results(*results)),
{
    typed_json("web_search_tool_result").with("content", Json::array(build_result_block(results)))
}

pub open spec fn calls_view(v: Seq<CompletedToolUse>) -> Seq<CallV> {
    Seq::new(v.len(), |i: int| v[i]@)
}

/// The search goes on: tools were called, all of them were searches, and rounds
/// are left.
pub open spec fn goes_on(round: int, calls: Seq<CallV>) -> bool {
    &&& calls.len() > 0
    &&& forall|i: int| 0 <= i < calls.len() ==> (#[trigger] calls[i]).name == search_tool()
    &&& round < MAX_WEB_SEARCH_ROUNDS
}

/// Whether a round of search follows round `round_idx` with those tool calls.
pub fn should_search_round(round_idx: usize, tool_uses: &Vec<CompletedToolUse>) -> (r: bool)
    ensures
        r == goes_on(round_idx as int, calls_view(tool_uses@)),
{
    let mut i: usize = 0;
    while i < tool_uses.len()
        invariant
            i <= tool_uses@.len(),
            forall|k: int|
                0 <= k < i ==> (#[trigger] calls_view(tool_uses@)[k]).name == search_tool(),
        decreases tool_uses.len() - i,
    {
        if !same_text(tool_uses[i].name.as_str(), "web_search") {
            assert(calls_view(tool_uses@)[i as int].name != search_tool());
            return false;
        }
        i = i + 1;
    }
    tool_uses.len() > 0 && round_idx < MAX_WEB_SEARCH_ROUNDS
}

/// Those of the calls that are searches, or those that are not.
pub open spec fn only_calls(calls: Seq<CallV>, searches: bool) -> Seq<CallV>
    decreases calls.len(),
{
    if calls.len() == 0 {
        Seq::empty()
    } else {
        let before = only_calls(calls.drop_last(), searches);
        if (calls.last().name == search_tool()) == searches {
            before.push(calls.last())
        } else {
            before
        }
    }
}

pub open spec fn call_refs(v: Seq<&CompletedToolUse>) -> Seq<CallV> {
    Seq::new(v.len(), |i: int| v[i]@)
}

/// The calls that are searches, and those that are for the client.
pub fn partition_tool_uses<'a>(tool_uses: &'a Vec<CompletedToolUse>) -> (r: (
    Vec<&'a CompletedToolUse>,
    Vec<&'a CompletedToolUse>,
))
    ensures
        call_refs(r.0@) == only_calls(calls_view(tool_uses@), true),
        call_refs(r.1@) == only_calls(calls_view(tool_uses@), false),
{
    let ghost all = calls_view(tool_uses@);
    let mut web: Vec<&'a CompletedToolUse> = Vec::new();
    let mut client: Vec<&'a CompletedToolUse> = Vec::new();
    let mut i: usize = 0;
    assert(call_refs(web@) =~= only_calls(all.take(0), true));
    assert(call_refs(client@) =~= only_calls(all.take(0), false));
    while i < tool_uses.len()
        invariant
            i <= tool_uses@.len(),
            all == calls_view(tool_uses@),
            call_refs(web@) == only_calls(all.take(i as int), true),
            call_refs(client@) == only_calls(all.take(i as int), false),
        decreases tool_uses.len() - i,
    {
        assert(all.take(i + 1).drop_last() =~= all.take(i as int));
        let ghost w = call_refs(web@);
        let ghost c = call_refs(client@);
        let tu = &tool_uses[i];
        assert(all[i as int] == tu@);
        if same_text(tu.name.as_str(), "web_search") {
            web.push(tu);
            assert(call_refs(web@) =~= w.push(tu@));
        } else {
            client.push(tu);
            assert(call_refs(client@) =~= c.push(tu@));
        }
        i = i + 1;
    }
    assert(all.take(i as int) =~= all);
    (web, client)
}

/// A block is a tool call that the client has to run.
pub open spec fn is_client_call(block: JsonV) -> bool {
    block.text_field("type"@) == Some("tool_use"@) && block.text_field("name"@) != Some(
        search_tool(),
    )
}

/// Why the message ends: the reason that the upstream gave, or else `tool_use`
/// where the client has to run a tool, or else `end_turn`.
pub open spec fn flush_reason(
    given: Option<Seq<char>>,
    no_client_calls: bool,
    content: Seq<JsonV>,
) -> Seq<char> {
    match given {
        Some(r) => r,
        None => if !no_client_calls || exists|i: int|
            0 <= i < content.len() && is_client_call(#[trigger] content[i]) {
            "tool_use"@
        } else {
            "end_turn"@
        },
    }
}

fn is_client_call_block(block: &Json) -> (r: bool)
    ensures
        r == is_client_call(block@),
{
    let is_call = match block.get_text("type") {
        Some(t) => same_text(t.as_str(), "tool_use"),
        None => false,
    };
    let is_search = match block.get_text("name") {
        Some(n) => same_text(n.as_str(), "web_search"),
        None => false,
    };
    is_call && !is_search
}

/// Why the message ends.
pub fn resolve_flush_stop_reason(
    override_reason: &Option<String>,
    client_uses_empty: bool,
    content: &Vec<Json>,
) -> (r: String)
    ensures
        r@ == flush_reason(opt_text(*override_reason), client_uses_empty, jsons(content@)),
{
    match override_reason {
        Some(reason) => reason.clone(),
        None => {
            let mut i: usize = 0;
            let mut found = false;
            while i < content.len() && !found
                invariant
                    i <= content@.len(),
                    found ==> exists|k: int|
                        0 <= k < content@.len() && is_client_call(#[trigger] jsons(content@)[k]),
                    !found ==> forall|k: int|
                        0 <= k < i ==> !is_client_call(#[trigger] jsons(content@)[k]),
                decreases content.len() - i,
                    if found {
                        0int
                    } else {
                        1
                    },
            {
                if is_client_call_block(&content[i]) {
                    assert(is_client_call(jsons(content@)[i as int]));
                    found = true;
                } else {
                    assert(!is_client_call(jsons(content@)[i as int]));
                    i = i + 1;
                }
            }
            if found || !client_uses_empty {
                "tool_use".to_owned()
            } else {
                "end_turn".to_owned()
            }
        },
    }
}

/// A key that two inputs share if and only if they print alike; the order of
/// their members makes no difference.
pub fn canonical_input_key(input: &Json) -> (r: String)
    ensures
        r@ == json_printed(input@),
{
    input.to_text()
}

/// The piece repeats a call that was made in due form.
pub open spec fn repeats(
    piece: PieceV,
    calls: Seq<CallV>,
    names: Restoring,
) -> bool {
    match piece {
        PieceV::Text(_) => false,
        PieceV::Call(name, input) => exists|i: int|
            0 <= i < calls.len() && (#[trigger] calls[i]).name != search_tool() && calls[i].name
                == names(name, input).0 && json_printed(calls[i].input) == json_printed(
                names(name, input).1,
            ),
    }
}

/// The blocks of the first `n` pieces, without those that repeat a call.
pub open spec fn new_pieces(
    pieces: Seq<PieceV>,
    ids: Seq<Seq<char>>,
    calls: Seq<CallV>,
    names: Restoring,
    n: int,
) -> Seq<JsonV>
    decreases n,
{
    if n <= 0 {
        Seq::empty()
    } else {
        let before = new_pieces(pieces, ids, calls, names, n - 1);
        if repeats(pieces[n - 1], calls, names) {
            before
        } else {
            before.push(piece_block(pieces[n - 1], ids[n - 1], names))
        }
    }
}

/// The blocks of the first `n` calls: those of the client as they are, a search
/// as one that is over, with what it found.
pub open spec fn shown_calls(
    calls: Seq<CallV>,
    searched: Seq<Option<Seq<PageV>>>,
    ids: Seq<Seq<char>>,
    n: int,
) -> Seq<JsonV>
    decreases n,
{
    if n <= 0 {
        Seq::empty()
    } else {
        let before = shown_calls(calls, searched, ids, n - 1);
        let call = calls[n - 1];
        if call.name == search_tool() {
            before.push(search_use_block(ids[n - 1], query_or_empty(call))).push(
                search_result_block(
                    if n - 1 < searched.len() {
                        searched[n - 1]
                    } else {
                        None
                    },
                ),
            )
        } else {
            before.push(call_block(call))
        }
    }
}

pub open spec fn query_or_empty(call: CallV) -> Seq<char> {
    match call_query(call.input) {
        Some(q) => q,
        None => ""@,
    }
}

/// The content of the last round: what was shown before, the text with the calls
/// that were written into it, and the calls.
pub open spec fn flush_content(
    shown: Seq<JsonV>,
    pieces: Seq<PieceV>,
    piece_ids: Seq<Seq<char>>,
    calls: Seq<CallV>,
    searched: Seq<Option<Seq<PageV>>>,
    search_ids: Seq<Seq<char>>,
    names: Restoring,
) -> Seq<JsonV> {
    shown + new_pieces(pieces, piece_ids, calls, names, pieces.len() as int) + shown_calls(
        calls,
        searched,
        search_ids,
        calls.len() as int,
    )
}

pub open spec fn results_view(v: Seq<Option<WebSearchResults>>) -> Seq<Option<Seq<PageV>>> {
    Seq::new(v.len(), |i: int| opt_results(v[i]))
}

pub open spec fn texts(v: Seq<String>) -> Seq<Seq<char>> {
    Seq::new(v.len(), |i: int| v[i]@)
}

fn repeats_a_call<R: ToolRestorer>(
    piece: &Piece,
    tool_uses: &Vec<CompletedToolUse>,
    names: &R,
) -> (r: bool)
    ensures
        r == repeats(piece@, calls_view(tool_uses@), names.restoring()),
{
    match piece {
        Piece::Text(_) => false,
        Piece::Call(name, input) => {
            let (restored, arguments) = names.restore_call(name.as_str(), input.copy());
            let key = canonical_input_key(&arguments);
            let ghost form = (names.restoring())(name@, input@);
            let ghost calls = calls_view(tool_uses@);
            let mut i: usize = 0;
            while i < tool_uses.len()
                invariant
                    i <= tool_uses@.len(),
                    calls == calls_view(tool_uses@),
                    piece@ == PieceV::Call(name@, input@),
                    form == (names.restoring())(name@, input@),
                    restored@ == form.0,
                    key@ == json_printed(form.1),
                    forall|k: int|
                        0 <= k < i ==> !((#[trigger] calls[k]).name != search_tool()
                            && calls[k].name == form.0 && json_printed(calls[k].input)
                            == json_printed(form.1)),
                decreases tool_uses.len() - i,
            {
                let tu = &tool_uses[i];
                assert(calls[i as int] == tu@);
                if !same_text(tu.name.as_str(), "web_search") && same_text(
                    tu.name.as_str(),
                    restored.as_str(),
                ) {
                    let other = canonical_input_key(&tu.input);
                    if same_text(other.as_str(), key.as_str()) {
                        return true;
                    }
                }
                i = i + 1;
            }
            false
        },
    }
}

fn query_text_of(tu: &CompletedToolUse) -> (r: String)
    ensures
        r@ == query_or_empty(tu@),
{
    match tool_query(tu) {
        Some(q) => q,
        None => "".to_owned(),
    }
}

/// The content of the last round, under given identifiers.
pub fn flush_content_with<R: ToolRestorer>(
    presentation: Vec<Json>,
    pieces: &Vec<Piece>,
    piece_ids: &Vec<String>,
    tool_uses: &Vec<CompletedToolUse>,
    searched: &Vec<Option<WebSearchResults>>,
    search_ids: &Vec<String>,
    tool_name_map: &R,
) -> (r: Vec<Json>)
    requires
        piece_ids@.len() == pieces@.len(),
        search_ids@.len() == tool_uses@.len(),
    ensures
        jsons(r@) == flush_content(
            jsons(presentation@),
            pieces_view(pieces@),
            texts(piece_ids@),
            calls_view(tool_uses@),
            results_view(searched@),
            texts(search_ids@),
            tool_name_map.restoring(),
        ),
{
    let ghost shown = jsons(presentation@);
    let ghost ps = pieces_view(pieces@);
    let ghost pids = texts(piece_ids@);
    let ghost calls = calls_view(tool_uses@);
    let ghost found = results_view(searched@);
    let ghost sids = texts(search_ids@);
    let mut content = presentation;
    let mut i: usize = 0;
    assert(shown + new_pieces(ps, pids, calls, tool_name_map.restoring(), 0) =~= shown);
    while i < pieces.len()
        invariant
            i <= pieces@.len(),
            piece_ids@.len() == pieces@.len(),
            ps == pieces_view(pieces@),
            pids == texts(piece_ids@),
            calls == calls_view(tool_uses@),
            jsons(content@) == shown + new_pieces(ps, pids, calls, tool_name_map.restoring(), i as int),
        decreases pieces.len() - i,
    {
        assert(ps[i as int] == pieces@[i as int]@);
        assert(pids[i as int] == piece_ids@[i as int]@);
        if !repeats_a_call(&pieces[i], tool_uses, tool_name_map) {
            let ghost before = jsons(content@);
            let block = block_of_piece(&pieces[i], piece_ids[i].as_str(), tool_name_map);
            content.push(block);
            assert(jsons(content@) =~= before.push(block@));
            assert(before.push(block@) =~= shown + new_pieces(
                ps,
                pids,
                calls,
                tool_name_map.restoring(),
                i + 1,
            ));
        }
        i = i + 1;
    }
    let ghost first = jsons(content@);
    let mut j: usize = 0;
    assert(first + shown_calls(calls, found, sids, 0) =~= first);
    while j < tool_uses.len()
        invariant
            j <= tool_uses@.len(),
            search_ids@.len() == tool_uses@.len(),
            calls == calls_view(tool_uses@),
            found == results_view(searched@),
            sids == texts(search_ids@),
            jsons(content@) == first + shown_calls(calls, found, sids, j as int),
        decreases tool_uses.len() - j,
    {
        let tu = &tool_uses[j];
        assert(calls[j as int] == tu@);
        assert(sids[j as int] == search_ids@[j as int]@);
        let ghost before = jsons(content@);
        if same_text(tu.name.as_str(), "web_search") {
            let query = query_text_of(tu);
            let block = search_use_json(search_ids[j].as_str(), query.as_str());
            let result = if j < searched.len() {
                assert(found[j as int] == opt_results(searched@[j as int]));
                search_result_json(&searched[j])
            } else {
                search_result_json(&None)
            };
            content.push(block);
            content.push(result);
            assert(jsons(content@) =~= before.push(block@).push(result@));
            assert(before.push(block@).push(result@) =~= first + shown_calls(
                calls,
                found,
                sids,
                j + 1,
            ));
        } else {
            let block = tu.to_anthropic_block();
            content.push(block);
            assert(jsons(content@) =~= before.push(block@));
            assert(before.push(block@) =~= first + shown_calls(calls, found, sids, j + 1));
        }
        j = j + 1;
    }
    content
}

/// The searches among the calls have identifiers.
pub open spec fn searches_identified(calls: Seq<CallV>, ids: Seq<Seq<char>>) -> bool {
    ids.len() == calls.len() && forall|i: int|
        0 <= i < calls.len() && calls[i].name == search_tool() ==> is_search_id(#[trigger] ids[i])
}

/// Identifiers for the calls among the pieces.
pub fn draw_piece_ids(pieces: &Vec<Piece>) -> (r: Vec<String>)
    ensures
        calls_identified(pieces_view(pieces@), texts(r@)),
{
    let mut ids: Vec<String> = Vec::new();
    let mut i: usize = 0;
    while i < pieces.len()
        invariant
            i <= pieces@.len(),
            ids@.len() == i,
            forall|k: int|
                0 <= k < i && pieces_view(pieces@)[k] is Call ==> crate::ids::is_tool_id(
                    #[trigger] texts(ids@)[k],
                ),
        decreases pieces.len() - i,
    {
        let ghost before = ids@;
        let id = match &pieces[i] {
            Piece::Text(_) => String::new(),
            Piece::Call(_, _) => fresh_tool_id(),
        };
        ids.push(id);
        assert forall|k: int|
            0 <= k < i + 1 && pieces_view(pieces@)[k] is Call implies crate::ids::is_tool_id(
            #[trigger] texts(ids@)[k],
        ) by {
            if k < i {
                assert(texts(ids@)[k] == texts(before)[k]);
            }
        }
        i = i + 1;
    }
    ids
}

/// Identifiers for the searches among the calls.
pub fn draw_search_ids(tool_uses: &Vec<CompletedToolUse>) -> (r: Vec<String>)
    ensures
        searches_identified(calls_view(tool_uses@), texts(r@)),
{
    let mut ids: Vec<String> = Vec::new();
    let mut i: usize = 0;
    while i < tool_uses.len()
        invariant
            i <= tool_uses@.len(),
            ids@.len() == i,
            forall|k: int|
                0 <= k < i && calls_view(tool_uses@)[k].name == search_tool() ==> is_search_id(
                    #[trigger] texts(ids@)[k],
                ),
        decreases tool_uses.len() - i,
    {
        let ghost before = ids@;
        let id = if same_text(tool_uses[i].name.as_str(), "web_search") {
            fresh_search_id()
        } else {
            String::new()
        };
        ids.push(id);
        assert forall|k: int|
            0 <= k < i + 1 && calls_view(tool_uses@)[k].name == search_tool() implies is_search_id(
            #[trigger] texts(ids@)[k],
        ) by {
            if k < i {
                assert(texts(ids@)[k] == texts(before)[k]);
            }
        }
        i = i + 1;
    }
    ids
}

/// The content of the last round. The search tool is never called from the text.
pub fn build_flush_content<R: ToolRestorer>(
    presentation: Vec<Json>,
    text: &str,
    tool_uses: &Vec<CompletedToolUse>,
    searched: &Vec<Option<WebSearchResults>>,
    known_tool_names: &NameSet,
    tool_name_map: &R,
) -> (r: Vec<Json>)
    ensures
        ({
            let pieces = answer_pieces(text@, known_tool_names@.remove(search_tool()));
            exists|piece_ids: Seq<Seq<char>>, search_ids: Seq<Seq<char>>|
                calls_identified(pieces, piece_ids) && searches_identified(
                    calls_view(tool_uses@),
                    search_ids,
                ) && jsons(r@) == #[trigger] flush_content(
                    jsons(presentation@),
                    pieces,
                    piece_ids,
                    calls_view(tool_uses@),
                    results_view(searched@),
                    search_ids,
                    tool_name_map.restoring(),
                )
        }),
{
    let callable = known_tool_names.without("web_search");
    let pieces = split_answer(text, &callable);
    let piece_ids = draw_piece_ids(&pieces);
    let search_ids = draw_search_ids(tool_uses);
    flush_content_with(
        presentation,
        &pieces,
        &piece_ids,
        tool_uses,
        searched,
        &search_ids,
        tool_name_map,
    )
}

/// A block is a raw call of the search tool, which no client can run.
pub open spec fn is_raw_search(block: JsonV) -> bool {
    block.text_field("type"@) == Some("tool_use"@) && block.text_field("name"@) == Some(
        search_tool(),
    )
}

proof fn lemma_block_types()
    ensures
        "type"@ != "id"@,
        "type"@ != "name"@,
        "type"@ != "input"@,
        "type"@ != "text"@,
        "type"@ != "content"@,
        "name"@ != "input"@,
        "name"@ != "id"@,
        "tool_use"@ != "text"@,
        "tool_use"@ != "server_tool_use"@,
        "tool_use"@ != "web_search_tool_result"@,
{
    reveal_strlit("type");
    reveal_strlit("id");
    reveal_strlit("name");
    reveal_strlit("input");
    reveal_strlit("text");
    reveal_strlit("content");
    reveal_strlit("tool_use");
    reveal_strlit("server_tool_use");
    reveal_strlit("web_search_tool_result");
    assert("type"@[0] == 't' && "type"@[1] == 'y');
    assert("text"@[1] == 'e');
    assert("name"@[0] == 'n');
    assert("id"@.len() == 2);
    assert("tool_use"@.len() == 8);
    assert("server_tool_use"@.len() == 15);
    assert("web_search_tool_result"@.len() == 22);
}

/// The search tool never leaves as a raw call: neither a call that was made in due
/// form nor one that was written into the text becomes one, as long as no other
/// tool is shown to the client under the name of the search tool.
pub proof fn no_raw_search_is_flushed(
    shown: Seq<JsonV>,
    text: Seq<char>,
    known: Set<Seq<char>>,
    piece_ids: Seq<Seq<char>>,
    calls: Seq<CallV>,
    searched: Seq<Option<Seq<PageV>>>,
    search_ids: Seq<Seq<char>>,
    names: Restoring,
)
    requires
        forall|i: int| 0 <= i < shown.len() ==> !is_raw_search(#[trigger] shown[i]),
        forall|n: Seq<char>, input: JsonV|
            known.contains(n) && n != search_tool() ==> (#[trigger] names(n, input)).0
                != search_tool(),
    ensures
        ({
            let content = flush_content(
                shown,
                answer_pieces(text, known.remove(search_tool())),
                piece_ids,
                calls,
                searched,
                search_ids,
                names,
            );
            forall|i: int| 0 <= i < content.len() ==> !is_raw_search(#[trigger] content[i])
        }),
{
    let ps = answer_pieces(text, known.remove(search_tool()));
    crate::content_blocks::only_known_tools_are_called(
        crate::stray::guard_filter(crate::stray::fresh_guard(), text).1,
        Seq::empty(),
        crate::content_blocks::no_fence(),
        known.remove(search_tool()),
    );
    assert forall|i: int| 0 <= i < ps.len() implies match #[trigger] ps[i] {
        PieceV::Call(name, input) => names(name, input).0 != search_tool(),
        PieceV::Text(_) => true,
    } by {
        if let PieceV::Call(name, input) = ps[i] {
            assert(known.contains(name));
        }
    }
    lemma_pieces_not_raw(ps, piece_ids, calls, names, ps.len() as int);
    lemma_calls_not_raw(calls, searched, search_ids, calls.len() as int);
    let a = new_pieces(ps, piece_ids, calls, names, ps.len() as int);
    let b = shown_calls(calls, searched, search_ids, calls.len() as int);
    let content = shown + a + b;
    assert forall|i: int| 0 <= i < content.len() implies !is_raw_search(#[trigger] content[i]) by {
        if i < shown.len() {
            assert(content[i] == shown[i]);
        } else if i < shown.len() + a.len() {
            assert(content[i] == a[i - shown.len()]);
        } else {
            assert(content[i] == b[i - shown.len() - a.len()]);
        }
    }
}

proof fn lemma_pieces_not_raw(
    ps: Seq<PieceV>,
    ids: Seq<Seq<char>>,
    calls: Seq<CallV>,
    names: Restoring,
    n: int,
)
    requires
        0 <= n <= ps.len(),
        forall|i: int|
            0 <= i < ps.len() ==> match #[trigger] ps[i] {
                PieceV::Call(name, input) => names(name, input).0 != search_tool(),
                PieceV::Text(_) => true,
            },
    ensures
        forall|i: int|
            0 <= i < new_pieces(ps, ids, calls, names, n).len() ==> !is_raw_search(
                #[trigger] new_pieces(ps, ids, calls, names, n)[i],
            ),
    decreases n,
{
    if n > 0 {
        lemma_block_types();
        lemma_pieces_not_raw(ps, ids, calls, names, n - 1);
        let block = piece_block(ps[n - 1], ids[n - 1], names);
        assert(!is_raw_search(block));
        let before = new_pieces(ps, ids, calls, names, n - 1);
        let after = new_pieces(ps, ids, calls, names, n);
        assert forall|i: int| 0 <= i < after.len() implies !is_raw_search(#[trigger] after[i]) by {
            if i < before.len() {
                assert(after[i] == before[i]);
            }
        }
    }
}

proof fn lemma_calls_not_raw(
    calls: Seq<CallV>,
    searched: Seq<Option<Seq<PageV>>>,
    ids: Seq<Seq<char>>,
    n: int,
)
    ensures
        forall|i: int|
            0 <= i < shown_calls(calls, searched, ids, n).len() ==> !is_raw_search(
                #[trigger] shown_calls(calls, searched, ids, n)[i],
            ),
    decreases n,
{
    if n > 0 {
        lemma_block_types();
        lemma_calls_not_raw(calls, searched, ids, n - 1);
        let call = calls[n - 1];
        assert(!is_raw_search(search_use_block(ids[n - 1], query_or_empty(call))));
        assert forall|r: Option<Seq<PageV>>| !is_raw_search(#[trigger] search_result_block(r)) by {}
        if call.name != search_tool() {
            assert(!is_raw_search(call_block(call)));
        }
        let before = shown_calls(calls, searched, ids, n - 1);
        let after = shown_calls(calls, searched, ids, n);
        assert forall|i: int| 0 <= i < after.len() implies !is_raw_search(#[trigger] after[i]) by {
            if i < before.len() {
                assert(after[i] == before[i]);
            }
        }
    }
}

/// A call that was written into the text and made in due form as well is flushed
/// once: no piece that is flushed repeats a call.
pub proof fn no_call_is_flushed_twice(
    pieces: Seq<PieceV>,
    ids: Seq<Seq<char>>,
    calls: Seq<CallV>,
    names: Restoring,
    n: int,
)
    requires
        0 <= n <= pieces.len(),
    ensures
        forall|i: int|
            0 <= i < new_pieces(pieces, ids, calls, names, n).len() ==> exists|k: int|
                0 <= k < n && !repeats(#[trigger] pieces[k], calls, names) && (#[trigger] new_pieces(
                    pieces,
                    ids,
                    calls,
                    names,
                    n,
                )[i]) == piece_block(pieces[k], ids[k], names),
    decreases n,
{
    if n > 0 {
        no_call_is_flushed_twice(pieces, ids, calls, names, n - 1);
        let before = new_pieces(pieces, ids, calls, names, n - 1);
        let after = new_pieces(pieces, ids, calls, names, n);
        assert forall|i: int| 0 <= i < after.len() implies exists|k: int|
            0 <= k < n && !repeats(#[trigger] pieces[k], calls, names) && (#[trigger] after[i])
                == piece_block(pieces[k], ids[k], names) by {
            if i < before.len() {
                assert(after[i] == before[i]);
                let k = choose|k: int|
                    0 <= k < n - 1 && !repeats(#[trigger] pieces[k], calls, names) && before[i]
                        == piece_block(pieces[k], ids[k], names);
                assert(!repeats(pieces[k], calls, names));
            } else {
                assert(!repeats(pieces[n - 1], calls, names));
            }
        }
    }
}

/// The client's calls are passed on as they are and in their order: without
/// searches, the calls that are shown are the blocks of the calls.
pub proof fn client_calls_are_passed_on(
    calls: Seq<CallV>,
    searched: Seq<Option<Seq<PageV>>>,
    ids: Seq<Seq<char>>,
    n: int,
)
    requires
        0 <= n <= calls.len(),
        forall|i: int| 0 <= i < calls.len() ==> (#[trigger] calls[i]).name != search_tool(),
    ensures
        shown_calls(calls, searched, ids, n) == Seq::new(n as nat, |i: int| call_block(calls[i])),
    decreases n,
{
    if n > 0 {
        client_calls_are_passed_on(calls, searched, ids, n - 1);
        assert(calls[n - 1].name != search_tool());
    }
    assert(shown_calls(calls, searched, ids, n) =~= Seq::new(
        n as nat,
        |i: int| call_block(calls[i]),
    ));
}

} // verus!
