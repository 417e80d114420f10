//! The query of a web search that a model asks for.
use crate::json::{members_view, no_json, Json, JsonV};
use crate::text::{chars_of, opt_text, trim, trimmed};
use crate::tool_json::CompletedToolUse;
use vstd::prelude::*;

verus! {

/// The name of the tool that is run here and not by the client.
pub open spec fn search_tool() -> Seq<char> {
    "web_search"@
}

/// A query is a text that is not blank, without white space around it.
pub open spec fn query_text(t: Seq<char>) -> Option<Seq<char>> {
    if trimmed(t).len() == 0 {
        None
    } else {
        Some(trimmed(t))
    }
}

/// The first of two that is there.
pub open spec fn or_else(a: Option<Seq<char>>, b: Option<Seq<char>>) -> Option<Seq<char>> {
    if a is Some {
        a
    } else {
        b
    }
}

/// The query that a value holds: a text, the first of an array that holds one, or
/// that of the first of the keys `query`, `search_query`, `q`, `text` and `value`
/// of an object that holds one.
pub open spec fn query_in(v: JsonV) -> Option<Seq<char>>
    decreases v, 0nat,
{
    match v {
        JsonV::Text(t) => query_text(t),
        JsonV::Array(items) => first_query(items, 0),
        JsonV::Object(m) => or_else(
            query_under(m, "query"@),
            or_else(
                query_under(m, "search_query"@),
                or_else(
                    query_under(m, "q"@),
                    or_else(query_under(m, "text"@), query_under(m, "value"@)),
                ),
            ),
        ),
        _ => None,
    }
}

pub open spec fn first_query(items: Seq<JsonV>, from: int) -> Option<Seq<char>>
    decreases items, items.len() - from,
{
    if from < 0 || from >= items.len() {
        None
    } else if query_in(items[from]) is Some {
        query_in(items[from])
    } else {
        first_query(items, from + 1)
    }
}

/// The query under a key. Objects have finitely many members.
pub open spec fn query_under(m: Map<Seq<char>, JsonV>, key: Seq<char>) -> Option<Seq<char>>
    decreases m, 0nat,
{
    if m.dom().finite() && m.dom().contains(key) {
        query_in(m[key])
    } else {
        None
    }
}

/// The query under a key of a value.
pub open spec fn query_at(v: JsonV, key: Seq<char>) -> Option<Seq<char>> {
    match v.field(key) {
        Some(x) => query_in(x),
        None => None,
    }
}

/// The query of a tool call: under `query`, `search_query`, `q` or `queries`, or
/// else anywhere in its input.
pub open spec fn call_query(input: JsonV) -> Option<Seq<char>> {
    or_else(
        query_at(input, "query"@),
        or_else(
            query_at(input, "search_query"@),
            or_else(query_at(input, "q"@), or_else(query_at(input, "queries"@), query_in(input))),
        ),
    )
}

proof fn lemma_members_finite(members: Vec<(String, Json)>, n: nat)
    ensures
        members_view(members, n).dom().finite(),
    decreases n,
{
    if n > 0 && n <= members@.len() {
        lemma_members_finite(members, (n - 1) as nat);
    } else {
        assert(members_view(members, n) == no_json());
    }
}

/// The query that a value holds.
pub fn normalized_query_value(value: &Json) -> (r: Option<String>)
    ensures
        opt_text(r) == query_in(value@),
    decreases value, 0nat,
{
    match value {
        Json::Text(t) => {
            let query = trim(t.as_str());
            if chars_of(query.as_str()).len() == 0 {
                None
            } else {
                Some(query)
            }
        },
        Json::Array(items) => {
            let mut i: usize = 0;
            proof {
                crate::json::lemma_items_view(*items, items@.len());
            }
            let ghost all = value@->Array_0;
            while i < items.len()
                invariant
                    i <= items@.len(),
                    value matches Json::Array(v) && v == *items,
                    value@ == JsonV::Array(all),
                    all.len() == items@.len(),
                    forall|k: int| 0 <= k < items@.len() ==> #[trigger] all[k] == items@[k]@,
                    first_query(all, 0) == first_query(all, i as int),
                decreases items.len() - i,
            {
                assert(decreases_to!(items => items@[i as int]));
                assert(all[i as int] == items@[i as int]@);
                let found = normalized_query_value(&items[i]);
                if found.is_some() {
                    return found;
                }
                i = i + 1;
            }
            None
        },
        Json::Object(members) => {
            proof {
                lemma_members_finite(*members, members@.len());
            }
            let a = query_of_member(members, "query", value);
            if a.is_some() {
                return a;
            }
            let a = query_of_member(members, "search_query", value);
            if a.is_some() {
                return a;
            }
            let a = query_of_member(members, "q", value);
            if a.is_some() {
                return a;
            }
            let a = query_of_member(members, "text", value);
            if a.is_some() {
                return a;
            }
            query_of_member(members, "value", value)
        },
        _ => None,
    }
}

/// The query under a key, `whole` being the object with those members.
fn query_of_member(members: &Vec<(String, Json)>, key: &str, whole: &Json) -> (r: Option<String>)
    requires
        *whole == Json::Object(*members),
    ensures
        opt_text(r) == query_under(members_view(*members, members@.len()), key@),
    decreases members, 1nat,
{
    proof {
        lemma_members_finite(*members, members@.len());
    }
    let mut i: usize = members.len();
    while i > 0
        invariant
            i <= members@.len(),
            members_view(*members, members@.len()).dom().finite(),
            members_view(*members, members@.len()).dom().contains(key@) == members_view(
                *members,
                i as nat,
            ).dom().contains(key@),
            members_view(*members, members@.len()).dom().contains(key@) ==> members_view(
                *members,
                members@.len(),
            )[key@] == members_view(*members, i as nat)[key@],
        decreases i,
    {
        if crate::text::same_text(members[i - 1].0.as_str(), key) {
            assert(decreases_to!(members => members@[i - 1]));
            return normalized_query_value(&members[i - 1].1);
        }
        i = i - 1;
    }
    None
}

fn query_under_key(value: &Json, key: &str) -> (r: Option<String>)
    ensures
        opt_text(r) == query_at(value@, key@),
{
    match value.get(key) {
        Some(v) => normalized_query_value(v),
        None => None,
    }
}

/// The query of a tool call, if it has one.
pub fn tool_query(tu: &CompletedToolUse) -> (r: Option<String>)
    ensures
        opt_text(r) == call_query(tu@.input),
{
    let a = query_under_key(&tu.input, "query");
    if a.is_some() {
        return a;
    }
    let a = query_under_key(&tu.input, "search_query");
    if a.is_some() {
        return a;
    }
    let a = query_under_key(&tu.input, "q");
    if a.is_some() {
        return a;
    }
    let a = query_under_key(&tu.input, "queries");
    if a.is_some() {
        return a;
    }
    normalized_query_value(&tu.input)
}

/// A query is never blank and has no white space around it.
pub proof fn queries_are_trimmed(v: JsonV)
    ensures
        query_in(v) matches Some(q) ==> q.len() > 0 && trimmed(q) == q,
    decreases v, 0nat,
{
    match v {
        JsonV::Text(t) => {
            trimming_is_stable(t);
        },
        JsonV::Array(items) => {
            lemma_first_query_trimmed(items, 0);
        },
        JsonV::Object(m) => {
            lemma_under_trimmed(m, "query"@);
            lemma_under_trimmed(m, "search_query"@);
            lemma_under_trimmed(m, "q"@);
            lemma_under_trimmed(m, "text"@);
            lemma_under_trimmed(m, "value"@);
        },
        _ => {},
    }
}

proof fn lemma_first_query_trimmed(items: Seq<JsonV>, from: int)
    ensures
        first_query(items, from) matches Some(q) ==> q.len() > 0 && trimmed(q) == q,
    decreases items, items.len() - from,
{
    if 0 <= from < items.len() {
        queries_are_trimmed(items[from]);
        lemma_first_query_trimmed(items, from + 1);
    }
}

proof fn lemma_under_trimmed(m: Map<Seq<char>, JsonV>, key: Seq<char>)
    ensures
        query_under(m, key) matches Some(q) ==> q.len() > 0 && trimmed(q) == q,
    decreases m, 0nat,
{
    if m.dom().finite() && m.dom().contains(key) {
        queries_are_trimmed(m[key]);
    }
}

/// A trimmed text stays as it is.
pub proof fn trimming_is_stable(s: Seq<char>)
    ensures
        trimmed(trimmed(s)) == trimmed(s),
{
    let t = trimmed(s);
    let a = crate::text::trimmed_start(s);
    crate::text::lemma_skip_white(s, 0);
    crate::text::lemma_skip_white_back(a, a.len() as int);
    crate::text::lemma_skip_white(t, 0);
    crate::text::lemma_skip_white_back(t, t.len() as int);
    if t.len() > 0 {
        assert(t[0] == a[0]);
        assert(a[0] == s[crate::text::skip_white(s, 0)]);
        assert(crate::text::skip_white(t, 0) == 0);
        assert(t.skip(0) =~= t);
        assert(t[t.len() - 1] == a[t.len() - 1]);
        assert(crate::text::skip_white_back(t, t.len() as int) == t.len());
        assert(t.take(t.len() as int) =~= t);
    } else {
        assert(crate::text::skip_white(t, 0) == 0);
        assert(t.skip(0) =~= t);
        assert(t.take(0) =~= t);
    }
}

} // verus!
