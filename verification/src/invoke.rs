//! Recognising tool calls that were written into plain text.
//!
//! A call is written as an `<invoke name="..">` tag, `<parameter name="..">`
//! tags inside it and `</invoke>` at its end, each with or without a namespace
//! prefix such as `<ns:invoke ..>`.
use crate::json::{Json, JsonV};
use crate::text::{
    char_from, chars_of, find_char, find_from, first_occurrence, first_such, is_at, last_such,
    lemma_first_such, lemma_last_such, occurs_at, opt_int, opt_text, text_between,
};
use crate::thinking::{is_quote_mark, quote_at};
use vstd::prelude::*;
use vstd::slice::slice_subrange;

verus! {

/// A letter, a digit or an underscore, all of ASCII.
pub open spec fn is_ident(c: char) -> bool {
    'a' <= c <= 'z' || 'A' <= c <= 'Z' || '0' <= c <= '9' || c == '_'
}

fn is_ident_char(c: char) -> (r: bool)
    ensures
        r == is_ident(c),
{
    ('a' <= c && c <= 'z') || ('A' <= c && c <= 'Z') || ('0' <= c && c <= '9') || c == '_'
}

/// Where the run of identifier characters that ends before `p` begins.
pub open spec fn ident_start(s: Seq<char>, p: int) -> int
    decreases p,
{
    if 0 < p <= s.len() && is_ident(s[p - 1]) {
        ident_start(s, p - 1)
    } else {
        p
    }
}

fn ident_from(s: &[char], p: usize) -> (r: usize)
    requires
        p <= s@.len(),
    ensures
        r == ident_start(s@, p as int),
        r <= p,
{
    let mut j: usize = p;
    while j > 0 && is_ident_char(s[j - 1])
        invariant
            j <= p <= s@.len(),
            ident_start(s@, p as int) == ident_start(s@, j as int),
        decreases j,
    {
        j = j - 1;
    }
    j
}

/// The position of the `<` of an opening tag whose name stands at `p`, written
/// `<name` or `<prefix:name`.
pub open spec fn open_tag_lt(s: Seq<char>, p: int) -> Option<int> {
    if p <= 0 || p > s.len() {
        None
    } else if s[p - 1] == '<' {
        Some(p - 1)
    } else if s[p - 1] == ':' {
        let j = ident_start(s, p - 1);
        if j < p - 1 && j > 0 && s[j - 1] == '<' {
            Some(j - 1)
        } else {
            None
        }
    } else {
        None
    }
}

pub fn open_tag_lt_pos(s: &[char], p: usize) -> (r: Option<usize>)
    requires
        p <= s@.len(),
    ensures
        opt_int(r) == open_tag_lt(s@, p as int),
        r matches Some(lt) ==> lt < p,
{
    if p == 0 {
        return None;
    }
    if s[p - 1] == '<' {
        return Some(p - 1);
    }
    if s[p - 1] == ':' {
        let j: usize = ident_from(s, p - 1);
        if j < p - 1 && j > 0 && s[j - 1] == '<' {
            return Some(j - 1);
        }
    }
    None
}

/// The position of the `<` of a closing tag whose name stands at `p`, written
/// `</name` or `</prefix:name`.
pub open spec fn close_tag_lt(s: Seq<char>, p: int) -> Option<int> {
    if p > s.len() {
        None
    } else if p >= 2 && s[p - 2] == '<' && s[p - 1] == '/' {
        Some(p - 2)
    } else if p >= 1 && s[p - 1] == ':' {
        let j = ident_start(s, p - 1);
        if j >= 2 && s[j - 2] == '<' && s[j - 1] == '/' {
            Some(j - 2)
        } else {
            None
        }
    } else {
        None
    }
}

fn close_tag_lt_pos(s: &[char], p: usize) -> (r: Option<usize>)
    requires
        p <= s@.len(),
    ensures
        opt_int(r) == close_tag_lt(s@, p as int),
        r matches Some(lt) ==> lt < p,
{
    if p >= 2 && s[p - 2] == '<' && s[p - 1] == '/' {
        return Some(p - 2);
    }
    if p >= 1 && s[p - 1] == ':' {
        let j: usize = ident_from(s, p - 1);
        if j >= 2 && s[j - 2] == '<' && s[j - 1] == '/' {
            return Some(j - 2);
        }
    }
    None
}

/// A tag name may end before position `i`: the text ends there, or ASCII white
/// space, `>` or `/` follows.
pub open spec fn name_ends(s: Seq<char>, i: int) -> bool {
    i >= s.len() || s[i] == ' ' || s[i] == '\t' || s[i] == '\n' || s[i] == '\u{c}' || s[i] == '\r'
        || s[i] == '>' || s[i] == '/'
}

/// The name of an opening `invoke` tag stands at a position.
pub open spec fn invoke_name_here(s: Seq<char>) -> spec_fn(int) -> bool {
    |p: int|
        occurs_at(s, "invoke"@, p) && open_tag_lt(s, p) is Some && name_ends(s, p + 6)
}

/// The name of an opening `invoke` tag without a quoting character before it.
pub open spec fn invoke_start_here(s: Seq<char>) -> spec_fn(int) -> bool {
    |p: int| invoke_name_here(s)(p) && !quote_at(s, open_tag_lt(s, p)->Some_0 - 1)
}

fn is_invoke_name(s: &[char], invoke: &[char], p: usize) -> (r: Option<usize>)
    requires
        invoke@ == "invoke"@,
        p < s@.len(),
    ensures
        r is Some == invoke_name_here(s@)(p as int),
        r matches Some(lt) ==> open_tag_lt(s@, p as int) == Some(lt as int) && lt < p,
{
    proof {
        reveal_strlit("invoke");
    }
    let n: usize = s.len();
    if !is_at(s, invoke, p) {
        return None;
    }
    let after: usize = p + 6;
    let ends = after >= n || s[after] == ' ' || s[after] == '\t' || s[after] == '\n'
        || s[after] == '\u{c}' || s[after] == '\r' || s[after] == '>' || s[after] == '/';
    if !ends {
        return None;
    }
    open_tag_lt_pos(s, p)
}

/// The `<` of the first `invoke` tag that no quoting character precedes.
pub open spec fn invoke_start(s: Seq<char>) -> Option<int> {
    match first_such(invoke_start_here(s), 0, s.len() as int) {
        Some(p) => open_tag_lt(s, p),
        None => None,
    }
}

pub fn find_invoke_start(s: &[char]) -> (r: Option<usize>)
    ensures
        opt_int(r) == invoke_start(s@),
        r matches Some(lt) ==> lt < s@.len(),
{
    let invoke = chars_of("invoke");
    let mut p: usize = 0;
    while p < s.len()
        invariant
            p <= s@.len(),
            invoke@ == "invoke"@,
            first_such(invoke_start_here(s@), 0, s@.len() as int) == first_such(
                invoke_start_here(s@),
                p as int,
                s@.len() as int,
            ),
        decreases s.len() - p,
    {
        if let Some(lt) = is_invoke_name(s, invoke.as_slice(), p) {
            if !(lt > 0 && is_quote_mark(s[lt - 1])) {
                return Some(lt);
            }
        }
        p = p + 1;
    }
    None
}

/// The `<` of the first `invoke` tag in `s`, quoted or not.
pub open spec fn invoke_open(s: Seq<char>) -> Option<int> {
    match first_such(invoke_name_here(s), 0, s.len() as int) {
        Some(p) => open_tag_lt(s, p),
        None => None,
    }
}

fn find_invoke_open(s: &[char]) -> (r: Option<usize>)
    ensures
        opt_int(r) == invoke_open(s@),
        r matches Some(lt) ==> lt < s@.len(),
{
    let invoke = chars_of("invoke");
    let mut p: usize = 0;
    while p < s.len()
        invariant
            p <= s@.len(),
            invoke@ == "invoke"@,
            first_such(invoke_name_here(s@), 0, s@.len() as int) == first_such(
                invoke_name_here(s@),
                p as int,
                s@.len() as int,
            ),
        decreases s.len() - p,
    {
        if let Some(lt) = is_invoke_name(s, invoke.as_slice(), p) {
            return Some(lt);
        }
        p = p + 1;
    }
    None
}

/// The `<` of the next `invoke` tag behind the tag that begins at `start`.
pub open spec fn next_invoke_open(s: Seq<char>, start: int) -> Option<int> {
    match char_from(s, '>', start) {
        Some(gt) => match invoke_open(s.skip(gt + 1)) {
            Some(lt) => Some(gt + 1 + lt),
            None => None,
        },
        None => None,
    }
}

fn find_next_invoke_open(s: &[char], start: usize) -> (r: Option<usize>)
    requires
        start <= s@.len(),
    ensures
        opt_int(r) == next_invoke_open(s@, start as int),
        r matches Some(lt) ==> start < lt < s@.len(),
{
    let n: usize = s.len();
    match find_char(s, '>', start) {
        Some(gt) => {
            let rest = slice_subrange(s, gt + 1, n);
            assert(rest@ =~= s@.skip(gt + 1));
            match find_invoke_open(rest) {
                Some(lt) => Some(gt + 1 + lt),
                None => None,
            }
        },
        None => None,
    }
}

/// A closing tag whose name and `>` are `name_gt` stands at a position.
pub open spec fn close_here(s: Seq<char>, name_gt: Seq<char>) -> spec_fn(int) -> bool {
    |p: int| occurs_at(s, name_gt, p) && close_tag_lt(s, p) is Some
}

/// The last closing tag of `s` with that name: where it begins and ends.
pub open spec fn last_close(s: Seq<char>, name_gt: Seq<char>) -> Option<(int, int)> {
    match last_such(close_here(s, name_gt), 0, s.len() as int) {
        Some(p) => Some((close_tag_lt(s, p)->Some_0, p + name_gt.len())),
        None => None,
    }
}

fn find_last_close(s: &[char], name_gt: &[char]) -> (r: Option<(usize, usize)>)
    ensures
        match r {
            Some((from, to)) => last_close(s@, name_gt@) == Some((from as int, to as int)) && from
                < to <= s@.len(),
            None => last_close(s@, name_gt@) is None,
        },
{
    let mut p: usize = s.len();
    while p > 0
        invariant
            p <= s@.len(),
            s@.len() == s.len(),
            last_such(close_here(s@, name_gt@), 0, s@.len() as int) == last_such(
                close_here(s@, name_gt@),
                0,
                p as int,
            ),
        decreases p,
    {
        if is_at(s, name_gt, p - 1) {
            if let Some(lt) = close_tag_lt_pos(s, p - 1) {
                let to: usize = p - 1 + name_gt.len();
                return Some((lt, to));
            }
        }
        p = p - 1;
    }
    None
}

/// The end of the `invoke` block that begins at `start`: behind the last
/// closing tag before the next block, or before the end of the text.
pub open spec fn invoke_end(s: Seq<char>, start: int) -> Option<int> {
    let boundary = match next_invoke_open(s, start) {
        Some(lt) => lt,
        None => s.len() as int,
    };
    match last_close(s.subrange(start, boundary), "invoke>"@) {
        Some((_, to)) => Some(start + to),
        None => None,
    }
}

pub fn find_invoke_block_end(s: &[char], start: usize) -> (r: Option<usize>)
    requires
        start <= s@.len(),
    ensures
        opt_int(r) == invoke_end(s@, start as int),
        r matches Some(end) ==> start < end <= s@.len(),
{
    let boundary: usize = match find_next_invoke_open(s, start) {
        Some(lt) => lt,
        None => s.len(),
    };
    let region = slice_subrange(s, start, boundary);
    let name_gt = chars_of("invoke>");
    match find_last_close(region, name_gt.as_slice()) {
        Some((_, to)) => Some(start + to),
        None => None,
    }
}

proof fn lemma_ident_start(s: Seq<char>, p: int)
    requires
        0 <= p,
    ensures
        0 <= ident_start(s, p) <= p,
    decreases p,
{
    if 0 < p <= s.len() && is_ident(s[p - 1]) {
        lemma_ident_start(s, p - 1);
    }
}

/// Where a block is found to begin, it begins in the text.
pub(crate) proof fn lemma_invoke_start_fits(s: Seq<char>)
    ensures
        invoke_start(s) matches Some(start) ==> 0 <= start < s.len(),
{
    let q = invoke_start_here(s);
    lemma_first_such(q, 0, s.len() as int);
    if let Some(p) = first_such(q, 0, s.len() as int) {
        assert(q(p));
        lemma_ident_start(s, p - 1);
    }
}

/// Where a block is found to end, it ends in the text and behind its beginning.
pub(crate) proof fn lemma_invoke_end_fits(s: Seq<char>, start: int)
    requires
        0 <= start <= s.len(),
    ensures
        invoke_end(s, start) matches Some(end) ==> start < end <= s.len(),
{
    reveal_strlit("invoke>");
    let boundary = match next_invoke_open(s, start) {
        Some(lt) => lt,
        None => s.len() as int,
    };
    lemma_first_such(crate::text::holds_char(s, '>'), start, s.len() as int);
    if let Some(gt) = char_from(s, '>', start) {
        let rest = s.skip(gt + 1);
        let q = invoke_name_here(rest);
        lemma_first_such(q, 0, rest.len() as int);
        if let Some(p) = first_such(q, 0, rest.len() as int) {
            assert(q(p));
            lemma_ident_start(rest, p - 1);
        }
    }
    assert(start <= boundary <= s.len());
    let region = s.subrange(start, boundary);
    let r = close_here(region, "invoke>"@);
    lemma_last_such(r, 0, region.len() as int);
    if let Some(p) = last_such(r, 0, region.len() as int) {
        assert(r(p));
    }
}

/// The value of the first `name="..."` in a tag.
pub open spec fn name_attr(tag: Seq<char>) -> Option<Seq<char>> {
    match first_occurrence(tag, "name=\""@, 0) {
        Some(at) => match char_from(tag, '"', at + 6) {
            Some(end) => Some(tag.subrange(at + 6, end)),
            None => None,
        },
        None => None,
    }
}

pub fn extract_name_attr(tag: &[char]) -> (r: Option<String>)
    ensures
        opt_text(r) == name_attr(tag@),
{
    proof {
        reveal_strlit("name=\"");
    }
    let needle = chars_of("name=\"");
    let n: usize = tag.len();
    match find_from(tag, needle.as_slice(), 0) {
        Some(at) => {
            assert(at + 6 <= n);
            match find_char(tag, '"', at + 6) {
                Some(end) => Some(text_between(tag, at + 6, end)),
                None => None,
            }
        },
        None => None,
    }
}

/// The name of an opening `parameter` tag stands at a position.
pub open spec fn param_here(s: Seq<char>) -> spec_fn(int) -> bool {
    |p: int| occurs_at(s, "parameter name=\""@, p) && open_tag_lt(s, p) is Some
}

/// The name of the first opening `parameter` tag from `from` on.
pub open spec fn param_open(s: Seq<char>, from: int) -> Option<int> {
    first_such(param_here(s), from, s.len() as int)
}

fn find_param_open(s: &[char], from: usize) -> (r: Option<usize>)
    requires
        from <= s@.len(),
    ensures
        opt_int(r) == param_open(s@, from as int),
        r matches Some(p) ==> from <= p < s@.len() && open_tag_lt(s@, p as int) is Some,
{
    let needle = chars_of("parameter name=\"");
    let mut p: usize = from;
    while p < s.len()
        invariant
            from <= p <= s@.len(),
            needle@ == "parameter name=\""@,
            param_open(s@, from as int) == param_open(s@, p as int),
        decreases s.len() - p,
    {
        if is_at(s, needle.as_slice(), p) && open_tag_lt_pos(s, p).is_some() {
            return Some(p);
        }
        p = p + 1;
    }
    None
}

/// Where the value that begins at `from` ends, and where its closing tag ends:
/// the last closing `parameter` tag before the next opening one.
pub open spec fn param_close(s: Seq<char>, from: int) -> Option<(int, int)> {
    let boundary = match param_open(s, from) {
        Some(p) => if open_tag_lt(s, p)->Some_0 < from {
            from
        } else {
            open_tag_lt(s, p)->Some_0
        },
        None => s.len() as int,
    };
    match last_close(s.subrange(from, boundary), "parameter>"@) {
        Some((lt, to)) => Some((from + lt, from + to)),
        None => None,
    }
}

fn find_param_close(s: &[char], from: usize) -> (r: Option<(usize, usize)>)
    requires
        from <= s@.len(),
    ensures
        match r {
            Some((lt, to)) => param_close(s@, from as int) == Some((lt as int, to as int)) && from
                <= lt < to <= s@.len(),
            None => param_close(s@, from as int) is None,
        },
{
    let boundary: usize = match find_param_open(s, from) {
        Some(p) => match open_tag_lt_pos(s, p) {
            Some(lt) => if lt < from {
                from
            } else {
                lt
            },
            None => from,
        },
        None => s.len(),
    };
    let region = slice_subrange(s, from, boundary);
    let name_gt = chars_of("parameter>");
    match find_last_close(region, name_gt.as_slice()) {
        Some((lt, to)) => Some((from + lt, from + to)),
        None => None,
    }
}

/// The arguments that the parameters of `body` from `cursor` on add to `args`;
/// of two with the same name the later counts.
pub open spec fn params(body: Seq<char>, cursor: int, args: JsonV) -> JsonV
    decreases body.len() - cursor,
{
    match param_open(body, cursor) {
        Some(p) => match char_from(body, '>', p) {
            Some(gt) => if gt < cursor || gt >= body.len() {
                args
            } else {
                match name_attr(body.subrange(p, gt + 1)) {
                    Some(key) => match param_close(body, gt + 1) {
                        Some((end, next)) => if next <= cursor || next > body.len() {
                            args
                        } else {
                            params(
                                body,
                                next,
                                args.put(key, JsonV::Text(body.subrange(gt + 1, end))),
                            )
                        },
                        None => args,
                    },
                    None => params(body, gt + 1, args),
                }
            },
            None => args,
        },
        None => args,
    }
}

/// The tool name and the arguments of a complete `invoke` block.
pub open spec fn invoke_parsed(block: Seq<char>) -> Option<(Seq<char>, JsonV)> {
    match char_from(block, '>', 0) {
        Some(gt) => match name_attr(block.take(gt + 1)) {
            Some(name) => if name.len() == 0 {
                None
            } else {
                Some((name, params(block.skip(gt + 1), 0, JsonV::object())))
            },
            None => None,
        },
        None => None,
    }
}

pub open spec fn parsed_view(p: Option<(String, Json)>) -> Option<(Seq<char>, JsonV)> {
    match p {
        Some((name, input)) => Some((name@, input@)),
        None => None,
    }
}

/// The tool name and the arguments of a complete `invoke` block. A block whose
/// tag names no tool gives nothing.
pub fn parse_invoke_block(block: &[char]) -> (r: Option<(String, Json)>)
    ensures
        parsed_view(r) == invoke_parsed(block@),
{
    let n: usize = block.len();
    let gt: usize = match find_char(block, '>', 0) {
        Some(i) => i,
        None => {
            return None;
        },
    };
    let tag = slice_subrange(block, 0, gt + 1);
    assert(tag@ =~= block@.take(gt + 1));
    let name = match extract_name_attr(tag) {
        Some(n) => n,
        None => {
            return None;
        },
    };
    if chars_of(name.as_str()).len() == 0 {
        return None;
    }
    let body = slice_subrange(block, gt + 1, n);
    assert(body@ =~= block@.skip(gt + 1));
    let mut args = Json::object();
    let mut cursor: usize = 0;
    let mut more = true;
    while more
        invariant
            cursor <= body@.len(),
            more ==> params(body@, 0, JsonV::object()) == params(body@, cursor as int, args@),
            !more ==> params(body@, 0, JsonV::object()) == args@,
        decreases
            if more {
                body@.len() + 1 - cursor
            } else {
                0
            },
    {
        let step = next_param(body, cursor);
        match step {
            ParamStep::Done => {
                more = false;
            },
            ParamStep::Skip(next) => {
                cursor = next;
            },
            ParamStep::Arg(key, value, next) => {
                args = args.with(key.as_str(), Json::Text(value));
                cursor = next;
            },
        }
    }
    Some((name, args))
}

/// What the parameters of a block give from a position on.
enum ParamStep {
    Done,
    Skip(usize),
    Arg(String, String, usize),
}

fn next_param(body: &[char], cursor: usize) -> (r: ParamStep)
    requires
        cursor <= body@.len(),
    ensures
        match r {
            ParamStep::Done => forall|args: JsonV|
                #[trigger] params(body@, cursor as int, args) == args,
            ParamStep::Skip(next) => cursor < next <= body@.len() && forall|args: JsonV|
                #[trigger] params(body@, cursor as int, args) == params(body@, next as int, args),
            ParamStep::Arg(key, value, next) => cursor < next <= body@.len() && forall|args: JsonV|
                #[trigger] params(body@, cursor as int, args) == params(
                    body@,
                    next as int,
                    args.put(key@, JsonV::Text(value@)),
                ),
        },
{
    let n: usize = body.len();
    let p: usize = match find_param_open(body, cursor) {
        Some(p) => p,
        None => {
            return ParamStep::Done;
        },
    };
    let gt: usize = match find_char(body, '>', p) {
        Some(g) => g,
        None => {
            return ParamStep::Done;
        },
    };
    assert(gt < n);
    let tag = slice_subrange(body, p, gt + 1);
    let key = match extract_name_attr(tag) {
        Some(k) => k,
        None => {
            return ParamStep::Skip(gt + 1);
        },
    };
    match find_param_close(body, gt + 1) {
        Some((end, next)) => {
            let value = text_between(body, gt + 1, end);
            ParamStep::Arg(key, value, next)
        },
        None => ParamStep::Done,
    }
}

} // verus!
