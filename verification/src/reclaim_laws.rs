//! Laws on tool calls that leak into plain text: a call that is written into an answer is
//! found there, from its first character to its last, and run with the arguments that were
//! written.
use crate::content_blocks::{answer_pieces, no_fence, pieces, text_piece, PieceV};
use crate::fence::{fence_after, FenceV};
use crate::invoke::{
    close_here, close_tag_lt, ident_start, invoke_end, invoke_name_here, invoke_open, invoke_start,
    invoke_start_here, last_close, name_ends, next_invoke_open, open_tag_lt,
};
use crate::invoke_laws::{
    are_plain_params, arguments_are_what_stands_between_the_tags, given, is_plain_name,
    is_plain_value, written_call, written_param, written_params,
};
use crate::json::JsonV;
use crate::passage::told_all;
use crate::protocol::ProtoV;
use crate::stray::{
    at_line_start, before_blanks, before_breaks, guard_scan, is_stray, lead, line_start, stray_end,
    without_strays,
};
use crate::stray_laws::{
    a_line_begun_before_stays, filled_lines, flooded, floods_alone_are_cut_off,
    strays_alone_are_stripped,
};
use crate::stream_laws::{indices_left, under_way};
use crate::stream_model::{Draws, StreamV};
use crate::text::{
    char_from, first_such, has_prefix, holds_char, last_such, lemma_first_such, lemma_last_such,
    occurs_at, trimmed, trimmed_start,
};
use crate::tool_json::restored_call;
use vstd::prelude::*;

verus! {

/// A name of a parameter that cannot be taken for markup.
pub open spec fn is_plain_key(s: Seq<char>) -> bool {
    is_plain_name(s) && forall|i: int| 0 <= i < s.len() ==> #[trigger] s[i] != '<' && s[i] != ':'
}

/// A value in which no call opens.
pub open spec fn opens_no_call(v: Seq<char>) -> bool {
    forall|i: int|
        0 < i && i + 6 <= v.len() && #[trigger] v.subrange(i, i + 6) == "invoke"@ ==> v[i - 1] != '<'
            && v[i - 1] != ':'
}

/// The parameters can be told apart from what they hold, and no call opens in them.
pub open spec fn are_plain_arguments(ps: Seq<(Seq<char>, Seq<char>)>) -> bool {
    forall|i: int|
        0 <= i < ps.len() ==> is_plain_key((#[trigger] ps[i]).0) && is_plain_value(ps[i].1)
            && opens_no_call(ps[i].1)
}

/// The text does not speak of calls.
pub open spec fn names_no_call(s: Seq<char>) -> bool {
    forall|i: int| 0 <= i && i + 6 <= s.len() ==> #[trigger] s.subrange(i, i + 6) != "invoke"@
}

/// A text that a call may follow: whole lines without markup and without backticks.
pub open spec fn is_plain_lead(pre: Seq<char>) -> bool {
    &&& pre.len() > 0 ==> pre.last() == '\n'
    &&& forall|i: int| 0 <= i < pre.len() ==> #[trigger] pre[i] != '<' && pre[i] != '`'
}

proof fn lemma_literals()
    ensures
        "invoke"@.len() == 6,
        "invoke>"@.len() == 7,
        "</invoke>"@.len() == 9,
        "<invoke name=\""@.len() == 14,
        "<invoke name=\""@[0] == '<',
        "<invoke name=\""@.subrange(1, 7) =~= "invoke"@,
        "<invoke name=\""@[7] == ' ',
        "</invoke>"@[0] == '<',
        "</invoke>"@[1] == '/',
        "</invoke>"@.subrange(2, 9) =~= "invoke>"@,
        "invoke>"@.subrange(0, 6) =~= "invoke"@,
        "invoke"@[0] == 'i',
        "invoke>"@[0] == 'i',
        forall|i: int| 0 < i < 6 ==> "invoke"@[i] != 'i',
        forall|i: int| 0 < i < 7 ==> "invoke>"@[i] != 'i',
        forall|i: int|
            0 <= i < 6 ==> "invoke"@[i] != '<' && "invoke"@[i] != '"' && "invoke"@[i] != '>',
        forall|i: int| 0 <= i < 17 ==> "<parameter name=\""@[i] != 'i',
        "<parameter name=\""@.len() == 17,
        "<parameter name=\""@[16] == '"',
        "</parameter>"@.len() == 12,
        "</parameter>"@[0] == '<',
        forall|i: int| 0 <= i < 12 ==> "</parameter>"@[i] != 'i',
        "\">"@ =~= seq!['"', '>'],
        forall|i: int| 0 <= i < 14 ==> "<invoke name=\""@[i] != '>',
        "```"@.len() == 3,
        "```"@[0] == '`',
{
    reveal_strlit("invoke");
    reveal_strlit("invoke>");
    reveal_strlit("</invoke>");
    reveal_strlit("<invoke name=\"");
    reveal_strlit("<parameter name=\"");
    reveal_strlit("</parameter>");
    reveal_strlit("\">");
    reveal_strlit("```");
}

/// No call opens where `s` stands in a text behind a `>`.
spec fn no_call_at(s: Seq<char>, from: int, to: int) -> bool {
    forall|p: int| from <= p < to ==> !#[trigger] invoke_name_here(s)(p)
}

/// No call opens in a parameter.
proof fn lemma_param_opens_no_call(s: Seq<char>, c: int, key: Seq<char>, value: Seq<char>)
    requires
        is_plain_key(key),
        opens_no_call(value),
        0 <= c,
        c + 31 + key.len() + value.len() < s.len(),
        s.subrange(c, c + 31 + key.len() + value.len()) == written_param(key, value),
    ensures
        no_call_at(s, c, c + 31 + key.len() + value.len()),
{
    lemma_literals();
    let w = written_param(key, value);
    let vs = c + 19 + key.len();
    let ve = vs + value.len();
    let end = ve + 12;
    assert forall|i: int| 0 <= i < w.len() implies s[c + i] == w[i] by {
        assert(s.subrange(c, end)[i] == w[i]);
    }
    assert forall|p: int| c <= p < end implies !#[trigger] invoke_name_here(s)(p) by {
        if invoke_name_here(s)(p) {
            let sub = s.subrange(p, p + 6);
            assert forall|k: int| 0 <= k < 6 implies s[p + k] == "invoke"@[k] by {
                assert(sub[k] == s[p + k]);
            }
            assert(s[p + 0] == 'i');
            assert(s[c + (p - c)] == w[p - c]);
            if p < c + 17 {
                assert(w[p - c] == "<parameter name=\""@[p - c]);
            } else if p < c + 17 + key.len() {
                let j = p - c - 17;
                if j == 0 {
                    assert(s[c + 16] == w[16]);
                    assert(w[16] == "<parameter name=\""@[16]);
                } else {
                    assert(s[c + (17 + j - 1)] == w[17 + j - 1]);
                    assert(w[17 + j - 1] == key[j - 1]);
                }
            } else if p < vs {
                assert(w[p - c] == "\">"@[p - c - 17 - key.len()]);
            } else if p < ve {
                let j = p - vs;
                if p + 6 <= ve {
                    assert(value.subrange(j, j + 6) =~= "invoke"@) by {
                        assert forall|k: int| 0 <= k < 6 implies value[j + k] == "invoke"@[k] by {
                            assert(s[c + (19 + key.len() + j + k)] == w[19 + key.len() + j + k]);
                            assert(w[19 + key.len() + j + k] == value[j + k]);
                            assert(s[p + k] == "invoke"@[k]);
                        }
                    }
                    if j > 0 {
                        assert(s[c + (19 + key.len() + j - 1)] == w[19 + key.len() + j - 1]);
                        assert(w[19 + key.len() + j - 1] == value[j - 1]);
                    } else {
                        assert(s[c + (18 + key.len())] == w[18 + key.len() as int]);
                        assert(w[18 + key.len() as int] == "\">"@[1]);
                    }
                } else {
                    assert(s[p + (ve - p)] == "invoke"@[ve - p]);
                    assert(s[c + (ve - c)] == w[ve - c]);
                    assert(w[ve - c] == "</parameter>"@[0]);
                }
            } else {
                assert(w[p - c] == "</parameter>"@[p - ve]);
            }
        }
    }
}

proof fn lemma_params_open_no_call(
    s: Seq<char>,
    c: int,
    ps: Seq<(Seq<char>, Seq<char>)>,
)
    requires
        are_plain_arguments(ps),
        0 <= c,
        c + written_params(ps).len() < s.len(),
        s.subrange(c, c + written_params(ps).len()) == written_params(ps),
    ensures
        no_call_at(s, c, c + written_params(ps).len()),
    decreases ps.len(),
{
    if ps.len() > 0 {
        let before = ps.drop_last();
        let a = written_params(before);
        let (key, value) = ps.last();
        let w = written_param(key, value);
        lemma_literals();
        assert(w.len() == 31 + key.len() + value.len());
        let all = s.subrange(c, c + written_params(ps).len());
        assert(s.subrange(c, c + a.len()) =~= all.subrange(0, a.len() as int));
        assert(all.subrange(0, a.len() as int) =~= a);
        assert(s.subrange(c + a.len(), c + a.len() + w.len()) =~= all.subrange(
            a.len() as int,
            all.len() as int,
        ));
        assert(all.subrange(a.len() as int, all.len() as int) =~= w);
        assert forall|i: int| 0 <= i < before.len() implies is_plain_key((#[trigger] before[i]).0)
            && is_plain_value(before[i].1) && opens_no_call(before[i].1) by {
            assert(before[i] == ps[i]);
        }
        lemma_params_open_no_call(s, c, before);
        assert(ps[ps.len() - 1] == ps.last());
        lemma_param_opens_no_call(s, c + a.len(), key, value);
        assert forall|p: int|
            c <= p < c + written_params(ps).len() implies !#[trigger] invoke_name_here(s)(p) by {
            if p < c + a.len() {
                assert(!invoke_name_here(s)(p));
            }
        }
    }
}

/// A call that is written behind whole lines is found where it begins and where it ends.
pub proof fn a_written_call_is_found(
    pre: Seq<char>,
    tool: Seq<char>,
    ps: Seq<(Seq<char>, Seq<char>)>,
    post: Seq<char>,
)
    requires
        is_plain_lead(pre),
        is_plain_name(tool),
        are_plain_arguments(ps),
        names_no_call(post),
    ensures
        ({
            let text = pre + written_call(tool, ps) + post;
            &&& invoke_start(text) == Some(pre.len() as int)
            &&& invoke_end(text, pre.len() as int) == Some(
                (pre.len() + written_call(tool, ps).len()) as int,
            )
        }),
{
    lemma_literals();
    let call = written_call(tool, ps);
    let text = pre + call + post;
    let n = text.len() as int;
    let c = pre.len() as int;
    let body = written_params(ps);
    let gt = c + 14 + tool.len() + 1;
    let bs = gt + 1;
    let be = bs + body.len();
    let end = be + 9;
    assert(call.len() == 14 + tool.len() + 2 + body.len() + 9);
    assert forall|i: int| 0 <= i < call.len() implies text[c + i] == call[i] by {}
    assert forall|i: int| 0 <= i < 14 implies text[c + i] == "<invoke name=\""@[i] by {
        assert(call[i] == "<invoke name=\""@[i]);
    }
    // The beginning.
    let here = invoke_start_here(text);
    assert(text.subrange(c + 1, c + 7) =~= "invoke"@) by {
        assert forall|k: int| 0 <= k < 6 implies text[c + 1 + k] == "invoke"@[k] by {
            assert(text[c + (k + 1)] == "<invoke name=\""@[k + 1]);
            assert("<invoke name=\""@.subrange(1, 7)[k] == "<invoke name=\""@[k + 1]);
        }
    }
    assert(text[c + 0] == '<');
    assert(text[c + 7] == ' ');
    assert(here(c + 1)) by {
        assert(occurs_at(text, "invoke"@, c + 1));
        assert(open_tag_lt(text, c + 1) == Some(c));
        assert(name_ends(text, c + 7));
        if c > 0 {
            assert(text[c - 1] == pre.last());
        }
    }
    assert forall|p: int| 0 <= p < c + 1 implies !#[trigger] here(p) by {
        if here(p) {
            if p == c {
                assert(text.subrange(p, p + 6)[0] == "invoke"@[0]);
            } else {
                lemma_ident_start_bounds(text, p - 1);
                let lt = open_tag_lt(text, p)->Some_0;
                assert(0 <= lt < c);
                assert(text[lt] == pre[lt]);
            }
        }
    }
    lemma_first_such(here, 0, n);
    assert(first_such(here, 0, n) == Some(c + 1));
    // No call opens behind it.
    lemma_first_such(holds_char(text, '>'), c, n);
    assert(text[c + (14 + tool.len() + 1)] == '>') by {
        assert(call[15 + tool.len() as int] == "\">"@[1]);
    }
    assert(holds_char(text, '>')(gt));
    assert forall|i: int| c <= i < gt implies !#[trigger] holds_char(text, '>')(i) by {
        assert(text[c + (i - c)] == call[i - c]);
        if i < c + 14 {
            assert(call[i - c] == "<invoke name=\""@[i - c]);
        } else if i < gt - 1 {
            assert(call[i - c] == tool[i - c - 14]);
        } else {
            assert(call[i - c] == "\">"@[0]);
        }
    }
    assert(char_from(text, '>', c) == Some(gt));
    let rest = text.skip(bs);
    let m = rest.len() as int;
    assert forall|i: int| 0 <= i < m implies rest[i] == text[bs + i] by {}
    assert(rest =~= body + "</invoke>"@ + post) by {
        assert(call =~= "<invoke name=\""@ + tool + "\">"@ + (body + "</invoke>"@));
    }
    assert(rest.subrange(0, body.len() as int) =~= body);
    lemma_params_open_no_call(rest, 0, ps);
    lemma_no_call_behind(rest, body, post);
    lemma_first_such(invoke_name_here(rest), 0, m);
    assert(invoke_open(rest) is None);
    assert(next_invoke_open(text, c) is None);
    // The end.
    let region = text.subrange(c, n);
    let inner = "<invoke name=\""@ + tool + "\">"@ + body;
    assert(call =~= inner + "</invoke>"@);
    assert(region =~= inner + "</invoke>"@ + post);
    lemma_call_shuts(region, inner, post);
}

proof fn lemma_ident_start_bounds(s: Seq<char>, p: int)
    ensures
        0 <= p ==> 0 <= ident_start(s, p) <= p,
    decreases p,
{
    if 0 < p <= s.len() && crate::invoke::is_ident(s[p - 1]) {
        lemma_ident_start_bounds(s, p - 1);
    }
}

/// No call opens in the end of a call and in a text that does not speak of calls.
proof fn lemma_no_call_behind(rest: Seq<char>, body: Seq<char>, post: Seq<char>)
    requires
        rest == body + "</invoke>"@ + post,
        names_no_call(post),
        no_call_at(rest, 0, body.len() as int),
    ensures
        no_call_at(rest, 0, rest.len() as int),
{
    lemma_literals();
    let b = body.len() as int;
    assert forall|p: int| 0 <= p < rest.len() implies !#[trigger] invoke_name_here(rest)(p) by {
        if p >= b && invoke_name_here(rest)(p) {
            let sub = rest.subrange(p, p + 6);
            assert forall|k: int| 0 <= k < 6 implies rest[p + k] == "invoke"@[k] by {
                assert(sub[k] == rest[p + k]);
            }
            assert(rest[p + 0] == 'i');
            if p < b + 9 {
                assert(rest[p] == "</invoke>"@[p - b]);
                if p >= b + 2 {
                    assert("</invoke>"@.subrange(2, 9)[p - b - 2] == "</invoke>"@[p - b]);
                    assert(p == b + 2);
                    assert(rest[b + 1] == "</invoke>"@[1]);
                }
            } else {
                let j = p - b - 9;
                assert(post.subrange(j, j + 6) =~= "invoke"@) by {
                    assert forall|k: int| 0 <= k < 6 implies post[j + k] == "invoke"@[k] by {
                        assert(rest[p + k] == post[j + k]);
                    }
                }
            }
        }
    }
}

/// The last closing tag of a call is the one that ends it.
proof fn lemma_call_shuts(region: Seq<char>, inner: Seq<char>, post: Seq<char>)
    requires
        region == inner + "</invoke>"@ + post,
        names_no_call(post),
    ensures
        last_close(region, "invoke>"@) == Some((inner.len() as int, inner.len() as int + 9)),
{
    lemma_literals();
    let a = inner.len() as int;
    let shut = close_here(region, "invoke>"@);
    let at = a + 2;
    assert forall|k: int| 0 <= k < 9 implies region[a + k] == "</invoke>"@[k] by {}
    assert(region.subrange(at, at + 7) =~= "invoke>"@) by {
        assert forall|k: int| 0 <= k < 7 implies region[at + k] == "invoke>"@[k] by {
            assert(region[a + (k + 2)] == "</invoke>"@[k + 2]);
            assert("</invoke>"@.subrange(2, 9)[k] == "</invoke>"@[k + 2]);
        }
    }
    assert(region[a + 0] == '<' && region[a + 1] == '/');
    assert(shut(at)) by {
        assert(occurs_at(region, "invoke>"@, at));
    }
    assert forall|p: int| at < p < region.len() implies !#[trigger] shut(p) by {
        if shut(p) {
            let sub = region.subrange(p, p + 7);
            assert forall|k: int| 0 <= k < 7 implies region[p + k] == "invoke>"@[k] by {
                assert(sub[k] == region[p + k]);
            }
            assert(region[p + 0] == 'i');
            if p < a + 9 {
                assert(region[at + (p - at)] == "invoke>"@[p - at]);
            } else {
                let j = p - a - 9;
                assert(post.subrange(j, j + 6) =~= "invoke"@) by {
                    assert forall|k: int| 0 <= k < 6 implies post[j + k] == "invoke"@[k] by {
                        assert(region[p + k] == post[j + k]);
                        assert("invoke>"@.subrange(0, 6)[k] == "invoke>"@[k]);
                    }
                }
            }
        }
    }
    lemma_last_such(shut, 0, region.len() as int);
    assert(last_such(shut, 0, region.len() as int) == Some(at));
    assert(close_tag_lt(region, at) == Some(a));
}

/// A text without backticks opens no fence.
proof fn lemma_no_fence_opens(pre: Seq<char>)
    requires
        forall|i: int| 0 <= i < pre.len() ==> #[trigger] pre[i] != '`',
    ensures
        !fence_after(no_fence(), pre).open,
        forall|i: int|
            0 <= i < fence_after(no_fence(), pre).partial.len() ==> #[trigger] fence_after(
                no_fence(),
                pre,
            ).partial[i] != '`',
    decreases pre.len(),
{
    if pre.len() > 0 {
        let before = pre.drop_last();
        assert forall|i: int| 0 <= i < before.len() implies #[trigger] before[i] != '`' by {
            assert(before[i] == pre[i]);
        }
        lemma_no_fence_opens(before);
        lemma_literals();
        let f = fence_after(no_fence(), before);
        let line = trimmed_start(f.partial);
        if has_prefix(line, "```"@) {
            crate::text::lemma_skip_white(f.partial, 0);
            assert(line.subrange(0, 3)[0] == "```"@[0]);
            let w = crate::text::skip_white(f.partial, 0);
            assert(line[0] == f.partial[w]);
        }
        let g = fence_after(no_fence(), pre);
        assert(pre[pre.len() - 1] == pre.last());
        assert forall|i: int| 0 <= i < g.partial.len() implies #[trigger] g.partial[i] != '`' by {
            if pre.last() != '\n' && i < f.partial.len() {
                assert(g.partial[i] == f.partial[i]);
            }
        }
    }
}

/// Whole lines stay whole lines without the stray words at their end.
proof fn lemma_lead_ends_line(pre: Seq<char>)
    requires
        pre.len() > 0 ==> pre.last() == '\n',
    ensures
        at_line_start(Seq::empty(), pre),
        lead(Seq::empty(), pre) == without_strays(pre),
{
    let none = Seq::<char>::empty();
    a_line_begun_before_stays(none, pre);
    strays_alone_are_stripped(none);
    strays_alone_are_stripped(pre);
    let kept = without_strays(pre);
    assert(without_strays(none) =~= none);
    assert(none + lead(none, pre) =~= kept);
    let cut = pre.skip(kept.len() as int);
    if kept.len() > 0 {
        if cut.len() == 0 {
            assert(kept =~= pre);
        }
        assert(kept.last() == '\n');
        assert(crate::stray::before_blanks(kept, kept.len() as int) == kept.len());
    }
}

/// A text that does not speak of calls holds none.
proof fn lemma_no_call_found(s: Seq<char>)
    requires
        names_no_call(s),
    ensures
        invoke_start(s) is None,
{
    lemma_literals();
    let here = invoke_start_here(s);
    lemma_first_such(here, 0, s.len() as int);
    assert forall|p: int| 0 <= p < s.len() implies !#[trigger] here(p) by {
        if here(p) {
            assert(occurs_at(s, "invoke"@, p));
            assert(s.subrange(p, p + 6) == "invoke"@);
        }
    }
}

/// A declared tool that is called in the text of an answer, behind whole lines, is called
/// with the arguments that stand between the tags. The text before it, without stray words
/// at its end, and the text behind it stay text.
pub proof fn a_call_in_an_answer_is_run(
    pre: Seq<char>,
    tool: Seq<char>,
    ps: Seq<(Seq<char>, Seq<char>)>,
    post: Seq<char>,
    known: Set<Seq<char>>,
)
    requires
        is_plain_lead(pre),
        tool.len() > 0,
        is_plain_name(tool),
        are_plain_arguments(ps),
        names_no_call(post),
        known.contains(tool),
        !flooded(filled_lines(pre + written_call(tool, ps) + post, 0)),
    ensures
        answer_pieces(pre + written_call(tool, ps) + post, known) == text_piece(
            without_strays(pre),
        ) + seq![PieceV::Call(tool, JsonV::Object(given(ps)))] + text_piece(post),
{
    let none = Seq::<char>::empty();
    let call = written_call(tool, ps);
    let text = pre + call + post;
    let c = pre.len() as int;
    let end = c + call.len();
    floods_alone_are_cut_off(text);
    a_written_call_is_found(pre, tool, ps, post);
    lemma_plain(ps);
    arguments_are_what_stands_between_the_tags(tool, ps);
    assert(text.take(c) =~= pre);
    assert(text.subrange(c, end) =~= call);
    assert(text.skip(end) =~= post);
    lemma_lead_ends_line(pre);
    lemma_no_fence_opens(pre);
    lemma_no_call_found(post);
    assert(none + without_strays(pre) =~= without_strays(pre));
    assert(none + post =~= post);
    let f = fence_after(no_fence(), without_strays(pre));
    assert(pieces(post, none, f, known) == text_piece(post));
    let x = text_piece(without_strays(pre));
    let one = PieceV::Call(tool, JsonV::Object(given(ps)));
    assert(x.push(one) + text_piece(post) =~= x + seq![one] + text_piece(post));
}

proof fn lemma_plain(ps: Seq<(Seq<char>, Seq<char>)>)
    requires
        are_plain_arguments(ps),
    ensures
        are_plain_params(ps),
{
    assert forall|i: int| 0 <= i < ps.len() implies is_plain_name((#[trigger] ps[i]).0)
        && is_plain_value(ps[i].1) by {
        assert(is_plain_key(ps[i].0));
    }
}

/// A declared tool that is called in streamed text, at the beginning of a line and outside
/// of a fence, is called with the arguments that stand between the tags, and nothing of the
/// markup is sent as text.
pub proof fn a_call_in_streamed_text_is_run(
    v: StreamV,
    tool: Seq<char>,
    ps: Seq<(Seq<char>, Seq<char>)>,
    flush: bool,
    ids: Draws,
)
    requires
        tool.len() > 0,
        is_plain_name(tool),
        are_plain_arguments(ps),
        v.known.contains(tool),
        v.fence.partial.len() == 0,
        !v.fence.open,
        v.sniffed.len() == 0,
    ensures
        ({
            let call = restored_call(ids(v.drawn), tool, JsonV::Object(given(ps)), v.names);
            let s = v.drained(written_call(tool, ps), flush, ids);
            let t = StreamV { drawn: v.drawn + 1, ..v }.call_sent(call);
            s.1 == t.1 && s.0 == t.0
        }),
{
    let none = Seq::<char>::empty();
    let block = written_call(tool, ps);
    let n = block.len() as int;
    lemma_literals();
    assert(v.fence.partial =~= none);
    assert(v.sniffed =~= none);
    a_written_call_is_found(none, tool, ps, none);
    assert(none + block + none =~= block);
    lemma_plain(ps);
    arguments_are_what_stands_between_the_tags(tool, ps);
    assert(block.take(0) =~= none);
    assert(block.subrange(0, n) =~= block);
    assert(block.skip(n) =~= none);
    lemma_lead_ends_line(none);
    strays_alone_are_stripped(none);
    assert(without_strays(none) =~= none);
    reveal(StreamV::block_taken);
    lemma_nothing_sent(v);
    let call = restored_call(ids(v.drawn), tool, JsonV::Object(given(ps)), v.names);
    let t = StreamV { drawn: v.drawn + 1, ..v }.call_sent(call);
    assert(none_of() + t.1 =~= t.1);
    assert(v.block_taken(block, 0, n, ids) == t);
    lemma_no_call_found(none);
    lemma_nothing_sent(t.0);
    reveal(StreamV::call_sent);
    assert(t.0.sniffed == none);
    assert(t.0.drained(none, flush, ids).1 =~= none_of());
    lemma_drained_nothing(t.0, flush, ids);
    assert(t.1 + none_of() =~= t.1);
}

spec fn none_of() -> Seq<crate::sse::Ev> {
    Seq::empty()
}

proof fn lemma_nothing_sent(v: StreamV)
    ensures
        v.text_sent(Seq::empty()) == (v, none_of()),
{
    reveal(StreamV::text_sent);
    let none = Seq::<char>::empty();
    assert(guard_scan(v.guard, none, 0) == (v.guard, 0int));
    assert(none.take(0) =~= none);
}

proof fn lemma_drained_nothing(v: StreamV, flush: bool, ids: Draws)
    requires
        v.sniffed == Seq::<char>::empty(),
    ensures
        v.drained(Seq::empty(), flush, ids) == (v, none_of()),
{
    let none = Seq::<char>::empty();
    lemma_no_call_found(none);
    lemma_nothing_sent(v);
    crate::passage::lemma_unfinished_bounds(none);
    assert(none.take(0) =~= none);
    assert(none.skip(0) =~= none);
}

/// Behind a line that has begun no call is run, unless a stray word is all that it holds.
pub proof fn a_line_that_has_begun_opens_no_call(line: Seq<char>)
    requires
        line.len() > 0,
        forall|i: int| 0 <= i < line.len() ==> #[trigger] line[i] != '\n' && line[i] != '\r',
        line.last() != ' ',
        line.last() != '\t',
        !is_stray(trimmed(line)),
    ensures
        !at_line_start(line, Seq::empty()),
{
    let none = Seq::<char>::empty();
    let n = line.len() as int;
    assert(line + none =~= line);
    assert(line[n - 1] == line.last());
    assert(before_breaks(line, n) == n);
    lemma_last_such(holds_char(line, '\n'), 0, n);
    if let Some(i) = last_such(holds_char(line, '\n'), 0, n) {
        assert(holds_char(line, '\n')(i));
    }
    assert(line_start(line, n) == 0);
    assert(line.subrange(0, n) =~= line);
    assert(stray_end(line, 0, n) == n);
    assert(stray_end(line, n, n) == n);
    assert(without_strays(line) =~= line);
    assert(lead(line, none) =~= none);
    assert(before_blanks(line, n) == n);
}

/// A call that may not be run is text like any other, from its first character to its last:
/// one of a tool that the request does not declare, one inside a code fence, and one behind
/// a line that has begun.
pub proof fn a_call_that_may_not_be_run_is_told(
    p: ProtoV,
    v: StreamV,
    tool: Seq<char>,
    ps: Seq<(Seq<char>, Seq<char>)>,
    flush: bool,
    ids: Draws,
)
    requires
        under_way(p, v),
        tool.len() > 0,
        is_plain_name(tool),
        are_plain_arguments(ps),
        v.sniffed.len() == 0,
        !v.known.contains(tool) || (v.fence.partial.len() == 0 && v.fence.open) || !at_line_start(
            v.fence.partial,
            Seq::empty(),
        ),
        indices_left(v.drained(written_call(tool, ps), flush, ids).0),
        !v.drained(written_call(tool, ps), flush, ids).0.guard.tripped,
    ensures
        ({
            let s = v.drained(written_call(tool, ps), flush, ids);
            told_all(s.1) == written_call(tool, ps) && s.0.sniffed.len() == 0 && s.0.drawn
                == v.drawn
        }),
{
    let none = Seq::<char>::empty();
    let block = written_call(tool, ps);
    let n = block.len() as int;
    lemma_literals();
    assert(v.sniffed =~= none);
    a_written_call_is_found(none, tool, ps, none);
    assert(none + block + none =~= block);
    lemma_plain(ps);
    arguments_are_what_stands_between_the_tags(tool, ps);
    assert(block.take(0) =~= none);
    assert(block.subrange(0, n) =~= block);
    assert(block.take(n) =~= block);
    assert(block.skip(n) =~= none);
    reveal(StreamV::block_taken);
    if v.fence.partial.len() == 0 && v.fence.open {
        assert(v.fence.partial =~= none);
        lemma_lead_ends_line(none);
        strays_alone_are_stripped(none);
        assert(without_strays(none) =~= none);
        assert(lead(v.fence.partial, none) =~= none);
    }
    assert(v.block_taken(block, 0, n, ids) == v.text_sent(block));
    let t = v.text_sent(block);
    assert(t.0.sniffed == none && t.0.drawn == v.drawn) by {
        reveal(StreamV::text_sent);
        reveal(StreamV::text_opened);
    }
    lemma_drained_nothing(t.0, flush, ids);
    assert(t.1 + none_of() =~= t.1);
    crate::passage::lemma_text_sent_told(p, v, block);
}

/// A call of a tool that the request does not declare stays in the text of an answer.
pub proof fn a_call_of_no_tool_stays_in_the_answer(
    pre: Seq<char>,
    tool: Seq<char>,
    ps: Seq<(Seq<char>, Seq<char>)>,
    post: Seq<char>,
    known: Set<Seq<char>>,
)
    requires
        is_plain_lead(pre),
        tool.len() > 0,
        is_plain_name(tool),
        are_plain_arguments(ps),
        names_no_call(post),
        !known.contains(tool),
        !flooded(filled_lines(pre + written_call(tool, ps) + post, 0)),
    ensures
        answer_pieces(pre + written_call(tool, ps) + post, known) == seq![
            PieceV::Text(pre + written_call(tool, ps) + post),
        ],
{
    let none = Seq::<char>::empty();
    let call = written_call(tool, ps);
    let text = pre + call + post;
    let c = pre.len() as int;
    let end = c + call.len();
    floods_alone_are_cut_off(text);
    a_written_call_is_found(pre, tool, ps, post);
    lemma_plain(ps);
    arguments_are_what_stands_between_the_tags(tool, ps);
    assert(text.subrange(c, end) =~= call);
    assert(text.skip(end) =~= post);
    lemma_no_call_found(post);
    assert((none + text.take(end)) + post =~= text);
    reveal_with_fuel(pieces, 3);
}

/// What stands before a call in an answer stays together with the text that was kept before:
/// behind a text that no call may be taken out of, a call is run as behind any other.
pub proof fn a_call_behind_kept_text_is_run(
    kept: Seq<char>,
    pre: Seq<char>,
    tool: Seq<char>,
    ps: Seq<(Seq<char>, Seq<char>)>,
    post: Seq<char>,
    fence: FenceV,
    known: Set<Seq<char>>,
)
    requires
        is_plain_lead(pre),
        tool.len() > 0,
        is_plain_name(tool),
        are_plain_arguments(ps),
        names_no_call(post),
        known.contains(tool),
        at_line_start(kept, pre),
        !fence_after(fence, pre).open,
    ensures
        pieces(pre + written_call(tool, ps) + post, kept, fence, known) == text_piece(
            kept + lead(kept, pre),
        ) + seq![PieceV::Call(tool, JsonV::Object(given(ps)))] + text_piece(post),
{
    let none = Seq::<char>::empty();
    let call = written_call(tool, ps);
    let text = pre + call + post;
    let c = pre.len() as int;
    let end = c + call.len();
    a_written_call_is_found(pre, tool, ps, post);
    lemma_plain(ps);
    arguments_are_what_stands_between_the_tags(tool, ps);
    assert(text.take(c) =~= pre);
    assert(text.subrange(c, end) =~= call);
    assert(text.skip(end) =~= post);
    lemma_no_call_found(post);
    assert(none + post =~= post);
    let f = fence_after(fence, lead(kept, pre));
    assert(pieces(post, none, f, known) == text_piece(post));
    let x = text_piece(kept + lead(kept, pre));
    let one = PieceV::Call(tool, JsonV::Object(given(ps)));
    assert(x.push(one) + text_piece(post) =~= x + seq![one] + text_piece(post));
}

} // verus!
