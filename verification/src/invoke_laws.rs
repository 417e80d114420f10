//! Laws on tool calls that were written into plain text: what is written between the tags
//! is what the tool gets.
use crate::invoke::{
    close_here, close_tag_lt, invoke_parsed, name_attr, open_tag_lt, param_close, param_here,
    param_open, params,
};
use crate::json::JsonV;
use crate::text::{
    char_from, holds_char, last_such, lemma_first_occurrence, lemma_first_such, lemma_last_such,
    occurs_at,
};
use vstd::prelude::*;

verus! {

/// A parameter as it is written.
pub open spec fn written_param(key: Seq<char>, value: Seq<char>) -> Seq<char> {
    "<parameter name=\""@ + key + "\">"@ + value + "</parameter>"@
}

/// Parameters as they are written, one after the other.
pub open spec fn written_params(ps: Seq<(Seq<char>, Seq<char>)>) -> Seq<char>
    decreases ps.len(),
{
    if ps.len() == 0 {
        Seq::empty()
    } else {
        written_params(ps.drop_last()) + written_param(ps.last().0, ps.last().1)
    }
}

/// A tool call as it is written.
pub open spec fn written_call(tool: Seq<char>, ps: Seq<(Seq<char>, Seq<char>)>) -> Seq<char> {
    "<invoke name=\""@ + tool + "\">"@ + written_params(ps) + "</invoke>"@
}

/// A name holds neither a quote nor the end of a tag.
pub open spec fn is_plain_name(s: Seq<char>) -> bool {
    forall|i: int| 0 <= i < s.len() ==> #[trigger] s[i] != '"' && s[i] != '>'
}

/// A value holds no opening and no closing tag of a parameter.
pub open spec fn is_plain_value(v: Seq<char>) -> bool {
    &&& forall|i: int|
        0 < i && i + 16 <= v.len() && #[trigger] v.subrange(i, i + 16) == "parameter name=\""@
            ==> v[i - 1] != '<' && v[i - 1] != ':'
    &&& forall|i: int|
        0 < i && i + 10 <= v.len() && #[trigger] v.subrange(i, i + 10) == "parameter>"@ ==> v[i - 1]
            != '/' && v[i - 1] != ':'
}

/// The parameters of a call can be told apart from what they hold.
pub open spec fn are_plain_params(ps: Seq<(Seq<char>, Seq<char>)>) -> bool {
    forall|i: int|
        0 <= i < ps.len() ==> is_plain_name((#[trigger] ps[i]).0) && is_plain_value(ps[i].1)
}

proof fn lemma_literals()
    ensures
        "<parameter name=\""@.len() == 17,
        "parameter name=\""@.len() == 16,
        "<parameter name=\""@ =~= seq!['<'] + "parameter name=\""@,
        "\">"@ =~= seq!['"', '>'],
        "</parameter>"@ =~= seq!['<', '/'] + "parameter>"@,
        "parameter>"@.len() == 10,
        "</invoke>"@.len() == 9,
        "<invoke name=\""@.len() == 14,
        "name=\""@.len() == 6,
        forall|i: int| 0 < i < 10 ==> "parameter>"@[i] != 'p',
        forall|i: int| 0 <= i < 9 ==> "parameter>"@[i] != '<' && "parameter>"@[i] != '>' && "parameter>"@[i] != ':' && "parameter>"@[i] != '/',
        "parameter>"@[0] == 'p',
        "parameter>"@[9] == '>',
        "parameter name=\""@[9] == ' ',
        "parameter name=\""@[0] == 'p',
        forall|i: int| 0 <= i < 9 ==> "</invoke>"@[i] != 'p',
        "</invoke>"@[0] == '<',
        forall|i: int| 0 <= i < 16 ==> "parameter name=\""@[i] != '>' && "parameter name=\""@[i] != '<',
        forall|i: int| 0 <= i < 10 ==> "parameter name=\""@[i] != 'n',
        "parameter name=\""@.subrange(10, 16) =~= "name=\""@,
        "name=\""@[0] == 'n',
        forall|i: int| 0 <= i < 14 ==> "<invoke name=\""@[i] != '>',
        "<invoke name=\""@.subrange(8, 14) =~= "name=\""@,
        forall|i: int| 0 <= i < 8 && i != 2 ==> "<invoke name=\""@[i] != 'n',
        "<invoke name=\""@[2] == 'n',
        "<invoke name=\""@[3] == 'v',
        "name=\""@[1] == 'a',
        "</parameter>"@.len() == 12,
        "</parameter>"@[0] == '<',
        "</parameter>"@[1] == '/',
        "<parameter name=\""@[0] == '<',
{
    reveal_strlit("<parameter name=\"");
    reveal_strlit("parameter name=\"");
    reveal_strlit("\">");
    reveal_strlit("</parameter>");
    reveal_strlit("parameter>");
    reveal_strlit("</invoke>");
    reveal_strlit("<invoke name=\"");
    reveal_strlit("name=\"");
}

/// What follows a parameter: another one, or the end of the call.
spec fn goes_on_plainly(rest: Seq<char>) -> bool {
    rest == "</invoke>"@ || (rest.len() > 17 && rest.take(17) == "<parameter name=\""@)
}

proof fn lemma_name_of_tag(head: Seq<char>, at: int, name: Seq<char>)
    requires
        is_plain_name(name),
        0 <= at,
        head.len() == at + 6,
        head.subrange(at, at + 6) == "name=\""@,
        forall|i: int| 0 <= i < at ==> !occurs_at(head + name + "\">"@, "name=\""@, i),
    ensures
        name_attr(head + name + "\">"@) == Some(name),
{
    lemma_literals();
    let tag = head + name + "\">"@;
    assert(tag.subrange(at, at + 6) =~= head.subrange(at, at + 6));
    assert(occurs_at(tag, "name=\""@, at));
    lemma_first_occurrence(tag, "name=\""@, 0);
    let n = at + 6 + name.len();
    assert(tag[n] == '"');
    lemma_first_such(holds_char(tag, '"'), at + 6, tag.len() as int);
    assert(holds_char(tag, '"')(n));
    assert forall|i: int| at + 6 <= i < n implies !#[trigger] holds_char(tag, '"')(i) by {
        assert(tag[i] == name[i - (at + 6)]);
    }
    assert(char_from(tag, '"', at + 6) == Some(n as int));
    assert(tag.subrange(at + 6, n as int) =~= name);
}

/// The opening tag of a parameter is found, and its name read.
proof fn lemma_param_tag(body: Seq<char>, c: int, key: Seq<char>)
    requires
        is_plain_name(key),
        0 <= c,
        c + 19 + key.len() <= body.len(),
        forall|i: int| 0 <= i < 17 ==> body[c + i] == "<parameter name=\""@[i],
        forall|i: int| 0 <= i < key.len() ==> body[c + 17 + i] == key[i],
        body[c + 17 + key.len()] == '"',
        body[c + 18 + key.len()] == '>',
    ensures
        param_open(body, c) == Some(c + 1),
        char_from(body, '>', c + 1) == Some(c + 18 + key.len()),
        name_attr(body.subrange(c + 1, c + 19 + key.len())) == Some(key),
{
    lemma_literals();
    let n = body.len() as int;
    let open = "parameter name=\""@;
    let p = c + 1;
    let gt = c + 18 + key.len();
    assert forall|i: int| 0 <= i < 16 implies body[p + i] == open[i] by {
        assert(body[c + (i + 1)] == "<parameter name=\""@[i + 1]);
        assert("<parameter name=\""@[i + 1] == open[i]);
    }
    assert(body.subrange(p, p + 16) =~= open);
    assert(body[c + 0] == '<');
    let here = param_here(body);
    lemma_first_such(here, c, n);
    assert(here(p)) by {
        assert(occurs_at(body, open, p));
        assert(open_tag_lt(body, p) == Some(c));
    }
    assert(!here(c)) by {
        if occurs_at(body, open, c) {
            assert(body.subrange(c, c + 16)[0] == open[0]);
        }
    }
    lemma_first_such(holds_char(body, '>'), p, n);
    assert(holds_char(body, '>')(gt));
    assert forall|i: int| p <= i < gt implies !#[trigger] holds_char(body, '>')(i) by {
        if i < p + 16 {
            assert(body[p + (i - p)] == open[i - p]);
        } else if i < gt - 1 {
            assert(body[c + 17 + (i - c - 17)] == key[i - c - 17]);
        }
    }
    let tag = body.subrange(p, gt + 1);
    let want = open + key + "\">"@;
    assert(tag =~= want) by {
        assert forall|i: int| 0 <= i < tag.len() implies tag[i] == want[i] by {
            if i < 16 {
                assert(body[p + i] == open[i]);
            } else if i < 16 + key.len() {
                assert(body[c + 17 + (i - 16)] == key[i - 16]);
            }
        }
    }
    assert forall|i: int| 0 <= i < 10 implies !occurs_at(want, "name=\""@, i) by {
        if occurs_at(want, "name=\""@, i) {
            assert(want.subrange(i, i + 6)[0] == open[i]);
        }
    }
    lemma_name_of_tag(open, 10, key);
}

/// One parameter is read: its value is what stands between its tags.
proof fn lemma_param_read(
    pre: Seq<char>,
    key: Seq<char>,
    value: Seq<char>,
    rest: Seq<char>,
    args: JsonV,
)
    requires
        is_plain_name(key),
        is_plain_value(value),
        goes_on_plainly(rest),
    ensures
        params(pre + written_param(key, value) + rest, pre.len() as int, args) == params(
            pre + written_param(key, value) + rest,
            (pre.len() + written_param(key, value).len()) as int,
            args.put(key, JsonV::Text(value)),
        ),
{
    let body = pre + written_param(key, value) + rest;
    let c = pre.len() as int;
    let vs = c + 19 + key.len();
    let ve = vs + value.len();
    lemma_param_parts(pre, key, value, rest);
    lemma_param_tag(body, c, key);
    lemma_param_end(body, vs, value, rest);
    assert(body.subrange(vs, ve) =~= value) by {
        assert forall|i: int| 0 <= i < value.len() implies body.subrange(vs, ve)[i] == value[i] by {
            assert(body[vs + i] == value[i]);
        }
    }
}

/// Where the parts of a parameter stand.
proof fn lemma_param_parts(pre: Seq<char>, key: Seq<char>, value: Seq<char>, rest: Seq<char>)
    ensures
        ({
            let body = pre + written_param(key, value) + rest;
            let c = pre.len() as int;
            let vs = c + 19 + key.len();
            &&& written_param(key, value).len() == 31 + key.len() + value.len()
            &&& body.len() == vs + value.len() + 12 + rest.len()
            &&& forall|i: int| 0 <= i < 17 ==> body[c + i] == "<parameter name=\""@[i]
            &&& forall|i: int| 0 <= i < key.len() ==> body[c + 17 + i] == key[i]
            &&& body[c + 17 + key.len()] == '"'
            &&& body[c + 18 + key.len()] == '>'
            &&& body[vs - 1] == '>'
            &&& forall|i: int| 0 <= i < value.len() ==> body[vs + i] == value[i]
            &&& forall|i: int| 0 <= i < 12 ==> body[vs + value.len() + i] == "</parameter>"@[i]
            &&& forall|i: int| 0 <= i < rest.len() ==> body[vs + value.len() + 12 + i] == rest[i]
        }),
{
    lemma_literals();
}

/// Where the value of a parameter ends.
proof fn lemma_param_end(body: Seq<char>, vs: int, value: Seq<char>, rest: Seq<char>)
    requires
        is_plain_value(value),
        goes_on_plainly(rest),
        0 < vs,
        body.len() == vs + value.len() + 12 + rest.len(),
        body[vs - 1] == '>',
        forall|i: int| 0 <= i < value.len() ==> body[vs + i] == value[i],
        forall|i: int| 0 <= i < 12 ==> body[vs + value.len() + i] == "</parameter>"@[i],
        forall|i: int| 0 <= i < rest.len() ==> body[vs + value.len() + 12 + i] == rest[i],
    ensures
        param_close(body, vs) == Some((vs + value.len(), vs + value.len() + 12)),
{
    lemma_literals();
    let n = body.len() as int;
    let open = "parameter name=\""@;
    let close = "parameter>"@;
    let ve = vs + value.len();
    let next = ve + 12;
    let here = param_here(body);
    assert(body[vs + value.len() + 0] == '<' && body[vs + value.len() + 1] == '/');
    assert forall|i: int| 0 <= i < 10 implies body[ve + 2 + i] == close[i] by {
        assert(body[vs + value.len() + (i + 2)] == "</parameter>"@[i + 2]);
        assert("</parameter>"@[i + 2] == close[i]);
    }
    // No tag opens before what follows.
    assert forall|i: int| vs <= i < next implies !#[trigger] here(i) by {
        if here(i) {
            let sub = body.subrange(i, i + 16);
            assert(occurs_at(body, open, i));
            assert forall|k: int| 0 <= k < 16 implies body[i + k] == open[k] by {
                assert(sub[k] == body[i + k]);
            }
            if i < ve {
                if i + 16 <= ve {
                    let j = i - vs;
                    assert(value.subrange(j, j + 16) =~= open) by {
                        assert forall|k: int| 0 <= k < 16 implies value[j + k] == open[k] by {
                            assert(body[vs + (j + k)] == value[j + k]);
                        }
                    }
                    if j > 0 {
                        assert(body[vs + (j - 1)] == value[j - 1]);
                    }
                } else {
                    assert(body[i + (ve - i)] == open[ve - i]);
                }
            } else {
                assert(body[i] == 'p');
                assert(body[vs + value.len() + (i - ve)] == "</parameter>"@[i - ve]);
                if i >= ve + 2 {
                    assert("</parameter>"@[i - ve] == close[i - ve - 2]);
                    assert(i == ve + 2);
                    assert(body[ve + 2 + 9] == close[9]);
                    assert(body[i + 9] == open[9]);
                } else {
                    assert("</parameter>"@[0] == '<' && "</parameter>"@[1] == '/');
                }
            }
        }
    }
    lemma_first_such(here, vs, n);
    let boundary = if rest == "</invoke>"@ {
        n
    } else {
        next
    };
    if rest == "</invoke>"@ {
        assert forall|i: int| next <= i < n implies !#[trigger] here(i) by {
            if here(i) {
                assert(body.subrange(i, i + 16)[0] == open[0]);
                assert(body[vs + value.len() + 12 + (i - next)] == rest[i - next]);
            }
        }
        assert(param_open(body, vs) is None);
    } else {
        assert forall|i: int| 0 <= i < 17 implies body[next + i] == "<parameter name=\""@[i] by {
            assert(rest.take(17)[i] == rest[i]);
            assert(body[vs + value.len() + 12 + i] == rest[i]);
        }
        assert(body.subrange(next + 1, next + 17) =~= open) by {
            assert forall|k: int| 0 <= k < 16 implies body[next + 1 + k] == open[k] by {
                assert(body[next + (k + 1)] == "<parameter name=\""@[k + 1]);
            }
        }
        assert(body[next + 0] == '<');
        assert(here(next + 1)) by {
            assert(occurs_at(body, open, next + 1));
        }
        assert(!here(next)) by {
            if occurs_at(body, open, next) {
                assert(body.subrange(next, next + 16)[0] == open[0]);
            }
        }
        assert(param_open(body, vs) == Some(next + 1));
        assert(open_tag_lt(body, next + 1) == Some(next));
    }
    let region = body.subrange(vs, boundary);
    let shut = close_here(region, close);
    let at = value.len() as int + 2;
    assert(region.subrange(at, at + 10) =~= close) by {
        assert forall|k: int| 0 <= k < 10 implies region[at + k] == close[k] by {
            assert(region[at + k] == body[ve + 2 + k]);
        }
    }
    assert(region[at - 2] == '<' && region[at - 1] == '/');
    assert(shut(at)) by {
        assert(occurs_at(region, close, at));
    }
    assert forall|i: int| at < i < region.len() implies !#[trigger] shut(i) by {
        if shut(i) {
            assert(region.subrange(i, i + 10)[0] == close[0]);
            assert(region[i] == 'p');
            if i < at + 10 {
                assert(region[at + (i - at)] == close[i - at]);
            } else {
                assert(region[i] == body[vs + i]);
                assert(body[vs + value.len() + 12 + (vs + i - next)] == rest[vs + i - next]);
            }
        }
    }
    lemma_last_such(shut, 0, region.len() as int);
    assert(last_such(shut, 0, region.len() as int) == Some(at));
    assert(close_tag_lt(region, at) == Some(value.len() as int));
}

/// The members that parameters give, the later of two with the same name counting.
pub open spec fn given(ps: Seq<(Seq<char>, Seq<char>)>) -> Map<Seq<char>, JsonV>
    decreases ps.len(),
{
    if ps.len() == 0 {
        Map::empty()
    } else {
        given(ps.drop_last()).insert(ps.last().0, JsonV::Text(ps.last().1))
    }
}

proof fn lemma_params_read(ps: Seq<(Seq<char>, Seq<char>)>, n: int)
    requires
        are_plain_params(ps),
        0 <= n <= ps.len(),
    ensures
        ({
            let body = written_params(ps) + "</invoke>"@;
            params(body, 0, JsonV::object()) == params(
                body,
                written_params(ps.take(n)).len() as int,
                JsonV::Object(given(ps.take(n))),
            )
        }),
    decreases n,
{
    let body = written_params(ps) + "</invoke>"@;
    if n == 0 {
        assert(given(ps.take(0)) =~= Map::<Seq<char>, JsonV>::empty());
    } else {
        lemma_params_read(ps, n - 1);
        let before = ps.take(n - 1);
        let upto = ps.take(n);
        assert(upto.drop_last() =~= before);
        let (key, value) = ps[n - 1];
        assert(upto.last() == ps[n - 1]);
        let pre = written_params(before);
        let rest = lemma_params_split(ps, n);
        assert(body =~= pre + written_param(key, value) + rest);
        let args = JsonV::Object(given(before));
        lemma_param_read(pre, key, value, rest, args);
        assert(args.put(key, JsonV::Text(value)) == JsonV::Object(given(upto)));
    }
}

/// What follows the first `n` parameters of a call.
proof fn lemma_params_split(ps: Seq<(Seq<char>, Seq<char>)>, n: int) -> (rest: Seq<char>)
    requires
        0 <= n <= ps.len(),
    ensures
        written_params(ps) + "</invoke>"@ == written_params(ps.take(n)) + rest,
        goes_on_plainly(rest),
    decreases ps.len() - n,
{
    if n == ps.len() {
        assert(ps.take(n) =~= ps);
        "</invoke>"@
    } else {
        let after = lemma_params_split(ps, n + 1);
        assert(ps.take(n + 1).drop_last() =~= ps.take(n));
        let w = written_param(ps[n].0, ps[n].1);
        let rest = w + after;
        assert(written_params(ps.take(n + 1)) + after =~= written_params(ps.take(n)) + rest);
        lemma_literals();
        assert(rest.take(17) =~= "<parameter name=\""@);
        rest
    }
}

/// The tool that a written call names is called, and each of its arguments is exactly the
/// text between the tags of its parameter, character for character; it has no others.
pub proof fn arguments_are_what_stands_between_the_tags(
    tool: Seq<char>,
    ps: Seq<(Seq<char>, Seq<char>)>,
)
    requires
        tool.len() > 0,
        is_plain_name(tool),
        are_plain_params(ps),
    ensures
        invoke_parsed(written_call(tool, ps)) == Some((tool, JsonV::Object(given(ps)))),
{
    lemma_literals();
    let block = written_call(tool, ps);
    let head = "<invoke name=\""@;
    let body = written_params(ps) + "</invoke>"@;
    let tag = head + tool + "\">"@;
    assert(block =~= tag + body);
    let gt = tag.len() - 1;
    assert(tag[gt] == '>');
    lemma_first_such(holds_char(block, '>'), 0, block.len() as int);
    assert(block[gt] == tag[gt]);
    assert(holds_char(block, '>')(gt));
    assert forall|i: int| 0 <= i < gt implies !#[trigger] holds_char(block, '>')(i) by {
        assert(block[i] == tag[i]);
        if i < 14 {
            assert(tag[i] == head[i]);
        } else if i < gt - 1 {
            assert(tag[i] == tool[i - 14]);
        } else {
            assert(tag[i] == '"');
        }
    }
    assert(char_from(block, '>', 0) == Some(gt));
    assert(block.take(gt + 1) =~= tag);
    assert(block.skip(gt + 1) =~= body);
    assert forall|i: int| 0 <= i < 8 implies !occurs_at(tag, "name=\""@, i) by {
        if occurs_at(tag, "name=\""@, i) {
            assert(tag.subrange(i, i + 6)[0] == tag[i]);
            assert(tag.subrange(i, i + 6)[1] == tag[i + 1]);
            assert(tag[i] == head[i] && tag[i + 1] == head[i + 1]);
        }
    }
    lemma_name_of_tag(head, 8, tool);
    lemma_params_read(ps, ps.len() as int);
    assert(ps.take(ps.len() as int) =~= ps);
    let end = written_params(ps).len() as int;
    let n = body.len() as int;
    let here = param_here(body);
    lemma_first_such(here, end, n);
    assert forall|i: int| end <= i < n implies !#[trigger] here(i) by {
        if here(i) {
            assert(body.subrange(i, i + 16)[0] == "parameter name=\""@[0]);
            assert(body[i] == "</invoke>"@[i - end]);
        }
    }
    assert(param_open(body, end) is None);
}

/// The last parameter with a name is the argument under that name, and only names of
/// parameters are names of arguments.
pub proof fn an_argument_is_its_last_parameter(ps: Seq<(Seq<char>, Seq<char>)>, i: int)
    requires
        0 <= i < ps.len(),
        forall|j: int| i < j < ps.len() ==> (#[trigger] ps[j]).0 != ps[i].0,
    ensures
        given(ps).dom().contains(ps[i].0),
        given(ps)[ps[i].0] == JsonV::Text(ps[i].1),
        forall|k: Seq<char>|
            #[trigger] given(ps).dom().contains(k) ==> exists|j: int|
                0 <= j < ps.len() && (#[trigger] ps[j]).0 == k,
    decreases ps.len(),
{
    lemma_given_names(ps);
    if i < ps.len() - 1 {
        let before = ps.drop_last();
        assert forall|j: int| i < j < before.len() implies (#[trigger] before[j]).0 != before[i].0 by {
            assert(ps[j].0 != ps[i].0);
        }
        an_argument_is_its_last_parameter(before, i);
        assert(ps.last().0 != ps[i].0);
    }
}

proof fn lemma_given_names(ps: Seq<(Seq<char>, Seq<char>)>)
    ensures
        forall|k: Seq<char>|
            #[trigger] given(ps).dom().contains(k) ==> exists|j: int|
                0 <= j < ps.len() && (#[trigger] ps[j]).0 == k,
    decreases ps.len(),
{
    if ps.len() > 0 {
        let before = ps.drop_last();
        lemma_given_names(before);
        assert forall|k: Seq<char>| #[trigger] given(ps).dom().contains(k) implies exists|j: int|
            0 <= j < ps.len() && (#[trigger] ps[j]).0 == k by {
            if k == ps.last().0 {
                assert(ps[ps.len() - 1].0 == k);
            } else {
                assert(given(before).dom().contains(k));
                let j = choose|j: int| 0 <= j < before.len() && (#[trigger] before[j]).0 == k;
                assert(ps[j].0 == k);
            }
        }
    }
}

/// With one parameter, the argument is what stands between its tags.
pub proof fn one_argument_is_what_stands_between_the_tags(
    tool: Seq<char>,
    key: Seq<char>,
    value: Seq<char>,
)
    requires
        tool.len() > 0,
        is_plain_name(tool),
        is_plain_name(key),
        is_plain_value(value),
    ensures
        ({
            let block = "<invoke name=\""@ + tool + "\"><parameter name=\""@ + key + "\">"@ + value
                + "</parameter></invoke>"@;
            invoke_parsed(block) == Some(
                (tool, JsonV::Object(map![key => JsonV::Text(value)])),
            )
        }),
{
    let ps = seq![(key, value)];
    arguments_are_what_stands_between_the_tags(tool, ps);
    let block = "<invoke name=\""@ + tool + "\"><parameter name=\""@ + key + "\">"@ + value
        + "</parameter></invoke>"@;
    reveal_strlit("\"><parameter name=\"");
    reveal_strlit("</parameter></invoke>");
    reveal_strlit("<parameter name=\"");
    reveal_strlit("\">");
    reveal_strlit("</parameter>");
    reveal_strlit("</invoke>");
    assert("\"><parameter name=\""@ =~= "\">"@ + "<parameter name=\""@);
    assert("</parameter></invoke>"@ =~= "</parameter>"@ + "</invoke>"@);
    assert(ps.drop_last() =~= Seq::<(Seq<char>, Seq<char>)>::empty());
    assert(written_params(ps.drop_last()) =~= Seq::<char>::empty());
    assert(written_params(ps) =~= written_param(key, value));
    assert(block =~= written_call(tool, ps));
    assert(given(ps.drop_last()) =~= Map::<Seq<char>, JsonV>::empty());
    assert(given(ps) =~= map![key => JsonV::Text(value)]);
}

} // verus!
