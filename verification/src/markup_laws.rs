//! Laws on markup in texts: elements that leaked into an answer, thinking between tags and
//! words that are repeated without end.
use crate::loop_laws::is_blank_text;
use crate::stray::{
    fresh_guard, guard_filter, guard_line, guard_scan, is_stray, line_end, GuardV,
};
use crate::text::{
    char_from, first_occurrence, first_such, holds_char, is_white, lemma_first_occurrence,
    lemma_first_such, occurs_at, trimmed,
};
use crate::thinking::{
    closing_tag, closing_tag_here, end_tag, end_tag_here, is_quote, start_tag, start_tag_here,
    thinking_extracted, unquoted_at, without_newline,
};
use crate::thinking_laws::{tagged, well_tagged};
use crate::xml_leak::{names_tool_use, xml_scan, xml_stripped};
use vstd::prelude::*;

verus! {

/// `t` does not begin anywhere in `s` before the place `at`.
pub open spec fn not_before(s: Seq<char>, t: Seq<char>, at: int) -> bool {
    forall|i: int| 0 <= i < at ==> #[trigger] s.subrange(i, i + t.len()) != t
}

proof fn lemma_first_at(s: Seq<char>, t: Seq<char>, at: int)
    requires
        0 <= at,
        at + t.len() <= s.len(),
        s.subrange(at, at + t.len()) == t,
        not_before(s, t, at),
    ensures
        first_occurrence(s, t, 0) == Some(at),
{
    lemma_first_occurrence(s, t, 0);
    assert(occurs_at(s, t, at));
    match first_occurrence(s, t, 0) {
        Some(i) => {
            if i < at {
                assert(occurs_at(s, t, i));
                assert(s.subrange(i, i + t.len()) == t);
            }
        },
        None => {},
    }
}

/// Only what is compared matters for where a text begins.
proof fn lemma_not_before(a: Seq<char>, t: Seq<char>, b: Seq<char>)
    requires
        not_before(a + t, t, a.len() as int),
    ensures
        not_before(a + t + b, t, a.len() as int),
{
    let s = a + t + b;
    assert forall|i: int| 0 <= i < a.len() implies #[trigger] s.subrange(i, i + t.len()) != t by {
        assert(s.subrange(i, i + t.len()) =~= (a + t).subrange(i, i + t.len()));
    }
}

proof fn lemma_tag_names()
    ensures
        "<tool_use"@.len() == 9,
        "</tool_use>"@.len() == 11,
        forall|i: int| 0 <= i < 9 ==> #[trigger] "<tool_use"@[i] != '>',
{
    reveal_strlit("<tool_use");
    reveal_strlit("</tool_use>");
}

/// What stands between the name of a tag and its end: nothing, or white space and then
/// attributes.
pub open spec fn are_attributes(attrs: Seq<char>) -> bool {
    &&& attrs.len() > 0 ==> is_white(attrs[0])
    &&& forall|i: int| 0 <= i < attrs.len() ==> #[trigger] attrs[i] != '>'
}

proof fn lemma_tag_scanned(a: Seq<char>, attrs: Seq<char>, rest: Seq<char>)
    requires
        not_before(a + "<tool_use"@, "<tool_use"@, a.len() as int),
        are_attributes(attrs),
    ensures
        ({
            let scan = xml_scan(false, a + "<tool_use"@ + (attrs + seq!['>'] + rest));
            let inner = xml_scan(true, rest);
            scan.out == a + inner.out && scan.buffer == inner.buffer && scan.stripping
                == inner.stripping
        }),
{
    lemma_tag_names();
    let open = "<tool_use"@;
    let tail = attrs + seq!['>'] + rest;
    let s = a + open + tail;
    let at = a.len() as int;
    lemma_not_before(a, open, tail);
    assert(s.subrange(at, at + 9) =~= open);
    lemma_first_at(s, open, at);
    let r = s.skip(at);
    assert(r[9] == tail[0]);
    let gt = 9 + attrs.len() as int;
    assert(r[gt] == '>');
    assert(names_tool_use(r)) by {
        if attrs.len() > 0 {
            assert(tail[0] == attrs[0]);
        }
    }
    lemma_first_such(holds_char(r, '>'), 0, r.len() as int);
    assert(holds_char(r, '>')(gt));
    let found = char_from(r, '>', 0)->Some_0;
    if found < gt {
        assert(holds_char(r, '>')(found));
        if found < 9 {
            assert(r[found] == open[found]);
        } else {
            assert(r[found] == attrs[found - 9]);
        }
    }
    assert(s.skip(at + gt + 1) =~= rest);
    assert(s.take(at) =~= a);
}

/// An element that leaked into a text is taken out of it, with all that stands inside, and
/// nothing else is: what stands before it and, cleaned in the same way, what stands behind
/// it is what is left.
pub proof fn leaked_elements_are_taken_out(
    a: Seq<char>,
    attrs: Seq<char>,
    body: Seq<char>,
    b: Seq<char>,
)
    requires
        not_before(a + "<tool_use"@, "<tool_use"@, a.len() as int),
        are_attributes(attrs),
        not_before(body + "</tool_use>"@, "</tool_use>"@, body.len() as int),
    ensures
        xml_stripped(
            a + "<tool_use"@ + (attrs + seq!['>'] + (body + "</tool_use>"@ + b)),
        ) == a + xml_stripped(b),
{
    lemma_tag_names();
    let close = "</tool_use>"@;
    let rest = body + close + b;
    let n = body.len() as int;
    lemma_tag_scanned(a, attrs, rest);
    lemma_not_before(body, close, b);
    assert(rest.subrange(n, n + 11) =~= close);
    lemma_first_at(rest, close, n);
    assert(rest.skip(n + 11) =~= b);
    let scan = xml_scan(false, b);
    assert(a + (scan.out + scan.buffer) =~= a + scan.out + scan.buffer);
}

/// Of an element that is never closed everything is taken out.
pub proof fn unclosed_elements_are_taken_out(a: Seq<char>, attrs: Seq<char>, body: Seq<char>)
    requires
        not_before(a + "<tool_use"@, "<tool_use"@, a.len() as int),
        are_attributes(attrs),
        not_before(body, "</tool_use>"@, body.len() - 10),
    ensures
        xml_stripped(a + "<tool_use"@ + (attrs + seq!['>'] + body)) == a,
{
    lemma_tag_names();
    let close = "</tool_use>"@;
    lemma_tag_scanned(a, attrs, body);
    lemma_first_occurrence(body, close, 0);
    if let Some(i) = first_occurrence(body, close, 0) {
        assert(occurs_at(body, close, i));
        assert(body.subrange(i, i + 11) == close);
    }
    assert(a + Seq::<char>::empty() =~= a);
}

/// A tag whose name only begins like that of such an element is text.
pub proof fn other_tags_are_kept(a: Seq<char>, c: char, b: Seq<char>)
    requires
        not_before(a + "<tool_use"@, "<tool_use"@, a.len() as int),
        c != '>',
        !is_white(c),
    ensures
        xml_stripped(a + "<tool_use"@ + (seq![c] + b)) == a + "<tool_use"@ + xml_stripped(
            seq![c] + b,
        ),
{
    lemma_tag_names();
    let open = "<tool_use"@;
    let tail = seq![c] + b;
    let s = a + open + tail;
    let at = a.len() as int;
    lemma_not_before(a, open, tail);
    assert(s.subrange(at, at + 9) =~= open);
    lemma_first_at(s, open, at);
    let r = s.skip(at);
    assert(r[9] == c);
    assert(s.take(at + 9) =~= a + open);
    assert(s.skip(at + 9) =~= tail);
    let scan = xml_scan(false, tail);
    assert(a + open + (scan.out + scan.buffer) =~= a + open + scan.out + scan.buffer);
}

/// Next to one of these characters a tag is quoted and has no meaning.
pub proof fn quotes_are_marks_of_punctuation(c: char)
    ensures
        is_quote(c) == seq![
            '`',
            '"',
            '\'',
            '\\',
            '#',
            '!',
            '@',
            '$',
            '%',
            '^',
            '&',
            '*',
            '(',
            ')',
            '-',
            '_',
            '=',
            '+',
            '[',
            ']',
            '{',
            '}',
            ';',
            ':',
            '<',
            '>',
            ',',
            '.',
            '?',
            '/',
        ].contains(c),
{
    let all = seq![
        '`',
        '"',
        '\'',
        '\\',
        '#',
        '!',
        '@',
        '$',
        '%',
        '^',
        '&',
        '*',
        '(',
        ')',
        '-',
        '_',
        '=',
        '+',
        '[',
        ']',
        '{',
        '}',
        ';',
        ':',
        '<',
        '>',
        ',',
        '.',
        '?',
        '/',
    ];
    if is_quote(c) {
        assert(all[0] == '`' && all[1] == '"' && all[2] == '\'' && all[3] == '\\' && all[4] == '#');
        assert(all[5] == '!' && all[6] == '@' && all[7] == '$' && all[8] == '%' && all[9] == '^');
        assert(all[10] == '&' && all[11] == '*' && all[12] == '(' && all[13] == ')');
        assert(all[14] == '-' && all[15] == '_' && all[16] == '=' && all[17] == '+');
        assert(all[18] == '[' && all[19] == ']' && all[20] == '{' && all[21] == '}');
        assert(all[22] == ';' && all[23] == ':' && all[24] == '<' && all[25] == '>');
        assert(all[26] == ',' && all[27] == '.' && all[28] == '?' && all[29] == '/');
    }
    if all.contains(c) {
        let i = choose|i: int| 0 <= i < all.len() && all[i] == c;
        assert(all[i] == c);
    }
}

/// The tag `tag` stands at `i` in `s`, and neither of the characters next to it quotes it.
pub open spec fn stands_unquoted(s: Seq<char>, tag: Seq<char>, i: int) -> bool {
    &&& 0 <= i && i + tag.len() <= s.len()
    &&& s.subrange(i, i + tag.len()) == tag
    &&& i > 0 ==> !is_quote(s[i - 1])
    &&& i + tag.len() < s.len() ==> !is_quote(s[i + tag.len()])
}

/// Thinking begins at the first tag that is not quoted. It ends at the first such tag that
/// an empty line follows, or, at the end of a text, at the first one that white space alone
/// follows.
pub proof fn tags_count_where_they_are_not_quoted(s: Seq<char>, i: int)
    ensures
        start_tag(s) == Some(i) <==> (stands_unquoted(s, "<thinking>"@, i) && forall|j: int|
            0 <= j < i ==> !#[trigger] stands_unquoted(s, "<thinking>"@, j)),
        end_tag(s) == Some(i) <==> (ends_thinking(s, i) && forall|j: int|
            0 <= j < i ==> !#[trigger] ends_thinking(s, j)),
        closing_tag(s) == Some(i) <==> (ends_all(s, i) && forall|j: int|
            0 <= j < i ==> !#[trigger] ends_all(s, j)),
{
    reveal_strlit("<thinking>");
    reveal_strlit("</thinking>");
    reveal_strlit("\n\n");
    let n = s.len() as int;
    let (p, q, r) = (start_tag_here(s), end_tag_here(s), closing_tag_here(s));
    assert("<thinking>"@.len() == 10 && "</thinking>"@.len() == 11 && "\n\n"@.len() == 2);
    assert forall|j: int| 0 <= j < n implies p(j) == #[trigger] stands_unquoted(
        s,
        "<thinking>"@,
        j,
    ) by {}
    assert forall|j: int| 0 <= j < n implies q(j) == #[trigger] ends_thinking(s, j) by {
        if ends_thinking(s, j) {
            assert(s.subrange(j + 11, j + 13) =~= "\n\n"@);
        }
        if q(j) {
            let two = s.subrange(j + 11, j + 13);
            assert(two[0] == s[j + 11] && two[1] == s[j + 12]);
        }
    }
    assert forall|j: int| 0 <= j < n implies r(j) == #[trigger] ends_all(s, j) by {
        if ends_all(s, j) {
            assert forall|k: int| 0 <= k < s.skip(j + 11).len() implies is_white(
                #[trigger] s.skip(j + 11)[k],
            ) by {
                assert(s.skip(j + 11)[k] == s[j + 11 + k]);
            }
        }
        if r(j) {
            assert forall|k: int| j + 11 <= k < s.len() implies is_white(#[trigger] s[k]) by {
                assert(s.skip(j + 11)[k - j - 11] == s[k]);
            }
        }
    }
    lemma_first_such(p, 0, n);
    lemma_first_such(q, 0, n);
    lemma_first_such(r, 0, n);
    lemma_iff_first(p, |j: int| stands_unquoted(s, "<thinking>"@, j), n, i);
    lemma_iff_first(q, |j: int| ends_thinking(s, j), n, i);
    lemma_iff_first(r, |j: int| ends_all(s, j), n, i);
    let (x, y, z) = (
        |j: int| stands_unquoted(s, "<thinking>"@, j),
        |j: int| ends_thinking(s, j),
        |j: int| ends_all(s, j),
    );
    assert forall|j: int| 0 <= j < i implies x(j) == #[trigger] stands_unquoted(
        s,
        "<thinking>"@,
        j,
    ) by {}
    assert forall|j: int| 0 <= j < i implies y(j) == #[trigger] ends_thinking(s, j) by {}
    assert forall|j: int| 0 <= j < i implies z(j) == #[trigger] ends_all(s, j) by {}
}

proof fn lemma_iff_first(p: spec_fn(int) -> bool, x: spec_fn(int) -> bool, n: int, i: int)
    requires
        forall|j: int| 0 <= j < n ==> p(j) == #[trigger] x(j),
        forall|j: int| #[trigger] x(j) ==> 0 <= j < n,
    ensures
        first_such(p, 0, n) == Some(i) <==> (x(i) && forall|j: int| 0 <= j < i ==> !#[trigger] x(j)),
{
    lemma_first_such(p, 0, n);
    match first_such(p, 0, n) {
        Some(k) => {
            assert(x(k));
            if x(i) && (forall|j: int| 0 <= j < i ==> !#[trigger] x(j)) {
                if k < i {
                    assert(!x(k));
                } else if i < k {
                    assert(p(i));
                }
            }
            if k == i {
                assert forall|j: int| 0 <= j < i implies !#[trigger] x(j) by {
                    assert(!p(j));
                }
            }
        },
        None => {
            if x(i) {
                assert(p(i));
            }
        },
    }
}

/// The end of thinking stands at `i`: the tag, not quoted, and an empty line.
pub open spec fn ends_thinking(s: Seq<char>, i: int) -> bool {
    &&& stands_unquoted(s, "</thinking>"@, i)
    &&& i + 13 <= s.len()
    &&& s[i + 11] == '\n'
    &&& s[i + 12] == '\n'
}

/// The end of thinking stands at `i`, with white space alone behind it.
pub open spec fn ends_all(s: Seq<char>, i: int) -> bool {
    &&& stands_unquoted(s, "</thinking>"@, i)
    &&& forall|k: int| i + 11 <= k < s.len() ==> is_white(#[trigger] s[k])
}

/// One line break behind the tag is dropped, and nothing else.
pub proof fn only_one_line_break_is_dropped(t: Seq<char>)
    ensures
        without_newline(seq!['\n'] + t) == t,
        t.len() > 0 && t[0] != '\n' ==> without_newline(t) == t,
        without_newline(Seq::empty()) == Seq::<char>::empty(),
{
    assert((seq!['\n'] + t).skip(1) =~= t);
}

/// A complete text that begins with thinking between tags is parted into the thinking and
/// the answer behind the empty line; a line break behind the first tag is dropped. A text
/// without the tag is an answer alone.
pub proof fn thinking_is_parted_from_the_answer(t: Seq<char>, rest: Seq<char>, s: Seq<char>)
    requires
        well_tagged(t, rest),
        not_before(s, "<thinking>"@, s.len() as int),
    ensures
        t[0] != '\n' ==> thinking_extracted(tagged(t, rest)) == (Some(t), rest),
        t[0] == '\n' && t.len() > 1 ==> thinking_extracted(tagged(t, rest)) == (
            Some(t.skip(1)),
            rest,
        ),
        thinking_extracted(s) == (None::<Seq<char>>, s),
{
    reveal_strlit("<thinking>");
    reveal_strlit("</thinking>");
    reveal_strlit("\n\n");
    let open = "<thinking>"@;
    let all = tagged(t, rest);
    let back = crate::thinking_laws::behind(t, rest);
    let n = t.len() as int;
    assert(open.len() == 10);
    assert(all.subrange(0, 10) =~= open);
    assert(all[10] == t[0]);
    assert(stands_unquoted(all, open, 0));
    tags_count_where_they_are_not_quoted(all, 0);
    assert(all.skip(10) =~= back);
    assert(back.subrange(n, n + 11) =~= "</thinking>"@);
    assert(back[n + 11] == '\n' && back[n + 12] == '\n');
    assert(back[n - 1] == t.last());
    assert(!is_quote('\n'));
    assert(ends_thinking(back, n));
    assert forall|j: int| 0 <= j < n implies !#[trigger] ends_thinking(back, j) by {
        assert(!occurs_at(back, "</thinking>"@, j));
    }
    tags_count_where_they_are_not_quoted(back, n);
    assert(back.take(n) =~= t);
    assert(back.skip(n + 13) =~= rest);
    assert(all.take(0) =~= Seq::<char>::empty());
    lemma_first_such(start_tag_here(s), 0, s.len() as int);
    if let Some(i) = start_tag(s) {
        assert(start_tag_here(s)(i));
        assert(unquoted_at(s, open, i));
        assert(s.subrange(i, i + 10) == open);
    }
}

/// There are three words that a model is known to repeat without end.
pub proof fn stray_words_are_three(line: Seq<char>)
    ensures
        is_stray(line) <==> (line == seq!['c', 'a', 'l', 'l'] || line == seq![
            'c',
            'o',
            'u',
            'n',
            't',
        ] || line == seq!['c', 'a', 'r', 'd']),
{
    reveal_strlit("call");
    reveal_strlit("count");
    reveal_strlit("card");
    assert("call"@ =~= seq!['c', 'a', 'l', 'l']);
    assert("count"@ =~= seq!['c', 'o', 'u', 'n', 't']);
    assert("card"@ =~= seq!['c', 'a', 'r', 'd']);
}

/// `n` lines that hold the word `w` alone.
pub open spec fn lines_of(w: Seq<char>, n: nat) -> Seq<char>
    decreases n,
{
    if n == 0 {
        Seq::empty()
    } else {
        w + seq!['\n'] + lines_of(w, (n - 1) as nat)
    }
}

proof fn lemma_word(w: Seq<char>)
    requires
        is_stray(w),
    ensures
        w.len() > 0,
        forall|i: int| 0 <= i < w.len() ==> 'a' <= #[trigger] w[i] <= 'z',
        trimmed(w + seq!['\n']) == w,
{
    stray_words_are_three(w);
    let none = Seq::<char>::empty();
    crate::loop_laws::trimming_takes_white_space_alone(none, w, seq!['\n']);
    assert(none + w + seq!['\n'] =~= w + seq!['\n']);
}

proof fn lemma_flood(g: GuardV, w: Seq<char>, n: nat, text: Seq<char>, from: int)
    requires
        is_stray(w),
        !g.tripped,
        0 <= from <= text.len(),
        text.skip(from) == lines_of(w, n),
        0 <= g.run < 32,
        g.last_line == w || g.run == 0,
        g.last_line != w ==> !is_stray(g.last_line) || g.run == 0,
        g.run > 0 ==> g.last_line == w,
    ensures
        ({
            let run = if g.last_line == w {
                g.run
            } else {
                0
            };
            let left = 31 - run;
            let s = guard_scan(g, text, from);
            if n <= left {
                !s.0.tripped && s.1 == text.len()
            } else {
                s.0.tripped && s.1 == from + left * (w.len() + 1)
            }
        }),
    decreases n,
{
    lemma_word(w);
    let line = w + seq!['\n'];
    let k = line.len() as int;
    let tail = text.skip(from);
    if n == 0 {
        assert(text.len() == from + tail.len());
    } else {
        let rest = lines_of(w, (n - 1) as nat);
        assert(tail == line + rest);
        assert(text.len() == from + tail.len());
        assert forall|i: int| 0 <= i < tail.len() implies text[from + i] == #[trigger] tail[i] by {}
        assert(tail[k - 1] == '\n');
        assert(text[from + k - 1] == '\n');
        lemma_first_such(holds_char(text, '\n'), from, text.len() as int);
        assert(holds_char(text, '\n')(from + k - 1));
        let nl = char_from(text, '\n', from)->Some_0;
        if nl < from + k - 1 {
            assert(holds_char(text, '\n')(nl));
            assert(tail[nl - from] == w[nl - from]);
        }
        let end = line_end(text, from);
        assert(end == from + k);
        assert(text.subrange(from, end) =~= line);
        let next = guard_line(g, w);
        assert forall|i: int| 0 <= i < rest.len() implies #[trigger] text.skip(end)[i] == rest[i] by {
            assert(tail[k + i] == rest[i]);
        }
        assert(text.skip(end) =~= rest);
        let run = if g.last_line == w {
            g.run
        } else {
            0
        };
        let left = 31 - run;
        if left == 0 {
            assert(next.tripped);
        } else {
            assert(!next.tripped);
            lemma_flood(next, w, (n - 1) as nat, text, end);
            assert(from + left * (w.len() + 1) == end + (left - 1) * (w.len() + 1))
                by (nonlinear_arith)
                requires
                    end == from + w.len() + 1,
            ;
        }
    }
}

proof fn lemma_lines_len(w: Seq<char>, n: nat, m: nat)
    requires
        m <= n,
    ensures
        lines_of(w, n).len() == n * (w.len() + 1),
        lines_of(w, n).take((m * (w.len() + 1)) as int) == lines_of(w, m),
    decreases n,
{
    let k = (w.len() + 1) as int;
    if n == 0 {
        assert(0 * k == 0) by (nonlinear_arith);
        assert(lines_of(w, 0).take(0) =~= lines_of(w, 0));
    } else {
        let rest = lines_of(w, (n - 1) as nat);
        lemma_lines_len(
            w,
            (n - 1) as nat,
            if m == 0 {
                0
            } else {
                (m - 1) as nat
            },
        );
        assert(n * k == k + (n - 1) * k) by (nonlinear_arith);
        if m == 0 {
            assert(0 * k == 0) by (nonlinear_arith);
            assert(lines_of(w, n).take(0) =~= lines_of(w, 0));
        } else {
            assert(m * k == k + (m - 1) * k) by (nonlinear_arith);
            assert((m - 1) * k >= 0) by (nonlinear_arith)
                requires
                    m >= 1,
                    k >= 0,
            ;
            assert((m - 1) * k <= (n - 1) * k) by (nonlinear_arith)
                requires
                    m <= n,
                    k >= 0,
            ;
            assert(lines_of(w, n).take((m * k) as int) =~= w + seq!['\n'] + rest.take(
                ((m - 1) * k) as int,
            ));
        }
    }
}

/// A stray word that is repeated line after line passes thirty-one times; from the next
/// line on everything is cut off.
pub proof fn a_repeated_word_passes_thirty_one_times(w: Seq<char>, n: nat)
    requires
        is_stray(w),
    ensures
        guard_filter(fresh_guard(), lines_of(w, n)).1 == lines_of(
            w,
            if n < 32 {
                n
            } else {
                31
            },
        ),
        guard_filter(fresh_guard(), lines_of(w, n)).0.tripped == (n >= 32),
{
    lemma_word(w);
    let text = lines_of(w, n);
    let g = fresh_guard();
    assert(text.skip(0) =~= text);
    assert(g.last_line != w);
    stray_words_are_three(g.last_line);
    lemma_flood(g, w, n, text, 0);
    if n < 32 {
        lemma_lines_len(w, n, n);
        assert(text.take(text.len() as int) =~= text);
    } else {
        lemma_lines_len(w, n, 31);
    }
}

/// Thinking that stands behind other text is taken out of it: what stands before it and what
/// stands behind it is the answer, without the former where it is blank. Thinking that holds
/// nothing is no thinking, and the text stays as it is.
pub proof fn thinking_is_taken_out_of_a_text(a: Seq<char>, t: Seq<char>, rest: Seq<char>)
    requires
        well_tagged(t, rest),
        a.len() > 0 ==> !is_quote(a.last()),
        not_before(a + "<thinking>"@, "<thinking>"@, a.len() as int),
    ensures
        ({
            let text = a + tagged(t, rest);
            let thought = if t[0] == '\n' {
                t.skip(1)
            } else {
                t
            };
            thinking_extracted(text) == if thought.len() == 0 {
                (None::<Seq<char>>, text)
            } else if is_blank_text(a) {
                (Some(thought), rest)
            } else {
                (Some(thought), a + rest)
            }
        }),
{
    reveal_strlit("<thinking>");
    reveal_strlit("</thinking>");
    reveal_strlit("\n\n");
    let open = "<thinking>"@;
    let all = tagged(t, rest);
    let text = a + all;
    let back = crate::thinking_laws::behind(t, rest);
    let m = a.len() as int;
    let n = t.len() as int;
    assert(open.len() == 10);
    assert(text.subrange(m, m + 10) =~= open);
    assert(text[m + 10] == t[0]);
    if m > 0 {
        assert(text[m - 1] == a.last());
    }
    assert(stands_unquoted(text, open, m));
    assert forall|j: int| 0 <= j < m implies !#[trigger] stands_unquoted(text, open, j) by {
        assert(text.subrange(j, j + 10) =~= (a + open).subrange(j, j + 10));
    }
    tags_count_where_they_are_not_quoted(text, m);
    assert(text.skip(m + 10) =~= back);
    assert(back.subrange(n, n + 11) =~= "</thinking>"@);
    assert(back[n + 11] == '\n' && back[n + 12] == '\n');
    assert(back[n - 1] == t.last());
    assert(ends_thinking(back, n));
    assert forall|j: int| 0 <= j < n implies !#[trigger] ends_thinking(back, j) by {
        assert(!occurs_at(back, "</thinking>"@, j));
    }
    tags_count_where_they_are_not_quoted(back, n);
    assert(back.take(n) =~= t);
    assert(back.skip(n + 13) =~= rest);
    assert(text.take(m) =~= a);
    assert(is_blank_text(a) == crate::text::all_white(a));
}

/// A text that is thinking to its end, the tag and white space behind it, has no answer.
pub proof fn thinking_alone_leaves_no_answer(t: Seq<char>, white: Seq<char>)
    requires
        t.len() > 0,
        t[0] != '\n',
        !is_quote(t[0]),
        !is_quote(t.last()),
        is_blank_text(white),
        not_before(t + "</thinking>"@ + white, "</thinking>"@, t.len() as int),
    ensures
        ({
            let r = thinking_extracted("<thinking>"@ + (t + "</thinking>"@ + white));
            r.0 == Some(t) && (r.1.len() == 0 || (white.len() > 2 && white[0] == '\n' && white[1]
                == '\n'))
        }),
{
    reveal_strlit("<thinking>");
    reveal_strlit("</thinking>");
    reveal_strlit("\n\n");
    let open = "<thinking>"@;
    let close = "</thinking>"@;
    let back = t + close + white;
    let text = open + back;
    let n = t.len() as int;
    assert(open.len() == 10 && close.len() == 11);
    assert(text.subrange(0, 10) =~= open);
    assert(text[10] == t[0]);
    assert(stands_unquoted(text, open, 0));
    tags_count_where_they_are_not_quoted(text, 0);
    assert(text.skip(10) =~= back);
    assert(back.subrange(n, n + 11) =~= close);
    assert(back[n - 1] == t.last());
    if white.len() > 0 {
        assert(back[n + 11] == white[0]);
        assert(is_white(white[0]));
        assert(!is_quote(white[0]));
    }
    assert(stands_unquoted(back, close, n));
    assert forall|k: int| n + 11 <= k < back.len() implies is_white(#[trigger] back[k]) by {
        assert(back[k] == white[k - n - 11]);
    }
    assert(ends_all(back, n));
    assert forall|j: int| 0 <= j < n implies !#[trigger] ends_all(back, j) by {
        if ends_all(back, j) {
            assert(back.subrange(j, j + 11) == close);
        }
    }
    assert forall|j: int| 0 <= j < n implies !#[trigger] ends_thinking(back, j) by {
        if ends_thinking(back, j) {
            assert(back.subrange(j, j + 11) == close);
        }
    }
    tags_count_where_they_are_not_quoted(back, n);
    assert(back.take(n) =~= t);
    assert(back.skip(n + 11) =~= white);
    assert(text.take(0) =~= Seq::<char>::empty());
    if white.len() >= 2 && white[0] == '\n' && white[1] == '\n' {
        assert(back[n + 12] == white[1]);
        assert(ends_thinking(back, n));
        assert(back.skip(n + 13).len() == white.len() - 2);
    } else {
        assert(end_tag(back) is None) by {
            if let Some(i) = end_tag(back) {
                tags_count_where_they_are_not_quoted(back, i);
                assert(ends_thinking(back, i));
                if i > n {
                    assert(back.subrange(i, i + 11)[0] == back[i]);
                    lemma_no_tag_behind(t, white, i);
                }
                if i == n {
                    assert(back[n + 12] == white[1]);
                }
            }
        }
        lemma_first_such(closing_tag_here(back), 0, back.len() as int);
        crate::tag_laws::lemma_white_skipped(white, 0);
        assert(crate::text::trimmed_start(white).len() == 0);
    }
}

proof fn lemma_no_tag_behind(t: Seq<char>, white: Seq<char>, i: int)
    requires
        is_blank_text(white),
        t.len() < i,
        i <= t.len() + white.len(),
    ensures
        (t + "</thinking>"@ + white).subrange(i, i + 11) != "</thinking>"@,
{
    reveal_strlit("</thinking>");
    let close = "</thinking>"@;
    let back = t + close + white;
    let k = i - t.len();
    // The last character of the tag would be white.
    assert(back.subrange(i, i + 11)[10] == back[i + 10]);
    assert(back[i + 10] == white[i + 10 - t.len() - 11]);
    assert(close[10] == '>');
    assert(is_white(white[k - 1]));
}

} // verus!
