//! Laws on stray words: what is cut off because of them, and that nothing else is.
use crate::stray::{
    before_breaks, fresh_guard, guard_filter, guard_line, guard_passes_a_prefix, guard_scan,
    is_stray, lead, lemma_guard_cuts_at_a_line, line_end, line_start, stray_end,
    what_has_passed_passes_again, without_strays, GuardV, REPEAT_GUARD_TRIP_THRESHOLD,
};
use crate::text::{
    all_white, first_such, holds_char, is_white, last_such, lemma_first_such, lemma_last_such,
    lemma_skip_white, lemma_skip_white_back, skip_white, skip_white_back, trimmed, trimmed_start,
};
use vstd::prelude::*;

verus! {

/// The lines of `text[from..]` that are not blank, each without white space around it.
pub open spec fn filled_lines(text: Seq<char>, from: int) -> Seq<Seq<char>>
    decreases text.len() - from,
{
    let end = line_end(text, from);
    if from < 0 || from >= text.len() || end <= from || end > text.len() {
        Seq::empty()
    } else {
        let line = trimmed(text.subrange(from, end));
        if line.len() == 0 {
            filled_lines(text, end)
        } else {
            seq![line] + filled_lines(text, end)
        }
    }
}

/// One stray word fills so many lines in a row, blank ones aside, that the text is cut
/// off.
pub open spec fn flooded(lines: Seq<Seq<char>>) -> bool {
    exists|i: int|
        0 <= i && i + REPEAT_GUARD_TRIP_THRESHOLD <= lines.len() && #[trigger] is_stray(lines[i])
            && forall|j: int|
            i <= j < i + REPEAT_GUARD_TRIP_THRESHOLD ==> #[trigger] lines[j] == lines[i]
}

/// The guard has seen those lines.
spec fn has_seen(g: GuardV, lines: Seq<Seq<char>>) -> bool {
    &&& !g.tripped
    &&& 0 <= g.run <= lines.len()
    &&& g.run < REPEAT_GUARD_TRIP_THRESHOLD
    &&& forall|j: int| lines.len() - g.run <= j < lines.len() ==> #[trigger] lines[j] == g.last_line
    &&& is_stray(g.last_line) ==> g.run > 0
}

pub(crate) proof fn lemma_line_bounds(text: Seq<char>, from: int)
    requires
        0 <= from < text.len(),
    ensures
        from < line_end(text, from) <= text.len(),
{
    lemma_first_such(holds_char(text, '\n'), from, text.len() as int);
}

proof fn lemma_no_flood(g: GuardV, lines: Seq<Seq<char>>, text: Seq<char>, from: int)
    requires
        has_seen(g, lines),
        0 <= from <= text.len(),
        !flooded(lines + filled_lines(text, from)),
    ensures
        !guard_scan(g, text, from).0.tripped,
    decreases text.len() - from,
{
    if from < text.len() {
        lemma_line_bounds(text, from);
        let end = line_end(text, from);
        let line = trimmed(text.subrange(from, end));
        let next = guard_line(g, line);
        let rest = filled_lines(text, end);
        if line.len() == 0 {
            if is_stray(line) {
                lemma_stray_is_filled(line);
            }
            lemma_no_flood(g, lines, text, end);
        } else {
            let more = lines.push(line);
            assert(lines + (seq![line] + rest) =~= more + rest);
            if next.tripped {
                let n = REPEAT_GUARD_TRIP_THRESHOLD as int;
                let i = more.len() - n;
                let all = more + rest;
                assert forall|j: int| i <= j < i + n implies #[trigger] all[j] == all[i] by {
                    assert(more[j] == line);
                    assert(more[i] == line);
                }
                assert(is_stray(all[i]));
                assert(flooded(all));
            } else {
                assert(has_seen(next, more));
                lemma_no_flood(next, more, text, end);
            }
        }
    }
}

/// Cutting a flood of one stray word off a text gives the beginning of the text, whole
/// or up to the beginning of a line; it changes nothing the second time, and nothing at
/// all where there is no flood.
pub proof fn floods_alone_are_cut_off(text: Seq<char>)
    ensures
        ({
            let kept = guard_filter(fresh_guard(), text).1;
            &&& kept.len() <= text.len()
            &&& kept == text.take(kept.len() as int)
            &&& kept == text || kept.len() == 0 || kept.last() == '\n'
            &&& guard_filter(fresh_guard(), kept).1 == kept
            &&& !flooded(filled_lines(text, 0)) ==> kept == text
        }),
{
    let g = fresh_guard();
    guard_passes_a_prefix(g, text);
    what_has_passed_passes_again(g, text);
    if guard_scan(g, text, 0).0.tripped {
        lemma_guard_cuts_at_a_line(g, text, 0);
    }
    if !flooded(filled_lines(text, 0)) {
        let none = Seq::<Seq<char>>::empty();
        assert(none + filled_lines(text, 0) =~= filled_lines(text, 0));
        if is_stray(g.last_line) {
            lemma_stray_is_filled(g.last_line);
        }
        lemma_no_flood(g, none, text, 0);
    }
}

proof fn lemma_before_breaks(s: Seq<char>, end: int)
    requires
        0 <= end <= s.len(),
    ensures
        0 <= before_breaks(s, end) <= end,
        forall|j: int|
            before_breaks(s, end) <= j < end ==> #[trigger] s[j] == '\n' || s[j] == '\r',
    decreases end,
{
    if end > 0 && (s[end - 1] == '\n' || s[end - 1] == '\r') {
        lemma_before_breaks(s, end - 1);
    }
}

proof fn lemma_line_start(s: Seq<char>, end: int)
    requires
        0 <= end <= s.len(),
    ensures
        0 <= line_start(s, end) <= end,
        line_start(s, end) > 0 ==> s[line_start(s, end) - 1] == '\n',
        forall|j: int| line_start(s, end) <= j < end ==> #[trigger] s[j] != '\n',
{
    let p = holds_char(s, '\n');
    lemma_last_such(p, 0, end);
    match last_such(p, 0, end) {
        Some(i) => {
            assert(p(i));
            assert forall|j: int| i < j < end implies #[trigger] s[j] != '\n' by {
                assert(!p(j));
            }
        },
        None => {
            assert forall|j: int| 0 <= j < end implies #[trigger] s[j] != '\n' by {
                assert(!p(j));
            }
        },
    }
}

proof fn lemma_stray_is_filled(line: Seq<char>)
    requires
        is_stray(line),
    ensures
        line.len() > 0,
{
    reveal_strlit("call");
    reveal_strlit("count");
    reveal_strlit("card");
}

/// A text is trimmed to what stands between the first and the last character that is
/// not white.
proof fn lemma_trimmed_is(s: Seq<char>, a: int, b: int)
    requires
        0 <= a < b <= s.len(),
        forall|j: int| 0 <= j < a ==> is_white(#[trigger] s[j]),
        forall|j: int| b <= j < s.len() ==> is_white(#[trigger] s[j]),
        !is_white(s[a]),
        !is_white(s[b - 1]),
    ensures
        trimmed(s) == s.subrange(a, b),
{
    lemma_skip_white(s, 0);
    let i = skip_white(s, 0);
    if i < a {
        assert(is_white(s[i]));
    }
    assert(i == a);
    let t = trimmed_start(s);
    lemma_skip_white_back(t, t.len() as int);
    let k = skip_white_back(t, t.len() as int);
    if k > b - a {
        assert(t[k - 1] == s[a + k - 1]);
    } else if k < b - a {
        assert(is_white(t[b - a - 1]));
        assert(t[b - a - 1] == s[b - 1]);
    }
    assert(trimmed(s) =~= s.subrange(a, b));
}

/// Where the text that a trimmed text is stands.
pub(crate) proof fn lemma_trimmed_within(s: Seq<char>) -> (r: (int, int))
    requires
        trimmed(s).len() > 0,
    ensures
        0 <= r.0 < r.1 <= s.len(),
        forall|j: int| 0 <= j < r.0 ==> is_white(#[trigger] s[j]),
        forall|j: int| r.1 <= j < s.len() ==> is_white(#[trigger] s[j]),
        !is_white(s[r.0]),
        !is_white(s[r.1 - 1]),
        trimmed(s) == s.subrange(r.0, r.1),
{
    lemma_skip_white(s, 0);
    let a = skip_white(s, 0);
    let t = trimmed_start(s);
    lemma_skip_white_back(t, t.len() as int);
    let k = skip_white_back(t, t.len() as int);
    let b = a + k;
    assert(t[k - 1] == s[b - 1]);
    assert forall|j: int| b <= j < s.len() implies is_white(#[trigger] s[j]) by {
        assert(is_white(t[j - a]));
    }
    lemma_trimmed_is(s, a, b);
    (a, b)
}

proof fn lemma_trimmed_white_end(s: Seq<char>, w: Seq<char>)
    requires
        trimmed(s).len() > 0,
        all_white(w),
    ensures
        trimmed(s + w) == trimmed(s),
{
    let (a, b) = lemma_trimmed_within(s);
    let u = s + w;
    assert forall|j: int| b <= j < u.len() implies is_white(#[trigger] u[j]) by {
        if j < s.len() {
            assert(u[j] == s[j]);
        } else {
            assert(u[j] == w[j - s.len()]);
        }
    }
    assert forall|j: int| 0 <= j < a implies is_white(#[trigger] u[j]) by {
        assert(u[j] == s[j]);
    }
    lemma_trimmed_is(u, a, b);
    assert(u.subrange(a, b) =~= s.subrange(a, b));
}

/// Lines that are all white give no filled lines.
proof fn lemma_white_has_no_lines(text: Seq<char>, from: int)
    requires
        0 <= from <= text.len(),
        forall|j: int| from <= j < text.len() ==> is_white(#[trigger] text[j]),
    ensures
        filled_lines(text, from) == Seq::<Seq<char>>::empty(),
    decreases text.len() - from,
{
    if from < text.len() {
        lemma_line_bounds(text, from);
        let end = line_end(text, from);
        let line = text.subrange(from, end);
        assert forall|j: int| 0 <= j < line.len() implies is_white(#[trigger] line[j]) by {
            assert(line[j] == text[from + j]);
        }
        crate::text::lemma_blank(line);
        lemma_white_has_no_lines(text, end);
    }
}

/// A stray word with line breaks behind it is one filled line.
proof fn lemma_stray_line(text: Seq<char>, from: int, e: int)
    requires
        0 <= from <= e <= text.len(),
        is_stray(trimmed(text.subrange(from, e))),
        forall|j: int| from <= j < e ==> #[trigger] text[j] != '\n',
        forall|j: int| e <= j < text.len() ==> #[trigger] text[j] == '\n' || text[j] == '\r',
    ensures
        from < line_end(text, from) <= text.len(),
        trimmed(text.subrange(from, line_end(text, from))) == trimmed(text.subrange(from, e)),
        filled_lines(text, from) == seq![trimmed(text.subrange(from, e))],
{
    let word = trimmed(text.subrange(from, e));
    lemma_stray_is_filled(word);
    let (a, b) = lemma_trimmed_within(text.subrange(from, e));
    lemma_line_bounds(text, from);
    let p = holds_char(text, '\n');
    lemma_first_such(p, from, text.len() as int);
    let end = line_end(text, from);
    if let Some(i) = first_such(p, from, text.len() as int) {
        assert(p(i));
        assert(i >= e);
    }
    let w = text.subrange(e, end);
    assert(all_white(w)) by {
        assert forall|j: int| 0 <= j < w.len() implies is_white(#[trigger] w[j]) by {
            assert(w[j] == text[e + j]);
        }
    }
    assert(text.subrange(from, end) =~= text.subrange(from, e) + w);
    lemma_trimmed_white_end(text.subrange(from, e), w);
    assert forall|j: int| end <= j < text.len() implies is_white(#[trigger] text[j]) by {
        assert(text[j] == '\n' || text[j] == '\r');
    }
    lemma_white_has_no_lines(text, end);
    assert(seq![word] + Seq::<Seq<char>>::empty() =~= seq![word]);
}

/// Lines behind a line break are lines of their own.
proof fn lemma_lines_append(a: Seq<char>, b: Seq<char>, from: int)
    requires
        0 <= from <= a.len(),
        a.len() > 0 ==> a.last() == '\n',
    ensures
        filled_lines(a + b, from) == filled_lines(a, from) + filled_lines(b, 0),
    decreases a.len() - from,
{
    let w = a + b;
    if from < a.len() {
        crate::stray::lemma_line_end_append(a, b, from);
        let end = line_end(a, from);
        assert(w.subrange(from, end) =~= a.subrange(from, end));
        lemma_lines_append(a, b, end);
        let line = trimmed(a.subrange(from, end));
        if line.len() > 0 {
            assert(seq![line] + (filled_lines(a, end) + filled_lines(b, 0)) =~= (seq![line]
                + filled_lines(a, end)) + filled_lines(b, 0));
        }
    } else {
        lemma_lines_shift(a, b, 0);
        assert(filled_lines(a, from) + filled_lines(b, 0) =~= filled_lines(b, 0));
    }
}

proof fn lemma_lines_shift(a: Seq<char>, b: Seq<char>, from: int)
    requires
        0 <= from <= b.len(),
    ensures
        filled_lines(a + b, a.len() + from) == filled_lines(b, from),
    decreases b.len() - from,
{
    let w = a + b;
    if from < b.len() {
        let p = holds_char(b, '\n');
        let q = holds_char(w, '\n');
        crate::stray::lemma_first_such_shift(p, q, a.len() as int, from, b.len() as int);
        lemma_line_bounds(b, from);
        let end = line_end(b, from);
        assert(line_end(w, a.len() + from) == a.len() + end);
        assert(w.subrange(a.len() + from, a.len() + end) =~= b.subrange(from, end));
        lemma_lines_shift(a, b, end);
    }
}

/// The lines of a text that is cut off for stray words.
spec fn are_strays(lines: Seq<Seq<char>>) -> bool {
    forall|i: int| 0 <= i < lines.len() ==> is_stray(#[trigger] lines[i])
}

proof fn lemma_stray_end(s: Seq<char>, floor: int, end: int)
    requires
        0 <= end <= s.len(),
    ensures
        ({
            let r = stray_end(s, floor, end);
            let cut = s.subrange(r, end);
            let e = before_breaks(s, r);
            &&& 0 <= r <= end
            &&& r < end ==> floor <= r
            &&& stray_end(s, floor, r) == r
            &&& line_start(s, e) < floor || !is_stray(trimmed(s.subrange(line_start(s, e), e)))
            &&& r < end ==> r == 0 || s[r - 1] == '\n'
            &&& r < end ==> is_stray(trimmed(cut.subrange(0, line_end(cut, 0))))
            &&& are_strays(filled_lines(cut, 0))
        }),
    decreases end,
{
    lemma_before_breaks(s, end);
    let e = before_breaks(s, end);
    lemma_line_start(s, e);
    let start = line_start(s, e);
    let line = s.subrange(start, e);
    let r = stray_end(s, floor, end);
    let cut = s.subrange(r, end);
    if is_stray(trimmed(line)) && floor <= start {
        lemma_stray_is_filled(trimmed(line));
        let (a, b) = lemma_trimmed_within(line);
        lemma_stray_end(s, floor, start);
        let head = s.subrange(r, start);
        let tail = s.subrange(start, end);
        assert(cut =~= head + tail);
        assert(tail.subrange(0, e - start) =~= line);
        assert forall|j: int| 0 <= j < e - start implies #[trigger] tail[j] != '\n' by {
            assert(tail[j] == s[start + j]);
        }
        assert forall|j: int| e - start <= j < tail.len() implies #[trigger] tail[j] == '\n'
            || tail[j] == '\r' by {
            assert(tail[j] == s[start + j]);
        }
        lemma_stray_line(tail, 0, e - start);
        if head.len() > 0 {
            assert(head.last() == s[start - 1]);
            lemma_lines_append(head, tail, 0);
            crate::stray::lemma_line_end_append(head, tail, 0);
            assert(cut.subrange(0, line_end(head, 0)) =~= head.subrange(0, line_end(head, 0)));
        } else {
            assert(head =~= Seq::<char>::empty());
            assert(cut =~= tail);
        }
        let x = filled_lines(head, 0);
        let y = filled_lines(tail, 0);
        assert forall|i: int| 0 <= i < (x + y).len() implies is_stray(#[trigger] (x + y)[i]) by {
            if i < x.len() {
                assert(is_stray(x[i]));
            }
        }
        if head.len() == 0 {
            assert(filled_lines(cut, 0) == y);
            assert(are_strays(y)) by {
                assert(y[0] == trimmed(line));
            }
        }
    } else {
        assert(cut =~= Seq::<char>::empty());
    }
}

proof fn lemma_stray_end_prefix(s: Seq<char>, n: int, end: int)
    requires
        0 <= end <= n <= s.len(),
    ensures
        stray_end(s.take(n), 0, end) == stray_end(s, 0, end),
    decreases end,
{
    let t = s.take(n);
    lemma_before_breaks_prefix(s, n, end);
    lemma_before_breaks(s, end);
    let e = before_breaks(s, end);
    lemma_last_such_same(holds_char(t, '\n'), holds_char(s, '\n'), e);
    lemma_line_start(s, e);
    let start = line_start(s, e);
    assert(t.subrange(start, e) =~= s.subrange(start, e));
    if is_stray(trimmed(s.subrange(start, e))) && 0 <= start < end {
        lemma_stray_end_prefix(s, n, start);
    }
}

proof fn lemma_before_breaks_prefix(s: Seq<char>, n: int, end: int)
    requires
        0 <= end <= n <= s.len(),
    ensures
        before_breaks(s.take(n), end) == before_breaks(s, end),
    decreases end,
{
    if end > 0 {
        assert(s.take(n)[end - 1] == s[end - 1]);
        lemma_before_breaks_prefix(s, n, end - 1);
    }
}

proof fn lemma_last_such_same(p: spec_fn(int) -> bool, q: spec_fn(int) -> bool, to: int)
    requires
        forall|i: int| 0 <= i < to ==> #[trigger] p(i) == q(i),
    ensures
        last_such(p, 0, to) == last_such(q, 0, to),
    decreases to,
{
    if to > 0 {
        assert(p(to - 1) == q(to - 1));
        lemma_last_such_same(p, q, to - 1);
    }
}

/// Stray words alone are cut off at the end of a text. What stays and what is cut off
/// make up the text; every line that is cut off is blank or a stray word, and the first
/// one is a stray word; what stays ends with a line then, and its own last line is not
/// a stray word, so that nothing is cut off the second time.
pub proof fn strays_alone_are_stripped(before: Seq<char>)
    ensures
        ({
            let kept = without_strays(before);
            let cut = before.skip(kept.len() as int);
            let e = before_breaks(kept, kept.len() as int);
            &&& kept.len() <= before.len()
            &&& before == kept + cut
            &&& forall|i: int|
                0 <= i < filled_lines(cut, 0).len() ==> is_stray(#[trigger] filled_lines(cut, 0)[i])
            &&& cut.len() > 0 ==> is_stray(trimmed(cut.subrange(0, line_end(cut, 0))))
            &&& cut.len() > 0 ==> kept.len() == 0 || kept.last() == '\n'
            &&& !is_stray(trimmed(kept.subrange(line_start(kept, e), e)))
            &&& without_strays(kept) == kept
        }),
{
    let n = before.len() as int;
    lemma_stray_end(before, 0, n);
    let r = stray_end(before, 0, n);
    let kept = without_strays(before);
    let cut = before.skip(r);
    assert(before.subrange(r, n) =~= cut);
    assert(kept + cut =~= before);
    lemma_stray_end_prefix(before, r, r);
    lemma_stray_end(kept, 0, r);
    lemma_before_breaks(kept, r);
    lemma_line_start(kept, before_breaks(kept, r));
    assert(kept.take(r) =~= kept);
}

/// Of a text that goes on behind a line that was begun before, the rest of that line
/// stays, with its break. What stays and what is cut off make up the text; every line
/// that is cut off is blank or a stray word, and what stays ends with a line then.
/// Behind no such line the text is cut as it is by itself.
pub proof fn a_line_begun_before_stays(line: Seq<char>, text: Seq<char>)
    ensures
        ({
            let kept = lead(line, text);
            let cut = text.skip(kept.len() as int);
            &&& kept.len() <= text.len()
            &&& text == kept + cut
            &&& line.len() > 0 && line.last() != '\n' ==> line_end(text, 0) <= kept.len()
            &&& forall|i: int|
                0 <= i < filled_lines(cut, 0).len() ==> is_stray(#[trigger] filled_lines(cut, 0)[i])
            &&& cut.len() > 0 ==> kept.len() == 0 || kept.last() == '\n'
            &&& line.len() == 0 ==> kept == without_strays(text)
        }),
{
    let all = line + text;
    let f = line.len() as int;
    let n = all.len() as int;
    lemma_stray_end(all, f, n);
    let r = stray_end(all, f, n);
    let kept = lead(line, text);
    let cut = text.skip(r - f);
    assert(all.subrange(r, n) =~= cut);
    assert(kept + cut =~= text);
    if r < n {
        if kept.len() > 0 {
            assert(kept.last() == all[r - 1]);
        }
        lemma_first_such(holds_char(text, '\n'), 0, text.len() as int);
        if line.len() > 0 && line.last() != '\n' {
            assert(r > f) by {
                assert(all[f - 1] == line.last());
            }
            assert(holds_char(text, '\n')(r - 1 - f));
        }
    } else {
        lemma_first_such(holds_char(text, '\n'), 0, text.len() as int);
    }
    if line.len() == 0 {
        assert(all =~= text);
    }
}

/// The guard has seen those lines, and counts the stray words at their end.
spec fn counts_exactly(g: GuardV, lines: Seq<Seq<char>>) -> bool {
    &&& !flooded(lines)
    &&& 0 <= g.run <= lines.len()
    &&& lines.len() > 0 ==> g.last_line == lines.last()
    &&& lines.len() == 0 ==> !is_stray(g.last_line)
    &&& forall|j: int| lines.len() - g.run <= j < lines.len() ==> #[trigger] lines[j] == g.last_line
    &&& is_stray(g.last_line) ==> g.run > 0 && (g.run < lines.len() ==> lines[lines.len() - 1
        - g.run] != g.last_line)
}

proof fn lemma_flood_trips(g: GuardV, lines: Seq<Seq<char>>, text: Seq<char>, from: int)
    requires
        counts_exactly(g, lines),
        !g.tripped,
        0 <= from <= text.len(),
        !guard_scan(g, text, from).0.tripped,
    ensures
        !flooded(lines + filled_lines(text, from)),
    decreases text.len() - from,
{
    if from >= text.len() {
        assert(lines + filled_lines(text, from) =~= lines);
    } else {
        lemma_line_bounds(text, from);
        let end = line_end(text, from);
        let line = trimmed(text.subrange(from, end));
        let next = guard_line(g, line);
        let rest = filled_lines(text, end);
        if line.len() == 0 {
            if is_stray(line) {
                lemma_stray_is_filled(line);
            }
            lemma_flood_trips(g, lines, text, end);
        } else {
            let more = lines.push(line);
            assert(lines + (seq![line] + rest) =~= more + rest);
            let n = REPEAT_GUARD_TRIP_THRESHOLD as int;
            if flooded(more) {
                let i = choose|i: int|
                    0 <= i && i + n <= more.len() && #[trigger] is_stray(more[i]) && forall|j: int|
                        i <= j < i + n ==> #[trigger] more[j] == more[i];
                if i + n <= lines.len() {
                    assert(is_stray(lines[i])) by {
                        assert(more[i] == lines[i]);
                    }
                    assert forall|j: int| i <= j < i + n implies #[trigger] lines[j]
                        == lines[i] by {
                        assert(more[j] == lines[j]);
                    }
                    assert(flooded(lines));
                } else {
                    assert(more[more.len() - 1] == line);
                    assert(more[i] == line);
                    if g.run < n - 1 {
                        let j = lines.len() - 1 - g.run;
                        assert(more[lines.len() - 1] == line);
                        assert(lines.last() == line);
                        assert(more[j] == lines[j]);
                        assert(more[j] == line);
                    }
                    assert(next.tripped);
                }
            }
            assert forall|j: int| more.len() - next.run <= j < more.len() implies #[trigger] more[j]
                == next.last_line by {
                if j < lines.len() {
                    assert(more[j] == lines[j]);
                }
            }
            if is_stray(line) && next.run < more.len() {
                let j = more.len() - 1 - next.run;
                assert(more[j] == lines[j]);
                if line != g.last_line {
                    assert(j == lines.len() - 1);
                }
            }
            lemma_flood_trips(next, more, text, end);
        }
    }
}

/// A text in which one stray word fills so many lines in a row, blank ones aside, is cut off.
pub proof fn every_flood_is_cut_off(text: Seq<char>)
    requires
        flooded(filled_lines(text, 0)),
    ensures
        guard_filter(fresh_guard(), text).0.tripped,
        guard_filter(fresh_guard(), text).1 != text,
{
    let none = Seq::<Seq<char>>::empty();
    let g = fresh_guard();
    assert(!is_stray(g.last_line)) by {
        if is_stray(g.last_line) {
            lemma_stray_is_filled(g.last_line);
        }
    }
    assert(!flooded(none));
    assert(none + filled_lines(text, 0) =~= filled_lines(text, 0));
    if !guard_scan(g, text, 0).0.tripped {
        lemma_flood_trips(g, none, text, 0);
    }
    lemma_tripped_cuts(g, text, 0);
    assert(guard_filter(g, text).1.len() < text.len());
}

proof fn lemma_tripped_cuts(g: GuardV, text: Seq<char>, from: int)
    requires
        !g.tripped,
        0 <= from <= text.len(),
        guard_scan(g, text, from).0.tripped,
    ensures
        from <= guard_scan(g, text, from).1 < text.len(),
    decreases text.len() - from,
{
    if from < text.len() {
        lemma_line_bounds(text, from);
        let end = line_end(text, from);
        let next = guard_line(g, trimmed(text.subrange(from, end)));
        if !next.tripped {
            lemma_tripped_cuts(next, text, end);
        }
    }
}

} // verus!
