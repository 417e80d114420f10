//! Stray words that a degraded model writes on lines of their own.
//!
//! Such a line may precede a tool call, where it is cut off, and may be repeated
//! without end, where the text is cut off.
use crate::text::{
    char_before, char_from, chars_of, find_char, lemma_first_such, rfind_char, same_text,
    text_between, trim, trimmed,
};
use vstd::prelude::*;

verus! {

/// The text is cut off before the line with which a stray word comes this many times
/// in a row.
pub const REPEAT_GUARD_TRIP_THRESHOLD: u32 = 32;

/// A word that is known to stray.
pub open spec fn is_stray(line: Seq<char>) -> bool {
    line == "call"@ || line == "count"@ || line == "card"@
}

pub fn is_stray_token(line: &str) -> (r: bool)
    ensures
        r == is_stray(line@),
{
    same_text(line, "call") || same_text(line, "count") || same_text(line, "card")
}

/// The end of `s[..end]` without its trailing line breaks.
pub open spec fn before_breaks(s: Seq<char>, end: int) -> int
    decreases end,
{
    if 0 < end <= s.len() && (s[end - 1] == '\n' || s[end - 1] == '\r') {
        before_breaks(s, end - 1)
    } else {
        end
    }
}

/// Where the line that ends at `end` begins.
pub open spec fn line_start(s: Seq<char>, end: int) -> int {
    match char_before(s, '\n', end) {
        Some(i) => i + 1,
        None => 0,
    }
}

/// The end of `s[..end]` without the stray words on the lines at its end that begin
/// at `floor` or behind it. The line break before such a line stays.
pub open spec fn stray_end(s: Seq<char>, floor: int, end: int) -> int
    decreases end,
{
    let e = before_breaks(s, end);
    let start = line_start(s, e);
    if is_stray(trimmed(s.subrange(start, e))) && 0 <= start < end && floor <= start {
        stray_end(s, floor, start)
    } else {
        end
    }
}

/// `s` without the stray words on the lines at its end.
pub open spec fn without_strays(s: Seq<char>) -> Seq<char> {
    s.take(stray_end(s, 0, s.len() as int))
}

/// The end of `s` without the stray words on the lines at its end that begin at
/// `floor` or behind it.
pub fn end_before_strays(s: &[char], floor: usize) -> (r: usize)
    ensures
        r == stray_end(s@, floor as int, s@.len() as int),
        r <= s@.len(),
        floor <= s@.len() ==> floor <= r,
{
    proof {
        reveal_strlit("call");
        reveal_strlit("count");
        reveal_strlit("card");
    }
    let mut end: usize = s.len();
    loop
        invariant
            end <= s@.len(),
            "call"@.len() == 4,
            "count"@.len() == 5,
            "card"@.len() == 4,
            floor <= s@.len() ==> floor <= end,
            stray_end(s@, floor as int, s@.len() as int) == stray_end(
                s@,
                floor as int,
                end as int,
            ),
        decreases end,
    {
        let mut e: usize = end;
        while e > 0 && (s[e - 1] == '\n' || s[e - 1] == '\r')
            invariant
                e <= end <= s@.len(),
                before_breaks(s@, end as int) == before_breaks(s@, e as int),
            decreases e,
        {
            e = e - 1;
        }
        let start: usize = match rfind_char(s, '\n', e) {
            Some(i) => i + 1,
            None => 0,
        };
        let line = text_between(s, start, e);
        let line = trim(line.as_str());
        if floor <= start && is_stray_token(line.as_str()) {
            proof {
                if start == e {
                    assert(s@.subrange(start as int, e as int).len() == 0);
                    crate::text::lemma_blank(s@.subrange(start as int, e as int));
                }
            }
            end = start;
        } else {
            return end;
        }
    }
}

/// `before` without the stray words on the lines at its end.
pub fn strip_trailing_stray_tokens(before: &str) -> (r: String)
    ensures
        r@ == without_strays(before@),
{
    let v = chars_of(before);
    let end: usize = end_before_strays(v.as_slice(), 0);
    text_between(v.as_slice(), 0, end)
}

/// The end of `s[..end]` without the blanks and tabs at its end.
pub open spec fn before_blanks(s: Seq<char>, end: int) -> int
    decreases end,
{
    if 0 < end <= s.len() && (s[end - 1] == ' ' || s[end - 1] == '\t') {
        before_blanks(s, end - 1)
    } else {
        end
    }
}

/// What follows `before` stands at the beginning of a line.
pub open spec fn ends_line(before: Seq<char>) -> bool {
    let end = before_blanks(before, before.len() as int);
    end <= 0 || before[end - 1] == '\n' || before[end - 1] == '\r'
}

/// A call that is written behind `before` is meant as one: it stands at the
/// beginning of a line and not in the middle of a sentence.
pub fn invoke_looks_like_real_leak(before: &[char]) -> (r: bool)
    ensures
        r == ends_line(before@),
{
    let mut end: usize = before.len();
    while end > 0 && (before[end - 1] == ' ' || before[end - 1] == '\t')
        invariant
            end <= before@.len(),
            before_blanks(before@, before@.len() as int) == before_blanks(before@, end as int),
        decreases end,
    {
        end = end - 1;
    }
    end == 0 || before[end - 1] == '\n' || before[end - 1] == '\r'
}

/// Where `text`, which goes on behind `line`, ends without the stray words on the
/// lines at its end that begin in it. What it holds of a line that was begun before
/// stays, with the line break.
pub open spec fn lead_end(line: Seq<char>, text: Seq<char>) -> int {
    stray_end(line + text, line.len() as int, (line + text).len() as int) - line.len()
}

/// `text`, which goes on behind `line`, without the stray words on the lines at its
/// end that begin in it.
pub open spec fn lead(line: Seq<char>, text: Seq<char>) -> Seq<char> {
    text.take(lead_end(line, text))
}

/// What follows `text`, which goes on behind `line`, stands at the beginning of a
/// line, stray words aside.
pub open spec fn at_line_start(line: Seq<char>, text: Seq<char>) -> bool {
    ends_line(without_strays(line) + lead(line, text))
}

/// Where `text`, which goes on behind `line`, ends without stray words, and whether
/// what follows it stands at the beginning of a line.
pub fn find_lead(line: &str, text: &[char]) -> (r: (usize, bool))
    ensures
        r.0 == lead_end(line@, text@),
        r.0 <= text@.len(),
        r.1 == at_line_start(line@, text@),
{
    let before = chars_of(line);
    let n: usize = before.len();
    let tail = text_between(text, 0, text.len());
    assert(tail@ =~= text@);
    let joined = crate::text::join2(line, tail.as_str());
    let all = chars_of(joined.as_str());
    let cut: usize = end_before_strays(all.as_slice(), n) - n;
    let lead_text = text_between(text, 0, cut);
    assert(lead_text@ =~= lead(line@, text@));
    let kept = strip_trailing_stray_tokens(line);
    let shown = crate::text::join2(kept.as_str(), lead_text.as_str());
    let shown = chars_of(shown.as_str());
    (cut, invoke_looks_like_real_leak(shown.as_slice()))
}

/// What the guard has seen: the last line that was not blank, how often that
/// line, a stray word, came in a row, and whether the text has been cut off.
pub ghost struct GuardV {
    pub last_line: Seq<char>,
    pub run: int,
    pub tripped: bool,
}

/// The guard after one line.
pub open spec fn guard_line(g: GuardV, line: Seq<char>) -> GuardV {
    if is_stray(line) {
        let run = if line != g.last_line {
            1
        } else if g.run < u32::MAX {
            g.run + 1
        } else {
            g.run
        };
        GuardV { last_line: line, run, tripped: run >= REPEAT_GUARD_TRIP_THRESHOLD }
    } else if line.len() > 0 {
        GuardV { last_line: line, run: 0, tripped: false }
    } else {
        g
    }
}

/// Where the line that begins at `from` ends, its line break counted in.
pub open spec fn line_end(s: Seq<char>, from: int) -> int {
    match char_from(s, '\n', from) {
        Some(i) => i + 1,
        None => s.len() as int,
    }
}

/// The guard after `text[from..]`, and where the text that it lets through ends.
pub open spec fn guard_scan(g: GuardV, text: Seq<char>, from: int) -> (GuardV, int)
    decreases text.len() - from,
{
    let end = line_end(text, from);
    if g.tripped || from < 0 || from >= text.len() || end <= from || end > text.len() {
        (g, from)
    } else {
        let next = guard_line(g, trimmed(text.subrange(from, end)));
        if next.tripped {
            (next, from)
        } else {
            guard_scan(next, text, end)
        }
    }
}

/// The guard after `text`, and what it lets through.
pub open spec fn guard_filter(g: GuardV, text: Seq<char>) -> (GuardV, Seq<char>) {
    (guard_scan(g, text, 0).0, text.take(guard_scan(g, text, 0).1))
}

pub open spec fn fresh_guard() -> GuardV {
    GuardV { last_line: Seq::empty(), run: 0, tripped: false }
}

/// Cuts a text off where one stray word is repeated too often.
pub struct RepeatGuard {
    pub last_line: String,
    pub run: u32,
    pub tripped: bool,
}

impl View for RepeatGuard {
    type V = GuardV;

    open spec fn view(&self) -> GuardV {
        GuardV { last_line: self.last_line@, run: self.run as int, tripped: self.tripped }
    }
}

impl RepeatGuard {
    pub fn new() -> (r: Self)
        ensures
            r@ == fresh_guard(),
    {
        let r = RepeatGuard { last_line: String::new(), run: 0, tripped: false };
        assert(r.last_line@ =~= Seq::<char>::empty());
        r
    }

    fn take_line(&mut self, line: &str)
        ensures
            final(self)@ == (GuardV { tripped: final(self)@.tripped, ..guard_line(old(self)@, line@) }),
            final(self)@.tripped == (old(self).tripped || guard_line(old(self)@, line@).tripped),
    {
        if is_stray_token(line) {
            if same_text(line, self.last_line.as_str()) {
                if self.run < u32::MAX {
                    self.run = self.run + 1;
                }
            } else {
                self.last_line = line.to_owned();
                self.run = 1;
            }
            if self.run >= REPEAT_GUARD_TRIP_THRESHOLD {
                self.tripped = true;
            }
        } else if chars_of(line).len() > 0 {
            self.last_line = line.to_owned();
            self.run = 0;
        }
    }

    /// What may be passed on of `text`: all lines before the one with which a
    /// stray word has come `REPEAT_GUARD_TRIP_THRESHOLD` times in a row, and
    /// nothing from there on.
    pub fn filter(&mut self, text: &str) -> (r: String)
        ensures
            (final(self)@, r@) == guard_filter(old(self)@, text@),
    {
        let v = chars_of(text);
        let s = v.as_slice();
        let ghost start = self@;
        let mut from: usize = 0;
        while from < s.len() && !self.tripped
            invariant
                from <= s@.len(),
                s@ == text@,
                guard_scan(start, text@, 0) == guard_scan(self@, text@, from as int) || (
                self.tripped && guard_scan(start, text@, 0) == (self@, from as int)),
            decreases s.len() - from,
                if self.tripped {
                    0int
                } else {
                    1
                },
        {
            let n: usize = s.len();
            let end: usize = match find_char(s, '\n', from) {
                Some(i) => i + 1,
                None => n,
            };
            let segment = text_between(s, from, end);
            let line = trim(segment.as_str());
            self.take_line(line.as_str());
            if !self.tripped {
                from = end;
            }
        }
        text_between(s, 0, from)
    }
}

/// A complete text without what follows a flood of one stray word.
pub fn collapse_stray_token_floods(text: &str) -> (r: String)
    ensures
        r@ == guard_filter(fresh_guard(), text@).1,
{
    let mut guard = RepeatGuard::new();
    guard.filter(text)
}

proof fn lemma_guard_scan_bounds(g: GuardV, text: Seq<char>, from: int)
    requires
        0 <= from <= text.len(),
    ensures
        from <= guard_scan(g, text, from).1 <= text.len(),
        !guard_scan(g, text, from).0.tripped ==> guard_scan(g, text, from).1 == text.len(),
    decreases text.len() - from,
{
    let end = line_end(text, from);
    lemma_first_such(crate::text::holds_char(text, '\n'), from, text.len() as int);
    if !g.tripped && from < text.len() {
        let next = guard_line(g, trimmed(text.subrange(from, end)));
        if !next.tripped {
            lemma_guard_scan_bounds(next, text, end);
        }
    }
}

/// The guard passes on the beginning of a text, unchanged and, as long as it
/// has not tripped, whole.
pub proof fn guard_passes_a_prefix(g: GuardV, text: Seq<char>)
    ensures
        guard_filter(g, text).1.len() <= text.len(),
        guard_filter(g, text).1 == text.take(guard_filter(g, text).1.len() as int),
        !guard_filter(g, text).0.tripped ==> guard_filter(g, text).1 == text,
{
    lemma_guard_scan_bounds(g, text, 0);
    assert(text.take(text.len() as int) =~= text);
}

/// Once the guard has tripped, it stays so and passes nothing on.
pub proof fn a_tripped_guard_passes_nothing(g: GuardV, text: Seq<char>)
    requires
        g.tripped,
    ensures
        guard_filter(g, text).0 == g,
        guard_filter(g, text).1.len() == 0,
{
}

pub(crate) proof fn lemma_line_end_append(a: Seq<char>, b: Seq<char>, from: int)
    requires
        0 <= from < a.len(),
        a.last() == '\n',
    ensures
        line_end(a + b, from) == line_end(a, from),
        from < line_end(a, from) <= a.len(),
{
    let p = crate::text::holds_char(a, '\n');
    let q = crate::text::holds_char(a + b, '\n');
    lemma_first_such(p, from, a.len() as int);
    lemma_first_such(q, from, (a + b).len() as int);
    let n = a.len() - 1;
    assert(p(n));
    assert(q(n));
    let i = crate::text::first_such(p, from, a.len() as int)->Some_0;
    let j = crate::text::first_such(q, from, (a + b).len() as int)->Some_0;
    assert(p(i) && q(i));
    assert(q(j) && j <= n);
    assert(p(j));
}

proof fn lemma_guard_scan_append(g: GuardV, a: Seq<char>, b: Seq<char>, from: int)
    requires
        0 <= from <= a.len(),
        a.len() > 0 ==> a.last() == '\n',
    ensures
        ({
            let (mid, end) = guard_scan(g, a, from);
            guard_scan(g, a + b, from) == if mid.tripped {
                (mid, end)
            } else {
                guard_scan(mid, a + b, a.len() as int)
            }
        }),
    decreases a.len() - from,
{
    if !g.tripped && from < a.len() {
        lemma_line_end_append(a, b, from);
        let end = line_end(a, from);
        assert((a + b).subrange(from, end) =~= a.subrange(from, end));
        let next = guard_line(g, trimmed(a.subrange(from, end)));
        if !next.tripped {
            lemma_guard_scan_append(next, a, b, end);
        }
    }
}

proof fn lemma_guard_scan_shift(g: GuardV, a: Seq<char>, b: Seq<char>, from: int)
    requires
        0 <= from <= b.len(),
    ensures
        guard_scan(g, a + b, a.len() + from) == (
            guard_scan(g, b, from).0,
            a.len() + guard_scan(g, b, from).1,
        ),
    decreases b.len() - from,
{
    if !g.tripped && from < b.len() {
        let p = crate::text::holds_char(b, '\n');
        let q = crate::text::holds_char(a + b, '\n');
        lemma_first_such_shift(p, q, a.len() as int, from, b.len() as int);
        lemma_first_such(p, from, b.len() as int);
        let end = line_end(b, from);
        assert((a + b).subrange(a.len() + from, a.len() + end) =~= b.subrange(from, end));
        let next = guard_line(g, trimmed(b.subrange(from, end)));
        if !next.tripped {
            lemma_guard_scan_shift(next, a, b, end);
        }
    }
}

pub(crate) proof fn lemma_first_such_shift(
    p: spec_fn(int) -> bool,
    q: spec_fn(int) -> bool,
    by: int,
    from: int,
    to: int,
)
    requires
        forall|i: int| from <= i < to ==> #[trigger] p(i) == q(by + i),
    ensures
        crate::text::first_such(q, by + from, by + to) == match crate::text::first_such(
            p,
            from,
            to,
        ) {
            Some(i) => Some(by + i),
            None => None,
        },
    decreases to - from,
{
    if from < to {
        assert(p(from) == q(by + from));
        if !p(from) {
            lemma_first_such_shift(p, q, by, from + 1, to);
        }
    }
}

/// A text that is cut at the end of a line is treated as the whole is.
pub proof fn guard_is_independent_of_cuts_between_lines(g: GuardV, a: Seq<char>, b: Seq<char>)
    requires
        a.len() > 0 ==> a.last() == '\n',
    ensures
        ({
            let (mid, first) = guard_filter(g, a);
            let (last, second) = guard_filter(mid, b);
            guard_filter(g, a + b) == (last, first + second)
        }),
{
    let (mid, end) = guard_scan(g, a, 0);
    lemma_guard_scan_append(g, a, b, 0);
    lemma_guard_scan_bounds(g, a, 0);
    if mid.tripped {
        assert((a + b).take(end) =~= a.take(end) + b.take(0));
    } else {
        lemma_guard_scan_shift(mid, a, b, 0);
        lemma_guard_scan_bounds(mid, b, 0);
        let stop = guard_scan(mid, b, 0).1;
        assert((a + b).take(a.len() + stop) =~= a.take(end) + b.take(stop));
    }
}

/// What has passed ends with a line, if something was cut off, and is then shorter
/// than the text.
pub(crate) proof fn lemma_guard_cuts_at_a_line(g: GuardV, text: Seq<char>, from: int)
    requires
        0 <= from <= text.len(),
        !g.tripped,
        guard_scan(g, text, from).0.tripped,
    ensures
        ({
            let end = guard_scan(g, text, from).1;
            &&& from <= end < text.len()
            &&& end == from || text[end - 1] == '\n'
        }),
    decreases text.len() - from,
{
    let end = line_end(text, from);
    lemma_first_such(crate::text::holds_char(text, '\n'), from, text.len() as int);
    if from < text.len() {
        let next = guard_line(g, trimmed(text.subrange(from, end)));
        if !next.tripped {
            lemma_guard_cuts_at_a_line(next, text, end);
            if let Some(i) = char_from(text, '\n', from) {
                assert(crate::text::holds_char(text, '\n')(i));
            }
        }
    }
}

/// What has passed the guard passes it again, whole: it holds no word that is
/// repeated too often.
pub proof fn what_has_passed_passes_again(g: GuardV, text: Seq<char>)
    requires
        !g.tripped,
    ensures
        ({
            let out = guard_filter(g, text).1;
            !guard_filter(g, out).0.tripped && guard_filter(g, out).1 == out
        }),
{
    let (last, end) = guard_scan(g, text, 0);
    guard_passes_a_prefix(g, text);
    if last.tripped {
        lemma_guard_cuts_at_a_line(g, text, 0);
        let out = text.take(end);
        let rest = text.skip(end);
        assert(out + rest =~= text);
        guard_is_independent_of_cuts_between_lines(g, out, rest);
        let (mid, first) = guard_filter(g, out);
        guard_passes_a_prefix(g, out);
        if mid.tripped {
            lemma_guard_cuts_at_a_line(g, out, 0);
            a_tripped_guard_passes_nothing(mid, rest);
            assert(first.len() < out.len());
            assert((first + guard_filter(mid, rest).1).len() == first.len());
        }
    }
}

} // verus!
