//! Removing `<tool_use ..>..</tool_use>` markup that leaks into plain text.
use crate::text::{
    char_from, chars_of, find_char, find_from, first_occurrence, holds_char, is_at, is_white,
    is_whitespace, join2, lemma_first_occurrence, lemma_first_such, occurs_at, push_text,
    same_text, text_between,
};
use vstd::prelude::*;
use vstd::slice::slice_subrange;

verus! {

/// The last `k` characters of `s` are the first `k` of `needle`.
pub open spec fn partial_at(s: Seq<char>, needle: Seq<char>, k: int) -> bool {
    0 <= k <= s.len() && k <= needle.len() && s.skip(s.len() - k) == needle.take(k)
}

/// The largest `k` up to `most` for which `s` ends with `k` characters of `needle`.
pub open spec fn partial_up_to(s: Seq<char>, needle: Seq<char>, most: int) -> int
    decreases most,
{
    if most <= 0 {
        0
    } else if partial_at(s, needle, most) {
        most
    } else {
        partial_up_to(s, needle, most - 1)
    }
}

/// How many characters at the end of `s` may be the beginning of a `needle`
/// that is not complete yet.
pub open spec fn partial_len(s: Seq<char>, needle: Seq<char>) -> int {
    partial_up_to(s, needle, needle.len() - 1)
}

pub proof fn lemma_partial_up_to(s: Seq<char>, needle: Seq<char>, most: int)
    ensures
        0 <= partial_up_to(s, needle, most),
        most >= 0 ==> partial_up_to(s, needle, most) <= most,
        partial_at(s, needle, partial_up_to(s, needle, most)),
        forall|k: int|
            partial_up_to(s, needle, most) < k <= most ==> !#[trigger] partial_at(s, needle, k),
    decreases most,
{
    if most <= 0 {
        assert(s.skip(s.len() - 0) =~= needle.take(0));
    } else if !partial_at(s, needle, most) {
        lemma_partial_up_to(s, needle, most - 1);
    }
}

/// The length of the longest end of `s` that is the beginning of `needle`, but
/// not all of it.
pub fn longest_prefix_suffix(s: &[char], needle: &[char]) -> (r: usize)
    ensures
        r == partial_len(s@, needle@),
        r <= s@.len(),
{
    if needle.len() == 0 {
        return 0;
    }
    let mut k: usize = needle.len() - 1;
    while k > 0
        invariant
            k < needle@.len(),
            partial_len(s@, needle@) == partial_up_to(s@, needle@, k as int),
        decreases k,
    {
        if k <= s.len() {
            let head = slice_subrange(needle, 0, k);
            assert(head@ =~= needle@.take(k as int));
            assert(s@.subrange(s@.len() - k, s@.len() as int) =~= s@.skip(s@.len() - k));
            if is_at(s, head, s.len() - k) {
                return k;
            }
        }
        k = k - 1;
    }
    0
}

/// What a scan gives: the text to pass on, the text to keep for later, and
/// whether an element is still open.
pub ghost struct ScanV {
    pub out: Seq<char>,
    pub buffer: Seq<char>,
    pub stripping: bool,
}

pub open spec fn prepend(out: Seq<char>, rest: ScanV) -> ScanV {
    ScanV { out: out + rest.out, ..rest }
}

/// `<tool_use`, which `s` begins with, is the whole name of a tag.
pub open spec fn names_tool_use(s: Seq<char>) -> bool {
    s.len() > 9 && (s[9] == '>' || is_white(s[9]))
}

/// The scan of a text, outside or (`stripping`) inside an element.
///
/// Inside, everything is dropped up to the closing tag; the beginning of one at
/// the end of the text is kept for later. Outside, everything is passed on up to
/// an opening tag; the beginning of one at the end of the text is kept for later, and
/// so is a name at the end of which it is not yet known whether it goes on.
pub open spec fn xml_scan(stripping: bool, s: Seq<char>) -> ScanV
    decreases s.len(),
{
    if stripping {
        match first_occurrence(s, "</tool_use>"@, 0) {
            Some(i) => if 0 <= i && i + 11 <= s.len() {
                xml_scan(false, s.skip(i + 11))
            } else {
                ScanV { out: Seq::empty(), buffer: Seq::empty(), stripping: false }
            },
            None => ScanV {
                out: Seq::empty(),
                buffer: s.skip(s.len() - partial_len(s, "</tool_use>"@)),
                stripping: true,
            },
        }
    } else {
        match first_occurrence(s, "<tool_use"@, 0) {
            Some(i) => if 0 <= i && i + 9 <= s.len() {
                let rest = s.skip(i);
                if rest.len() == 9 {
                    ScanV { out: s.take(i), buffer: rest, stripping: false }
                } else if !names_tool_use(rest) {
                    prepend(s.take(i + 9), xml_scan(false, s.skip(i + 9)))
                } else {
                    match char_from(rest, '>', 0) {
                        Some(gt) => if 0 <= gt < rest.len() {
                            prepend(s.take(i), xml_scan(true, s.skip(i + gt + 1)))
                        } else {
                            ScanV { out: Seq::empty(), buffer: Seq::empty(), stripping: false }
                        },
                        None => ScanV { out: s.take(i), buffer: Seq::empty(), stripping: true },
                    }
                }
            } else {
                ScanV { out: Seq::empty(), buffer: Seq::empty(), stripping: false }
            },
            None => ScanV {
                out: s.take(s.len() - partial_len(s, "<tool_use"@)),
                buffer: s.skip(s.len() - partial_len(s, "<tool_use"@)),
                stripping: false,
            },
        }
    }
}

/// A complete text without its `tool_use` elements, one that is never closed
/// included, even if nothing but its name is there.
pub open spec fn xml_stripped(s: Seq<char>) -> Seq<char> {
    let scan = xml_scan(false, s);
    if scan.stripping || scan.buffer == "<tool_use"@ {
        scan.out
    } else {
        scan.out + scan.buffer
    }
}

/// Removes `tool_use` elements from a text that arrives in pieces.
pub struct ToolUseXmlLeakFilter {
    pub buffer: String,
    pub stripping: bool,
}

impl Default for ToolUseXmlLeakFilter {
    fn default() -> (r: Self)
        ensures
            r.buffer@ == Seq::<char>::empty(),
            !r.stripping,
    {
        let r = ToolUseXmlLeakFilter { buffer: String::new(), stripping: false };
        assert(r.buffer@ =~= Seq::<char>::empty());
        r
    }
}

fn names_tool_use_at(s: &[char], at: usize) -> (r: bool)
    requires
        at + 9 <= s@.len(),
    ensures
        r == names_tool_use(s@.skip(at as int)),
{
    let n: usize = s.len();
    n > at + 9 && (s[at + 9] == '>' || is_whitespace(s[at + 9]))
}

/// The scan of `s`, piece by piece.
fn scan_chars(stripping: bool, s: &[char]) -> (r: (String, String, bool))
    ensures
        xml_scan(stripping, s@) == (ScanV { out: r.0@, buffer: r.1@, stripping: r.2 }),
{
    let open = chars_of("<tool_use");
    let close = chars_of("</tool_use>");
    proof {
        reveal_strlit("<tool_use");
        reveal_strlit("</tool_use>");
    }
    let mut out = String::new();
    let mut inside = stripping;
    let mut pos: usize = 0;
    let n: usize = s.len();
    assert(s@.skip(0) =~= s@);
    assert(out@ + xml_scan(stripping, s@).out =~= xml_scan(stripping, s@).out);
    loop
        invariant
            pos <= s@.len(),
            n == s@.len(),
            open@ == "<tool_use"@,
            close@ == "</tool_use>"@,
            open@.len() == 9,
            close@.len() == 11,
            xml_scan(stripping, s@) == prepend(out@, xml_scan(inside, s@.skip(pos as int))),
        decreases n - pos,
    {
        let rest = slice_subrange(s, pos, n);
        assert(rest@ =~= s@.skip(pos as int));
        if inside {
            match find_from(rest, close.as_slice(), 0) {
                Some(i) => {
                    assert(rest@.skip(i + 11) =~= s@.skip(pos + i + 11));
                    pos = pos + i + 11;
                    inside = false;
                },
                None => {
                    let keep: usize = longest_prefix_suffix(rest, close.as_slice());
                    let kept = text_between(rest, rest.len() - keep, rest.len());
                    assert(kept@ =~= rest@.skip(rest@.len() - keep));
                    assert(out@ + Seq::<char>::empty() =~= out@);
                    return (out, kept, true);
                },
            }
        } else {
            match find_from(rest, open.as_slice(), 0) {
                Some(i) => {
                    let ghost so_far = out@;
                    let tail = slice_subrange(rest, i, rest.len());
                    assert(tail@ =~= rest@.skip(i as int));
                    if tail.len() == 9 {
                        let head = text_between(rest, 0, i);
                        push_text(&mut out, head.as_str());
                        assert(head@ =~= rest@.take(i as int));
                        let kept = text_between(tail, 0, 9);
                        assert(kept@ =~= tail@);
                        return (out, kept, false);
                    }
                    if !names_tool_use_at(rest, i) {
                        let head = text_between(rest, 0, i + 9);
                        push_text(&mut out, head.as_str());
                        assert(head@ =~= rest@.take(i + 9));
                        assert(rest@.skip(i + 9) =~= s@.skip(pos + i + 9));
                        pos = pos + i + 9;
                        assert(so_far + (head@ + xml_scan(false, s@.skip(pos as int)).out) =~= out@
                            + xml_scan(false, s@.skip(pos as int)).out);
                    } else {
                        let head = text_between(rest, 0, i);
                        push_text(&mut out, head.as_str());
                        assert(head@ =~= rest@.take(i as int));
                        match find_char(tail, '>', 0) {
                            Some(gt) => {
                                assert(rest@.skip(i + gt + 1) =~= s@.skip(pos + i + gt + 1));
                                pos = pos + i + gt + 1;
                                inside = true;
                                assert(so_far + (head@ + xml_scan(true, s@.skip(pos as int)).out)
                                    =~= out@ + xml_scan(true, s@.skip(pos as int)).out);
                            },
                            None => {
                                let kept = String::new();
                                assert(kept@ =~= Seq::<char>::empty());
                                return (out, kept, true);
                            },
                        }
                    }
                },
                None => {
                    let keep: usize = longest_prefix_suffix(rest, open.as_slice());
                    let head = text_between(rest, 0, rest.len() - keep);
                    let kept = text_between(rest, rest.len() - keep, rest.len());
                    assert(head@ =~= rest@.take(rest@.len() - keep));
                    assert(kept@ =~= rest@.skip(rest@.len() - keep));
                    push_text(&mut out, head.as_str());
                    return (out, kept, false);
                },
            }
        }
    }
}

impl ToolUseXmlLeakFilter {
    /// What may be passed on once `content` has arrived.
    pub fn filter(&mut self, content: &str) -> (r: String)
        ensures
            ({
                let scan = xml_scan(old(self).stripping, old(self).buffer@ + content@);
                r@ == scan.out && final(self).buffer@ == scan.buffer && final(self).stripping
                    == scan.stripping
            }),
    {
        let all = join2(self.buffer.as_str(), content);
        let v = chars_of(all.as_str());
        let (out, kept, stripping) = scan_chars(self.stripping, v.as_slice());
        self.buffer = kept;
        self.stripping = stripping;
        out
    }

    /// What is left to pass on when no more text will come.
    pub fn finish(&mut self) -> (r: String)
        ensures
            r@ == xml_stripped(old(self).buffer@),
            final(self).buffer@ == Seq::<char>::empty(),
            !final(self).stripping,
    {
        self.stripping = false;
        let remaining = self.buffer.clone();
        self.buffer = String::new();
        assert(self.buffer@ =~= Seq::<char>::empty());
        strip_tool_use_xml_leaks(remaining.as_str())
    }
}

/// A complete text without its `tool_use` elements, one that is never closed
/// included.
pub fn strip_tool_use_xml_leaks(text: &str) -> (r: String)
    ensures
        r@ == xml_stripped(text@),
{
    let v = chars_of(text);
    let (out, kept, stripping) = scan_chars(false, v.as_slice());
    if stripping || same_text(kept.as_str(), "<tool_use") {
        out
    } else {
        join2(out.as_str(), kept.as_str())
    }
}

/// The text ends inside an opening tag: its name is known to be complete and its
/// `>` is still to come.
pub open spec fn ends_in_open_tag(stripping: bool, s: Seq<char>) -> bool
    decreases s.len(),
{
    if stripping {
        match first_occurrence(s, "</tool_use>"@, 0) {
            Some(i) => 0 <= i && i + 11 <= s.len() && ends_in_open_tag(false, s.skip(i + 11)),
            None => false,
        }
    } else {
        match first_occurrence(s, "<tool_use"@, 0) {
            Some(i) => 0 <= i && i + 9 <= s.len() && {
                let rest = s.skip(i);
                if rest.len() == 9 {
                    false
                } else if !names_tool_use(rest) {
                    ends_in_open_tag(false, s.skip(i + 9))
                } else {
                    match char_from(rest, '>', 0) {
                        Some(gt) => 0 <= gt < rest.len() && ends_in_open_tag(
                            true,
                            s.skip(i + gt + 1),
                        ),
                        None => true,
                    }
                }
            },
            None => false,
        }
    }
}

proof fn lemma_occurs_append(a: Seq<char>, b: Seq<char>, pat: Seq<char>, i: int)
    requires
        0 <= i,
        i + pat.len() <= a.len(),
    ensures
        occurs_at(a + b, pat, i) == occurs_at(a, pat, i),
{
    assert((a + b).subrange(i, i + pat.len()) =~= a.subrange(i, i + pat.len()));
}

proof fn lemma_first_occurrence_is(s: Seq<char>, pat: Seq<char>, i: int)
    requires
        0 <= i,
        occurs_at(s, pat, i),
        forall|j: int| 0 <= j < i ==> !#[trigger] occurs_at(s, pat, j),
    ensures
        first_occurrence(s, pat, 0) == Some(i),
{
    lemma_first_occurrence(s, pat, 0);
    if let Some(j) = first_occurrence(s, pat, 0) {
        if j < i {
            assert(!occurs_at(s, pat, j));
        }
    }
}

/// An occurrence is found no matter what follows the text.
proof fn lemma_found_append(a: Seq<char>, b: Seq<char>, pat: Seq<char>)
    requires
        first_occurrence(a, pat, 0) is Some,
    ensures
        first_occurrence(a + b, pat, 0) == first_occurrence(a, pat, 0),
{
    lemma_first_occurrence(a, pat, 0);
    let i = first_occurrence(a, pat, 0)->Some_0;
    lemma_occurs_append(a, b, pat, i);
    assert forall|j: int| 0 <= j < i implies !#[trigger] occurs_at(a + b, pat, j) by {
        lemma_occurs_append(a, b, pat, j);
        assert(!occurs_at(a, pat, j));
    }
    lemma_first_occurrence_is(a + b, pat, i);
}

/// A text without an occurrence need not be searched again, but for the end of
/// it that may begin one.
proof fn lemma_not_found_append(a: Seq<char>, b: Seq<char>, pat: Seq<char>)
    requires
        pat.len() > 0,
        first_occurrence(a, pat, 0) is None,
    ensures
        ({
            let k = partial_len(a, pat);
            let x = a.take(a.len() - k);
            let y = a.skip(a.len() - k) + b;
            &&& 0 <= k <= a.len()
            &&& x + y == a + b
            &&& match first_occurrence(y, pat, 0) {
                Some(j) => first_occurrence(a + b, pat, 0) == Some(x.len() + j),
                None => first_occurrence(a + b, pat, 0) is None && partial_len(a + b, pat)
                    == partial_len(y, pat) && 0 <= partial_len(y, pat) <= y.len(),
            }
        }),
{
    let k = partial_len(a, pat);
    lemma_partial_up_to(a, pat, pat.len() - 1);
    let x = a.take(a.len() - k);
    let y = a.skip(a.len() - k) + b;
    let w = a + b;
    assert(x + y =~= w);
    lemma_first_occurrence(a, pat, 0);
    lemma_first_occurrence(y, pat, 0);
    assert forall|j: int| 0 <= j < x.len() implies !#[trigger] occurs_at(w, pat, j) by {
        if occurs_at(w, pat, j) {
            if j + pat.len() <= a.len() {
                lemma_occurs_append(a, b, pat, j);
                assert(occurs_at(a, pat, j));
            } else {
                let m = a.len() - j;
                assert(a.skip(a.len() - m) =~= pat.take(m)) by {
                    assert forall|q: int| 0 <= q < m implies a.skip(a.len() - m)[q] == pat.take(m)[q] by {
                        assert(w.subrange(j, j + pat.len())[q] == pat[q]);
                    }
                }
                assert(partial_at(a, pat, m));
            }
        }
    }
    assert forall|j: int| 0 <= j implies occurs_at(w, pat, x.len() + j) == #[trigger] occurs_at(
        y,
        pat,
        j,
    ) by {
        if j + pat.len() <= y.len() {
            assert(w.subrange(x.len() + j, x.len() + j + pat.len()) =~= y.subrange(
                j,
                j + pat.len(),
            ));
        }
    }
    match first_occurrence(y, pat, 0) {
        Some(j) => {
            assert(occurs_at(y, pat, j));
            assert forall|q: int| 0 <= q < x.len() + j implies !#[trigger] occurs_at(w, pat, q) by {
                if q >= x.len() {
                    assert(!occurs_at(y, pat, q - x.len()));
                }
            }
            lemma_first_occurrence_is(w, pat, x.len() + j);
        },
        None => {
            lemma_first_occurrence(w, pat, 0);
            if let Some(q) = first_occurrence(w, pat, 0) {
                if q >= x.len() {
                    assert(occurs_at(y, pat, q - x.len()));
                }
            }
            let pw = partial_len(w, pat);
            let py = partial_len(y, pat);
            lemma_partial_up_to(w, pat, pat.len() - 1);
            lemma_partial_up_to(y, pat, pat.len() - 1);
            if pw > y.len() {
                let m = pw - b.len();
                assert(a.skip(a.len() - m) =~= pat.take(m)) by {
                    assert forall|q: int| 0 <= q < m implies a.skip(a.len() - m)[q] == pat.take(m)[q] by {
                        assert(w.skip(w.len() - pw)[q] == pat.take(pw)[q]);
                    }
                }
                assert(partial_at(a, pat, m));
            }
            assert(w.skip(w.len() - pw) =~= y.skip(y.len() - pw));
            assert(w.skip(w.len() - py) =~= y.skip(y.len() - py));
            assert(partial_at(y, pat, pw));
            assert(partial_at(w, pat, py));
        },
    }
}

proof fn lemma_char_found_append(a: Seq<char>, b: Seq<char>, c: char)
    requires
        char_from(a, c, 0) is Some,
    ensures
        char_from(a + b, c, 0) == char_from(a, c, 0),
        0 <= char_from(a, c, 0)->Some_0 < a.len(),
{
    let p = holds_char(a, c);
    let q = holds_char(a + b, c);
    lemma_first_such(p, 0, a.len() as int);
    lemma_first_such(q, 0, (a + b).len() as int);
    let i = char_from(a, c, 0)->Some_0;
    assert(p(i) && q(i));
    let j = char_from(a + b, c, 0)->Some_0;
    assert(q(j));
    if j < i {
        assert(p(j));
    }
}

proof fn lemma_prepend_twice(a: Seq<char>, b: Seq<char>, rest: ScanV)
    ensures
        prepend(a, prepend(b, rest)) == prepend(a + b, rest),
{
    assert(a + (b + rest.out) =~= (a + b) + rest.out);
}

/// The scan goes on behind a text that holds no part of the tag that comes first.
proof fn lemma_tag_behind(x: Seq<char>, y: Seq<char>, j: int)
    requires
        first_occurrence(y, "<tool_use"@, 0) == Some(j),
        first_occurrence(x + y, "<tool_use"@, 0) == Some(x.len() + j),
    ensures
        xml_scan(false, x + y) == prepend(x, xml_scan(false, y)),
{
    reveal_strlit("<tool_use");
    let w = x + y;
    let n = x.len() as int;
    lemma_first_occurrence(y, "<tool_use"@, 0);
    assert(w.skip(n + j) =~= y.skip(j));
    assert(w.take(n + j) =~= x + y.take(j));
    assert(w.take(n + j + 9) =~= x + y.take(j + 9));
    assert(w.skip(n + j + 9) =~= y.skip(j + 9));
    let rest = y.skip(j);
    if rest.len() > 9 {
        if !names_tool_use(rest) {
            lemma_prepend_twice(x, y.take(j + 9), xml_scan(false, y.skip(j + 9)));
        } else {
            lemma_first_such(holds_char(rest, '>'), 0, rest.len() as int);
            if let Some(gt) = char_from(rest, '>', 0) {
                assert(w.skip(n + j + gt + 1) =~= y.skip(j + gt + 1));
                lemma_prepend_twice(x, y.take(j), xml_scan(true, y.skip(j + gt + 1)));
            }
        }
    }
}

/// The text completes an opening tag: it holds a `>`, and the first one does not end
/// a closing tag.
pub open spec fn completes_tag(b: Seq<char>) -> bool {
    match char_from(b, '>', 0) {
        Some(gt) => !occurs_at(b, "</tool_use>"@, gt - 10),
        None => false,
    }
}

/// A tag that is completed opens an element, whatever is dropped before.
proof fn lemma_tag_completed(rest: Seq<char>, b: Seq<char>)
    requires
        char_from(rest, '>', 0) is None,
        completes_tag(b),
    ensures
        ({
            let gt = char_from(b, '>', 0)->Some_0;
            &&& 0 <= gt < b.len()
            &&& char_from(rest + b, '>', 0) == Some(rest.len() + gt)
            &&& xml_scan(true, b) == xml_scan(true, b.skip(gt + 1))
        }),
{
    reveal_strlit("</tool_use>");
    let close = "</tool_use>"@;
    let p = holds_char(rest, '>');
    let q = holds_char(b, '>');
    let r = holds_char(rest + b, '>');
    lemma_first_such(p, 0, rest.len() as int);
    lemma_first_such(q, 0, b.len() as int);
    lemma_first_such(r, 0, (rest + b).len() as int);
    let gt = char_from(b, '>', 0)->Some_0;
    assert(q(gt));
    let n = rest.len() + gt;
    assert(r(n));
    let k = char_from(rest + b, '>', 0)->Some_0;
    assert(r(k));
    if k < n {
        if k < rest.len() {
            assert(p(k));
        } else {
            assert(q(k - rest.len()));
        }
    }
    let c = b.skip(gt + 1);
    assert(close[10] == '>');
    assert forall|j: int| 0 <= j <= gt implies !#[trigger] occurs_at(b, close, j) by {
        if occurs_at(b, close, j) {
            assert(b.subrange(j, j + 11)[10] == close[10]);
            assert(q(j + 10));
            if j + 10 > gt {
                assert(b.subrange(j, j + 11)[gt - j] == close[gt - j]);
            }
        }
    }
    assert forall|j: int| 0 <= j implies occurs_at(b, close, gt + 1 + j) == #[trigger] occurs_at(
        c,
        close,
        j,
    ) by {
        if gt + 1 + j + 11 <= b.len() {
            assert(b.subrange(gt + 1 + j, gt + 1 + j + 11) =~= c.subrange(j, j + 11));
        }
    }
    lemma_first_occurrence(c, close, 0);
    lemma_first_occurrence(b, close, 0);
    match first_occurrence(c, close, 0) {
        Some(j) => {
            assert(occurs_at(c, close, j));
            assert forall|m: int| 0 <= m < gt + 1 + j implies !#[trigger] occurs_at(b, close, m) by {
                if m > gt {
                    assert(!occurs_at(c, close, m - gt - 1));
                }
            }
            lemma_first_occurrence_is(b, close, gt + 1 + j);
            assert(b.skip(gt + 1 + j + 11) =~= c.skip(j + 11));
        },
        None => {
            if let Some(m) = first_occurrence(b, close, 0) {
                if m > gt {
                    assert(occurs_at(c, close, m - gt - 1));
                }
            }
            let x = partial_len(b, close);
            let y = partial_len(c, close);
            lemma_partial_up_to(b, close, 10);
            lemma_partial_up_to(c, close, 10);
            if x > c.len() {
                let at = b.len() - x;
                assert(b.skip(at)[gt - at] == close.take(x)[gt - at]);
            }
            assert(b.skip(b.len() - x) =~= c.skip(c.len() - x));
            assert(b.skip(b.len() - y) =~= c.skip(c.len() - y));
            assert(partial_at(c, close, x));
            assert(partial_at(b, close, y));
        },
    }
}

/// A text that is cut in two is filtered as the whole is. Where the cut falls into an
/// opening tag behind its name, that is so if what follows completes the tag.
pub proof fn filter_is_independent_of_cuts(stripping: bool, a: Seq<char>, b: Seq<char>)
    requires
        ends_in_open_tag(stripping, a) ==> completes_tag(b),
    ensures
        ({
            let first = xml_scan(stripping, a);
            xml_scan(stripping, a + b) == prepend(
                first.out,
                xml_scan(first.stripping, first.buffer + b),
            )
        }),
    decreases a.len(),
{
    reveal_strlit("<tool_use");
    reveal_strlit("</tool_use>");
    let open = "<tool_use"@;
    let close = "</tool_use>"@;
    let w = a + b;
    if stripping {
        match first_occurrence(a, close, 0) {
            Some(i) => {
                lemma_first_occurrence(a, close, 0);
                lemma_found_append(a, b, close);
                assert(w.skip(i + 11) =~= a.skip(i + 11) + b);
                filter_is_independent_of_cuts(false, a.skip(i + 11), b);
            },
            None => {
                lemma_not_found_append(a, b, close);
                let k = partial_len(a, close);
                let y = a.skip(a.len() - k) + b;
                let n = a.len() - k;
                match first_occurrence(y, close, 0) {
                    Some(j) => {
                        lemma_first_occurrence(y, close, 0);
                        assert(w.skip(n + j + 11) =~= y.skip(j + 11));
                        let rest = xml_scan(false, y.skip(j + 11));
                        assert(Seq::<char>::empty() + rest.out =~= rest.out);
                    },
                    None => {
                        let q = partial_len(y, close);
                        assert(w.skip(w.len() - q) =~= y.skip(y.len() - q));
                        assert(Seq::<char>::empty() + Seq::<char>::empty() =~= Seq::<char>::empty());
                    },
                }
            },
        }
    } else {
        match first_occurrence(a, open, 0) {
            Some(i) => {
                lemma_first_occurrence(a, open, 0);
                lemma_found_append(a, b, open);
                let rest = a.skip(i);
                assert(w.skip(i) =~= rest + b);
                if rest.len() == 9 {
                    assert(rest =~= open) by {
                        assert(a.subrange(i, i + 9) =~= rest);
                    }
                    let y = open + b;
                    assert(w =~= a.take(i) + y);
                    assert(y.subrange(0, 9) =~= open);
                    assert(occurs_at(y, open, 0));
                    lemma_first_occurrence_is(y, open, 0);
                    lemma_tag_behind(a.take(i), y, 0);
                } else if !names_tool_use(rest) {
                    assert(w.skip(i + 9) =~= a.skip(i + 9) + b);
                    assert(w.take(i + 9) =~= a.take(i + 9));
                    filter_is_independent_of_cuts(false, a.skip(i + 9), b);
                    let f = xml_scan(false, a.skip(i + 9));
                    lemma_prepend_twice(
                        a.take(i + 9),
                        f.out,
                        xml_scan(f.stripping, f.buffer + b),
                    );
                } else if char_from(rest, '>', 0) is None {
                    lemma_tag_completed(rest, b);
                    let gt = rest.len() + char_from(b, '>', 0)->Some_0;
                    assert(w.take(i) =~= a.take(i));
                    assert(w.skip(i + gt + 1) =~= b.skip(char_from(b, '>', 0)->Some_0 + 1));
                    assert(Seq::<char>::empty() + b =~= b);
                } else {
                    lemma_char_found_append(rest, b, '>');
                    let gt = char_from(rest, '>', 0)->Some_0;
                    assert(w.skip(i + gt + 1) =~= a.skip(i + gt + 1) + b);
                    assert(w.take(i) =~= a.take(i));
                    filter_is_independent_of_cuts(true, a.skip(i + gt + 1), b);
                    let f = xml_scan(true, a.skip(i + gt + 1));
                    lemma_prepend_twice(a.take(i), f.out, xml_scan(f.stripping, f.buffer + b));
                }
            },
            None => {
                lemma_not_found_append(a, b, open);
                let k = partial_len(a, open);
                let n = a.len() - k;
                let x = a.take(n);
                let y = a.skip(n) + b;
                match first_occurrence(y, open, 0) {
                    Some(j) => {
                        lemma_tag_behind(x, y, j);
                    },
                    None => {
                        let q = partial_len(y, open);
                        assert(w.skip(w.len() - q) =~= y.skip(y.len() - q));
                        assert(w.take(w.len() - q) =~= x + y.take(y.len() - q));
                    },
                }
            },
        }
    }
}

/// A text without `<` is passed on as it is.
pub proof fn text_without_tags_is_kept(s: Seq<char>)
    requires
        forall|i: int| 0 <= i < s.len() ==> s[i] != '<',
    ensures
        xml_scan(false, s) == (ScanV { out: s, buffer: Seq::empty(), stripping: false }),
        xml_stripped(s) == s,
{
    reveal_strlit("<tool_use");
    let open = "<tool_use"@;
    lemma_first_occurrence(s, open, 0);
    if let Some(i) = first_occurrence(s, open, 0) {
        assert(s.subrange(i, i + 9)[0] == open[0]);
        assert(s[i] == '<');
    }
    let k = partial_len(s, open);
    lemma_partial_up_to(s, open, open.len() - 1);
    if k > 0 {
        assert(s.skip(s.len() - k)[0] == open.take(k)[0]);
        assert(s[s.len() - k] == '<');
    }
    assert(s.take(s.len() as int) =~= s);
    assert(s.skip(s.len() as int) =~= Seq::<char>::empty());
    assert(s + Seq::<char>::empty() =~= s);
}

/// A text outside of any element, filtered and then finished, gives what the
/// complete text gives.
pub proof fn filter_and_finish_give_the_stripped_text(s: Seq<char>)
    requires
        !xml_scan(false, s).stripping,
    ensures
        xml_scan(false, s).out + xml_stripped(xml_scan(false, s).buffer) == xml_stripped(s),
{
    lemma_leftover_is_kept(false, s);
    let out = xml_scan(false, s).out;
    assert(out + Seq::<char>::empty() =~= out);
}

/// What is kept for later outside of an element is itself free of tags, but for a name
/// of which it is not known whether it goes on.
proof fn lemma_leftover_is_kept(stripping: bool, s: Seq<char>)
    requires
        !xml_scan(stripping, s).stripping,
    ensures
        xml_stripped(xml_scan(stripping, s).buffer) == if xml_scan(stripping, s).buffer
            == "<tool_use"@ {
            Seq::<char>::empty()
        } else {
            xml_scan(stripping, s).buffer
        },
    decreases s.len(),
{
    reveal_strlit("<tool_use");
    reveal_strlit("</tool_use>");
    let open = "<tool_use"@;
    let empty = Seq::<char>::empty();
    text_without_tags_is_kept(empty);
    assert(open.subrange(0, 9) =~= open);
    assert(occurs_at(open, open, 0));
    lemma_first_occurrence_is(open, open, 0);
    assert(open.skip(0) =~= open);
    assert(open.take(0) =~= empty);
    assert(xml_stripped(open) == empty);
    if stripping {
        if let Some(i) = first_occurrence(s, "</tool_use>"@, 0) {
            lemma_first_occurrence(s, "</tool_use>"@, 0);
            lemma_leftover_is_kept(false, s.skip(i + 11));
        }
    } else {
        lemma_first_occurrence(s, open, 0);
        match first_occurrence(s, open, 0) {
            Some(i) => {
                let rest = s.skip(i);
                if rest.len() == 9 {
                    assert(s.subrange(i, i + 9) =~= rest);
                } else if !names_tool_use(rest) {
                    lemma_leftover_is_kept(false, s.skip(i + 9));
                } else {
                    lemma_first_such(holds_char(rest, '>'), 0, rest.len() as int);
                    if let Some(gt) = char_from(rest, '>', 0) {
                        lemma_leftover_is_kept(true, s.skip(i + gt + 1));
                    }
                }
            },
            None => {
                let k = partial_len(s, open);
                lemma_partial_up_to(s, open, open.len() - 1);
                let kept = s.skip(s.len() - k);
                lemma_first_occurrence(kept, open, 0);
                lemma_partial_up_to(kept, open, open.len() - 1);
                let m = partial_len(kept, open);
                assert(kept.take(kept.len() - m) + kept.skip(kept.len() - m) =~= kept);
            },
        }
    }
}

} // verus!
