//! Recognising `<thinking>` tags in plain text.
//!
//! A tag that stands next to a quoting character is taken for a mention of the
//! tag and skipped.
use crate::text::{
    after_white, all_white, byte_offset, byte_pos, chars_of, first_such, is_at, is_blank,
    lemma_blank, lemma_first_such, occurs_at, opt_int, opt_text, text_between, trimmed_start,
};
use vstd::prelude::*;

verus! {

/// A character that marks the tag beside it as quoted.
pub open spec fn is_quote(c: char) -> bool {
    ||| c == '`' || c == '"' || c == '\'' || c == '\\' || c == '#' || c == '!' || c == '@'
    ||| c == '$' || c == '%' || c == '^' || c == '&' || c == '*' || c == '(' || c == ')'
    ||| c == '-' || c == '_' || c == '=' || c == '+' || c == '[' || c == ']' || c == '{'
    ||| c == '}' || c == ';' || c == ':' || c == '<' || c == '>' || c == ',' || c == '.'
    ||| c == '?' || c == '/'
}

pub fn is_quote_mark(c: char) -> (r: bool)
    ensures
        r == is_quote(c),
{
    match c {
        '`' | '"' | '\'' | '\\' | '#' | '!' | '@' | '$' | '%' | '^' | '&' | '*' | '(' | ')' | '-'
        | '_' | '=' | '+' | '[' | ']' | '{' | '}' | ';' | ':' | '<' | '>' | ',' | '.' | '?' | '/' => true,
        _ => false,
    }
}

/// A quoting character stands at position `i`.
pub open spec fn quote_at(s: Seq<char>, i: int) -> bool {
    0 <= i < s.len() && is_quote(s[i])
}

/// `tag` stands at position `i` with no quoting character beside it.
pub open spec fn unquoted_at(s: Seq<char>, tag: Seq<char>, i: int) -> bool {
    occurs_at(s, tag, i) && !quote_at(s, i - 1) && !quote_at(s, i + tag.len())
}

fn is_unquoted_at(s: &[char], tag: &[char], i: usize) -> (r: bool)
    ensures
        r == unquoted_at(s@, tag@, i as int),
{
    if !is_at(s, tag, i) {
        return false;
    }
    if i > 0 && is_quote_mark(s[i - 1]) {
        return false;
    }
    let after: usize = i + tag.len();
    !(after < s.len() && is_quote_mark(s[after]))
}

/// An end tag that is followed by an empty line.
pub open spec fn end_tag_here(s: Seq<char>) -> spec_fn(int) -> bool {
    |i: int| unquoted_at(s, "</thinking>"@, i) && occurs_at(s, "\n\n"@, i + 11)
}

/// An end tag that is followed by nothing but white space.
pub open spec fn closing_tag_here(s: Seq<char>) -> spec_fn(int) -> bool {
    |i: int| unquoted_at(s, "</thinking>"@, i) && all_white(s.skip(i + 11))
}

pub open spec fn start_tag_here(s: Seq<char>) -> spec_fn(int) -> bool {
    |i: int| unquoted_at(s, "<thinking>"@, i)
}

/// The first unquoted end tag that is followed by an empty line.
pub open spec fn end_tag(s: Seq<char>) -> Option<int> {
    first_such(end_tag_here(s), 0, s.len() as int)
}

/// The first unquoted end tag that is followed by white space up to the end.
pub open spec fn closing_tag(s: Seq<char>) -> Option<int> {
    first_such(closing_tag_here(s), 0, s.len() as int)
}

/// The first unquoted start tag.
pub open spec fn start_tag(s: Seq<char>) -> Option<int> {
    first_such(start_tag_here(s), 0, s.len() as int)
}

/// Where the tags are found, they fit into the text.
pub proof fn lemma_tags_fit(s: Seq<char>)
    ensures
        "</thinking>"@.len() == 11,
        "<thinking>"@.len() == 10,
        end_tag(s) matches Some(i) ==> 0 <= i && i + 13 <= s.len(),
        closing_tag(s) matches Some(i) ==> 0 <= i && i + 11 <= s.len(),
        start_tag(s) matches Some(i) ==> 0 <= i && i + 10 <= s.len(),
{
    reveal_strlit("</thinking>");
    reveal_strlit("<thinking>");
    reveal_strlit("\n\n");
    lemma_first_such(end_tag_here(s), 0, s.len() as int);
    lemma_first_such(closing_tag_here(s), 0, s.len() as int);
    lemma_first_such(start_tag_here(s), 0, s.len() as int);
}

pub fn end_tag_position(s: &[char]) -> (r: Option<usize>)
    ensures
        opt_int(r) == end_tag(s@),
        r matches Some(i) ==> i + 13 <= s@.len(),
{
    let tag = chars_of("</thinking>");
    let gap = chars_of("\n\n");
    proof {
        reveal_strlit("</thinking>");
        lemma_tags_fit(s@);
    }
    let mut i: usize = 0;
    while i < s.len()
        invariant
            i <= s@.len(),
            tag@ == "</thinking>"@,
            tag@.len() == 11,
            gap@ == "\n\n"@,
            end_tag(s@) == first_such(end_tag_here(s@), i as int, s@.len() as int),
            end_tag(s@) matches Some(k) ==> k + 13 <= s@.len(),
        decreases s.len() - i,
    {
        if is_unquoted_at(s, tag.as_slice(), i) && is_at(s, gap.as_slice(), i + 11) {
            return Some(i);
        }
        i = i + 1;
    }
    None
}

pub fn closing_tag_position(s: &[char]) -> (r: Option<usize>)
    ensures
        opt_int(r) == closing_tag(s@),
        r matches Some(i) ==> i + 11 <= s@.len(),
{
    let tag = chars_of("</thinking>");
    proof {
        reveal_strlit("</thinking>");
        lemma_tags_fit(s@);
    }
    let mut i: usize = 0;
    while i < s.len()
        invariant
            i <= s@.len(),
            tag@ == "</thinking>"@,
            tag@.len() == 11,
            closing_tag(s@) == first_such(closing_tag_here(s@), i as int, s@.len() as int),
            closing_tag(s@) matches Some(k) ==> k + 11 <= s@.len(),
        decreases s.len() - i,
    {
        if is_unquoted_at(s, tag.as_slice(), i) {
            let w: usize = after_white(s, i + 11);
            if w == s.len() {
                assert(all_white(s@.skip(i + 11))) by {
                    assert forall|j: int| 0 <= j < s@.skip(i + 11).len() implies
                        crate::text::is_white(#[trigger] s@.skip(i + 11)[j]) by {
                        assert(s@.skip(i + 11)[j] == s@[i + 11 + j]);
                    }
                }
                return Some(i);
            }
            assert(!all_white(s@.skip(i + 11))) by {
                assert(s@.skip(i + 11)[w - (i + 11)] == s@[w as int]);
            }
        }
        i = i + 1;
    }
    None
}

pub fn start_tag_position(s: &[char]) -> (r: Option<usize>)
    ensures
        opt_int(r) == start_tag(s@),
        r matches Some(i) ==> i + 10 <= s@.len(),
{
    let tag = chars_of("<thinking>");
    proof {
        lemma_tags_fit(s@);
    }
    let mut i: usize = 0;
    while i < s.len()
        invariant
            i <= s@.len(),
            tag@ == "<thinking>"@,
            start_tag(s@) == first_such(start_tag_here(s@), i as int, s@.len() as int),
            start_tag(s@) matches Some(k) ==> k + 10 <= s@.len(),
        decreases s.len() - i,
    {
        if is_unquoted_at(s, tag.as_slice(), i) {
            return Some(i);
        }
        i = i + 1;
    }
    None
}

/// The byte offset of the first `</thinking>` that is not quoted and is
/// followed by an empty line.
pub fn find_real_thinking_end_tag(buffer: &str) -> (r: Option<usize>)
    ensures
        opt_int(r) == byte_pos(buffer@, end_tag(buffer@)),
{
    let v = chars_of(buffer);
    match end_tag_position(v.as_slice()) {
        Some(i) => Some(byte_offset(buffer, i)),
        None => None,
    }
}

/// The byte offset of the first `</thinking>` that is not quoted and is
/// followed by white space only.
pub fn find_real_thinking_end_tag_at_buffer_end(buffer: &str) -> (r: Option<usize>)
    ensures
        opt_int(r) == byte_pos(buffer@, closing_tag(buffer@)),
{
    let v = chars_of(buffer);
    match closing_tag_position(v.as_slice()) {
        Some(i) => Some(byte_offset(buffer, i)),
        None => None,
    }
}

/// The byte offset of the first `<thinking>` that is not quoted.
pub fn find_real_thinking_start_tag(buffer: &str) -> (r: Option<usize>)
    ensures
        opt_int(r) == byte_pos(buffer@, start_tag(buffer@)),
{
    let v = chars_of(buffer);
    match start_tag_position(v.as_slice()) {
        Some(i) => Some(byte_offset(buffer, i)),
        None => None,
    }
}

/// `s` without a leading line break.
pub open spec fn without_newline(s: Seq<char>) -> Seq<char> {
    if s.len() > 0 && s[0] == '\n' {
        s.skip(1)
    } else {
        s
    }
}

/// The thinking text and what follows it, for the text behind a start tag.
pub open spec fn thinking_split(s: Seq<char>) -> Option<(Seq<char>, Seq<char>)> {
    match end_tag(s) {
        Some(i) => Some((s.take(i), s.skip(i + 13))),
        None => match closing_tag(s) {
            Some(i) => Some((s.take(i), trimmed_start(s.skip(i + 11)))),
            None => None,
        },
    }
}

/// The thinking text of a complete answer, and the answer without it.
pub open spec fn thinking_extracted(text: Seq<char>) -> (Option<Seq<char>>, Seq<char>) {
    match start_tag(text) {
        None => (None, text),
        Some(at) => match thinking_split(text.skip(at + 10)) {
            None => (None, text),
            Some((thought, after)) => {
                let before = text.take(at);
                let rest = if all_white(before) {
                    after
                } else {
                    before + after
                };
                let content = without_newline(thought);
                if content.len() == 0 {
                    (None, text)
                } else {
                    (Some(content), rest)
                }
            },
        },
    }
}

/// Takes the thinking block out of a complete answer.
///
/// The block reaches from the first unquoted `<thinking>` to the first unquoted
/// `</thinking>` with an empty line behind it or, failing that, with nothing but
/// white space behind it. Without both tags, or with nothing between them but a
/// line break, the text comes back as it is. White space alone in front of the block is dropped, and so is a line break right
/// behind the start tag.
pub fn extract_thinking_from_complete_text(text: &str) -> (r: (Option<String>, String))
    ensures
        opt_text(r.0) == thinking_extracted(text@).0,
        r.1@ == thinking_extracted(text@).1,
{
    let v = chars_of(text);
    let n: usize = v.len();
    let at: usize = match start_tag_position(v.as_slice()) {
        Some(i) => i,
        None => {
            return (None, text.to_owned());
        },
    };
    let s = vstd::slice::slice_subrange(v.as_slice(), at + 10, n);
    assert(s@ == text@.skip(at + 10));
    let end: usize;
    let resume: usize;
    match end_tag_position(s) {
        Some(i) => {
            end = i;
            resume = i + 13;
        },
        None => {
            match closing_tag_position(s) {
                Some(i) => {
                    end = i;
                    resume = after_white(s, i + 11);
                    proof {
                        let tail = s@.skip(i + 11);
                        lemma_skip_shift(s@, i + 11, 0);
                        assert(s@.skip(resume as int) =~= trimmed_start(tail));
                    }
                },
                None => {
                    return (None, text.to_owned());
                },
            }
        },
    }
    assert(s@.take(end as int) =~= s@.subrange(0, end as int));
    assert(thinking_split(s@) == Some((s@.take(end as int), s@.skip(resume as int))));
    let after = text_between(s, resume, s.len());
    assert(after@ =~= s@.skip(resume as int));
    let before = text_between(v.as_slice(), 0, at);
    assert(before@ =~= text@.take(at as int));
    proof {
        lemma_blank(before@);
    }
    let mut rest = String::new();
    if !is_blank(before.as_str()) {
        crate::text::push_text(&mut rest, before.as_str());
    }
    crate::text::push_text(&mut rest, after.as_str());
    assert(Seq::<char>::empty() + before@ =~= before@);
    assert(Seq::<char>::empty() + after@ =~= after@);
    let from: usize = if end > 0 && s[0] == '\n' {
        1
    } else {
        0
    };
    let content = text_between(s, from, end);
    assert(content@ =~= without_newline(s@.take(end as int)));
    if from == end {
        (None, text.to_owned())
    } else {
        (Some(content), rest)
    }
}

proof fn lemma_skip_shift(s: Seq<char>, base: int, from: int)
    requires
        0 <= base <= s.len(),
        0 <= from <= s.len() - base,
    ensures
        crate::text::skip_white(s, base + from) == base + crate::text::skip_white(
            s.skip(base),
            from,
        ),
    decreases s.len() - base - from,
{
    if base + from < s.len() {
        assert(s.skip(base)[from] == s[base + from]);
        if crate::text::is_white(s[base + from]) {
            lemma_skip_shift(s, base, from + 1);
        }
    }
}

} // verus!
