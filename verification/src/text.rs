//! Character level helpers shared by the text filters.
//!
//! Text is modelled as `Seq<char>`. The filters work on slices of characters;
//! where a caller needs an offset into the UTF-8 bytes of a text, the byte
//! width of a prefix gives it.
use vstd::prelude::*;
use vstd::slice::slice_subrange;
use vstd::string::StringExecFns;
use vstd::utf8::encode_utf8;

verus! {

/// `String::push` appends one character.
pub assume_specification[ String::push ](s: &mut String, c: char)
    ensures
        final(s)@ == old(s)@.push(c),
;

/// An optional index as a mathematical integer.
pub open spec fn opt_int(o: Option<usize>) -> Option<int> {
    match o {
        Some(i) => Some(i as int),
        None => None,
    }
}

/// The characters of `s`, in order.
pub fn chars_of(s: &str) -> (r: Vec<char>)
    ensures
        r@ == s@,
{
    let mut out: Vec<char> = Vec::new();
    for c in it: s.chars()
        invariant
            it.seq() == s@,
            out@ == s@.take(it.index()),
    {
        out.push(c);
    }
    out
}

/// The text whose characters are `s[from..to]`.
pub fn text_between(s: &[char], from: usize, to: usize) -> (r: String)
    requires
        from <= to <= s@.len(),
    ensures
        r@ == s@.subrange(from as int, to as int),
{
    let mut out = String::new();
    let mut i: usize = from;
    while i < to
        invariant
            from <= i <= to <= s@.len(),
            out@ == s@.subrange(from as int, i as int),
        decreases to - i,
    {
        out.push(s[i]);
        i = i + 1;
    }
    out
}

/// The text whose characters are `s`.
pub fn text_of(s: &[char]) -> (r: String)
    ensures
        r@ == s@,
{
    text_between(s, 0, s.len())
}

/// Appends the characters of `more` to `s`.
pub fn push_text(s: &mut String, more: &str)
    ensures
        final(s)@ == old(s)@ + more@,
{
    s.append(more);
}

/// `a` followed by `b`.
pub fn join2(a: &str, b: &str) -> (r: String)
    ensures
        r@ == a@ + b@,
{
    let mut out = a.to_owned();
    out.append(b);
    out
}

/// `a`, `b` and `c` one after the other.
pub fn join3(a: &str, b: &str, c: &str) -> (r: String)
    ensures
        r@ == a@ + b@ + c@,
{
    let mut out = a.to_owned();
    out.append(b);
    out.append(c);
    out
}

/// An optional text, mathematically.
pub open spec fn opt_text(o: Option<String>) -> Option<Seq<char>> {
    match o {
        Some(s) => Some(s@),
        None => None,
    }
}

/// A copy of an optional text.
pub fn copy_opt(o: &Option<String>) -> (r: Option<String>)
    ensures
        opt_text(r) == opt_text(*o),
{
    match o {
        Some(s) => Some(s.clone()),
        None => None,
    }
}

/// `pat` stands in `s` at position `i`.
pub open spec fn occurs_at(s: Seq<char>, pat: Seq<char>, i: int) -> bool {
    0 <= i && i + pat.len() <= s.len() && s.subrange(i, i + pat.len()) == pat
}

pub fn is_at(s: &[char], pat: &[char], i: usize) -> (r: bool)
    ensures
        r == occurs_at(s@, pat@, i as int),
{
    if pat.len() > s.len() || i > s.len() - pat.len() {
        return false;
    }
    let mut k: usize = 0;
    while k < pat.len()
        invariant
            k <= pat@.len(),
            i + pat@.len() <= s.len(),
            s.len() == s@.len(),
            forall|j: int| 0 <= j < k ==> s@[i + j] == pat@[j],
        decreases pat.len() - k,
    {
        if s[i + k] != pat[k] {
            assert(s@.subrange(i as int, i + pat@.len())[k as int] != pat@[k as int]);
            return false;
        }
        k = k + 1;
    }
    assert(s@.subrange(i as int, i + pat@.len()) =~= pat@);
    true
}

/// The first position at or after `from` at which `pat` stands in `s`.
pub open spec fn first_occurrence(s: Seq<char>, pat: Seq<char>, from: int) -> Option<int>
    decreases s.len() + 1 - from,
{
    if from < 0 || from + pat.len() > s.len() {
        None
    } else if occurs_at(s, pat, from) {
        Some(from)
    } else {
        first_occurrence(s, pat, from + 1)
    }
}

/// `first_occurrence` gives an occurrence with none before it, or there is none.
pub proof fn lemma_first_occurrence(s: Seq<char>, pat: Seq<char>, from: int)
    requires
        0 <= from,
    ensures
        match first_occurrence(s, pat, from) {
            Some(i) => from <= i && occurs_at(s, pat, i) && forall|j: int|
                from <= j < i ==> !occurs_at(s, pat, j),
            None => forall|j: int| from <= j ==> !occurs_at(s, pat, j),
        },
    decreases s.len() + 1 - from,
{
    if from + pat.len() <= s.len() && !occurs_at(s, pat, from) {
        lemma_first_occurrence(s, pat, from + 1);
    }
}

pub fn find_from(s: &[char], pat: &[char], from: usize) -> (r: Option<usize>)
    ensures
        opt_int(r) == first_occurrence(s@, pat@, from as int),
        r matches Some(i) ==> from <= i && i + pat@.len() <= s@.len(),
{
    let mut i: usize = from;
    while pat.len() <= s.len() && i <= s.len() - pat.len()
        invariant
            from <= i,
            from <= s@.len() ==> i <= s@.len() + 1,
            first_occurrence(s@, pat@, from as int) == first_occurrence(s@, pat@, i as int),
        decreases s.len() + 1 - i,
    {
        if is_at(s, pat, i) {
            return Some(i);
        }
        if i == s.len() {
            assert(first_occurrence(s@, pat@, i + 1) is None);
            return None;
        }
        i = i + 1;
    }
    None
}

/// `s` holds `pat`.
pub open spec fn holds_text(s: Seq<char>, pat: Seq<char>) -> bool {
    first_occurrence(s, pat, 0) is Some
}

pub fn contains_text(s: &[char], pat: &[char]) -> (r: bool)
    ensures
        r == holds_text(s@, pat@),
{
    find_from(s, pat, 0).is_some()
}

pub open spec fn has_prefix(s: Seq<char>, p: Seq<char>) -> bool {
    occurs_at(s, p, 0)
}

pub fn starts_with(s: &[char], p: &[char]) -> (r: bool)
    ensures
        r == has_prefix(s@, p@),
{
    is_at(s, p, 0)
}

/// The characters that Unicode calls white space.
pub open spec fn is_white(c: char) -> bool {
    ||| '\u{9}' <= c <= '\u{d}'
    ||| c == ' '
    ||| c == '\u{85}'
    ||| c == '\u{a0}'
    ||| c == '\u{1680}'
    ||| '\u{2000}' <= c <= '\u{200a}'
    ||| c == '\u{2028}'
    ||| c == '\u{2029}'
    ||| c == '\u{202f}'
    ||| c == '\u{205f}'
    ||| c == '\u{3000}'
}

pub fn is_whitespace(c: char) -> (r: bool)
    ensures
        r == is_white(c),
{
    ('\u{9}' <= c && c <= '\u{d}') || c == ' ' || c == '\u{85}' || c == '\u{a0}' || c == '\u{1680}'
        || ('\u{2000}' <= c && c <= '\u{200a}') || c == '\u{2028}' || c == '\u{2029}' || c
        == '\u{202f}' || c == '\u{205f}' || c == '\u{3000}'
}

/// The number of leading white space characters of `s[from..]`, as a position.
pub open spec fn skip_white(s: Seq<char>, from: int) -> int
    decreases s.len() - from,
{
    if 0 <= from < s.len() && is_white(s[from]) {
        skip_white(s, from + 1)
    } else {
        from
    }
}

/// The end of `s[..to]` without its trailing white space.
pub open spec fn skip_white_back(s: Seq<char>, to: int) -> int
    decreases to,
{
    if 0 < to <= s.len() && is_white(s[to - 1]) {
        skip_white_back(s, to - 1)
    } else {
        to
    }
}

pub open spec fn trimmed_start(s: Seq<char>) -> Seq<char> {
    s.skip(skip_white(s, 0))
}

pub open spec fn trimmed_end(s: Seq<char>) -> Seq<char> {
    s.take(skip_white_back(s, s.len() as int))
}

/// `s` without white space at either end.
pub open spec fn trimmed(s: Seq<char>) -> Seq<char> {
    trimmed_end(trimmed_start(s))
}

pub open spec fn all_white(s: Seq<char>) -> bool {
    forall|i: int| 0 <= i < s.len() ==> is_white(#[trigger] s[i])
}

pub fn after_white(s: &[char], from: usize) -> (r: usize)
    requires
        from <= s@.len(),
    ensures
        r == skip_white(s@, from as int),
        from <= r <= s@.len(),
        forall|j: int| from <= j < r ==> is_white(#[trigger] s@[j]),
        r < s@.len() ==> !is_white(s@[r as int]),
{
    let mut i: usize = from;
    while i < s.len() && is_whitespace(s[i])
        invariant
            from <= i <= s@.len(),
            skip_white(s@, from as int) == skip_white(s@, i as int),
            forall|j: int| from <= j < i ==> is_white(#[trigger] s@[j]),
        decreases s.len() - i,
    {
        i = i + 1;
    }
    i
}

pub fn before_white(s: &[char], to: usize) -> (r: usize)
    requires
        to <= s@.len(),
    ensures
        r == skip_white_back(s@, to as int),
        r <= to,
{
    let mut i: usize = to;
    while i > 0 && is_whitespace(s[i - 1])
        invariant
            i <= to <= s@.len(),
            skip_white_back(s@, to as int) == skip_white_back(s@, i as int),
        decreases i,
    {
        i = i - 1;
    }
    i
}

/// `s` without white space at either end.
pub fn trim(s: &str) -> (r: String)
    ensures
        r@ == trimmed(s@),
{
    let v = chars_of(s);
    let from: usize = after_white(v.as_slice(), 0);
    let rest = slice_subrange(v.as_slice(), from, v.len());
    assert(rest@ == trimmed_start(s@));
    let to: usize = before_white(rest, rest.len());
    text_between(rest, 0, to)
}

/// `s` is empty or holds white space only.
pub fn is_blank(s: &str) -> (r: bool)
    ensures
        r == (trimmed(s@).len() == 0),
{
    let t = trim(s);
    let v = chars_of(t.as_str());
    v.len() == 0
}

/// Two texts hold the same characters.
pub fn same_text(a: &str, b: &str) -> (r: bool)
    ensures
        r == (a@ == b@),
{
    let x = chars_of(a);
    let y = chars_of(b);
    if x.len() != y.len() {
        return false;
    }
    let r = is_at(x.as_slice(), y.as_slice(), 0);
    assert(x@.subrange(0, y@.len() as int) == x@);
    r
}

/// The number of bytes that UTF-8 needs for a character.
pub open spec fn char_width(c: char) -> int {
    if c <= '\u{7f}' {
        1
    } else if c <= '\u{7ff}' {
        2
    } else if c <= '\u{ffff}' {
        3
    } else {
        4
    }
}

/// The number of bytes that UTF-8 needs for a text.
pub open spec fn byte_len(s: Seq<char>) -> int
    decreases s.len(),
{
    if s.len() == 0 {
        0
    } else {
        byte_len(s.drop_last()) + char_width(s.last())
    }
}

pub proof fn lemma_byte_len_add(a: Seq<char>, b: Seq<char>)
    ensures
        byte_len(a + b) == byte_len(a) + byte_len(b),
    decreases b.len(),
{
    if b.len() == 0 {
        assert(a + b =~= a);
    } else {
        lemma_byte_len_add(a, b.drop_last());
        assert((a + b).drop_last() =~= a + b.drop_last());
    }
}

pub proof fn lemma_byte_len_bounds(s: Seq<char>)
    ensures
        s.len() <= byte_len(s) <= 4 * s.len(),
    decreases s.len(),
{
    if s.len() > 0 {
        lemma_byte_len_bounds(s.drop_last());
    }
}

/// A prefix has no more bytes than the whole.
pub proof fn lemma_byte_len_take(s: Seq<char>, i: int)
    requires
        0 <= i <= s.len(),
    ensures
        0 <= i <= byte_len(s.take(i)) <= byte_len(s),
{
    lemma_byte_len_add(s.take(i), s.skip(i));
    assert(s.take(i) + s.skip(i) =~= s);
    lemma_byte_len_bounds(s.skip(i));
    lemma_byte_len_bounds(s.take(i));
}

proof fn lemma_scalar_width(c: char)
    ensures
        vstd::utf8::encode_scalar(c as u32).len() == char_width(c),
{
    vstd::utf8::char_is_scalar(c);
}

/// The width of a text is the length of its UTF-8 encoding.
proof fn lemma_byte_len_utf8(s: Seq<char>)
    ensures
        byte_len(s) == encode_utf8(s).len(),
    decreases s.len(),
{
    if s.len() > 0 {
        let head = seq![s[0]];
        lemma_byte_len_utf8(s.drop_first());
        lemma_byte_len_add(head, s.drop_first());
        assert(head + s.drop_first() =~= s);
        assert(head.drop_last() =~= Seq::<char>::empty());
        assert(byte_len(head.drop_last()) == 0);
        assert(byte_len(head) == char_width(s[0]));
        lemma_scalar_width(s[0]);
    }
}

/// The number of bytes of a text.
pub fn byte_length(s: &str) -> (r: usize)
    ensures
        r == byte_len(s@),
{
    proof {
        lemma_byte_len_utf8(s@);
    }
    s.as_bytes().len()
}

fn width_of(c: char) -> (r: usize)
    ensures
        r == char_width(c),
{
    if c <= '\u{7f}' {
        1
    } else if c <= '\u{7ff}' {
        2
    } else if c <= '\u{ffff}' {
        3
    } else {
        4
    }
}

/// The byte offset of the character at position `i`.
pub fn byte_offset(s: &str, i: usize) -> (r: usize)
    requires
        i <= s@.len(),
    ensures
        r == byte_len(s@.take(i as int)),
{
    let total: usize = byte_length(s);
    let v = chars_of(s);
    let mut k: usize = 0;
    let mut bytes: usize = 0;
    while k < i
        invariant
            k <= i <= s@.len(),
            v@ == s@,
            total == byte_len(s@),
            bytes == byte_len(s@.take(k as int)),
        decreases i - k,
    {
        proof {
            lemma_byte_len_take(s@, k + 1);
            assert(s@.take(k + 1).drop_last() =~= s@.take(k as int));
        }
        bytes = bytes + width_of(v[k]);
        k = k + 1;
    }
    bytes
}

/// An optional position as an optional byte offset.
pub open spec fn byte_pos(s: Seq<char>, at: Option<int>) -> Option<int> {
    match at {
        Some(i) => Some(byte_len(s.take(i))),
        None => None,
    }
}

/// The number of characters of the longest prefix that fits into `target` bytes.
pub open spec fn whole_chars(s: Seq<char>, target: int) -> int
    decreases s.len(),
{
    if s.len() == 0 || byte_len(s) <= target {
        s.len() as int
    } else {
        whole_chars(s.drop_last(), target)
    }
}

/// The number of leading characters of `s` that remain when about the last
/// `keep` bytes are held back, no character being split.
pub open spec fn held_back(s: Seq<char>, keep: int) -> int {
    whole_chars(s, if byte_len(s) > keep {
        byte_len(s) - keep
    } else {
        0
    })
}

fn chars_within(s: &[char], total: usize, target: usize) -> (r: usize)
    requires
        total == byte_len(s@),
    ensures
        r == whole_chars(s@, target as int),
        r <= s@.len(),
{
    let mut i: usize = s.len();
    let mut bytes: usize = total;
    assert(s@.take(s@.len() as int) =~= s@);
    while i > 0 && bytes > target
        invariant
            i <= s@.len(),
            bytes == byte_len(s@.take(i as int)),
            whole_chars(s@, target as int) == whole_chars(s@.take(i as int), target as int),
        decreases i,
    {
        assert(s@.take(i as int).drop_last() =~= s@.take(i - 1));
        proof {
            lemma_byte_len_bounds(s@.take(i - 1));
        }
        bytes = bytes - width_of(s[i - 1]);
        i = i - 1;
    }
    i
}

/// The position behind which about the last `keep` bytes of `s` stand.
pub fn hold_back(s: &str, keep: usize) -> (r: usize)
    ensures
        r == held_back(s@, keep as int),
        r <= s@.len(),
{
    let total: usize = byte_length(s);
    let v = chars_of(s);
    let target: usize = if total > keep {
        total - keep
    } else {
        0
    };
    chars_within(v.as_slice(), total, target)
}

/// The largest character boundary of `s` that is not behind byte `target`.
pub fn find_char_boundary(s: &str, target: usize) -> (r: usize)
    ensures
        r == byte_len(s@.take(whole_chars(s@, target as int))),
{
    let total: usize = byte_length(s);
    let v = chars_of(s);
    let i: usize = chars_within(v.as_slice(), total, target);
    byte_offset(s, i)
}

/// The first position from `from` on, below `to`, at which `p` holds.
pub open spec fn first_such(p: spec_fn(int) -> bool, from: int, to: int) -> Option<int>
    decreases to - from,
{
    if from >= to {
        None
    } else if p(from) {
        Some(from)
    } else {
        first_such(p, from + 1, to)
    }
}

/// The last position below `to`, from `from` on, at which `p` holds.
pub open spec fn last_such(p: spec_fn(int) -> bool, from: int, to: int) -> Option<int>
    decreases to - from,
{
    if from >= to {
        None
    } else if p(to - 1) {
        Some(to - 1)
    } else {
        last_such(p, from, to - 1)
    }
}

/// `first_such` gives a position at which `p` holds with none before it.
pub proof fn lemma_first_such(p: spec_fn(int) -> bool, from: int, to: int)
    ensures
        match first_such(p, from, to) {
            Some(i) => from <= i < to && p(i) && forall|j: int| from <= j < i ==> !#[trigger] p(j),
            None => forall|j: int| from <= j < to ==> !#[trigger] p(j),
        },
    decreases to - from,
{
    if from < to && !p(from) {
        lemma_first_such(p, from + 1, to);
    }
}

/// `last_such` gives a position at which `p` holds with none behind it.
pub proof fn lemma_last_such(p: spec_fn(int) -> bool, from: int, to: int)
    ensures
        match last_such(p, from, to) {
            Some(i) => from <= i < to && p(i) && forall|j: int| i < j < to ==> !#[trigger] p(j),
            None => forall|j: int| from <= j < to ==> !#[trigger] p(j),
        },
    decreases to - from,
{
    if from < to && !p(to - 1) {
        lemma_last_such(p, from, to - 1);
    }
}

pub open spec fn holds_char(s: Seq<char>, c: char) -> spec_fn(int) -> bool {
    |i: int| s[i] == c
}

/// The first position at or after `from` that holds the character `c`.
pub open spec fn char_from(s: Seq<char>, c: char, from: int) -> Option<int> {
    first_such(holds_char(s, c), from, s.len() as int)
}

pub fn find_char(s: &[char], c: char, from: usize) -> (r: Option<usize>)
    requires
        from <= s@.len(),
    ensures
        opt_int(r) == char_from(s@, c, from as int),
        r matches Some(i) ==> from <= i < s@.len() && s@[i as int] == c,
{
    let ghost p = holds_char(s@, c);
    let mut i: usize = from;
    while i < s.len()
        invariant
            from <= i <= s@.len(),
            p == holds_char(s@, c),
            first_such(p, from as int, s@.len() as int) == first_such(p, i as int, s@.len() as int),
        decreases s.len() - i,
    {
        if s[i] == c {
            return Some(i);
        }
        i = i + 1;
    }
    None
}

/// The last position below `to` that holds the character `c`.
pub open spec fn char_before(s: Seq<char>, c: char, to: int) -> Option<int> {
    last_such(holds_char(s, c), 0, to)
}

pub fn rfind_char(s: &[char], c: char, to: usize) -> (r: Option<usize>)
    requires
        to <= s@.len(),
    ensures
        opt_int(r) == char_before(s@, c, to as int),
        r matches Some(i) ==> i < to && s@[i as int] == c,
{
    let ghost p = holds_char(s@, c);
    let mut i: usize = to;
    while i > 0
        invariant
            i <= to <= s@.len(),
            p == holds_char(s@, c),
            last_such(p, 0, to as int) == last_such(p, 0, i as int),
        decreases i,
    {
        if s[i - 1] == c {
            return Some(i - 1);
        }
        i = i - 1;
    }
    None
}

/// Trimming leaves nothing of a text of white space, and of no other.
pub proof fn lemma_blank(s: Seq<char>)
    ensures
        (trimmed(s).len() == 0) == all_white(s),
{
    lemma_skip_white(s, 0);
    let t = trimmed_start(s);
    lemma_skip_white_back(t, t.len() as int);
    if all_white(s) {
        if skip_white(s, 0) < s.len() {
            assert(is_white(s[skip_white(s, 0)]));
        }
    } else {
        let w = skip_white(s, 0);
        if w == s.len() {
            assert forall|i: int| 0 <= i < s.len() implies is_white(#[trigger] s[i]) by {}
        } else {
            assert(t[0] == s[w]);
            assert(!is_white(t[0]));
        }
    }
}

pub proof fn lemma_skip_white(s: Seq<char>, from: int)
    requires
        0 <= from <= s.len(),
    ensures
        from <= skip_white(s, from) <= s.len(),
        forall|j: int| from <= j < skip_white(s, from) ==> is_white(#[trigger] s[j]),
        skip_white(s, from) < s.len() ==> !is_white(s[skip_white(s, from)]),
    decreases s.len() - from,
{
    if from < s.len() && is_white(s[from]) {
        lemma_skip_white(s, from + 1);
    }
}

pub proof fn lemma_skip_white_back(s: Seq<char>, to: int)
    requires
        0 <= to <= s.len(),
    ensures
        0 <= skip_white_back(s, to) <= to,
        forall|j: int| skip_white_back(s, to) <= j < to ==> is_white(#[trigger] s[j]),
        skip_white_back(s, to) > 0 ==> !is_white(s[skip_white_back(s, to) - 1]),
    decreases to,
{
    if to > 0 && is_white(s[to - 1]) {
        lemma_skip_white_back(s, to - 1);
    }
}

/// The decimal digit for a number below ten.
pub open spec fn digit_char(d: int) -> char {
    if d == 0 {
        '0'
    } else if d == 1 {
        '1'
    } else if d == 2 {
        '2'
    } else if d == 3 {
        '3'
    } else if d == 4 {
        '4'
    } else if d == 5 {
        '5'
    } else if d == 6 {
        '6'
    } else if d == 7 {
        '7'
    } else if d == 8 {
        '8'
    } else {
        '9'
    }
}

/// The decimal text of a number.
pub open spec fn decimal_text(n: nat) -> Seq<char>
    decreases n,
{
    if n < 10 {
        seq![digit_char(n as int)]
    } else {
        decimal_text(n / 10).push(digit_char((n % 10) as int))
    }
}

fn digit_of(d: u64) -> (r: char)
    requires
        d < 10,
    ensures
        r == digit_char(d as int),
{
    match d {
        0 => '0',
        1 => '1',
        2 => '2',
        3 => '3',
        4 => '4',
        5 => '5',
        6 => '6',
        7 => '7',
        8 => '8',
        _ => '9',
    }
}

/// The decimal text of a number.
pub fn decimal(n: u64) -> (r: String)
    ensures
        r@ == decimal_text(n as nat),
    decreases n,
{
    if n < 10 {
        let mut s = String::new();
        s.push(digit_of(n));
        assert(s@ =~= decimal_text(n as nat));
        s
    } else {
        let mut s = decimal(n / 10);
        s.push(digit_of(n % 10));
        s
    }
}

/// A letter of ASCII in lower case; any other character as it is.
pub open spec fn lower_char(c: char) -> char {
    if 'A' <= c <= 'Z' {
        ((c as u8 + 32) as u8) as char
    } else {
        c
    }
}

/// A text with its ASCII letters in lower case.
pub open spec fn lowered(s: Seq<char>) -> Seq<char> {
    Seq::new(s.len(), |i: int| lower_char(s[i]))
}

fn to_lower(c: char) -> (r: char)
    ensures
        r == lower_char(c),
{
    if 'A' <= c && c <= 'Z' {
        let b: u8 = c as u8 + 32;
        b as char
    } else {
        c
    }
}

/// The characters of a text, its ASCII letters in lower case.
pub fn lower_chars(s: &str) -> (r: Vec<char>)
    ensures
        r@ == lowered(s@),
{
    let v = chars_of(s);
    let mut out: Vec<char> = Vec::new();
    let mut i: usize = 0;
    while i < v.len()
        invariant
            i <= v@.len(),
            v@ == s@,
            out@ == lowered(s@).take(i as int),
        decreases v.len() - i,
    {
        out.push(to_lower(v[i]));
        assert(out@ =~= lowered(s@).take(i + 1));
        i = i + 1;
    }
    assert(out@ =~= lowered(s@));
    out
}

/// `s` holds `pat`.
pub fn text_contains(s: &str, pat: &str) -> (r: bool)
    ensures
        r == holds_text(s@, pat@),
{
    let v = chars_of(s);
    let p = chars_of(pat);
    contains_text(v.as_slice(), p.as_slice())
}

/// The number that a decimal digit stands for.
pub open spec fn digit_value(c: char) -> int {
    c as int - '0' as int
}

pub open spec fn is_digit(c: char) -> bool {
    '0' <= c <= '9'
}

/// The number that decimal digits stand for.
pub open spec fn digits_value(s: Seq<char>) -> int
    decreases s.len(),
{
    if s.len() == 0 {
        0
    } else {
        digits_value(s.drop_last()) * 10 + digit_value(s.last())
    }
}

/// Decimal digits that stand for a number of 64 bits.
pub open spec fn are_u64_digits(digits: Seq<char>) -> bool {
    &&& digits.len() > 0
    &&& forall|i: int| 0 <= i < digits.len() ==> is_digit(#[trigger] digits[i])
    &&& digits_value(digits) <= u64::MAX
}

/// A text that stands for a number of 64 bits: decimal digits, with or without a
/// plus sign.
pub open spec fn is_u64_text(s: Seq<char>) -> bool {
    if s.len() > 0 && s[0] == '+' {
        are_u64_digits(s.skip(1))
    } else {
        are_u64_digits(s)
    }
}

proof fn lemma_digits_monotone(s: Seq<char>, n: int)
    requires
        0 <= n <= s.len(),
        forall|i: int| 0 <= i < s.len() ==> is_digit(#[trigger] s[i]),
    ensures
        0 <= digits_value(s.take(n)) <= digits_value(s),
    decreases s.len() - n, n,
{
    if n < s.len() {
        lemma_digits_monotone(s, n + 1);
        assert(s.take(n + 1).drop_last() =~= s.take(n));
        assert(is_digit(s[n]));
        lemma_digits_positive(s.take(n));
    } else {
        assert(s.take(n) =~= s);
        lemma_digits_positive(s);
    }
}

proof fn lemma_digits_positive(s: Seq<char>)
    requires
        forall|i: int| 0 <= i < s.len() ==> is_digit(#[trigger] s[i]),
    ensures
        0 <= digits_value(s),
    decreases s.len(),
{
    if s.len() > 0 {
        let head = s.drop_last();
        assert forall|i: int| 0 <= i < head.len() implies is_digit(#[trigger] head[i]) by {
            assert(head[i] == s[i]);
        }
        lemma_digits_positive(head);
        assert(is_digit(s[s.len() - 1]));
    }
}

fn digits_fit(digits: &[char]) -> (r: bool)
    ensures
        r == are_u64_digits(digits@),
{
    let n: usize = digits.len();
    if n == 0 {
        return false;
    }
    let mut i: usize = 0;
    while i < n
        invariant
            i <= n,
            n == digits@.len(),
            forall|k: int| 0 <= k < i ==> is_digit(#[trigger] digits@[k]),
        decreases n - i,
    {
        if !('0' <= digits[i] && digits[i] <= '9') {
            assert(!is_digit(digits@[i as int]));
            return false;
        }
        i = i + 1;
    }
    let mut value: u64 = 0;
    let mut k: usize = 0;
    assert(digits@.take(0) =~= Seq::<char>::empty());
    while k < n
        invariant
            k <= n,
            n == digits@.len(),
            forall|j: int| 0 <= j < digits@.len() ==> is_digit(#[trigger] digits@[j]),
            value == digits_value(digits@.take(k as int)),
        decreases n - k,
    {
        assert(digits@.take(k + 1).drop_last() =~= digits@.take(k as int));
        assert(is_digit(digits@[k as int]));
        proof {
            lemma_digits_monotone(digits@, k + 1);
        }
        let d: u64 = digits[k] as u64 - '0' as u64;
        if value > (0xffff_ffff_ffff_ffff - d) / 10 {
            return false;
        }
        value = value * 10 + d;
        k = k + 1;
    }
    assert(digits@.take(n as int) =~= digits@);
    true
}

/// Whether a text stands for a number of 64 bits.
pub fn is_u64(s: &str) -> (r: bool)
    ensures
        r == is_u64_text(s@),
{
    let v = chars_of(s);
    let n: usize = v.len();
    if n > 0 && v[0] == '+' {
        let rest = slice_subrange(v.as_slice(), 1, n);
        assert(rest@ =~= s@.skip(1));
        digits_fit(rest)
    } else {
        digits_fit(v.as_slice())
    }
}

} // verus!
