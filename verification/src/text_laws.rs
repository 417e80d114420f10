//! Laws on texts, numbers and delays, stated over characters and integers.
use crate::error::{clamped_delay, delay_of, header_text, is_http_date, normalized_delay};
use crate::fence::{fence_after, fence_is_independent_of_cuts, FenceV};
use crate::loop_laws::{is_blank_text, is_trim, trimming_takes_white_space_alone};
use crate::text::{
    byte_len, char_width, decimal_text, digit_char, digits_value, is_u64_text, is_white, lowered,
    skip_white, trimmed_start,
};
use crate::tokens::{cjk_count, sat_add, token_estimate, CacheUsage, TokenUsage};
use vstd::prelude::*;

verus! {

/// White space is what Unicode counts as such, and nothing else.
pub proof fn white_space_is_that_of_unicode(c: char)
    ensures
        is_white(c) == set![
            0x9int,
            0xa,
            0xb,
            0xc,
            0xd,
            0x20,
            0x85,
            0xa0,
            0x1680,
            0x2000,
            0x2001,
            0x2002,
            0x2003,
            0x2004,
            0x2005,
            0x2006,
            0x2007,
            0x2008,
            0x2009,
            0x200a,
            0x2028,
            0x2029,
            0x202f,
            0x205f,
            0x3000,
        ].contains(c as int),
{
}

/// Writing a text in lower case changes the capital letters of ASCII into the small letters
/// that belong to them, and nothing else.
pub proof fn lower_case_changes_capital_letters(s: Seq<char>)
    ensures
        lowered(s).len() == s.len(),
        forall|i: int|
            0 <= i < s.len() ==> #[trigger] lowered(s)[i] as int == s[i] as int + if 'A' <= s[i]
                <= 'Z' {
                32int
            } else {
                0int
            },
        lowered(lowered(s)) == lowered(s),
{
    assert forall|i: int| 0 <= i < s.len() implies #[trigger] lowered(s)[i] as int == s[i] as int
        + if 'A' <= s[i] <= 'Z' {
        32int
    } else {
        0int
    } by {
        if 'A' <= s[i] <= 'Z' {
            assert((s[i] as u8 + 32) as u8 as int == s[i] as int + 32);
        }
    }
    assert(lowered(lowered(s)) =~= lowered(s)) by {
        assert forall|i: int| 0 <= i < s.len() implies lowered(lowered(s))[i] == #[trigger] lowered(
            s,
        )[i] by {
            assert(!('A' <= lowered(s)[i] <= 'Z'));
        }
    }
}

/// A text has as many bytes as its characters together, and a character of n bytes carries
/// as many bits as UTF-8 has room for in n bytes and not in fewer.
pub proof fn bytes_add_up(a: Seq<char>, b: Seq<char>, c: char)
    ensures
        byte_len(a + b) == byte_len(a) + byte_len(b),
        byte_len(Seq::empty()) == 0,
        byte_len(seq![c]) == char_width(c),
        1 <= char_width(c) <= 4,
        char_width(c) <= 1 <==> (c as int) < 0x80,
        char_width(c) <= 2 <==> (c as int) < 0x800,
        char_width(c) <= 3 <==> (c as int) < 0x10000,
{
    crate::text::lemma_byte_len_add(a, b);
    assert(seq![c].drop_last() =~= Seq::<char>::empty());
    reveal_with_fuel(byte_len, 2);
}

/// A number in decimal digits reads as the number again, has digits alone and begins with
/// zero only if it is zero.
pub proof fn decimal_digits_read_as_the_number(n: nat)
    ensures
        digits_value(decimal_text(n)) == n,
        decimal_text(n).len() > 0,
        forall|i: int| 0 <= i < decimal_text(n).len() ==> '0' <= #[trigger] decimal_text(n)[i] <= '9',
        n > 0 ==> decimal_text(n)[0] != '0',
    decreases n,
{
    reveal_with_fuel(digits_value, 2);
    if n < 10 {
        assert(decimal_text(n).drop_last() =~= Seq::<char>::empty());
    } else {
        decimal_digits_read_as_the_number(n / 10);
        let t = decimal_text(n / 10);
        let d = digit_char((n % 10) as int);
        assert(decimal_text(n) == t.push(d));
        assert(t.push(d).drop_last() =~= t);
        assert(d as int - '0' as int == n % 10);
        assert(digits_value(t.push(d)) == digits_value(t) * 10 + (n % 10) as int);
    }
}

/// A delay that the upstream asks for is kept where it is a number of seconds that fits, in
/// digits and perhaps with a plus sign before them, or a date; white space around it is
/// dropped. Any other is not known.
pub proof fn delays_are_seconds_or_dates(a: Seq<char>, t: Seq<char>, b: Seq<char>, n: u64)
    requires
        is_blank_text(a),
        is_blank_text(b),
        is_trim(t),
    ensures
        t == decimal_text(n as nat) ==> normalized_delay(Some(a + t + b)) == Some(t),
        t == seq!['+'] + decimal_text(n as nat) ==> normalized_delay(Some(a + t + b)) == Some(t),
        is_http_date(t) ==> normalized_delay(Some(a + t + b)) == Some(t),
        !is_http_date(t) && !('0' <= t.last() <= '9') ==> normalized_delay(Some(a + t + b)) is None,
        normalized_delay(None) is None,
        normalized_delay(Some(a)) is None,
        delay_of(t, true) == Some(t),
{
    trimming_takes_white_space_alone(a, t, b);
    decimal_digits_read_as_the_number(n as nat);
    let d = decimal_text(n as nat);
    if t == d {
        assert(d[0] != '+');
        assert(is_u64_text(t));
    }
    if t == seq!['+'] + d {
        assert(t.skip(1) =~= d);
        assert(is_u64_text(t));
    }
    if !('0' <= t.last() <= '9') {
        let u = if t[0] == '+' {
            t.skip(1)
        } else {
            t
        };
        if u.len() > 0 {
            assert(u[u.len() - 1] == t.last());
        }
        assert(!is_u64_text(t));
    }
    let none = Seq::<char>::empty();
    trimming_takes_white_space_alone(a, none, none);
    assert(a + none + none =~= a);
}

/// A number of seconds that does not fit is no delay.
pub proof fn delays_that_do_not_fit_are_not_known(t: Seq<char>, n: nat)
    requires
        n > u64::MAX,
        t == decimal_text(n),
        !is_http_date(t),
        is_trim(t),
    ensures
        normalized_delay(Some(t)) is None,
{
    let none = Seq::<char>::empty();
    trimming_takes_white_space_alone(none, t, none);
    assert(none + t + none =~= t);
    decimal_digits_read_as_the_number(n);
    assert(t[0] != '+');
}

/// A header is read as text where all of its bytes are printable ASCII or tabs: byte by
/// byte, and all of them.
pub proof fn headers_are_read_byte_by_byte(b: Seq<u8>, i: int)
    requires
        0 <= i < b.len(),
    ensures
        header_text(None) is None,
        !(32 <= b[i] < 127 || b[i] == 9) ==> header_text(Some(b)) is None,
        (forall|k: int| 0 <= k < b.len() ==> 32 <= #[trigger] b[k] < 127 || b[k] == 9) ==> {
            &&& header_text(Some(b)) is Some
            &&& header_text(Some(b))->Some_0.len() == b.len()
            &&& header_text(Some(b))->Some_0[i] as int == b[i] as int
        },
{
}

/// A client waits for as long as was asked for, but at least a second and at most an hour;
/// an hour where nothing was asked for.
pub proof fn a_delay_is_kept_within_an_hour(n: u64)
    ensures
        1 <= n <= 3600 ==> clamped_delay(Some(n)) == n,
        n == 0 ==> clamped_delay(Some(n)) == 1,
        n > 3600 ==> clamped_delay(Some(n)) == 3600,
        clamped_delay(None) == 3600,
{
}

/// The ideographs of two texts add up.
pub proof fn ideographs_add_up(a: Seq<char>, b: Seq<char>, c: char)
    ensures
        cjk_count(a + b) == cjk_count(a) + cjk_count(b),
        cjk_count(Seq::empty()) == 0,
        cjk_count(seq![c]) == if 0x4e00 <= c as int <= 0x9fff {
            1int
        } else {
            0int
        },
    decreases b.len(),
{
    reveal_with_fuel(cjk_count, 2);
    assert(seq![c].drop_last() =~= Seq::<char>::empty());
    if b.len() == 0 {
        assert(a + b =~= a);
    } else {
        ideographs_add_up(a, b.drop_last(), c);
        assert((a + b).drop_last() =~= a + b.drop_last());
    }
}

proof fn lemma_cjk_bounds(s: Seq<char>)
    ensures
        0 <= cjk_count(s) <= s.len(),
    decreases s.len(),
{
    if s.len() > 0 {
        lemma_cjk_bounds(s.drop_last());
    }
}

/// Four letters make a token, and three ideographs two. The estimate of a text is the least
/// number of tokens for its letters and the least number for its ideographs together, up to
/// the largest number there is, and one token at least.
pub proof fn tokens_are_counted_by_script(
    s: Seq<char>,
    letters: int,
    ideographs: int,
    x: int,
    y: int,
)
    requires
        ideographs == cjk_count(s),
        letters + ideographs == s.len(),
        4 * (x - 1) < letters <= 4 * x,
        3 * (y - 1) < 2 * ideographs <= 3 * y,
    ensures
        s.len() == 0 ==> token_estimate(s) == 1,
        0 < x + y <= i32::MAX ==> token_estimate(s) == x + y,
        x + y > i32::MAX ==> token_estimate(s) == i32::MAX,
        x + y == 0 <==> s.len() == 0,
        x + y >= 0,
{
    lemma_cjk_bounds(s);
}

/// Sums stay within the numbers there are: they are exact where they fit, and the number
/// next to them otherwise.
pub proof fn sums_are_kept_within_range(a: i32, b: i32)
    ensures
        i32::MIN <= a + b <= i32::MAX ==> sat_add(a as int, b as int) == a + b,
        a + b > i32::MAX ==> sat_add(a as int, b as int) == i32::MAX,
        a + b < i32::MIN ==> sat_add(a as int, b as int) == i32::MIN,
{
}

/// Each of the four counts of a sum is the sum of those counts, and none of another.
pub proof fn counts_are_added_category_by_category(a: TokenUsage, b: TokenUsage)
    ensures
        a.plus(b).uncached_input_tokens == sat_add(
            a.uncached_input_tokens as int,
            b.uncached_input_tokens as int,
        ),
        a.plus(b).output_tokens == sat_add(a.output_tokens as int, b.output_tokens as int),
        a.plus(b).cache_read_input_tokens == sat_add(
            a.cache_read_input_tokens as int,
            b.cache_read_input_tokens as int,
        ),
        a.plus(b).cache_write_input_tokens == sat_add(
            a.cache_write_input_tokens as int,
            b.cache_write_input_tokens as int,
        ),
        a.plus(b) == b.plus(a),
        a.sane() == a <==> (a.uncached_input_tokens >= 0 && a.output_tokens >= 0
            && a.cache_read_input_tokens >= 0 && a.cache_write_input_tokens >= 0),
{
}

/// A prompt is split as the cache covers it. The three parts make up the whole. What is read
/// from the cache is to the whole as the read part of the estimate is to all of it, rounded
/// down, and so is what is read and written together to the covered part; where nothing is
/// covered, nothing is cached, and where all is read, everything is.
pub proof fn a_prompt_is_split_as_the_cache_covers_it(u: CacheUsage, total: i32)
    requires
        0 <= u.cache_read <= u.cache_covered_est <= u.prompt_total_est,
        0 < u.prompt_total_est,
        0 <= total,
    ensures
        ({
            let (fresh, written, read) = u.split(total as int);
            let (p, c, r) = (
                u.prompt_total_est as int,
                u.cache_covered_est as int,
                u.cache_read as int,
            );
            &&& fresh + written + read == total
            &&& read * p <= total * r < (read + 1) * p
            &&& (read + written) * p <= total * c < (read + written + 1) * p
            &&& c == 0 ==> (fresh, written, read) == (total as int, 0int, 0int)
            &&& r == p ==> (fresh, written, read) == (0int, 0int, total as int)
        }),
{
    let (p, c, r) = (u.prompt_total_est as int, u.cache_covered_est as int, u.cache_read as int);
    let t = total as int;
    lemma_floor(t * r, p);
    lemma_floor(t * c, p);
    assert(t * 0 == 0) by (nonlinear_arith);
    vstd::arithmetic::div_mod::lemma_div_basics(p);
    vstd::arithmetic::div_mod::lemma_div_by_multiple(t, p);
}

proof fn lemma_floor(a: int, p: int)
    requires
        p > 0,
    ensures
        (a / p) * p <= a < (a / p + 1) * p,
{
    vstd::arithmetic::div_mod::lemma_fundamental_div_mod(a, p);
    assert(p * (a / p) == (a / p) * p) by (nonlinear_arith);
    assert((a / p + 1) * p == (a / p) * p + p) by (nonlinear_arith);
}

/// Figures that make no sense are brought into order first: what is read is at most what is
/// covered, that at most the prompt, and neither less than nothing. A prompt of no estimate
/// is not cached at all.
pub proof fn figures_of_the_cache_are_brought_into_order(u: CacheUsage, total: i32)
    ensures
        u.prompt_total_est <= 0 && total >= 0 ==> u.split(total as int) == (
            total as int,
            0int,
            0int,
        ),
        total < 0 ==> u.split(total as int) == u.split(0),
        u.prompt_total_est > 0 && u.cache_covered_est > u.prompt_total_est ==> u.split(total as int)
            == (CacheUsage { cache_covered_est: u.prompt_total_est, ..u }).split(total as int),
        u.prompt_total_est > 0 && 0 <= u.cache_covered_est < u.cache_read ==> u.split(total as int)
            == (CacheUsage { cache_read: u.cache_covered_est, ..u }).split(total as int),
        u.cache_read < 0 ==> u.split(total as int) == (CacheUsage { cache_read: 0, ..u }).split(
            total as int,
        ),
        u.cache_covered_est < 0 ==> u.split(total as int) == (CacheUsage {
            cache_covered_est: 0,
            ..u
        }).split(total as int),
{
}

/// A line that is finished opens or closes a code fence if it begins, behind white space,
/// with three backticks, and does nothing otherwise.
pub proof fn fences_are_told_by_backticks(
    open: bool,
    white: Seq<char>,
    rest: Seq<char>,
)
    requires
        is_blank_text(white),
        forall|i: int| 0 <= i < white.len() ==> white[i] != '\n',
        forall|i: int| 0 <= i < rest.len() ==> rest[i] != '\n',
        rest.len() > 0 ==> !is_white(rest[0]),
    ensures
        ({
            let f = fence_after(
                FenceV { open, partial: Seq::empty() },
                white + rest + seq!['\n'],
            );
            &&& f.partial.len() == 0
            &&& f.open == (open != (rest.len() >= 3 && rest[0] == '`' && rest[1] == '`' && rest[2]
                == '`'))
        }),
{
    reveal_strlit("```");
    let line = white + rest;
    let start = FenceV { open, partial: Seq::empty() };
    assert forall|i: int| 0 <= i < line.len() implies line[i] != '\n' by {
        if i < white.len() {
            assert(line[i] == white[i]);
        } else {
            assert(line[i] == rest[i - white.len()]);
        }
    }
    lemma_line(start, line);
    assert(start.partial + line =~= line);
    fence_is_independent_of_cuts(start, line, seq!['\n']);
    let f = FenceV { open, partial: line };
    assert(seq!['\n'].drop_last() =~= Seq::<char>::empty());
    reveal_with_fuel(fence_after, 2);
    lemma_skipped(white, rest, 0);
    assert(trimmed_start(line) =~= rest);
    let three = "```"@;
    assert(three.len() == 3 && three[0] == '`' && three[1] == '`' && three[2] == '`');
    if rest.len() >= 3 {
        let head = rest.subrange(0, 3);
        if rest[0] == '`' && rest[1] == '`' && rest[2] == '`' {
            assert(head =~= three);
        } else {
            assert(head[0] == rest[0] && head[1] == rest[1] && head[2] == rest[2]);
            assert(head != three);
        }
    }
}

proof fn lemma_skipped(w: Seq<char>, t: Seq<char>, from: int)
    requires
        is_blank_text(w),
        0 <= from <= w.len(),
        t.len() > 0 ==> !is_white(t[0]),
    ensures
        skip_white(w + t, from) == w.len(),
    decreases w.len() - from,
{
    let s = w + t;
    if from < w.len() {
        assert(s[from] == w[from]);
        lemma_skipped(w, t, from + 1);
    } else if t.len() > 0 {
        assert(s[from] == t[0]);
    }
}

proof fn lemma_line(f: FenceV, line: Seq<char>)
    requires
        forall|i: int| 0 <= i < line.len() ==> line[i] != '\n',
    ensures
        fence_after(f, line) == (FenceV { open: f.open, partial: f.partial + line }),
    decreases line.len(),
{
    if line.len() == 0 {
        assert(f.partial + line =~= f.partial);
    } else {
        let before = line.drop_last();
        assert forall|i: int| 0 <= i < before.len() implies before[i] != '\n' by {
            assert(before[i] == line[i]);
        }
        lemma_line(f, before);
        assert(line.last() == line[line.len() - 1]);
        assert((f.partial + before).push(line.last()) =~= f.partial + line);
    }
}

/// Text in which no tag opens is not held back in search of one.
pub proof fn text_without_tags_is_sent_at_once(s: Seq<char>)
    requires
        forall|i: int| 0 <= i < s.len() ==> #[trigger] s[i] != '<',
    ensures
        crate::stream_model::unfinished_tag(s) == s.len(),
{
    let p = crate::text::holds_char(s, '<');
    crate::text::lemma_last_such(p, 0, s.len() as int);
    if let Some(i) = crate::text::last_such(p, 0, s.len() as int) {
        assert(p(i));
    }
}

} // verus!
