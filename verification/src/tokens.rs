//! Token counts: the estimate for a text, the provider's own figures and the
//! split of a prompt into cached and uncached parts.
use crate::text::chars_of;
use vstd::arithmetic::div_mod::{lemma_div_is_ordered, lemma_div_by_multiple};
use vstd::arithmetic::mul::lemma_mul_inequality;
use vstd::prelude::*;

verus! {

pub open spec fn is_cjk(c: char) -> bool {
    '\u{4E00}' <= c <= '\u{9FFF}'
}

/// How many characters of a text are CJK ideographs.
pub open spec fn cjk_count(s: Seq<char>) -> int
    decreases s.len(),
{
    if s.len() == 0 {
        0
    } else {
        cjk_count(s.drop_last()) + if is_cjk(s.last()) {
            1int
        } else {
            0
        }
    }
}

/// Two tokens for three ideographs and one token for four other characters,
/// each rounded up, and one token at least.
pub open spec fn token_estimate(s: Seq<char>) -> int {
    let cjk = cjk_count(s);
    let other = s.len() - cjk;
    let n = (cjk * 2 + 2) / 3 + (other + 3) / 4;
    if n < 1 {
        1
    } else if n > i32::MAX {
        i32::MAX as int
    } else {
        n
    }
}

/// A rough number of tokens for a text of mixed script, at most `i32::MAX`.
pub fn estimate_tokens(text: &str) -> (r: i32)
    ensures
        r == token_estimate(text@),
        r >= 1,
{
    let v = chars_of(text);
    let n: usize = v.len();
    let mut cjk: usize = 0;
    let mut i: usize = 0;
    while i < n
        invariant
            i <= n,
            n == v@.len(),
            v@ == text@,
            cjk <= i,
            cjk == cjk_count(text@.take(i as int)),
        decreases n - i,
    {
        assert(text@.take(i + 1).drop_last() =~= text@.take(i as int));
        if v[i] >= '\u{4E00}' && v[i] <= '\u{9FFF}' {
            cjk = cjk + 1;
        }
        i = i + 1;
    }
    assert(text@.take(n as int) =~= text@);
    let a: u128 = cjk as u128;
    let b: u128 = (n - cjk) as u128;
    let total: u128 = (a * 2 + 2) / 3 + (b + 3) / 4;
    if total < 1 {
        1
    } else if total > 0x7fff_ffff {
        0x7fff_ffff
    } else {
        total as i32
    }
}

pub open spec fn sat_add(a: int, b: int) -> int {
    if a + b > i32::MAX {
        i32::MAX as int
    } else if a + b < i32::MIN {
        i32::MIN as int
    } else {
        a + b
    }
}

pub fn saturating(a: i32, b: i32) -> (r: i32)
    ensures
        r == sat_add(a as int, b as int),
{
    let sum: i64 = a as i64 + b as i64;
    if sum > 0x7fff_ffff {
        i32::MAX
    } else if sum < -0x8000_0000 {
        i32::MIN
    } else {
        sum as i32
    }
}

pub open spec fn not_negative(a: int) -> int {
    if a < 0 {
        0
    } else {
        a
    }
}

pub fn at_least_zero(a: i32) -> (r: i32)
    ensures
        r == not_negative(a as int),
{
    if a < 0 {
        0
    } else {
        a
    }
}

/// The provider's figures for one answer.
#[derive(Clone, Copy, Debug, PartialEq, Eq, Structural)]
pub struct TokenUsage {
    pub uncached_input_tokens: i32,
    pub output_tokens: i32,
    pub cache_read_input_tokens: i32,
    pub cache_write_input_tokens: i32,
}

impl TokenUsage {
    pub open spec fn sane(self) -> TokenUsage {
        TokenUsage {
            uncached_input_tokens: not_negative(self.uncached_input_tokens as int) as i32,
            output_tokens: not_negative(self.output_tokens as int) as i32,
            cache_read_input_tokens: not_negative(self.cache_read_input_tokens as int) as i32,
            cache_write_input_tokens: not_negative(self.cache_write_input_tokens as int) as i32,
        }
    }

    pub open spec fn plus(self, other: TokenUsage) -> TokenUsage {
        TokenUsage {
            uncached_input_tokens: sat_add(
                self.uncached_input_tokens as int,
                other.uncached_input_tokens as int,
            ) as i32,
            output_tokens: sat_add(self.output_tokens as int, other.output_tokens as int) as i32,
            cache_read_input_tokens: sat_add(
                self.cache_read_input_tokens as int,
                other.cache_read_input_tokens as int,
            ) as i32,
            cache_write_input_tokens: sat_add(
                self.cache_write_input_tokens as int,
                other.cache_write_input_tokens as int,
            ) as i32,
        }
    }

    /// The figures with negative ones set to zero.
    pub fn sanitized(self) -> (r: TokenUsage)
        ensures
            r == self.sane(),
    {
        TokenUsage {
            uncached_input_tokens: at_least_zero(self.uncached_input_tokens),
            output_tokens: at_least_zero(self.output_tokens),
            cache_read_input_tokens: at_least_zero(self.cache_read_input_tokens),
            cache_write_input_tokens: at_least_zero(self.cache_write_input_tokens),
        }
    }

    /// The sum, category by category, without overflow.
    pub fn saturating_add(self, other: TokenUsage) -> (r: TokenUsage)
        ensures
            r == self.plus(other),
    {
        TokenUsage {
            uncached_input_tokens: saturating(
                self.uncached_input_tokens,
                other.uncached_input_tokens,
            ),
            output_tokens: saturating(self.output_tokens, other.output_tokens),
            cache_read_input_tokens: saturating(
                self.cache_read_input_tokens,
                other.cache_read_input_tokens,
            ),
            cache_write_input_tokens: saturating(
                self.cache_write_input_tokens,
                other.cache_write_input_tokens,
            ),
        }
    }
}

/// Sanitizing leaves no negative figure and changes nothing the second time.
pub proof fn sanitizing_is_stable(u: TokenUsage)
    ensures
        u.sane().sane() == u.sane(),
        u.sane().uncached_input_tokens >= 0,
        u.sane().output_tokens >= 0,
        u.sane().cache_read_input_tokens >= 0,
        u.sane().cache_write_input_tokens >= 0,
{
}

/// How much of a prompt a local cache model covers, in estimated tokens.
#[derive(Clone, Copy, Debug, PartialEq, Eq, Structural)]
pub struct CacheUsage {
    pub cache_read: i32,
    pub cache_covered_est: i32,
    pub prompt_total_est: i32,
}

pub open spec fn clamped(x: int, most: int) -> int {
    if x < 0 {
        0
    } else if x > most {
        most
    } else {
        x
    }
}

impl CacheUsage {
    /// A part of `total` that is to `total` as `part` is to the prompt, rounded down.
    pub open spec fn share(self, part: int, total: int) -> int {
        (total * part) / (self.prompt_total_est as int)
    }

    pub open spec fn split(self, total: int) -> (int, int, int) {
        let all = not_negative(total);
        if self.prompt_total_est <= 0 {
            (all, 0, 0)
        } else {
            let covered = clamped(self.cache_covered_est as int, self.prompt_total_est as int);
            let read = clamped(self.cache_read as int, covered);
            (
                all - self.share(covered, all),
                self.share(covered, all) - self.share(read, all),
                self.share(read, all),
            )
        }
    }

    /// No part of the prompt is covered.
    pub fn none() -> (r: Self)
        ensures
            r == (CacheUsage { cache_read: 0, cache_covered_est: 0, prompt_total_est: 0 }),
    {
        CacheUsage { cache_read: 0, cache_covered_est: 0, prompt_total_est: 0 }
    }

    /// Splits `total` into input that is not cached, input that is written to
    /// the cache and input that is read from it, in the proportions of the
    /// estimate.
    pub fn split_against_total(self, total: i32) -> (r: (i32, i32, i32))
        ensures
            (r.0 as int, r.1 as int, r.2 as int) == self.split(total as int),
            r.0 >= 0 && r.1 >= 0 && r.2 >= 0,
            r.0 + r.1 + r.2 == not_negative(total as int),
    {
        let all: i32 = at_least_zero(total);
        if self.prompt_total_est <= 0 {
            return (all, 0, 0);
        }
        let p: i64 = self.prompt_total_est as i64;
        let covered: i64 = clamp(self.cache_covered_est, p);
        let read: i64 = clamp(self.cache_read, covered);
        proof {
            let a = all as int;
            lemma_mul_inequality(covered as int, p as int, a);
            lemma_mul_inequality(read as int, covered as int, a);
            lemma_mul_inequality(0, read as int, a);
            lemma_mul_inequality(p as int, 0x7fff_ffff, a);
            lemma_mul_inequality(a, 0x7fff_ffff, 0x7fff_ffff);
            vstd::arithmetic::mul::lemma_mul_is_commutative(a, covered as int);
            vstd::arithmetic::mul::lemma_mul_is_commutative(a, read as int);
            vstd::arithmetic::mul::lemma_mul_is_commutative(a, p as int);
            vstd::arithmetic::mul::lemma_mul_is_commutative(a, 0x7fff_ffff);
            lemma_div_is_ordered(a * covered, a * p, p as int);
            lemma_div_is_ordered(a * read, a * covered, p as int);
            lemma_div_is_ordered(0, a * read, p as int);
            lemma_div_by_multiple(a, p as int);
            vstd::arithmetic::div_mod::lemma_div_basics(p as int);
        }
        let covered_share: i64 = (all as i64 * covered) / p;
        let read_share: i64 = (all as i64 * read) / p;
        (all - covered_share as i32, (covered_share - read_share) as i32, read_share as i32)
    }
}

fn clamp(x: i32, most: i64) -> (r: i64)
    requires
        0 <= most <= i32::MAX,
    ensures
        r == clamped(x as int, most as int),
        0 <= r <= most,
{
    if x < 0 {
        0
    } else if (x as i64) > most {
        most
    } else {
        x as i64
    }
}

} // verus!
