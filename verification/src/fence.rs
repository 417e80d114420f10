//! Code fences: whether a text stands inside a block between lines of three
//! backticks.
use crate::text::{after_white, chars_of, has_prefix, is_at, trimmed_start};
use vstd::prelude::*;

verus! {

/// Whether a fence is open, and the unfinished line at the end of the text.
pub ghost struct FenceV {
    pub open: bool,
    pub partial: Seq<char>,
}

/// The state after one more character: a finished line that begins with three
/// backticks, white space aside, opens or closes the fence.
pub open spec fn fence_step(f: FenceV, c: char) -> FenceV {
    if c == '\n' {
        FenceV {
            open: if has_prefix(trimmed_start(f.partial), "```"@) {
                !f.open
            } else {
                f.open
            },
            partial: Seq::empty(),
        }
    } else {
        FenceV { open: f.open, partial: f.partial.push(c) }
    }
}

/// The state after `text`.
pub open spec fn fence_after(f: FenceV, text: Seq<char>) -> FenceV
    decreases text.len(),
{
    if text.len() == 0 {
        f
    } else {
        fence_step(fence_after(f, text.drop_last()), text.last())
    }
}

/// How a text is cut into pieces makes no difference to the fence.
pub proof fn fence_is_independent_of_cuts(f: FenceV, a: Seq<char>, b: Seq<char>)
    ensures
        fence_after(f, a + b) == fence_after(fence_after(f, a), b),
    decreases b.len(),
{
    if b.len() == 0 {
        assert(a + b =~= a);
    } else {
        fence_is_independent_of_cuts(f, a, b.drop_last());
        assert((a + b).drop_last() =~= a + b.drop_last());
    }
}

/// Carries the fence over `text`. Only finished lines count, so that a fence
/// whose backticks arrive in several pieces is still seen.
pub fn advance_code_fence_state(open: &mut bool, partial: &mut String, text: &str)
    ensures
        (FenceV { open: *final(open), partial: final(partial)@ }) == fence_after(
            FenceV { open: *old(open), partial: old(partial)@ },
            text@,
        ),
{
    let v = chars_of(text);
    let mark = chars_of("```");
    let ghost start = FenceV { open: *open, partial: partial@ };
    let mut i: usize = 0;
    while i < v.len()
        invariant
            i <= v@.len(),
            v@ == text@,
            mark@ == "```"@,
            (FenceV { open: *open, partial: partial@ }) == fence_after(start, text@.take(i as int)),
        decreases v.len() - i,
    {
        assert(text@.take(i + 1).drop_last() =~= text@.take(i as int));
        if v[i] == '\n' {
            let line = chars_of(partial.as_str());
            let from: usize = after_white(line.as_slice(), 0);
            proof {
                reveal_strlit("```");
                let t = trimmed_start(line@);
                if from + 3 <= line@.len() {
                    assert(t.subrange(0, 3) =~= line@.subrange(from as int, from + 3));
                }
            }
            if is_at(line.as_slice(), mark.as_slice(), from) {
                *open = !*open;
            }
            *partial = String::new();
            assert(partial@ =~= Seq::<char>::empty());
        } else {
            partial.push(v[i]);
        }
        i = i + 1;
    }
    assert(text@.take(i as int) =~= text@);
}

/// Whether the fence is open once `text` has gone by.
pub fn fence_open_after(open: bool, partial: &str, text: &str) -> (r: bool)
    ensures
        r == fence_after(FenceV { open, partial: partial@ }, text@).open,
{
    let mut o = open;
    let mut p = partial.to_owned();
    advance_code_fence_state(&mut o, &mut p, text);
    o
}

} // verus!
