//! Laws on where tool calls begin in a text, and on places in texts.
use crate::ids::{is_hex_id, is_message_id, is_search_id, is_tool_id, is_uuid_text};
use crate::invoke::{
    close_tag_lt, ident_start, invoke_start, invoke_start_here, is_ident, name_attr, name_ends,
    open_tag_lt,
};
use crate::json::JsonV;
use crate::markup_laws::not_before;
use crate::stray::{before_blanks, ends_line};
use crate::text::{
    byte_len, byte_pos, char_from, first_occurrence, first_such, held_back, holds_char,
    lemma_byte_len_add, lemma_first_occurrence, lemma_first_such, occurs_at, whole_chars,
};
use crate::thinking::is_quote;
use vstd::prelude::*;

verus! {

/// A prefix of a tag: letters of ASCII, digits and underscores.
pub open spec fn is_prefix_name(ns: Seq<char>) -> bool {
    forall|i: int|
        0 <= i < ns.len() ==> 'a' <= #[trigger] ns[i] <= 'z' || 'A' <= ns[i] <= 'Z' || '0' <= ns[i]
            <= '9' || ns[i] == '_'
}

proof fn lemma_ident(s: Seq<char>, from: int, to: int)
    requires
        0 < from <= to <= s.len(),
        forall|i: int| from <= i < to ==> is_ident(#[trigger] s[i]),
        !is_ident(s[from - 1]),
    ensures
        ident_start(s, to) == from,
    decreases to - from,
{
    if to > from {
        lemma_ident(s, from, to - 1);
    }
}

/// A tag opens right before its name, or before a prefix and a colon in front of it, and
/// nowhere else; and so does one that closes, with a slash.
pub proof fn a_tag_may_have_a_prefix(a: Seq<char>, ns: Seq<char>, b: Seq<char>, c: char)
    requires
        is_prefix_name(ns),
        ns.len() > 0,
        c != '<',
        c != ':',
        c != '/',
    ensures
        open_tag_lt(a + seq!['<'] + b, (a.len() + 1) as int) == Some(a.len() as int),
        open_tag_lt(a + seq!['<'] + ns + seq![':'] + b, (a.len() + ns.len() + 2) as int) == Some(
            a.len() as int,
        ),
        open_tag_lt(a + seq![c] + b, (a.len() + 1) as int) is None,
        open_tag_lt(b, 0) is None,
        close_tag_lt(a + seq!['<', '/'] + b, (a.len() + 2) as int) == Some(a.len() as int),
        close_tag_lt(a + seq!['<', '/'] + ns + seq![':'] + b, (a.len() + ns.len() + 3) as int)
            == Some(a.len() as int),
        close_tag_lt(a + seq![c] + b, (a.len() + 1) as int) is None,
{
    let n = a.len() as int;
    let s = a + seq!['<'] + ns + seq![':'] + b;
    assert(s[n] == '<');
    assert forall|i: int| n + 1 <= i < n + 1 + ns.len() implies is_ident(#[trigger] s[i]) by {
        assert(s[i] == ns[i - n - 1]);
    }
    assert(s[n + 1 + ns.len()] == ':');
    lemma_ident(s, n + 1, n + 1 + ns.len());
    let t = a + seq!['<', '/'] + ns + seq![':'] + b;
    assert(t[n] == '<' && t[n + 1] == '/');
    assert forall|i: int| n + 2 <= i < n + 2 + ns.len() implies is_ident(#[trigger] t[i]) by {
        assert(t[i] == ns[i - n - 2]);
    }
    assert(t[n + 2 + ns.len()] == ':');
    lemma_ident(t, n + 2, n + 2 + ns.len());
    assert((a + seq!['<'] + b)[n] == '<');
    assert((a + seq![c] + b)[n] == c);
    let u = a + seq!['<', '/'] + b;
    assert(u[n] == '<' && u[n + 1] == '/');
}

/// The name of a tag ends at the end of the text, at white space of ASCII, and at the end of
/// the tag.
pub proof fn a_name_ends_where_the_tag_goes_on(a: Seq<char>, c: char, b: Seq<char>)
    ensures
        name_ends(a, a.len() as int),
        name_ends(a + seq![c] + b, a.len() as int) == seq![
            ' ',
            '\t',
            '\n',
            '\u{c}',
            '\r',
            '>',
            '/',
        ].contains(c),
{
    let all = seq![' ', '\t', '\n', '\u{c}', '\r', '>', '/'];
    assert((a + seq![c] + b)[a.len() as int] == c);
    assert(all[0] == ' ' && all[1] == '\t' && all[2] == '\n' && all[3] == '\u{c}' && all[4] == '\r'
        && all[5] == '>' && all[6] == '/');
    if all.contains(c) {
        let i = choose|i: int| 0 <= i < all.len() && all[i] == c;
        assert(all[i] == c);
    }
}

/// A call opens at `lt`, `k` characters of a prefix counted: the tag, its name, and no quote
/// before it.
pub open spec fn opens_call(s: Seq<char>, lt: int, k: int) -> bool {
    let p = if k == 0 {
        lt + 1
    } else {
        lt + k + 2
    };
    &&& 0 <= lt && 0 <= k
    &&& p + 6 <= s.len()
    &&& s[lt] == '<'
    &&& k > 0 ==> is_prefix_name(s.subrange(lt + 1, lt + 1 + k)) && s[lt + 1 + k] == ':'
    &&& s.subrange(p, p + 6) == "invoke"@
    &&& name_ends(s, p + 6)
    &&& lt > 0 ==> !is_quote(s[lt - 1])
}

/// A call is found at the first place where one opens that is not quoted, and where none
/// opens, none is found.
pub proof fn the_first_call_is_found(s: Seq<char>, lt: int, k: int)
    requires
        opens_call(s, lt, k),
    ensures
        invoke_start(s) is Some,
        0 <= invoke_start(s)->Some_0 <= lt,
{
    reveal_strlit("invoke");
    let here = invoke_start_here(s);
    let n = s.len() as int;
    let p = if k == 0 {
        lt + 1
    } else {
        lt + k + 2
    };
    if k > 0 {
        let ns = s.subrange(lt + 1, lt + 1 + k);
        assert forall|i: int| lt + 1 <= i < lt + 1 + k implies is_ident(#[trigger] s[i]) by {
            assert(ns[i - lt - 1] == s[i]);
        }
        lemma_ident(s, lt + 1, lt + 1 + k);
    }
    assert(open_tag_lt(s, p) == Some(lt));
    assert(here(p));
    lemma_first_such(here, 0, n);
    let q = first_such(here, 0, n)->Some_0;
    assert(q <= p);
    let found = open_tag_lt(s, q)->Some_0;
    assert(here(q));
    lemma_ident_bounds(s, q - 1);
    assert(0 <= found < q);
    if found > lt {
        // Between the tag and its name stands no other tag.
        assert(s[found] == '<');
        assert(found < p);
        if k == 0 {
            assert(found < lt + 1);
        } else if found < lt + 1 + k {
            assert(is_ident(s[found]));
        }
    }
}

proof fn lemma_ident_bounds(s: Seq<char>, p: int)
    requires
        p <= s.len(),
    ensures
        p >= 0 ==> 0 <= ident_start(s, p) <= p,
        p < 0 ==> ident_start(s, p) == p,
        forall|i: int| ident_start(s, p) <= i < p ==> is_ident(#[trigger] s[i]),
    decreases p,
{
    if p > 0 && is_ident(s[p - 1]) {
        lemma_ident_bounds(s, p - 1);
    }
}

/// Where a call is found, one opens.
pub proof fn a_call_that_is_found_opens_there(s: Seq<char>)
    requires
        invoke_start(s) is Some,
    ensures
        exists|k: int| #[trigger] opens_call(s, invoke_start(s)->Some_0, k),
{
    reveal_strlit("invoke");
    let here = invoke_start_here(s);
    lemma_first_such(here, 0, s.len() as int);
    let q = first_such(here, 0, s.len() as int)->Some_0;
    assert(here(q));
    let lt = open_tag_lt(s, q)->Some_0;
    lemma_ident_bounds(s, q - 1);
    if lt == q - 1 {
        assert(opens_call(s, lt, 0));
    } else {
        let j = ident_start(s, q - 1);
        let k = q - 1 - j;
        let ns = s.subrange(lt + 1, lt + 1 + k);
        assert forall|i: int| 0 <= i < ns.len() implies is_ident(#[trigger] ns[i]) by {
            assert(s[lt + 1 + i] == ns[i]);
        }
        assert(opens_call(s, lt, k));
    }
}

/// The name of a call or of a parameter is what stands in quotes behind `name=`, the first
/// in its tag; a tag without it names nothing.
pub proof fn a_name_is_what_stands_in_quotes(
    a: Seq<char>,
    name: Seq<char>,
    b: Seq<char>,
    other: Seq<char>,
)
    requires
        not_before(a + "name=\""@, "name=\""@, a.len() as int),
        forall|i: int| 0 <= i < name.len() ==> #[trigger] name[i] != '"',
        not_before(other, "name=\""@, other.len() as int),
    ensures
        name_attr(a + "name=\""@ + (name + seq!['"'] + b)) == Some(name),
        name_attr(other) is None,
{
    reveal_strlit("name=\"");
    let t = "name=\""@;
    assert(t.len() == 6);
    let tail = name + seq!['"'] + b;
    let s = a + t + tail;
    let n = a.len() as int;
    assert(s.subrange(n, n + 6) =~= t);
    lemma_first_occurrence(s, t, 0);
    assert(occurs_at(s, t, n));
    let i = first_occurrence(s, t, 0)->Some_0;
    if i < n {
        assert(occurs_at(s, t, i));
        assert(s.subrange(i, i + 6) =~= (a + t).subrange(i, i + 6));
    }
    let e = n + 6 + name.len();
    assert(s[e] == '"');
    lemma_first_such(holds_char(s, '"'), n + 6, s.len() as int);
    assert(holds_char(s, '"')(e));
    let f = char_from(s, '"', n + 6)->Some_0;
    if f < e {
        assert(holds_char(s, '"')(f));
        assert(s[f] == name[f - n - 6]);
    }
    assert(s.subrange(n + 6, e) =~= name);
    lemma_first_occurrence(other, t, 0);
    if let Some(j) = first_occurrence(other, t, 0) {
        assert(occurs_at(other, t, j));
        assert(other.subrange(j, j + 6) == t);
    }
}

proof fn lemma_blanks(s: Seq<char>, from: int, to: int)
    requires
        0 <= from <= to <= s.len(),
        forall|i: int| from <= i < to ==> #[trigger] s[i] == ' ' || s[i] == '\t',
        from > 0 ==> s[from - 1] != ' ' && s[from - 1] != '\t',
    ensures
        before_blanks(s, to) == from,
    decreases to - from,
{
    if to > from {
        lemma_blanks(s, from, to - 1);
    }
}

/// A call may follow at the beginning of a text and behind a line break, with blanks and
/// tabs in between, and behind nothing else.
pub proof fn calls_follow_line_breaks(a: Seq<char>, c: char, blanks: Seq<char>)
    requires
        forall|i: int| 0 <= i < blanks.len() ==> #[trigger] blanks[i] == ' ' || blanks[i] == '\t',
        c != ' ',
        c != '\t',
    ensures
        ends_line(blanks),
        ends_line(a + seq![c] + blanks) == (c == '\n' || c == '\r'),
{
    lemma_blanks(blanks, 0, blanks.len() as int);
    let s = a + seq![c] + blanks;
    let n = a.len() as int;
    assert(s[n] == c);
    assert forall|i: int| n + 1 <= i < s.len() implies #[trigger] s[i] == ' ' || s[i] == '\t' by {
        assert(s[i] == blanks[i - n - 1]);
    }
    lemma_blanks(s, n + 1, s.len() as int);
}

/// A place in a text is given in bytes by the bytes before it.
pub proof fn places_are_counted_in_bytes(a: Seq<char>, b: Seq<char>)
    ensures
        byte_pos(a + b, Some(a.len() as int)) == Some(byte_len(a)),
        byte_pos(a, None) is None,
{
    assert((a + b).take(a.len() as int) =~= a);
}

proof fn lemma_whole(s: Seq<char>, target: int)
    requires
        target >= 0,
    ensures
        0 <= whole_chars(s, target) <= s.len(),
        byte_len(s.take(whole_chars(s, target))) <= target,
        whole_chars(s, target) < s.len() ==> byte_len(s.take(whole_chars(s, target) + 1)) > target,
    decreases s.len(),
{
    assert(s.take(s.len() as int) =~= s);
    if s.len() > 0 && byte_len(s) > target {
        let t = s.drop_last();
        lemma_whole(t, target);
        let k = whole_chars(t, target);
        assert(t.take(k) =~= s.take(k));
        if k < t.len() {
            assert(t.take(k + 1) =~= s.take(k + 1));
        } else {
            assert(s.take(k + 1) =~= s);
        }
    }
}

/// As many whole characters are taken as fit into a number of bytes, and no fewer.
pub proof fn whole_characters_are_taken(s: Seq<char>, target: int)
    requires
        target >= 0,
    ensures
        ({
            let k = whole_chars(s, target);
            &&& 0 <= k <= s.len()
            &&& byte_len(s.take(k)) <= target
            &&& k < s.len() ==> byte_len(s.take(k + 1)) > target
        }),
{
    lemma_whole(s, target);
}

/// What is held back at the end of a text has at least as many bytes as were asked for, or
/// is all of it, and fewer than one character more than that.
pub proof fn the_end_of_a_text_is_held_back(s: Seq<char>, keep: int)
    requires
        keep >= 0,
    ensures
        ({
            let k = held_back(s, keep);
            &&& 0 <= k <= s.len()
            &&& byte_len(s.skip(k)) >= keep || k == 0
            &&& k < s.len() ==> byte_len(s.skip(k + 1)) < keep || byte_len(s) <= keep
        }),
{
    let k = held_back(s, keep);
    let target = if byte_len(s) > keep {
        byte_len(s) - keep
    } else {
        0
    };
    lemma_whole(s, target);
    lemma_byte_len_add(s.take(k), s.skip(k));
    assert(s.take(k) + s.skip(k) =~= s);
    if byte_len(s) <= keep && k > 0 {
        crate::text::lemma_byte_len_bounds(s.take(k));
    }
    if k < s.len() {
        lemma_byte_len_add(s.take(k + 1), s.skip(k + 1));
        assert(s.take(k + 1) + s.skip(k + 1) =~= s);
    }
}

/// An identifier is drawn as thirty-two hexadecimal digits behind the sign of what it
/// identifies: a call, a message or a search.
pub proof fn identifiers_say_what_they_identify(s: Seq<char>)
    ensures
        is_tool_id(s) ==> s.len() == 38 && s.take(6) == "toolu_"@ && is_hex_id(s.skip(6)),
        is_message_id(s) ==> s.len() == 36 && s.take(4) == "msg_"@ && is_hex_id(s.skip(4)),
        is_search_id(s) ==> s.len() == 41 && s.take(9) == "srvtoolu_"@ && is_hex_id(s.skip(9)),
        is_hex_id(s) ==> forall|i: int|
            0 <= i < s.len() ==> '0' <= #[trigger] s[i] <= '9' || 'a' <= s[i] <= 'f',
        is_uuid_text(s) ==> s.len() == 36 && s[8] == '-' && s[13] == '-' && s[18] == '-' && s[23]
            == '-' && s[14] == '4',
{
    reveal_strlit("toolu_");
    reveal_strlit("msg_");
    reveal_strlit("srvtoolu_");
    if is_tool_id(s) {
        let hex = choose|hex: Seq<char>| is_hex_id(hex) && s == "toolu_"@ + hex;
        assert(s.take(6) =~= "toolu_"@);
        assert(s.skip(6) =~= hex);
    }
    if is_message_id(s) {
        let hex = choose|hex: Seq<char>| is_hex_id(hex) && s == "msg_"@ + hex;
        assert(s.take(4) =~= "msg_"@);
        assert(s.skip(4) =~= hex);
    }
    if is_search_id(s) {
        let hex = choose|hex: Seq<char>| is_hex_id(hex) && s == "srvtoolu_"@ + hex;
        assert(s.take(9) =~= "srvtoolu_"@);
        assert(s.skip(9) =~= hex);
    }
}

/// A member that is set is there with its value, and one that is taken out is not there; all
/// others stay as they are. A value that is no object has no members.
pub proof fn members_are_set_and_taken_out(v: JsonV, key: Seq<char>, x: JsonV, other: Seq<char>)
    ensures
        v is Object ==> v.put(key, x).field(key) == Some(x),
        v is Object ==> v.without(key).field(key) is None,
        other != key ==> v.put(key, x).field(other) == v.field(other),
        other != key ==> v.without(key).field(other) == v.field(other),
        !(v is Object) ==> v.put(key, x) == v && v.without(key) == v && v.field(key) is None,
        JsonV::object().field(key) is None,
        JsonV::object() is Object,
{
}

pub(crate) proof fn lemma_white_skipped(s: Seq<char>, from: int)
    requires
        0 <= from <= s.len(),
        crate::loop_laws::is_blank_text(s),
    ensures
        crate::text::skip_white(s, from) == s.len(),
    decreases s.len() - from,
{
    if from < s.len() {
        lemma_white_skipped(s, from + 1);
    }
}

} // verus!
