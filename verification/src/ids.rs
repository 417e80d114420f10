//! Identifiers of messages and tool calls.
use crate::text::{chars_of, join2};
use vstd::prelude::*;

verus! {

pub open spec fn is_hex(c: char) -> bool {
    '0' <= c <= '9' || 'a' <= c <= 'f'
}

/// The text of a random UUID: groups of hexadecimal digits in lower case,
/// joined by hyphens, with the digit of version four and that of the variant.
pub open spec fn is_uuid_text(s: Seq<char>) -> bool {
    &&& s.len() == 36
    &&& s[8] == '-' && s[13] == '-' && s[18] == '-' && s[23] == '-'
    &&& forall|i: int|
        0 <= i < 36 && i != 8 && i != 13 && i != 18 && i != 23 ==> is_hex(#[trigger] s[i])
    &&& s[14] == '4'
    &&& s[19] == '8' || s[19] == '9' || s[19] == 'a' || s[19] == 'b'
}

/// Thirty-two hexadecimal digits: a UUID without its hyphens.
pub open spec fn is_hex_id(s: Seq<char>) -> bool {
    s.len() == 32 && forall|i: int| 0 <= i < 32 ==> is_hex(#[trigger] s[i])
}

/// An identifier of a tool call.
pub open spec fn is_tool_id(s: Seq<char>) -> bool {
    exists|hex: Seq<char>| is_hex_id(hex) && s == "toolu_"@ + hex
}

/// An identifier of a message.
pub open spec fn is_message_id(s: Seq<char>) -> bool {
    exists|hex: Seq<char>| is_hex_id(hex) && s == "msg_"@ + hex
}

/// `uuid::Uuid::new_v4`, printed. Which of the UUIDs of version four it is, is
/// left to chance and unsaid.
#[verifier::external_body]
fn random_uuid() -> (r: String)
    ensures
        is_uuid_text(r@),
{
    uuid::Uuid::new_v4().to_string()
}

/// A UUID without its hyphens.
pub fn without_hyphens(uuid: &str) -> (r: String)
    requires
        is_uuid_text(uuid@),
    ensures
        is_hex_id(r@),
        r@ == uuid@.subrange(0, 8) + uuid@.subrange(9, 13) + uuid@.subrange(14, 18)
            + uuid@.subrange(19, 23) + uuid@.subrange(24, 36),
{
    let v = chars_of(uuid);
    let s = v.as_slice();
    let mut out = crate::text::text_between(s, 0, 8);
    let b = crate::text::text_between(s, 9, 13);
    let c = crate::text::text_between(s, 14, 18);
    let d = crate::text::text_between(s, 19, 23);
    let e = crate::text::text_between(s, 24, 36);
    crate::text::push_text(&mut out, b.as_str());
    crate::text::push_text(&mut out, c.as_str());
    crate::text::push_text(&mut out, d.as_str());
    crate::text::push_text(&mut out, e.as_str());
    out
}

/// A fresh identifier of hexadecimal digits.
pub fn fresh_hex_id() -> (r: String)
    ensures
        is_hex_id(r@),
{
    let uuid = random_uuid();
    without_hyphens(uuid.as_str())
}

/// A fresh identifier for a call of the upstream.
pub fn fresh_call_id() -> (r: String)
    ensures
        is_uuid_text(r@),
{
    random_uuid()
}

/// A fresh identifier for a tool call.
pub fn fresh_tool_id() -> (r: String)
    ensures
        is_tool_id(r@),
{
    let hex = fresh_hex_id();
    join2("toolu_", hex.as_str())
}

/// A fresh identifier for a message.
pub fn fresh_message_id() -> (r: String)
    ensures
        is_message_id(r@),
{
    let hex = fresh_hex_id();
    join2("msg_", hex.as_str())
}

/// An identifier of a search.
pub open spec fn is_search_id(s: Seq<char>) -> bool {
    exists|hex: Seq<char>| is_hex_id(hex) && s == "srvtoolu_"@ + hex
}

/// A fresh identifier for a search.
pub fn fresh_search_id() -> (r: String)
    ensures
        is_search_id(r@),
{
    let hex = fresh_hex_id();
    join2("srvtoolu_", hex.as_str())
}

/// A shorter identifier of a message.
pub open spec fn is_short_message_id(s: Seq<char>) -> bool {
    exists|hex: Seq<char>| is_hex_id(hex) && s == "msg_"@ + #[trigger] hex.take(24)
}

/// A fresh shorter identifier for a message.
pub fn fresh_short_message_id() -> (r: String)
    ensures
        is_short_message_id(r@),
{
    let hex = fresh_hex_id();
    let v = chars_of(hex.as_str());
    let short = crate::text::text_between(v.as_slice(), 0, 24);
    assert(short@ =~= hex@.take(24));
    join2("msg_", short.as_str())
}

} // verus!
