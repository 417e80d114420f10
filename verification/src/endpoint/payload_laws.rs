//! Laws on request bodies, stated over the members of their JSON.
use crate::endpoint::payload::{
    all_stamped, current_stamped, history_stamped, message_stamped, payload_with_model,
    profile_set, state_stamped, state_stripped, streaming_payload,
};
use crate::json::JsonV;
use vstd::prelude::*;

verus! {

/// The members of an object.
pub type Members = Map<Seq<char>, JsonV>;

/// The member `key` is the same in both objects, or in neither.
pub open spec fn agree_on(a: Members, b: Members, key: Seq<char>) -> bool {
    a.dom().contains(key) == b.dom().contains(key) && (a.dom().contains(key) ==> a[key] == b[key])
}

/// The entry of a conversation is a message of the user.
pub open spec fn is_user_message(entry: JsonV) -> bool {
    match entry {
        JsonV::Object(m) => m.dom().contains("userInputMessage"@) && m["userInputMessage"@] is Object,
        _ => false,
    }
}

/// `after` is the entry `before` with the text `value` under `key` of the user's message,
/// and with every other member, of the message and of the entry, as it was. An entry that
/// is no message of the user is as it was.
pub open spec fn carries(before: JsonV, after: JsonV, key: Seq<char>, value: Seq<char>) -> bool {
    if is_user_message(before) {
        &&& is_user_message(after)
        &&& forall|k: Seq<char>|
            k != "userInputMessage"@ ==> #[trigger] agree_on(before->Object_0, after->Object_0, k)
        &&& ({
            let old_message = before->Object_0["userInputMessage"@]->Object_0;
            let new_message = after->Object_0["userInputMessage"@]->Object_0;
            &&& new_message.dom().contains(key)
            &&& new_message[key] == JsonV::Text(value)
            &&& forall|k: Seq<char>| k != key ==> #[trigger] agree_on(old_message, new_message, k)
        })
    } else {
        after == before
    }
}

/// `after` is the conversation `before` with the text `value` under `key` of every message
/// of the user, in the history entry by entry and in the current message; every other
/// member is as it was, but for those that are `dropped`.
pub open spec fn carried_everywhere(
    before: Members,
    after: Members,
    key: Seq<char>,
    value: Seq<char>,
    dropped: Set<Seq<char>>,
) -> bool {
    &&& forall|k: Seq<char>|
        k != "currentMessage"@ && k != "history"@ && !dropped.contains(k)
            ==> #[trigger] agree_on(before, after, k)
    &&& forall|k: Seq<char>| #[trigger] dropped.contains(k) ==> !after.dom().contains(k)
    &&& before.dom().contains("currentMessage"@) == after.dom().contains("currentMessage"@)
    &&& before.dom().contains("currentMessage"@) ==> carries(
        before["currentMessage"@],
        after["currentMessage"@],
        key,
        value,
    )
    &&& before.dom().contains("history"@) == after.dom().contains("history"@)
    &&& before.dom().contains("history"@) ==> match before["history"@] {
        JsonV::Array(entries) => {
            &&& after["history"@] is Array
            &&& after["history"@]->Array_0.len() == entries.len()
            &&& forall|i: int|
                0 <= i < entries.len() ==> carries(
                    #[trigger] entries[i],
                    after["history"@]->Array_0[i],
                    key,
                    value,
                )
        },
        other => after["history"@] == other,
    }
}

/// What an endpoint of the command line does not get.
pub open spec fn dropped_members(strip: bool) -> Set<Seq<char>> {
    if strip {
        set!["agentContinuationId"@, "agentTaskType"@]
    } else {
        Set::empty()
    }
}

/// The payload has a conversation.
pub open spec fn has_conversation(v: JsonV) -> bool {
    match v {
        JsonV::Object(m) => m.dom().contains("conversationState"@) && m["conversationState"@]
            is Object,
        _ => false,
    }
}

proof fn lemma_message_carries(v: JsonV, key: Seq<char>, value: Seq<char>)
    ensures
        carries(v, message_stamped(v, key, value), key, value),
{
    let w = message_stamped(v, key, value);
    if is_user_message(v) {
        let m = v->Object_0;
        let u = m["userInputMessage"@]->Object_0;
        assert(v.field("userInputMessage"@) == Some(JsonV::Object(u)));
        let t = u.insert(key, JsonV::Text(value));
        assert(w == JsonV::Object(m.insert("userInputMessage"@, JsonV::Object(t))));
    }
}

proof fn lemma_names()
    ensures
        "currentMessage"@ != "history"@,
        "agentContinuationId"@ != "currentMessage"@,
        "agentContinuationId"@ != "history"@,
        "agentTaskType"@ != "currentMessage"@,
        "agentTaskType"@ != "history"@,
        "profileArn"@ != "conversationState"@,
{
    reveal_strlit("currentMessage");
    reveal_strlit("history");
    reveal_strlit("agentContinuationId");
    reveal_strlit("agentTaskType");
    reveal_strlit("profileArn");
    reveal_strlit("conversationState");
    assert("currentMessage"@[0] == 'c');
    assert("history"@[0] == 'h');
    assert("agentContinuationId"@[0] == 'a');
    assert("agentTaskType"@[0] == 'a');
    assert("profileArn"@[0] == 'p');
    assert("conversationState"@[0] == 'c');
}

proof fn lemma_state_carries(s: Members, strip: bool, key: Seq<char>, value: Seq<char>)
    ensures
        ({
            let t = state_stamped(state_stripped(JsonV::Object(s), strip), key, value);
            t is Object && carried_everywhere(s, t->Object_0, key, value, dropped_members(strip))
        }),
{
    lemma_names();
    let a = state_stripped(JsonV::Object(s), strip);
    let b = current_stamped(a, key, value);
    let t = history_stamped(b, key, value);
    let am = a->Object_0;
    let bm = b->Object_0;
    let tm = t->Object_0;
    let cur = "currentMessage"@;
    let his = "history"@;
    assert(agree_on(s, am, cur) && agree_on(s, am, his));
    if s.dom().contains(cur) {
        lemma_message_carries(s[cur], key, value);
        assert(a.field(cur) == Some(s[cur]));
        assert(is_user_message(s[cur]) == (s[cur].field("userInputMessage"@) matches Some(u)
            && u is Object));
        assert(carries(s[cur], bm[cur], key, value));
        assert(tm[cur] == bm[cur]);
    }
    assert(agree_on(s, bm, his));
    if s.dom().contains(his) {
        if let JsonV::Array(entries) = s[his] {
            assert(b.field(his) == Some(JsonV::Array(entries)));
            assert(tm[his] == JsonV::Array(all_stamped(entries, key, value)));
            assert forall|i: int| 0 <= i < entries.len() implies carries(
                #[trigger] entries[i],
                tm[his]->Array_0[i],
                key,
                value,
            ) by {
                lemma_message_carries(entries[i], key, value);
            }
        }
    }
    let dropped = dropped_members(strip);
    assert forall|k: Seq<char>| k != cur && k != his && !dropped.contains(k) implies #[trigger]
    agree_on(s, tm, k) by {
        assert(agree_on(s, am, k));
    }
}

/// A payload in the form of an endpoint carries the origin in every message of the user, in
/// the history and at its end, names the profile, if there is one, and lacks what the
/// command line does not know; everything else in it is as it was.
pub proof fn every_message_names_the_origin(
    v: JsonV,
    profile_arn: Option<Seq<char>>,
    origin: Seq<char>,
    strip: bool,
)
    requires
        v is Object,
    ensures
        ({
            let w = streaming_payload(v, profile_arn, origin, strip);
            let (a, b) = (v->Object_0, w->Object_0);
            &&& w is Object
            &&& forall|k: Seq<char>|
                k != "profileArn"@ && k != "conversationState"@ ==> #[trigger] agree_on(a, b, k)
            &&& match profile_arn {
                Some(arn) => b.dom().contains("profileArn"@) && b["profileArn"@] == JsonV::Text(arn),
                None => agree_on(a, b, "profileArn"@),
            }
            &&& if has_conversation(v) {
                has_conversation(w) && carried_everywhere(
                    a["conversationState"@]->Object_0,
                    b["conversationState"@]->Object_0,
                    "origin"@,
                    origin,
                    dropped_members(strip),
                )
            } else {
                agree_on(a, b, "conversationState"@)
            }
        }),
{
    lemma_names();
    let conv = "conversationState"@;
    let p = profile_set(v, profile_arn);
    let pm = p->Object_0;
    assert(agree_on(v->Object_0, pm, conv));
    if has_conversation(v) {
        let s = v->Object_0[conv]->Object_0;
        assert(p.field(conv) == Some(JsonV::Object(s)));
        lemma_state_carries(s, strip, "origin"@, origin);
    }
}

/// A payload with a model carries it in every message of the user, in the history and at
/// its end; everything else in it is as it was.
pub proof fn every_message_names_the_model(v: JsonV, model_id: Seq<char>)
    requires
        v is Object,
    ensures
        ({
            let w = payload_with_model(v, model_id);
            let (a, b) = (v->Object_0, w->Object_0);
            &&& w is Object
            &&& forall|k: Seq<char>| k != "conversationState"@ ==> #[trigger] agree_on(a, b, k)
            &&& if has_conversation(v) {
                has_conversation(w) && carried_everywhere(
                    a["conversationState"@]->Object_0,
                    b["conversationState"@]->Object_0,
                    "modelId"@,
                    model_id,
                    Set::empty(),
                )
            } else {
                agree_on(a, b, "conversationState"@)
            }
        }),
{
    lemma_names();
    let conv = "conversationState"@;
    if has_conversation(v) {
        let s = v->Object_0[conv]->Object_0;
        assert(v.field(conv) == Some(JsonV::Object(s)));
        lemma_state_carries(s, false, "modelId"@, model_id);
        assert(dropped_members(false) =~= Set::<Seq<char>>::empty());
    }
}

/// A payload that is no object, an array or a number say, is passed on as it is.
pub proof fn other_payloads_are_kept(
    v: JsonV,
    profile_arn: Option<Seq<char>>,
    origin: Seq<char>,
    strip: bool,
)
    requires
        !(v is Object),
    ensures
        streaming_payload(v, profile_arn, origin, strip) == v,
        payload_with_model(v, origin) == v,
{
}

} // verus!
