//! Request bodies in the form that an endpoint wants.
use crate::json::{json_parsed, json_printed, Json, JsonV};
use crate::text::opt_text;
use vstd::prelude::*;

verus! {

/// A message of the user with a member set; anything else as it is.
pub open spec fn message_stamped(v: JsonV, key: Seq<char>, value: Seq<char>) -> JsonV {
    match v.field("userInputMessage"@) {
        Some(JsonV::Object(m)) => v.put(
            "userInputMessage"@,
            JsonV::Object(m).put(key, JsonV::Text(value)),
        ),
        _ => v,
    }
}

/// The conversation with a member set in the user's current message.
pub open spec fn current_stamped(state: JsonV, key: Seq<char>, value: Seq<char>) -> JsonV {
    match state.field("currentMessage"@) {
        Some(c) => match c.field("userInputMessage"@) {
            Some(JsonV::Object(_)) => state.put("currentMessage"@, message_stamped(c, key, value)),
            _ => state,
        },
        None => state,
    }
}

pub open spec fn all_stamped(entries: Seq<JsonV>, key: Seq<char>, value: Seq<char>) -> Seq<JsonV> {
    Seq::new(entries.len(), |i: int| message_stamped(entries[i], key, value))
}

/// The conversation with a member set in each of the user's earlier messages.
pub open spec fn history_stamped(state: JsonV, key: Seq<char>, value: Seq<char>) -> JsonV {
    match state.field("history"@) {
        Some(JsonV::Array(entries)) => state.put(
            "history"@,
            JsonV::Array(all_stamped(entries, key, value)),
        ),
        _ => state,
    }
}

/// The conversation with a member set in all of the user's messages.
pub open spec fn state_stamped(state: JsonV, key: Seq<char>, value: Seq<char>) -> JsonV {
    history_stamped(current_stamped(state, key, value), key, value)
}

/// The conversation without the members that the command line does not know.
pub open spec fn state_stripped(state: JsonV, strip: bool) -> JsonV {
    if strip {
        state.without("agentContinuationId"@).without("agentTaskType"@)
    } else {
        state
    }
}

/// The payload with the profile set, if there is one.
pub open spec fn profile_set(v: JsonV, profile_arn: Option<Seq<char>>) -> JsonV {
    match profile_arn {
        Some(arn) => v.put("profileArn"@, JsonV::Text(arn)),
        None => v,
    }
}

/// The payload with its conversation changed: members stripped, and `key` set in
/// all of the user's messages.
pub open spec fn conversation_changed(
    v: JsonV,
    strip: bool,
    key: Seq<char>,
    value: Seq<char>,
) -> JsonV {
    match v.field("conversationState"@) {
        Some(JsonV::Object(m)) => v.put(
            "conversationState"@,
            state_stamped(state_stripped(JsonV::Object(m), strip), key, value),
        ),
        _ => v,
    }
}

/// The payload in the form that an endpoint wants: with the profile, with the
/// origin in all of the user's messages and, for the command line, without the
/// members that it does not know.
pub open spec fn streaming_payload(
    v: JsonV,
    profile_arn: Option<Seq<char>>,
    origin: Seq<char>,
    strip: bool,
) -> JsonV {
    conversation_changed(profile_set(v, profile_arn), strip, "origin"@, origin)
}

/// The payload with the model set in all of the user's messages.
pub open spec fn payload_with_model(v: JsonV, model_id: Seq<char>) -> JsonV {
    conversation_changed(v, false, "modelId"@, model_id)
}

fn stamp_message(v: &Json, key: &str, value: &str) -> (r: Json)
    ensures
        r@ == message_stamped(v@, key@, value@),
{
    match v.get("userInputMessage") {
        Some(m) => match m {
            Json::Object(_) => v.copy().with("userInputMessage", m.copy().with(key, Json::text(value))),
            _ => v.copy(),
        },
        None => v.copy(),
    }
}

fn stamp_current(state: Json, key: &str, value: &str) -> (r: Json)
    ensures
        r@ == current_stamped(state@, key@, value@),
{
    let changed = match state.get("currentMessage") {
        Some(c) => match c.get("userInputMessage") {
            Some(m) => match m {
                Json::Object(_) => Some(stamp_message(c, key, value)),
                _ => None,
            },
            None => None,
        },
        None => None,
    };
    match changed {
        Some(c) => state.with("currentMessage", c),
        None => state,
    }
}

fn stamp_history(state: Json, key: &str, value: &str) -> (r: Json)
    ensures
        r@ == history_stamped(state@, key@, value@),
{
    let changed = match state.get("history") {
        Some(h) => match h {
            Json::Array(items) => {
                let ghost entries = h@->Array_0;
                proof {
                    crate::json::lemma_items_view(*items, items@.len());
                }
                let mut out: Vec<Json> = Vec::new();
                let mut i: usize = 0;
                while i < items.len()
                    invariant
                        i <= items@.len(),
                        out@.len() == i,
                        entries.len() == items@.len(),
                        forall|k: int| 0 <= k < items@.len() ==> #[trigger] entries[k] == items@[k]@,
                        forall|k: int|
                            0 <= k < i ==> (#[trigger] out@[k])@ == message_stamped(
                                entries[k],
                                key@,
                                value@,
                            ),
                    decreases items.len() - i,
                {
                    assert(entries[i as int] == items@[i as int]@);
                    out.push(stamp_message(&items[i], key, value));
                    i = i + 1;
                }
                let all = Json::array(out);
                assert(all@->Array_0 =~= all_stamped(entries, key@, value@));
                Some(all)
            },
            _ => None,
        },
        None => None,
    };
    match changed {
        Some(h) => state.with("history", h),
        None => state,
    }
}

fn change_conversation(v: Json, strip: bool, key: &str, value: &str) -> (r: Json)
    ensures
        r@ == conversation_changed(v@, strip, key@, value@),
{
    let changed = match v.get("conversationState") {
        Some(s) => match s {
            Json::Object(_) => {
                let state = s.copy();
                let state = if strip {
                    state.without("agentContinuationId").without("agentTaskType")
                } else {
                    state
                };
                let state = stamp_current(state, key, value);
                Some(stamp_history(state, key, value))
            },
            _ => None,
        },
        None => None,
    };
    match changed {
        Some(s) => v.with("conversationState", s),
        None => v,
    }
}

/// The payload in the form that an endpoint wants.
pub fn stream_payload(v: Json, profile_arn: &Option<String>, origin: &str, strip: bool) -> (r: Json)
    ensures
        r@ == streaming_payload(v@, opt_text(*profile_arn), origin@, strip),
{
    let v = match profile_arn {
        Some(arn) => v.with("profileArn", Json::text(arn.as_str())),
        None => v,
    };
    change_conversation(v, strip, "origin", origin)
}

/// A body in the form that an endpoint wants; one that is not JSON as it is.
pub open spec fn transformed_body(
    body: Seq<char>,
    profile_arn: Option<Seq<char>>,
    origin: Seq<char>,
    strip: bool,
) -> Seq<char> {
    match json_parsed(body) {
        Ok(v) => json_printed(streaming_payload(v, profile_arn, origin, strip)),
        Err(_) => body,
    }
}

/// A body in the form that an endpoint wants. It is made from the body as it was
/// given, so that one endpoint inherits nothing of what was done for another.
pub fn transform_streaming_payload(
    body: &str,
    profile_arn: &Option<String>,
    origin: &str,
    strip_cli_state: bool,
) -> (r: String)
    ensures
        r@ == transformed_body(body@, opt_text(*profile_arn), origin@, strip_cli_state),
{
    match Json::parse(body) {
        Ok(v) => stream_payload(v, profile_arn, origin, strip_cli_state).to_text(),
        Err(_) => body.to_owned(),
    }
}

/// The payload with the model set in all of the user's messages.
pub fn set_payload_model(v: Json, model_id: &str) -> (r: Json)
    ensures
        r@ == payload_with_model(v@, model_id@),
{
    change_conversation(v, false, "modelId", model_id)
}

/// A body with the model set in all of the user's messages; one that is not JSON
/// as it is.
pub fn apply_payload_model_id(body: &str, model_id: &str) -> (r: String)
    ensures
        r@ == match json_parsed(body@) {
            Ok(v) => json_printed(payload_with_model(v, model_id@)),
            Err(_) => body@,
        },
{
    match Json::parse(body) {
        Ok(v) => set_payload_model(v, model_id).to_text(),
        Err(_) => body.to_owned(),
    }
}

/// Nothing but the profile and the conversation of a payload is changed.
pub proof fn other_members_are_kept(
    v: JsonV,
    profile_arn: Option<Seq<char>>,
    origin: Seq<char>,
    strip: bool,
    key: Seq<char>,
)
    requires
        key != "profileArn"@,
        key != "conversationState"@,
    ensures
        streaming_payload(v, profile_arn, origin, strip).field(key) == v.field(key),
        payload_with_model(v, origin).field(key) == v.field(key),
{
}

proof fn lemma_message_again(v: JsonV, key: Seq<char>, first: Seq<char>, last: Seq<char>)
    ensures
        message_stamped(message_stamped(v, key, first), key, last) == message_stamped(
            v,
            key,
            last,
        ),
{
    if let Some(JsonV::Object(m)) = v.field("userInputMessage"@) {
        let x = JsonV::Text(first);
        let y = JsonV::Text(last);
        let inner = JsonV::Object(m.insert(key, y));
        assert(m.insert(key, x).insert(key, y) =~= m.insert(key, y));
        let o = v->Object_0;
        assert(o.insert("userInputMessage"@, JsonV::Object(m.insert(key, x))).insert(
            "userInputMessage"@,
            inner,
        ) =~= o.insert("userInputMessage"@, inner));
    }
}

proof fn lemma_message_member(v: JsonV, key: Seq<char>, value: Seq<char>)
    ensures
        message_stamped(v, key, value).field("userInputMessage"@) is Some == v.field(
            "userInputMessage"@,
        ) is Some,
        (message_stamped(v, key, value).field("userInputMessage"@) matches Some(m) && m is Object)
            == (v.field("userInputMessage"@) matches Some(m) && m is Object),
{
}

proof fn lemma_names_differ()
    ensures
        "currentMessage"@ != "history"@,
        "agentContinuationId"@ != "currentMessage"@,
        "agentContinuationId"@ != "history"@,
        "agentTaskType"@ != "currentMessage"@,
        "agentTaskType"@ != "history"@,
        "profileArn"@ != "conversationState"@,
{
    reveal_strlit("currentMessage");
    reveal_strlit("history");
    reveal_strlit("agentContinuationId");
    reveal_strlit("agentTaskType");
    reveal_strlit("profileArn");
    reveal_strlit("conversationState");
    assert("currentMessage"@[0] == 'c');
    assert("history"@[0] == 'h');
    assert("agentContinuationId"@[0] == 'a');
    assert("agentTaskType"@[0] == 'a');
    assert("profileArn"@[0] == 'p');
    assert("conversationState"@[0] == 'c');
}

proof fn lemma_state_twice(state: JsonV, strip: bool, key: Seq<char>, value: Seq<char>)
    requires
        state is Object,
    ensures
        ({
            let once = state_stamped(state_stripped(state, strip), key, value);
            once is Object && state_stamped(state_stripped(once, strip), key, value) == once
        }),
{
    lemma_names_differ();
    let cur = "currentMessage"@;
    let his = "history"@;
    let a = state_stripped(state, strip);
    let b = current_stamped(a, key, value);
    let once = history_stamped(b, key, value);
    let m = once->Object_0;
    if strip {
        assert(m.remove("agentContinuationId"@) =~= m);
        assert(m.remove("agentTaskType"@) =~= m);
    }
    assert(state_stripped(once, strip) == once);
    assert(once.field(cur) == b.field(cur));
    if let Some(c) = a.field(cur) {
        lemma_message_again(c, key, value, value);
        lemma_message_member(c, key, value);
        let x = message_stamped(c, key, value);
        if c.field("userInputMessage"@) matches Some(u) && u is Object {
            assert(once.field(cur) == Some(x));
            assert(m.insert(cur, x) =~= m);
        }
    }
    assert(current_stamped(once, key, value) == once);
    assert(b.field(his) == a.field(his));
    if let Some(JsonV::Array(entries)) = b.field(his) {
        let e = all_stamped(entries, key, value);
        assert forall|i: int| 0 <= i < e.len() implies all_stamped(e, key, value)[i] == e[i] by {
            lemma_message_again(entries[i], key, value, value);
        }
        assert(all_stamped(e, key, value) =~= e);
        assert(m.insert(his, JsonV::Array(e)) =~= m);
    }
}

/// A payload that has been brought into the form of an endpoint stays as it is
/// when that is done again.
pub proof fn transforming_twice_changes_nothing(
    v: JsonV,
    profile_arn: Option<Seq<char>>,
    origin: Seq<char>,
    strip: bool,
)
    ensures
        ({
            let once = streaming_payload(v, profile_arn, origin, strip);
            streaming_payload(once, profile_arn, origin, strip) == once
        }),
{
    lemma_names_differ();
    let a = profile_set(v, profile_arn);
    let once = streaming_payload(v, profile_arn, origin, strip);
    if v is Object {
        let m = once->Object_0;
        if let Some(arn) = profile_arn {
            assert(m.insert("profileArn"@, JsonV::Text(arn)) =~= m);
        }
        assert(profile_set(once, profile_arn) == once);
        if let Some(JsonV::Object(s)) = a.field("conversationState"@) {
            let state = JsonV::Object(s);
            lemma_state_twice(state, strip, "origin"@, origin);
            let t = state_stamped(state_stripped(state, strip), "origin"@, origin);
            assert(m.insert("conversationState"@, t) =~= m);
        }
    }
}

proof fn lemma_state_again(state: JsonV, key: Seq<char>, first: Seq<char>, last: Seq<char>)
    requires
        state is Object,
    ensures
        state_stamped(state, key, first) is Object,
        state_stamped(state_stamped(state, key, first), key, last) == state_stamped(
            state,
            key,
            last,
        ),
{
    lemma_names_differ();
    let cur = "currentMessage"@;
    let his = "history"@;
    let once = state_stamped(state, key, first);
    let again = state_stamped(once, key, last);
    let direct = state_stamped(state, key, last);
    if let Some(c) = state.field(cur) {
        lemma_message_again(c, key, first, last);
        lemma_message_member(c, key, first);
    }
    if let Some(JsonV::Array(entries)) = state.field(his) {
        let e = all_stamped(entries, key, first);
        assert forall|i: int| 0 <= i < e.len() implies #[trigger] all_stamped(
            e,
            key,
            last,
        )[i] == all_stamped(entries, key, last)[i] by {
            lemma_message_again(entries[i], key, first, last);
        }
        assert(all_stamped(e, key, last) =~= all_stamped(entries, key, last));
    }
    assert(again->Object_0 =~= direct->Object_0);
}

/// Of two models that are set one after the other the second one counts, as if it alone
/// had been set; so setting a model twice changes nothing.
pub proof fn the_last_model_set_counts(v: JsonV, first: Seq<char>, last: Seq<char>)
    ensures
        payload_with_model(payload_with_model(v, first), last) == payload_with_model(
            v,
            last,
        ),
        payload_with_model(payload_with_model(v, first), first) == payload_with_model(v, first),
{
    lemma_names_differ();
    if let Some(JsonV::Object(s)) = v.field("conversationState"@) {
        let state = JsonV::Object(s);
        lemma_state_again(state, "modelId"@, first, last);
        lemma_state_again(state, "modelId"@, first, first);
        let o = v->Object_0;
        let x = state_stamped(state, "modelId"@, first);
        let y = state_stamped(state, "modelId"@, last);
        assert(o.insert("conversationState"@, x).insert("conversationState"@, y) =~= o.insert(
            "conversationState"@,
            y,
        ));
        assert(o.insert("conversationState"@, x).insert("conversationState"@, x) =~= o.insert(
            "conversationState"@,
            x,
        ));
    }
}

proof fn lemma_messages_commute(
    v: JsonV,
    key: Seq<char>,
    value: Seq<char>,
    other: Seq<char>,
    other_value: Seq<char>,
)
    requires
        key != other,
    ensures
        message_stamped(message_stamped(v, key, value), other, other_value) == message_stamped(
            message_stamped(v, other, other_value),
            key,
            value,
        ),
{
    if let Some(JsonV::Object(m)) = v.field("userInputMessage"@) {
        let x = JsonV::Text(value);
        let y = JsonV::Text(other_value);
        let both = m.insert(key, x).insert(other, y);
        assert(both =~= m.insert(other, y).insert(key, x));
        let o = v->Object_0;
        let user = "userInputMessage"@;
        assert(o.insert(user, JsonV::Object(m.insert(key, x))).insert(user, JsonV::Object(both))
            =~= o.insert(user, JsonV::Object(both)));
        assert(o.insert(user, JsonV::Object(m.insert(other, y))).insert(user, JsonV::Object(both))
            =~= o.insert(user, JsonV::Object(both)));
    }
}

proof fn lemma_states_commute(
    state: JsonV,
    strip: bool,
    key: Seq<char>,
    value: Seq<char>,
    other: Seq<char>,
    other_value: Seq<char>,
)
    requires
        state is Object,
        key != other,
    ensures
        ({
            let a = state_stamped(state_stripped(state, strip), key, value);
            let b = state_stamped(state, other, other_value);
            &&& a is Object
            &&& b is Object
            &&& state_stamped(a, other, other_value) == state_stamped(
                state_stripped(b, strip),
                key,
                value,
            )
        }),
{
    lemma_names_differ();
    let cur = "currentMessage"@;
    let his = "history"@;
    let a = state_stamped(state_stripped(state, strip), key, value);
    let b = state_stamped(state, other, other_value);
    let x = state_stamped(a, other, other_value);
    let y = state_stamped(state_stripped(b, strip), key, value);
    if let Some(c) = state.field(cur) {
        lemma_messages_commute(c, key, value, other, other_value);
        lemma_message_member(c, key, value);
        lemma_message_member(c, other, other_value);
    }
    if let Some(JsonV::Array(entries)) = state.field(his) {
        let e = all_stamped(entries, key, value);
        let f = all_stamped(entries, other, other_value);
        assert forall|i: int| 0 <= i < e.len() implies #[trigger] all_stamped(
            e,
            other,
            other_value,
        )[i] == all_stamped(f, key, value)[i] by {
            lemma_messages_commute(entries[i], key, value, other, other_value);
        }
        assert(all_stamped(e, other, other_value) =~= all_stamped(f, key, value));
    }
    assert(x->Object_0 =~= y->Object_0);
}

/// It makes no difference whether the model is set before or after a payload is brought
/// into the form of an endpoint.
pub proof fn setting_the_model_commutes_with_transforming(
    v: JsonV,
    profile_arn: Option<Seq<char>>,
    origin: Seq<char>,
    strip: bool,
    model_id: Seq<char>,
)
    ensures
        payload_with_model(streaming_payload(v, profile_arn, origin, strip), model_id)
            == streaming_payload(payload_with_model(v, model_id), profile_arn, origin, strip),
{
    lemma_names_differ();
    reveal_strlit("origin");
    reveal_strlit("modelId");
    assert("origin"@[0] == 'o' && "modelId"@[0] == 'm');
    let conv = "conversationState"@;
    let a = payload_with_model(streaming_payload(v, profile_arn, origin, strip), model_id);
    let b = streaming_payload(payload_with_model(v, model_id), profile_arn, origin, strip);
    if v is Object {
        if let Some(JsonV::Object(s)) = v.field(conv) {
            let state = JsonV::Object(s);
            lemma_states_commute(state, strip, "origin"@, origin, "modelId"@, model_id);
        }
        assert(a->Object_0 =~= b->Object_0);
    }
}

} // verus!
