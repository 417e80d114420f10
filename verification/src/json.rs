//! JSON values as the library reads and builds them.
//!
//! Parsing and printing are left to `serde_json`; what the library does with a
//! value is stated over [`JsonV`], in which an object is a map from keys to
//! values and knows no order.
use crate::text::same_text;
use vstd::prelude::*;

verus! {

#[verifier::external_type_specification]
#[verifier::external_body]
pub struct DeclaredValue(serde_json::Value);

#[verifier::external_type_specification]
#[verifier::external_body]
pub struct DeclaredNumber(serde_json::Number);

#[verifier::external_type_specification]
#[verifier::external_body]
#[verifier::reject_recursive_types(K)]
#[verifier::reject_recursive_types(V)]
pub struct DeclaredMembers<K, V>(serde_json::Map<K, V>);

/// A JSON value, mathematically.
pub ghost enum JsonV {
    Null,
    Bool(bool),
    Number(serde_json::Number),
    Text(Seq<char>),
    Array(Seq<JsonV>),
    Object(Map<Seq<char>, JsonV>),
}

/// A JSON value. Of two members of an object with the same key the later counts.
#[derive(Debug)]
pub enum Json {
    Null,
    Bool(bool),
    Number(serde_json::Number),
    Text(String),
    Array(Vec<Json>),
    Object(Vec<(String, Json)>),
}

impl View for Json {
    type V = JsonV;

    open spec fn view(&self) -> JsonV {
        json_view(*self)
    }
}

pub open spec fn json_view(j: Json) -> JsonV
    decreases j, 0nat,
{
    match j {
        Json::Null => JsonV::Null,
        Json::Bool(b) => JsonV::Bool(b),
        Json::Number(n) => JsonV::Number(n),
        Json::Text(s) => JsonV::Text(s@),
        Json::Array(items) => JsonV::Array(items_view(items, items@.len())),
        Json::Object(members) => JsonV::Object(members_view(members, members@.len())),
    }
}

/// The first `n` items.
pub open spec fn items_view(items: Vec<Json>, n: nat) -> Seq<JsonV>
    decreases items, n,
{
    if n == 0 || n > items@.len() {
        Seq::empty()
    } else {
        items_view(items, (n - 1) as nat).push(json_view(items@[n - 1]))
    }
}

/// The first `n` members.
pub open spec fn members_view(members: Vec<(String, Json)>, n: nat) -> Map<Seq<char>, JsonV>
    decreases members, n,
{
    if n == 0 || n > members@.len() {
        Map::empty()
    } else {
        members_view(members, (n - 1) as nat).insert(
            members@[n - 1].0@,
            json_view(members@[n - 1].1),
        )
    }
}

/// What a `serde_json::Value` holds: `null`, a boolean, a number, a text, the
/// values of an array in their order or the members of an object.
pub uninterp spec fn json_value(v: serde_json::Value) -> JsonV;

/// What a `serde_json::Map` holds.
pub uninterp spec fn json_members(
    m: serde_json::Map<String, serde_json::Value>,
) -> Map<Seq<char>, JsonV>;

/// The number that `serde_json::Number::from` makes of an integer.
pub uninterp spec fn int_number(i: i64) -> serde_json::Number;

/// What `serde_json::from_str::<Value>` makes of a text: a value, or the text
/// of its error.
pub uninterp spec fn json_parsed(text: Seq<char>) -> Result<JsonV, Seq<char>>;

/// What `serde_json` prints for a value, without white space and with the keys
/// of each object in their order.
pub uninterp spec fn json_printed(v: JsonV) -> Seq<char>;

/// One level of a `serde_json::Value`.
pub enum Level {
    Null,
    Bool(bool),
    Number(serde_json::Number),
    Text(String),
    Array(Vec<serde_json::Value>),
    Object(serde_json::Map<String, serde_json::Value>),
}

pub open spec fn level_view(l: Level) -> JsonV {
    match l {
        Level::Null => JsonV::Null,
        Level::Bool(b) => JsonV::Bool(b),
        Level::Number(n) => JsonV::Number(n),
        Level::Text(t) => JsonV::Text(t@),
        Level::Array(items) => JsonV::Array(
            Seq::new(items@.len(), |i: int| json_value(items@[i])),
        ),
        Level::Object(m) => JsonV::Object(json_members(m)),
    }
}

/// No key occurs twice.
pub open spec fn distinct_keys(entries: Seq<(String, serde_json::Value)>) -> bool {
    forall|i: int, j: int|
        0 <= i < j < entries.len() ==> (#[trigger] entries[i]).0@ != (#[trigger] entries[j]).0@
}

/// An object's members when there are none.
pub open spec fn no_json() -> Map<Seq<char>, JsonV> {
    Map::empty()
}

/// The members that a list of entries gives, the later counting.
pub open spec fn entries_view(entries: Seq<(String, serde_json::Value)>) -> Map<Seq<char>, JsonV>
    decreases entries.len(),
{
    if entries.len() == 0 {
        Map::empty()
    } else {
        entries_view(entries.drop_last()).insert(
            entries.last().0@,
            json_value(entries.last().1),
        )
    }
}

/// `serde_json::from_str` into a `Value`, and the `Display` text of its error.
/// The outcome is a function of the text alone.
#[verifier::external_body]
fn parse_value(text: &str) -> (r: Result<serde_json::Value, String>)
    ensures
        match r {
            Ok(v) => json_parsed(text@) == Ok::<JsonV, Seq<char>>(json_value(v)),
            Err(e) => json_parsed(text@) == Err::<JsonV, Seq<char>>(e@),
        },
{
    serde_json::from_str::<serde_json::Value>(text).map_err(|e| e.to_string())
}

/// The `Display` of a `serde_json::Value`: its compact text, which depends on
/// what the value holds and on nothing else.
#[verifier::external_body]
fn print_value(v: &serde_json::Value) -> (r: String)
    ensures
        r@ == json_printed(json_value(*v)),
{
    v.to_string()
}

/// Takes a `serde_json::Value` apart by one level: what it holds stays the same.
#[verifier::external_body]
fn level_of(v: serde_json::Value) -> (r: Level)
    ensures
        level_view(r) == json_value(v),
{
    match v {
        serde_json::Value::Null => Level::Null,
        serde_json::Value::Bool(b) => Level::Bool(b),
        serde_json::Value::Number(n) => Level::Number(n),
        serde_json::Value::String(s) => Level::Text(s),
        serde_json::Value::Array(items) => Level::Array(items),
        serde_json::Value::Object(m) => Level::Object(m),
    }
}

/// Puts a `serde_json::Value` together from one level: what it holds stays the same.
#[verifier::external_body]
fn value_with(l: Level) -> (r: serde_json::Value)
    ensures
        json_value(r) == level_view(l),
{
    match l {
        Level::Null => serde_json::Value::Null,
        Level::Bool(b) => serde_json::Value::Bool(b),
        Level::Number(n) => serde_json::Value::Number(n),
        Level::Text(t) => serde_json::Value::String(t),
        Level::Array(items) => serde_json::Value::Array(items),
        Level::Object(m) => serde_json::Value::Object(m),
    }
}

/// `serde_json::Map::into_iter`: the members, each key once.
#[verifier::external_body]
fn entries_of(m: serde_json::Map<String, serde_json::Value>) -> (r: Vec<
    (String, serde_json::Value),
>)
    ensures
        entries_view(r@) == json_members(m),
        distinct_keys(r@),
{
    m.into_iter().collect()
}

/// `serde_json::Number::from` on an `i64`. Its result depends on the integer alone.
#[verifier::external_body]
fn number_of(i: i64) -> (r: serde_json::Number)
    ensures
        r == int_number(i),
{
    serde_json::Number::from(i)
}

/// `serde_json::Map::new`: a map without members.
#[verifier::external_body]
fn no_members() -> (r: serde_json::Map<String, serde_json::Value>)
    ensures
        json_members(r) == no_json(),
{
    serde_json::Map::new()
}

/// `serde_json::Map::insert`: adds a member, or replaces the one with that key.
#[verifier::external_body]
fn put_member(
    m: &mut serde_json::Map<String, serde_json::Value>,
    key: String,
    value: serde_json::Value,
)
    ensures
        json_members(*final(m)) == json_members(*old(m)).insert(key@, json_value(value)),
{
    m.insert(key, value);
}

/// `Clone` of a `serde_json::Number`, which is derived: the copy is the number.
pub assume_specification[ <serde_json::Number as Clone>::clone ](
    n: &serde_json::Number,
) -> (r: serde_json::Number)
    ensures
        r == *n,
;

/// An entry's value is the member under its key, and smaller than the whole.
proof fn lemma_entry_smaller(entries: Seq<(String, serde_json::Value)>, n: int)
    requires
        distinct_keys(entries),
        0 <= n < entries.len(),
    ensures
        decreases_to!(entries_view(entries) => json_value(entries[n].1)),
{
    lemma_entry_member(entries, n);
    let m = entries_view(entries);
    assert(decreases_to!(m => m[entries[n].0@]));
}

proof fn lemma_entry_member(entries: Seq<(String, serde_json::Value)>, n: int)
    requires
        distinct_keys(entries),
        0 <= n < entries.len(),
    ensures
        entries_view(entries).dom().finite(),
        entries_view(entries).dom().contains(entries[n].0@),
        entries_view(entries)[entries[n].0@] == json_value(entries[n].1),
    decreases entries.len(),
{
    let rest = entries.drop_last();
    assert forall|i: int, j: int| 0 <= i < j < rest.len() implies rest[i].0@ != rest[j].0@ by {
        assert(entries[i].0@ != entries[j].0@);
    }
    if n < rest.len() {
        lemma_entry_member(rest, n);
        assert(entries[n].0@ != entries.last().0@);
    } else if rest.len() > 0 {
        lemma_entry_member(rest, 0);
    } else {
        assert(entries_view(rest) == no_json());
    }
}

/// The library's form of a `serde_json::Value`.
fn json_of(v: serde_json::Value) -> (r: Json)
    ensures
        r@ == json_value(v),
    decreases json_value(v),
{
    let ghost jv = json_value(v);
    match level_of(v) {
        Level::Null => Json::Null,
        Level::Bool(b) => Json::Bool(b),
        Level::Number(n) => Json::Number(n),
        Level::Text(t) => Json::Text(t),
        Level::Array(items) => {
            let ghost all = items@;
            let mut out: Vec<Json> = Vec::new();
            for x in it: items.into_iter()
                invariant
                    it.seq() == all,
                    jv == json_value(v),
                    out@.len() == it.index(),
                    jv == JsonV::Array(Seq::new(all.len(), |i: int| json_value(all[i]))),
                    forall|i: int| 0 <= i < out@.len() ==> (#[trigger] out@[i])@ == json_value(all[i]),
            {
                assert(json_value(x) == jv->Array_0[it.index()]);
                assert(decreases_to!(jv->Array_0 => jv->Array_0[it.index()]));
                out.push(json_of(x));
            }
            proof {
                lemma_items_view(out, out@.len());
                assert(items_view(out, out@.len()) =~= jv->Array_0);
            }
            Json::Array(out)
        },
        Level::Object(members) => {
            let entries = entries_of(members);
            let ghost all = entries@;
            let mut out: Vec<(String, Json)> = Vec::new();
            for e in it: entries.into_iter()
                invariant
                    it.seq() == all,
                    jv == json_value(v),
                    out@.len() == it.index(),
                    jv == JsonV::Object(entries_view(all)),
                    distinct_keys(all),
                    members_view(out, out@.len()) == entries_view(all.take(it.index())),
            {
                let ghost n: int = it.index();
                let ghost before = out;
                proof {
                    assert(all.take(n + 1).drop_last() =~= all.take(n));
                    lemma_entry_smaller(all, n);
                }
                let (key, value) = e;
                assert(decreases_to!(jv->Object_0 => json_value(value)));
                let one = json_of(value);
                out.push((key, one));
                proof {
                    lemma_members_view_same(before, out, n as nat);
                }
            }
            assert(all.take(all.len() as int) =~= all);
            Json::Object(out)
        },
    }
}

/// The items of a list, one by one.
pub proof fn lemma_items_view(items: Vec<Json>, n: nat)
    requires
        n <= items@.len(),
    ensures
        items_view(items, n).len() == n,
        forall|i: int| 0 <= i < n ==> #[trigger] items_view(items, n)[i] == items@[i]@,
    decreases n,
{
    if n > 0 {
        lemma_items_view(items, (n - 1) as nat);
    }
}

/// The members of a list depend on the entries it holds alone.
proof fn lemma_members_view_same(a: Vec<(String, Json)>, b: Vec<(String, Json)>, n: nat)
    requires
        n <= a@.len(),
        n <= b@.len(),
        forall|i: int| 0 <= i < n ==> a@[i] == b@[i],
    ensures
        members_view(a, n) == members_view(b, n),
    decreases n,
{
    if n > 0 {
        lemma_members_view_same(a, b, (n - 1) as nat);
    }
}

/// The `serde_json::Value` of a value of the library.
fn value_of(j: &Json) -> (r: serde_json::Value)
    ensures
        json_value(r) == j@,
    decreases j,
{
    match j {
        Json::Null => value_with(Level::Null),
        Json::Bool(b) => value_with(Level::Bool(*b)),
        Json::Number(n) => value_with(Level::Number(n.clone())),
        Json::Text(t) => value_with(Level::Text(t.clone())),
        Json::Array(items) => {
            let mut out: Vec<serde_json::Value> = Vec::new();
            let mut i: usize = 0;
            while i < items.len()
                invariant
                    j matches Json::Array(v) && v == *items,
                    i <= items@.len(),
                    out@.len() == i,
                    forall|k: int| 0 <= k < i ==> json_value(#[trigger] out@[k]) == items@[k]@,
                decreases items.len() - i,
            {
                assert(decreases_to!(items => items@[i as int]));
                out.push(value_of(&items[i]));
                i = i + 1;
            }
            proof {
                lemma_items_view(*items, items@.len());
                assert(Seq::new(out@.len(), |k: int| json_value(out@[k])) =~= items_view(
                    *items,
                    items@.len(),
                ));
            }
            value_with(Level::Array(out))
        },
        Json::Object(members) => {
            let mut out = no_members();
            let mut i: usize = 0;
            while i < members.len()
                invariant
                    j matches Json::Object(v) && v == *members,
                    i <= members@.len(),
                    json_members(out) == members_view(*members, i as nat),
                decreases members.len() - i,
            {
                assert(decreases_to!(members => members@[i as int]));
                let one = value_of(&members[i].1);
                put_member(&mut out, members[i].0.clone(), one);
                i = i + 1;
            }
            value_with(Level::Object(out))
        },
    }
}

impl JsonV {
    /// The member under `key` of an object.
    pub open spec fn field(self, key: Seq<char>) -> Option<JsonV> {
        match self {
            JsonV::Object(m) => if m.dom().contains(key) {
                Some(m[key])
            } else {
                None
            },
            _ => None,
        }
    }

    /// An object with the member under `key` set; any other value as it is.
    pub open spec fn put(self, key: Seq<char>, value: JsonV) -> JsonV {
        match self {
            JsonV::Object(m) => JsonV::Object(m.insert(key, value)),
            other => other,
        }
    }

    /// An object without the member under `key`; any other value as it is.
    pub open spec fn without(self, key: Seq<char>) -> JsonV {
        match self {
            JsonV::Object(m) => JsonV::Object(m.remove(key)),
            other => other,
        }
    }

    /// The object without members.
    pub open spec fn object() -> JsonV {
        JsonV::Object(no_json())
    }

    /// The number that an integer is printed as.
    pub open spec fn of_int(i: i64) -> JsonV {
        JsonV::Number(int_number(i))
    }

    /// The text that the value is, if it is one.
    pub open spec fn as_text(self) -> Option<Seq<char>> {
        match self {
            JsonV::Text(t) => Some(t),
            _ => None,
        }
    }

    /// The text under `key` of an object.
    pub open spec fn text_field(self, key: Seq<char>) -> Option<Seq<char>> {
        match self.field(key) {
            Some(v) => v.as_text(),
            None => None,
        }
    }
}

impl Json {
    /// The value that a text denotes, or the text of the error.
    pub fn parse(text: &str) -> (r: Result<Json, String>)
        ensures
            match r {
                Ok(j) => json_parsed(text@) == Ok::<JsonV, Seq<char>>(j@),
                Err(e) => json_parsed(text@) == Err::<JsonV, Seq<char>>(e@),
            },
    {
        match parse_value(text) {
            Ok(v) => Ok(json_of(v)),
            Err(e) => Err(e),
        }
    }

    /// The compact text of the value.
    pub fn to_text(&self) -> (r: String)
        ensures
            r@ == json_printed(self@),
    {
        print_value(&value_of(self))
    }

    pub fn text(t: &str) -> (r: Json)
        ensures
            r@ == JsonV::Text(t@),
    {
        Json::Text(t.to_owned())
    }

    pub fn of_int(i: i64) -> (r: Json)
        ensures
            r@ == JsonV::of_int(i),
    {
        Json::Number(number_of(i))
    }

    /// The object without members.
    pub fn object() -> (r: Json)
        ensures
            r@ == JsonV::object(),
    {
        Json::Object(Vec::new())
    }

    /// The array of `items`.
    pub fn array(items: Vec<Json>) -> (r: Json)
        ensures
            r@ == JsonV::Array(Seq::new(items@.len(), |i: int| items@[i]@)),
    {
        proof {
            lemma_items_view(items, items@.len());
            assert(Seq::new(items@.len(), |i: int| items@[i]@) =~= items_view(items, items@.len()));
        }
        Json::Array(items)
    }

    /// The object with the member under `key` set; any other value as it is.
    pub fn with(self, key: &str, value: Json) -> (r: Json)
        ensures
            r@ == self@.put(key@, value@),
    {
        match self {
            Json::Object(members) => {
                let ghost before = members;
                let mut out = members;
                out.push((key.to_owned(), value));
                proof {
                    lemma_members_view_same(before, out, before@.len());
                }
                Json::Object(out)
            },
            other => other,
        }
    }

    /// The member under `key` of an object.
    pub fn get(&self, key: &str) -> (r: Option<&Json>)
        ensures
            match r {
                Some(j) => self@.field(key@) == Some(j@),
                None => self@.field(key@) is None,
            },
    {
        match self {
            Json::Object(members) => {
                let mut i: usize = members.len();
                while i > 0
                    invariant
                        i <= members@.len(),
                        self@ == JsonV::Object(members_view(*members, members@.len())),
                        members_view(*members, members@.len()).dom().contains(key@)
                            == members_view(*members, i as nat).dom().contains(key@),
                        members_view(*members, members@.len()).dom().contains(key@)
                            ==> members_view(*members, members@.len())[key@] == members_view(
                            *members,
                            i as nat,
                        )[key@],
                    decreases i,
                {
                    if same_text(members[i - 1].0.as_str(), key) {
                        return Some(&members[i - 1].1);
                    }
                    i = i - 1;
                }
                None
            },
            _ => None,
        }
    }

    /// The text that the value is, if it is one.
    pub fn as_text(&self) -> (r: Option<&String>)
        ensures
            match r {
                Some(t) => self@.as_text() == Some(t@),
                None => self@.as_text() is None,
            },
    {
        match self {
            Json::Text(t) => Some(t),
            _ => None,
        }
    }

    /// The text under `key` of an object.
    pub fn get_text(&self, key: &str) -> (r: Option<&String>)
        ensures
            match r {
                Some(t) => self@.text_field(key@) == Some(t@),
                None => self@.text_field(key@) is None,
            },
    {
        match self.get(key) {
            Some(v) => v.as_text(),
            None => None,
        }
    }

    /// The same value once more.
    pub fn copy(&self) -> (r: Json)
        ensures
            r@ == self@,
        decreases self,
    {
        match self {
            Json::Null => Json::Null,
            Json::Bool(b) => Json::Bool(*b),
            Json::Number(n) => Json::Number(n.clone()),
            Json::Text(t) => Json::Text(t.clone()),
            Json::Array(items) => {
                let mut out: Vec<Json> = Vec::new();
                let mut i: usize = 0;
                while i < items.len()
                    invariant
                        self matches Json::Array(v) && v == *items,
                        i <= items@.len(),
                        out@.len() == i,
                        forall|k: int| 0 <= k < i ==> (#[trigger] out@[k])@ == items@[k]@,
                    decreases items.len() - i,
                {
                    assert(decreases_to!(items => items@[i as int]));
                    out.push(items[i].copy());
                    i = i + 1;
                }
                proof {
                    lemma_items_view(*items, items@.len());
                    lemma_items_view(out, out@.len());
                    assert(items_view(*items, items@.len()) =~= items_view(out, out@.len()));
                }
                Json::Array(out)
            },
            Json::Object(members) => {
                let mut out: Vec<(String, Json)> = Vec::new();
                let mut i: usize = 0;
                while i < members.len()
                    invariant
                        self matches Json::Object(v) && v == *members,
                        i <= members@.len(),
                        out@.len() == i,
                        members_view(out, i as nat) == members_view(*members, i as nat),
                    decreases members.len() - i,
                {
                    assert(decreases_to!(members => members@[i as int]));
                    let ghost before = out;
                    let one = members[i].1.copy();
                    out.push((members[i].0.clone(), one));
                    proof {
                        lemma_members_view_same(before, out, i as nat);
                    }
                    i = i + 1;
                }
                Json::Object(out)
            },
        }
    }

    /// The object without the member under `key`; any other value as it is.
    pub fn without(self, key: &str) -> (r: Json)
        ensures
            r@ == self@.without(key@),
    {
        match self {
            Json::Object(members) => {
                let mut out: Vec<(String, Json)> = Vec::new();
                let mut i: usize = 0;
                while i < members.len()
                    invariant
                        i <= members@.len(),
                        members_view(out, out@.len()) =~= members_view(members, i as nat).remove(key@),
                    decreases members.len() - i,
                {
                    let ghost before = out;
                    if !same_text(members[i].0.as_str(), key) {
                        let one = members[i].1.copy();
                        out.push((members[i].0.clone(), one));
                        proof {
                            lemma_members_view_same(before, out, before@.len());
                        }
                    }
                    i = i + 1;
                }
                Json::Object(out)
            },
            other => other,
        }
    }
}

} // verus!
