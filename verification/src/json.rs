//! A JSON document model held as plain values, with its mathematical view,
//! accessors, and the trusted bridge to `serde_json` for parsing and
//! rendering text.
use vstd::prelude::*;
use crate::order::lex_lt;
use crate::text::str_eq;
use serde_json::Value;

verus! {

/// A JSON number as `serde_json` keeps it: a non-negative integer, a
/// negative integer, or a floating-point value held by its text.
#[derive(Clone, Debug, PartialEq)]
pub enum JsonNumber {
    PosInt(u64),
    NegInt(i64),
    Float(String),
}

/// A JSON value. Object members keep their order.
#[derive(Debug, PartialEq)]
pub enum Json {
    Null,
    Bool(bool),
    Number(JsonNumber),
    String(String),
    Array(Vec<Json>),
    Object(Vec<(String, Json)>),
}

pub enum JsonNumberV {
    PosInt(u64),
    NegInt(i64),
    Float(Seq<char>),
}

/// The mathematical view of a JSON value.
pub enum JsonV {
    Null,
    Bool(bool),
    Number(JsonNumberV),
    Str(Seq<char>),
    Arr(Seq<JsonV>),
    Obj(Seq<(Seq<char>, JsonV)>),
}

impl View for JsonNumber {
    type V = JsonNumberV;

    open spec fn view(&self) -> JsonNumberV {
        match self {
            JsonNumber::PosInt(u) => JsonNumberV::PosInt(*u),
            JsonNumber::NegInt(i) => JsonNumberV::NegInt(*i),
            JsonNumber::Float(s) => JsonNumberV::Float(s@),
        }
    }
}

impl View for Json {
    type V = JsonV;

    open spec fn view(&self) -> JsonV {
        self.value()
    }
}

impl Json {
    /// The view, defined by recursion on the value.
    pub open spec fn value(&self) -> JsonV
        decreases self,
    {
        match self {
            Json::Null => JsonV::Null,
            Json::Bool(b) => JsonV::Bool(*b),
            Json::Number(n) => JsonV::Number(n@),
            Json::String(s) => JsonV::Str(s@),
            Json::Array(a) => JsonV::Arr(
                Seq::new(a@.len(), |i: int| if 0 <= i < a@.len() { a@[i].value() } else { JsonV::Null }),
            ),
            Json::Object(o) => JsonV::Obj(
                Seq::new(
                    o@.len(),
                    |i: int|
                        if 0 <= i < o@.len() {
                            (o@[i].0@, o@[i].1.value())
                        } else {
                            (Seq::empty(), JsonV::Null)
                        },
                ),
            ),
        }
    }
}

impl Clone for Json {
    fn clone(&self) -> (r: Json)
        ensures
            r@ == self@,
    {
        self.duplicate()
    }
}

/// Views of a sequence of values.
pub open spec fn views(s: Seq<Json>) -> Seq<JsonV> {
    Seq::new(s.len(), |i: int| s[i]@)
}

/// Views of a sequence of object members.
pub open spec fn member_views(s: Seq<(String, Json)>) -> Seq<(Seq<char>, JsonV)> {
    Seq::new(s.len(), |i: int| (s[i].0@, s[i].1@))
}

pub proof fn lemma_array_view(a: Vec<Json>)
    ensures
        Json::Array(a)@ == JsonV::Arr(views(a@)),
{
    match Json::Array(a)@ {
        JsonV::Arr(s) => assert(s =~= views(a@)),
        _ => {},
    }
}

pub proof fn lemma_object_view(o: Vec<(String, Json)>)
    ensures
        Json::Object(o)@ == JsonV::Obj(member_views(o@)),
{
    match Json::Object(o)@ {
        JsonV::Obj(s) => assert(s =~= member_views(o@)),
        _ => {},
    }
}

/// The value under `key` in a member list: the first member with that key.
pub open spec fn lookup(fields: Seq<(Seq<char>, JsonV)>, key: Seq<char>) -> Option<JsonV>
    decreases fields.len(),
{
    if fields.len() == 0 {
        None
    } else if fields[0].0 == key {
        Some(fields[0].1)
    } else {
        lookup(fields.drop_first(), key)
    }
}

/// `Value::get` with a string key: the member of an object, `None` for any
/// other value or a missing key.
pub open spec fn get(v: JsonV, key: Seq<char>) -> Option<JsonV> {
    match v {
        JsonV::Obj(fields) => lookup(fields, key),
        _ => None,
    }
}

/// `value[key]`: the member, or `null` where `get` has none.
pub open spec fn index(v: JsonV, key: Seq<char>) -> JsonV {
    match get(v, key) {
        Some(x) => x,
        None => JsonV::Null,
    }
}

pub open spec fn as_str(v: JsonV) -> Option<Seq<char>> {
    match v {
        JsonV::Str(s) => Some(s),
        _ => None,
    }
}

pub open spec fn as_array(v: JsonV) -> Option<Seq<JsonV>> {
    match v {
        JsonV::Arr(a) => Some(a),
        _ => None,
    }
}

/// `Value::as_u64`: only a non-negative integer has one.
pub open spec fn as_u64(v: JsonV) -> Option<u64> {
    match v {
        JsonV::Number(JsonNumberV::PosInt(u)) => Some(u),
        _ => None,
    }
}

/// `value[key] = x` on an object: the member is replaced where the key is
/// present, appended otherwise.
pub open spec fn set_member(fields: Seq<(Seq<char>, JsonV)>, key: Seq<char>, x: JsonV) -> Seq<
    (Seq<char>, JsonV),
> {
    if exists|i: int| first_key_at(fields, key, i) {
        fields.update(choose|i: int| first_key_at(fields, key, i), (key, x))
    } else {
        fields.push((key, x))
    }
}

/// Position `i` holds the first member with `key`.
pub open spec fn first_key_at(fields: Seq<(Seq<char>, JsonV)>, key: Seq<char>, i: int) -> bool {
    &&& 0 <= i < fields.len()
    &&& fields[i].0 == key
    &&& forall|j: int| 0 <= j < i ==> #[trigger] fields[j].0 != key
}

impl Json {
    /// `Value::get` with a string key.
    pub fn get(&self, key: &str) -> (r: Option<&Json>)
        ensures
            match r {
                Some(x) => get(self@, key@) == Some(x@),
                None => get(self@, key@) is None,
            },
    {
        match self {
            Json::Object(fields) => {
                proof {
                    lemma_object_view(*fields);
                }
                let ghost mv = member_views(fields@);
                assert(mv.skip(0) =~= mv);
                assert(self@ == JsonV::Obj(mv));
                let mut i: usize = 0;
                while i < fields.len()
                    invariant
                        mv == member_views(fields@),
                        self@ == JsonV::Obj(mv),
                        i <= fields@.len(),
                        lookup(mv, key@) == lookup(mv.skip(i as int), key@),
                    decreases fields.len() - i,
                {
                    proof {
                        assert(mv.skip(i as int).drop_first() =~= mv.skip(i + 1));
                    }
                    if str_eq(fields[i].0.as_str(), key) {
                        assert(mv.skip(i as int)[0] == mv[i as int]);
                        assert(self@ == JsonV::Obj(mv));
                        assert(lookup(mv.skip(i as int), key@) == Some(mv[i as int].1));
                        return Some(&fields[i].1);
                    }
                    i += 1;
                }
                proof {
                    assert(mv.skip(i as int) =~= Seq::empty());
                }
                None
            },
            _ => None,
        }
    }

    pub fn as_str(&self) -> (r: Option<&str>)
        ensures
            match r {
                Some(s) => as_str(self@) == Some(s@),
                None => as_str(self@) is None,
            },
    {
        match self {
            Json::String(s) => Some(s.as_str()),
            _ => None,
        }
    }

    pub fn as_array(&self) -> (r: Option<&Vec<Json>>)
        ensures
            match r {
                Some(a) => as_array(self@) == Some(views(a@)),
                None => as_array(self@) is None,
            },
    {
        match self {
            Json::Array(a) => {
                proof {
                    lemma_array_view(*a);
                }
                Some(a)
            },
            _ => None,
        }
    }

    pub fn as_u64(&self) -> (r: Option<u64>)
        ensures
            r == as_u64(self@),
    {
        match self {
            Json::Number(JsonNumber::PosInt(u)) => Some(*u),
            _ => None,
        }
    }

    pub fn is_string(&self) -> (r: bool)
        ensures
            r == (self@ is Str),
    {
        match self {
            Json::String(_) => true,
            _ => false,
        }
    }

    /// A copy of the value.
    pub fn duplicate(&self) -> (r: Json)
        ensures
            r@ == self@,
        decreases self,
    {
        match self {
            Json::Null => Json::Null,
            Json::Bool(b) => Json::Bool(*b),
            Json::Number(JsonNumber::PosInt(u)) => Json::Number(JsonNumber::PosInt(*u)),
            Json::Number(JsonNumber::NegInt(i)) => Json::Number(JsonNumber::NegInt(*i)),
            Json::Number(JsonNumber::Float(t)) => Json::Number(JsonNumber::Float(t.clone())),
            Json::String(s) => Json::String(s.clone()),
            Json::Array(a) => {
                proof {
                    lemma_array_view(*a);
                }
                let mut out: Vec<Json> = Vec::new();
                let mut i: usize = 0;
                while i < a.len()
                    invariant
                        i <= a@.len(),
                        *self == Json::Array(*a),
                        views(out@) == views(a@).take(i as int),
                    decreases a.len() - i,
                {
                    proof {
                        assert((*self)->Array_0 == *a);
                        assert(decreases_to!(*self => (*self)->Array_0));
                        assert(decreases_to!((*self)->Array_0 => (*self)->Array_0@));
                        assert(decreases_to!((*self)->Array_0@ => (*self)->Array_0@[i as int]));
                    }
                    let x = a[i].duplicate();
                    let ghost before = out@;
                    assert(x@ == a@[i as int]@);
                    assert(views(before).len() == i);
                    assert(before.len() == i);
                    out.push(x);
                    assert(out@.len() == i + 1);
                    assert(views(out@).len() == i + 1);
                    assert(forall|j: int| 0 <= j < i ==> views(out@)[j] == views(before)[j]);
                    assert(views(out@)[i as int] == x@);
                    assert(views(out@) =~= views(a@).take(i + 1));
                    i += 1;
                }
                assert(views(a@).take(a@.len() as int) =~= views(a@));
                Json::array(out)
            },
            Json::Object(m) => {
                proof {
                    lemma_object_view(*m);
                }
                let mut out: Vec<(String, Json)> = Vec::new();
                let mut i: usize = 0;
                while i < m.len()
                    invariant
                        i <= m@.len(),
                        *self == Json::Object(*m),
                        member_views(out@) == member_views(m@).take(i as int),
                    decreases m.len() - i,
                {
                    proof {
                        assert((*self)->Object_0 == *m);
                        assert(decreases_to!(*self => (*self)->Object_0));
                        assert(decreases_to!((*self)->Object_0 => (*self)->Object_0@));
                        assert(decreases_to!((*self)->Object_0@ => (*self)->Object_0@[i as int]));
                        assert(decreases_to!((*self)->Object_0@[i as int] => (*self)->Object_0@[i as int].1));
                    }
                    let x = m[i].1.duplicate();
                    let k = m[i].0.clone();
                    let ghost before = out@;
                    assert(member_views(before).len() == i);
                    assert(before.len() == i);
                    out.push((k, x));
                    assert(out@.len() == i + 1);
                    assert(member_views(out@).len() == i + 1);
                    assert(member_views(out@) =~= member_views(m@).take(i + 1));
                    i += 1;
                }
                assert(member_views(m@).take(m@.len() as int) =~= member_views(m@));
                Json::object(out)
            },
        }
    }

    /// A string value.
    pub fn from_str(s: &str) -> (r: Json)
        ensures
            r@ == JsonV::Str(s@),
    {
        Json::String(String::from_str(s))
    }

    /// An empty object.
    pub fn empty_object() -> (r: Json)
        ensures
            r@ == JsonV::Obj(Seq::empty()),
    {
        let v: Vec<(String, Json)> = Vec::new();
        proof {
            lemma_object_view(v);
            assert(member_views(v@) =~= Seq::empty());
        }
        Json::Object(v)
    }

    /// An array holding `items`.
    pub fn array(items: Vec<Json>) -> (r: Json)
        ensures
            r@ == JsonV::Arr(views(items@)),
    {
        proof {
            lemma_array_view(items);
        }
        Json::Array(items)
    }

    /// An object holding `members`, in order.
    pub fn object(members: Vec<(String, Json)>) -> (r: Json)
        ensures
            r@ == JsonV::Obj(member_views(members@)),
    {
        proof {
            lemma_object_view(members);
        }
        Json::Object(members)
    }
}

/// Appends a member to a member list under construction.
pub fn push_member(members: &mut Vec<(String, Json)>, key: &str, value: Json)
    ensures
        member_views(final(members)@) == member_views(old(members)@).push((key@, value@)),
{
    let ghost before = members@;
    members.push((String::from_str(key), value));
    assert(member_views(members@) =~= member_views(before).push((key@, value@)));
}

/// Appends a value to an array under construction.
pub fn push_item(items: &mut Vec<Json>, value: Json)
    ensures
        views(final(items)@) == views(old(items)@).push(value@),
{
    let ghost before = items@;
    items.push(value);
    assert(views(items@) =~= views(before).push(value@));
}

/// Sets `key` in a member list: replaces the first member with that key, or
/// appends one.
pub fn set_member_in(members: &mut Vec<(String, Json)>, key: &str, value: Json)
    ensures
        member_views(final(members)@) == set_member(member_views(old(members)@), key@, value@),
{
    let ghost before = member_views(members@);
    let mut i: usize = 0;
    while i < members.len()
        invariant
            before == member_views(members@),
            before == member_views(old(members)@),
            i <= members@.len(),
            forall|j: int| 0 <= j < i ==> #[trigger] before[j].0 != key@,
        decreases members.len() - i,
    {
        if str_eq(members[i].0.as_str(), key) {
            let ghost k = i as int;
            assert(first_key_at(before, key@, k));
            members.set(i, (String::from_str(key), value));
            proof {
                let c = choose|c: int| first_key_at(before, key@, c);
                assert(c == k) by {
                    if c < k {
                        assert(before[c].0 != key@);
                    }
                    if c > k {
                        assert(before[k].0 != key@);
                    }
                }
                assert(member_views(members@) =~= before.update(k, (key@, value@)));
                assert(exists|i: int| first_key_at(before, key@, i));
                assert(set_member(before, key@, value@) == before.update(c, (key@, value@)));
            }
            return;
        }
        i += 1;
    }
    members.push((String::from_str(key), value));
    proof {
        assert(!exists|c: int| first_key_at(before, key@, c));
    }
    assert(member_views(members@) =~= before.push((key@, value@)));
}

/// The text of a JSON document, as `serde_json` reads it; `None` where the
/// text is not JSON.
pub uninterp spec fn json_parse(text: Seq<char>) -> Option<JsonV>;

/// The compact JSON text that `serde_json` writes for a value.
pub uninterp spec fn json_render(v: JsonV) -> Seq<char>;

/// A value that `serde_json` writes and reads back unchanged, with arrays
/// and objects nested at most `depth` deep: it holds no floating-point
/// number (read back at best-effort precision), no negative integer that is
/// not below zero (read back as a positive one), and no object whose keys
/// are not in strictly increasing order (its objects are ordered maps).
pub open spec fn round_trips_within(v: JsonV, depth: nat) -> bool
    decreases depth,
{
    match v {
        JsonV::Number(JsonNumberV::Float(_)) => false,
        JsonV::Number(JsonNumberV::NegInt(i)) => i < 0,
        JsonV::Arr(items) => depth > 0 && forall|i: int|
            0 <= i < items.len() ==> #[trigger] round_trips_within(items[i], (depth - 1) as nat),
        JsonV::Obj(fields) => depth > 0 && (forall|i: int, j: int|
            0 <= i < j < fields.len() ==> lex_lt(#[trigger] fields[i].0, #[trigger] fields[j].0))
            && forall|i: int|
            0 <= i < fields.len() ==> #[trigger] round_trips_within(fields[i].1, (depth - 1) as nat),
        _ => true,
    }
}

/// A value that `serde_json` writes and reads back unchanged: one within
/// its nesting limit of 127 levels.
pub open spec fn round_trips(v: JsonV) -> bool {
    round_trips_within(v, 127)
}

#[verifier::external_type_specification]
#[verifier::external_body]
pub struct ExJsonValue(serde_json::Value);

#[verifier::external_type_specification]
#[verifier::external_body]
pub struct ExJsonError(serde_json::Error);

/// Moves a `serde_json::Value` into the library's model, variant by variant
/// (object members come out in the order the map yields them).
#[verifier::external_body]
fn value_to_json(v: &Value) -> Json {
    match v {
        Value::Null => Json::Null,
        Value::Bool(b) => Json::Bool(*b),
        Value::Number(n) => Json::Number(match (n.as_u64(), n.as_i64()) {
            (Some(u), _) => JsonNumber::PosInt(u),
            (None, Some(i)) => JsonNumber::NegInt(i),
            _ => JsonNumber::Float(n.to_string()),
        }),
        Value::String(s) => Json::String(s.clone()),
        Value::Array(a) => Json::Array(a.iter().map(value_to_json).collect()),
        Value::Object(m) => Json::Object(m.iter().map(|(k, x)| (k.clone(), value_to_json(x))).collect()),
    }
}

/// Moves a value of the library's model into a `serde_json::Value`,
/// variant by variant.
#[verifier::external_body]
fn json_to_value(j: &Json) -> Value {
    match j {
        Json::Null => Value::Null,
        Json::Bool(b) => Value::Bool(*b),
        Json::Number(JsonNumber::PosInt(u)) => Value::from(*u),
        Json::Number(JsonNumber::NegInt(i)) => Value::from(*i),
        Json::Number(JsonNumber::Float(t)) => serde_json::from_str(t).unwrap_or(Value::Null),
        Json::String(s) => Value::String(s.clone()),
        Json::Array(a) => Value::Array(a.iter().map(json_to_value).collect()),
        Json::Object(m) => Value::Object(m.iter().map(|(k, x)| (k.clone(), json_to_value(x))).collect()),
    }
}

/// Calls `serde_json::from_str::<serde_json::Value>`. The contract claims
/// that the outcome depends on the text alone: it succeeds exactly when
/// `json_parse` has a value for the text, and then yields that value.
#[verifier::external_body]
pub(crate) fn parse_json(text: &str) -> (r: Result<Json, serde_json::Error>)
    ensures
        r is Ok <==> json_parse(text@) is Some,
        r matches Ok(j) ==> json_parse(text@) == Some(j@),
{
    serde_json::from_str::<serde_json::Value>(text).map(|v| value_to_json(&v))
}

/// Calls `serde_json::Value::to_string` (compact rendering). The contract
/// claims that the text depends on the value alone, and that
/// `serde_json::from_str` reads it back as the same value where the value
/// round-trips (see `round_trips`).
#[verifier::external_body]
pub(crate) fn render_json(j: &Json) -> (r: String)
    ensures
        r@ == json_render(j@),
        round_trips(j@) ==> json_parse(r@) == Some(j@),
{
    json_to_value(j).to_string()
}

/// Calls `serde_json::Error`'s `to_string`; nothing is claimed of the text.
#[verifier::external_body]
pub(crate) fn json_error_text(e: &serde_json::Error) -> String {
    e.to_string()
}

} // verus!
