//! JSON values as the library holds them, with the reads the protocol makes of them.

use vstd::prelude::*;
use crate::text::{owned, text_eq};

verus! {

/// A JSON value. Integers that fit `i64` are `Int`, larger ones `UInt`; any other number
/// is kept by its text in `Float`. An object lists its members in order, each key once.
#[derive(Debug)]
pub enum Json {
    Null,
    Bool(bool),
    Int(i64),
    UInt(u64),
    Float(String),
    Str(String),
    Array(Vec<Json>),
    Object(Vec<(String, Json)>),
}

/// The mathematical JSON value: integers are integers, texts are character sequences.
pub enum JsonV {
    Null,
    Bool(bool),
    Int(int),
    Float(Seq<char>),
    Str(Seq<char>),
    Array(Seq<JsonV>),
    Object(Seq<(Seq<char>, JsonV)>),
}

pub open spec fn jv(j: Json) -> JsonV
    decreases j,
{
    match j {
        Json::Null => JsonV::Null,
        Json::Bool(b) => JsonV::Bool(b),
        Json::Int(i) => JsonV::Int(i as int),
        Json::UInt(u) => JsonV::Int(u as int),
        Json::Float(t) => JsonV::Float(t@),
        Json::Str(s) => JsonV::Str(s@),
        Json::Array(items) => JsonV::Array(
            Seq::new(
                items@.len(),
                |i: int|
                    if 0 <= i < items@.len() {
                        jv(items@[i])
                    } else {
                        JsonV::Null
                    },
            ),
        ),
        Json::Object(ms) => JsonV::Object(
            Seq::new(
                ms@.len(),
                |i: int|
                    if 0 <= i < ms@.len() {
                        (ms@[i].0@, jv(ms@[i].1))
                    } else {
                        (Seq::empty(), JsonV::Null)
                    },
            ),
        ),
    }
}

impl View for Json {
    type V = JsonV;

    open spec fn view(&self) -> JsonV {
        jv(*self)
    }
}

/// The values of a list of JSON values.
pub open spec fn items_view(items: Seq<Json>) -> Seq<JsonV> {
    Seq::new(items.len(), |i: int| jv(items[i]))
}

/// The members of an object, as keys and values.
pub open spec fn members_view(ms: Seq<(String, Json)>) -> Seq<(Seq<char>, JsonV)> {
    Seq::new(ms.len(), |i: int| (ms[i].0@, jv(ms[i].1)))
}

pub proof fn lemma_array_view(items: Vec<Json>)
    ensures
        Json::Array(items)@ == JsonV::Array(items_view(items@)),
{
    assert(items_view(items@) =~= match jv(Json::Array(items)) {
        JsonV::Array(s) => s,
        _ => Seq::empty(),
    });
}

pub proof fn lemma_object_view(ms: Vec<(String, Json)>)
    ensures
        Json::Object(ms)@ == JsonV::Object(members_view(ms@)),
{
    assert(members_view(ms@) =~= match jv(Json::Object(ms)) {
        JsonV::Object(s) => s,
        _ => Seq::empty(),
    });
}

/// The value of the first member named `key`.
pub open spec fn lookup(ms: Seq<(Seq<char>, JsonV)>, key: Seq<char>) -> Option<JsonV>
    decreases ms.len(),
{
    if ms.len() == 0 {
        None
    } else if ms[0].0 == key {
        Some(ms[0].1)
    } else {
        lookup(ms.drop_first(), key)
    }
}

/// The member `key` of an object; nothing for any other value.
pub open spec fn get(v: JsonV, key: Seq<char>) -> Option<JsonV> {
    match v {
        JsonV::Object(ms) => lookup(ms, key),
        _ => None,
    }
}

pub open spec fn as_str(v: JsonV) -> Option<Seq<char>> {
    match v {
        JsonV::Str(s) => Some(s),
        _ => None,
    }
}

pub open spec fn as_bool(v: JsonV) -> Option<bool> {
    match v {
        JsonV::Bool(b) => Some(b),
        _ => None,
    }
}

/// An integer within the range of `i64`.
pub open spec fn as_i64(v: JsonV) -> Option<int> {
    match v {
        JsonV::Int(n) => if i64::MIN <= n <= i64::MAX {
            Some(n)
        } else {
            None
        },
        _ => None,
    }
}

pub open spec fn as_array(v: JsonV) -> Option<Seq<JsonV>> {
    match v {
        JsonV::Array(items) => Some(items),
        _ => None,
    }
}

/// The member `key` of `v`, when it is a string.
pub open spec fn get_str(v: JsonV, key: Seq<char>) -> Option<Seq<char>> {
    match get(v, key) {
        Some(x) => as_str(x),
        None => None,
    }
}

/// The member `key` of `v`, when it is a boolean.
pub open spec fn get_bool(v: JsonV, key: Seq<char>) -> Option<bool> {
    match get(v, key) {
        Some(x) => as_bool(x),
        None => None,
    }
}

/// The member `key` of `v`, when it is an array.
pub open spec fn get_array(v: JsonV, key: Seq<char>) -> Option<Seq<JsonV>> {
    match get(v, key) {
        Some(x) => as_array(x),
        None => None,
    }
}

/// Whether `v` is an object whose "type" member is the string `name`.
pub open spec fn has_type(v: JsonV, name: Seq<char>) -> bool {
    get_str(v, "type"@) == Some(name)
}

impl Json {
    /// A deep copy.
    pub fn copy(&self) -> (r: Json)
        ensures
            r@ == self@,
        decreases self,
    {
        match self {
            Json::Null => Json::Null,
            Json::Bool(b) => Json::Bool(*b),
            Json::Int(i) => Json::Int(*i),
            Json::UInt(u) => Json::UInt(*u),
            Json::Float(t) => Json::Float(t.clone()),
            Json::Str(s) => Json::Str(s.clone()),
            Json::Array(items) => {
                let mut out: Vec<Json> = Vec::new();
                let mut i: usize = 0;
                while i < items.len()
                    invariant
                        *self == Json::Array(*items),
                        i <= items.len(),
                        out@.len() == i,
                        forall|j: int| 0 <= j < i ==> (#[trigger] out@[j])@ == items@[j]@,
                    decreases items.len() - i,
                {
                    proof {
                        assert(decreases_to!(*self => (*self)->Array_0));
                        assert(decreases_to!(*items => items@));
                        assert(decreases_to!(items@ => items@[i as int]));
                    }
                    let c = items[i].copy();
                    out.push(c);
                    i = i + 1;
                }
                proof {
                    lemma_array_view(*items);
                    lemma_array_view(out);
                    assert(items_view(out@) =~= items_view(items@));
                }
                Json::Array(out)
            },
            Json::Object(ms) => {
                let mut out: Vec<(String, Json)> = Vec::new();
                let mut i: usize = 0;
                while i < ms.len()
                    invariant
                        *self == Json::Object(*ms),
                        i <= ms.len(),
                        out@.len() == i,
                        forall|j: int|
                            0 <= j < i ==> (#[trigger] out@[j]).0@ == ms@[j].0@ && out@[j].1@
                                == ms@[j].1@,
                    decreases ms.len() - i,
                {
                    proof {
                        assert(decreases_to!(*self => (*self)->Object_0));
                        assert(decreases_to!(*ms => ms@));
                        assert(decreases_to!(ms@ => ms@[i as int]));
                        assert(decreases_to!(ms@[i as int] => ms@[i as int].1));
                    }
                    let v = ms[i].1.copy();
                    out.push((ms[i].0.clone(), v));
                    i = i + 1;
                }
                proof {
                    lemma_object_view(*ms);
                    lemma_object_view(out);
                    assert(members_view(out@) =~= members_view(ms@));
                }
                Json::Object(out)
            },
        }
    }

    /// The member `key` of an object.
    pub fn get(&self, key: &str) -> (r: Option<&Json>)
        ensures
            match r {
                Some(x) => get(self@, key@) == Some(x@),
                None => get(self@, key@) is None,
            },
    {
        match self {
            Json::Object(ms) => {
                proof {
                    lemma_object_view(*ms);
                }
                let ghost mv = members_view(ms@);
                assert(mv.skip(0) =~= mv);
                let mut i: usize = 0;
                while i < ms.len()
                    invariant
                        i <= ms.len(),
                        mv == members_view(ms@),
                        self@ == JsonV::Object(mv),
                        lookup(mv, key@) == lookup(mv.skip(i as int), key@),
                    decreases ms.len() - i,
                {
                    let ghost rest = mv.skip(i as int);
                    assert(rest[0] == mv[i as int]);
                    if text_eq(ms[i].0.as_str(), key) {
                        return Some(&ms[i].1);
                    }
                    assert(rest.drop_first() =~= mv.skip(i + 1));
                    i = i + 1;
                }
                None
            },
            _ => None,
        }
    }

    pub fn as_str(&self) -> (r: Option<&String>)
        ensures
            match r {
                Some(s) => as_str(self@) == Some(s@),
                None => as_str(self@) is None,
            },
    {
        match self {
            Json::Str(s) => Some(s),
            _ => None,
        }
    }

    pub fn as_bool(&self) -> (r: Option<bool>)
        ensures
            r == as_bool(self@),
    {
        match self {
            Json::Bool(b) => Some(*b),
            _ => None,
        }
    }

    pub fn as_i64(&self) -> (r: Option<i64>)
        ensures
            match r {
                Some(n) => as_i64(self@) == Some(n as int),
                None => as_i64(self@) is None,
            },
    {
        match self {
            Json::Int(i) => Some(*i),
            Json::UInt(u) => if *u <= i64::MAX as u64 {
                Some(*u as i64)
            } else {
                None
            },
            _ => None,
        }
    }

    pub fn as_array(&self) -> (r: Option<&Vec<Json>>)
        ensures
            match r {
                Some(items) => as_array(self@) == Some(items_view(items@)),
                None => as_array(self@) is None,
            },
    {
        match self {
            Json::Array(items) => {
                proof {
                    lemma_array_view(*items);
                }
                Some(items)
            },
            _ => None,
        }
    }

    /// The member `key`, when it is a string.
    pub fn str_field(&self, key: &str) -> (r: Option<&String>)
        ensures
            match r {
                Some(s) => get_str(self@, key@) == Some(s@),
                None => get_str(self@, key@) is None,
            },
    {
        match self.get(key) {
            Some(v) => v.as_str(),
            None => None,
        }
    }

    /// Whether this is an object whose "type" member is the string `name`.
    pub fn has_type(&self, name: &str) -> (r: bool)
        ensures
            r == has_type(self@, name@),
    {
        match self.str_field("type") {
            Some(t) => text_eq(t.as_str(), name),
            None => false,
        }
    }

    /// A string value.
    pub fn text(s: &str) -> (r: Json)
        ensures
            r@ == JsonV::Str(s@),
    {
        Json::Str(owned(s))
    }
}


/// The position of the first member named `key`, or -1.
pub open spec fn member_index(ms: Seq<(Seq<char>, JsonV)>, key: Seq<char>) -> int
    decreases ms.len(),
{
    if ms.len() == 0 {
        -1
    } else if ms[0].0 == key {
        0
    } else {
        let r = member_index(ms.drop_first(), key);
        if r < 0 {
            -1
        } else {
            r + 1
        }
    }
}

/// The members with `key` set to `v`: its member replaced when there is one, else added at
/// the end (the rule of a map's `insert`).
pub open spec fn insert_member(ms: Seq<(Seq<char>, JsonV)>, key: Seq<char>, v: JsonV) -> Seq<(Seq<char>, JsonV)> {
    let i = member_index(ms, key);
    if i < 0 {
        ms.push((key, v))
    } else {
        ms.update(i, (key, v))
    }
}

pub proof fn lemma_member_index(ms: Seq<(Seq<char>, JsonV)>, key: Seq<char>)
    ensures
        -1 <= member_index(ms, key) < ms.len(),
        member_index(ms, key) >= 0 ==> ms[member_index(ms, key)].0 == key,
        forall|j: int| 0 <= j < ms.len() && (member_index(ms, key) < 0 || j < member_index(ms, key))
            ==> (#[trigger] ms[j]).0 != key,
    decreases ms.len(),
{
    if ms.len() > 0 && ms[0].0 != key {
        lemma_member_index(ms.drop_first(), key);
        assert forall|j: int| 0 <= j < ms.len() && (member_index(ms, key) < 0 || j < member_index(ms, key))
            implies (#[trigger] ms[j]).0 != key by {
            if j > 0 {
                assert(ms.drop_first()[j - 1] == ms[j]);
            }
        }
    }
}

proof fn lemma_lookup_first(ms: Seq<(Seq<char>, JsonV)>, key: Seq<char>, i: int)
    requires
        0 <= i < ms.len(),
        ms[i].0 == key,
        forall|j: int| 0 <= j < i ==> (#[trigger] ms[j]).0 != key,
    ensures
        lookup(ms, key) == Some(ms[i].1),
    decreases i,
{
    if i > 0 {
        lemma_lookup_first(ms.drop_first(), key, i - 1);
    }
}

proof fn lemma_lookup_absent(ms: Seq<(Seq<char>, JsonV)>, key: Seq<char>)
    requires
        forall|j: int| 0 <= j < ms.len() ==> (#[trigger] ms[j]).0 != key,
    ensures
        lookup(ms, key) is None,
    decreases ms.len(),
{
    if ms.len() > 0 {
        lemma_lookup_absent(ms.drop_first(), key);
    }
}

/// Reading a member after setting it gives back the value set, and every other member reads
/// as it did before.
pub proof fn lemma_insert_member_reads(
    ms: Seq<(Seq<char>, JsonV)>,
    key: Seq<char>,
    v: JsonV,
    other: Seq<char>,
)
    ensures
        lookup(insert_member(ms, key, v), key) == Some(v),
        other != key ==> lookup(insert_member(ms, key, v), other) == lookup(ms, other),
{
    lemma_member_index(ms, key);
    let i = member_index(ms, key);
    let r = insert_member(ms, key, v);
    if i < 0 {
        lemma_lookup_first(r, key, ms.len() as int);
    } else {
        lemma_lookup_first(r, key, i);
    }
    if other != key {
        lemma_member_index(ms, other);
        lemma_member_index(r, other);
        let a = member_index(ms, other);
        if a >= 0 {
            assert(r[a].0 == other);
            assert forall|j: int| 0 <= j < a implies (#[trigger] r[j]).0 != other by {
                assert(j != i ==> r[j] == ms[j]);
            }
            lemma_lookup_first(r, other, a);
            lemma_lookup_first(ms, other, a);
        } else {
            assert forall|j: int| 0 <= j < r.len() implies (#[trigger] r[j]).0 != other by {
                if j < ms.len() && j != i {
                    assert(r[j] == ms[j]);
                }
            }
            lemma_lookup_absent(r, other);
            lemma_lookup_absent(ms, other);
        }
    }
}

/// Sets the member `key` of an object's members to `value`.
pub fn set_member(ms: &mut Vec<(String, Json)>, key: &str, value: Json)
    ensures
        members_view(final(ms)@) == insert_member(members_view(old(ms)@), key@, value@),
{
    let ghost mv = members_view(ms@);
    proof {
        lemma_member_index(mv, key@);
    }
    let mut i: usize = 0;
    while i < ms.len()
        invariant
            ms@ == old(ms)@,
            mv == members_view(ms@),
            i <= ms.len(),
            forall|j: int| 0 <= j < i ==> (#[trigger] mv[j]).0 != key@,
            -1 <= member_index(mv, key@) < mv.len(),
            member_index(mv, key@) >= 0 ==> mv[member_index(mv, key@)].0 == key@,
            forall|j: int| 0 <= j < mv.len() && (member_index(mv, key@) < 0 || j < member_index(mv, key@))
                ==> (#[trigger] mv[j]).0 != key@,
        decreases ms.len() - i,
    {
        if text_eq(ms[i].0.as_str(), key) {
            assert(mv[i as int].0 == ms@[i as int].0@);
            assert(member_index(mv, key@) == i);
            ms.set(i, (owned(key), value));
            assert(members_view(ms@) =~= insert_member(mv, key@, value@));
            return;
        }
        i = i + 1;
    }
    assert(member_index(mv, key@) < 0);
    ms.push((owned(key), value));
    assert(members_view(ms@) =~= insert_member(mv, key@, value@));
}

/// An object with the given members.
pub fn object(ms: Vec<(String, Json)>) -> (r: Json)
    ensures
        r@ == JsonV::Object(members_view(ms@)),
{
    proof {
        lemma_object_view(ms);
    }
    Json::Object(ms)
}

/// An array with the given items.
pub fn array(items: Vec<Json>) -> (r: Json)
    ensures
        r@ == JsonV::Array(items_view(items@)),
{
    proof {
        lemma_array_view(items);
    }
    Json::Array(items)
}

/// A deep copy of a list of values.
pub fn copy_all(items: &Vec<Json>) -> (r: Vec<Json>)
    ensures
        items_view(r@) == items_view(items@),
{
    let mut out: Vec<Json> = Vec::new();
    let mut i: usize = 0;
    while i < items.len()
        invariant
            i <= items.len(),
            out@.len() == i,
            forall|j: int| 0 <= j < i ==> (#[trigger] out@[j])@ == items@[j]@,
        decreases items.len() - i,
    {
        let c = items[i].copy();
        out.push(c);
        i = i + 1;
    }
    assert(items_view(out@) =~= items_view(items@));
    out
}

/// serde_json's own JSON value, which the parser produces.
#[verifier::external_type_specification]
#[verifier::external_body]
pub struct ExValue(serde_json::Value);

/// The JSON value a text holds, as serde_json reads it, or nothing when the text is not JSON.
pub uninterp spec fn json_of_text(text: Seq<char>) -> Option<JsonV>;

/// The JSON value a byte string holds, as serde_json reads it, or nothing when the bytes are
/// not JSON (or not UTF-8).
pub uninterp spec fn json_of_bytes(bytes: Seq<u8>) -> Option<JsonV>;

/// Turns a value of serde_json into a `Json`, variant for variant: an integer that fits `i64`
/// becomes `Int`, a larger one `UInt`, any other number `Float` with serde_json's text of it;
/// object members keep serde_json's order. It holds no rule of its own; it serves the two
/// parsers below, whose contracts state what the pair gives.
#[verifier::external_body]
fn json_from_value(v: serde_json::Value) -> Json {
    match v {
        serde_json::Value::Null => Json::Null,
        serde_json::Value::Bool(b) => Json::Bool(b),
        serde_json::Value::Number(n) => match (n.as_i64(), n.as_u64()) {
            (Some(i), _) => Json::Int(i),
            (None, Some(u)) => Json::UInt(u),
            (None, None) => Json::Float(n.to_string()),
        },
        serde_json::Value::String(s) => Json::Str(s),
        serde_json::Value::Array(a) => Json::Array(a.into_iter().map(json_from_value).collect()),
        serde_json::Value::Object(m) => Json::Object(m.into_iter().map(|(k, x)| (k, json_from_value(x))).collect()),
    }
}

/// Calls `serde_json::from_str::<serde_json::Value>` and converts the value. Trusted: the
/// result is `json_of_text(text)`, which depends on the text alone; the JSON grammar that
/// serde_json accepts is not stated.
#[verifier::external_body]
pub(crate) fn parse_json(text: &str) -> (r: Option<Json>)
    ensures
        match r {
            Some(j) => json_of_text(text@) == Some(j@),
            None => json_of_text(text@) is None,
        },
{
    match serde_json::from_str::<serde_json::Value>(text) {
        Ok(v) => Some(json_from_value(v)),
        Err(_) => None,
    }
}

/// Calls `serde_json::from_slice::<serde_json::Value>` and converts the value. Trusted: the
/// result is `json_of_bytes(bytes)`, which depends on the bytes alone; the grammar is not
/// stated.
#[verifier::external_body]
pub(crate) fn parse_json_bytes(bytes: &[u8]) -> (r: Option<Json>)
    ensures
        match r {
            Some(j) => json_of_bytes(bytes@) == Some(j@),
            None => json_of_bytes(bytes@) is None,
        },
{
    match serde_json::from_slice::<serde_json::Value>(bytes) {
        Ok(v) => Some(json_from_value(v)),
        Err(_) => None,
    }
}

} // verus!
