//! A JSON value, as default values and unit-struct representations carry
//! it.

use vstd::prelude::*;

verus! {

/// A JSON number, kept in the form it was written in.
///
/// Integers keep their value; a number with a fraction or an exponent
/// keeps its text, since nothing in typespace computes with it.
#[derive(Debug, PartialEq, Eq)]
pub enum JsonNumber {
    /// A non-negative integer.
    PosInt(u64),
    /// A negative integer.
    NegInt(i64),
    /// Any other number, as written.
    Float(String),
}

/// A JSON value.
#[derive(Debug, PartialEq, Eq)]
pub enum JsonValue {
    Null,
    Bool(bool),
    Number(JsonNumber),
    String(String),
    Array(Vec<JsonValue>),
    /// The members of an object, in the order they were written.
    Object(Vec<JsonMember>),
}

/// One member of a JSON object.
#[derive(Debug, PartialEq, Eq)]
pub struct JsonMember {
    pub key: String,
    pub value: JsonValue,
}

/// Whether the object with these members has a member named `key`.
pub open spec fn members_have_key(members: Seq<JsonMember>, key: Seq<char>) -> bool {
    exists|i: int| 0 <= i < members.len() && (#[trigger] members[i]).key@ == key
}

/// A JSON number as a mathematical value.
pub enum JsonNum {
    Pos(u64),
    Neg(i64),
    Other(Seq<char>),
}

/// A JSON value as a mathematical value: strings are character
/// sequences, arrays sequences of values, objects sequences of key-value
/// pairs in order.
pub enum Json {
    Null,
    Bool(bool),
    Number(JsonNum),
    Text(Seq<char>),
    Arr(Seq<Json>),
    Obj(Seq<(Seq<char>, Json)>),
}

/// The number `n` stands for.
pub open spec fn num_of(n: JsonNumber) -> JsonNum {
    match n {
        JsonNumber::PosInt(u) => JsonNum::Pos(u),
        JsonNumber::NegInt(i) => JsonNum::Neg(i),
        JsonNumber::Float(t) => JsonNum::Other(t@),
    }
}

/// The value `v` stands for.
pub open spec fn json_of(v: JsonValue) -> Json
    decreases v, 1nat,
{
    match v {
        JsonValue::Null => Json::Null,
        JsonValue::Bool(b) => Json::Bool(b),
        JsonValue::Number(n) => Json::Number(num_of(n)),
        JsonValue::String(t) => Json::Text(t@),
        JsonValue::Array(items) => {
            proof {
                vstd::std_specs::vec::axiom_vec_decreases_to_view(items);
                assert(decreases_to!(v => items));
            }
            Json::Arr(arr_of(items@))
        },
        JsonValue::Object(ms) => {
            proof {
                vstd::std_specs::vec::axiom_vec_decreases_to_view(ms);
                assert(decreases_to!(v => ms));
            }
            Json::Obj(obj_of(ms@))
        },
    }
}

/// The values a sequence of array items stands for.
pub open spec fn arr_of(items: Seq<JsonValue>) -> Seq<Json>
    decreases items, 0nat,
{
    Seq::new(
        items.len(),
        |i: int|
            if 0 <= i < items.len() {
                json_of(items[i])
            } else {
                Json::Null
            },
    )
}

/// The key-value pairs a sequence of object members stands for.
pub open spec fn obj_of(ms: Seq<JsonMember>) -> Seq<(Seq<char>, Json)>
    decreases ms, 0nat,
{
    Seq::new(
        ms.len(),
        |i: int|
            if 0 <= i < ms.len() {
                proof {
                    assert(decreases_to!(ms[i] => ms[i].value));
                }
                (ms[i].key@, json_of(ms[i].value))
            } else {
                (Seq::empty(), Json::Null)
            },
    )
}

/// Whether two numbers are the same.
pub fn number_equal(a: &JsonNumber, b: &JsonNumber) -> (r: bool)
    ensures
        r == (num_of(*a) == num_of(*b)),
{
    match (a, b) {
        (JsonNumber::PosInt(x), JsonNumber::PosInt(y)) => *x == *y,
        (JsonNumber::NegInt(x), JsonNumber::NegInt(y)) => *x == *y,
        (JsonNumber::Float(x), JsonNumber::Float(y)) => str_equal(x.as_str(), y.as_str()),
        _ => false,
    }
}

/// Whether two values are the same JSON value.
pub fn json_equal(a: &JsonValue, b: &JsonValue) -> (r: bool)
    ensures
        r == (json_of(*a) == json_of(*b)),
    decreases a,
{
    match (a, b) {
        (JsonValue::Null, JsonValue::Null) => true,
        (JsonValue::Bool(x), JsonValue::Bool(y)) => *x == *y,
        (JsonValue::Number(x), JsonValue::Number(y)) => number_equal(x, y),
        (JsonValue::String(x), JsonValue::String(y)) => str_equal(x.as_str(), y.as_str()),
        (JsonValue::Array(xs), JsonValue::Array(ys)) => {
            if xs.len() != ys.len() {
                proof {
                    assert(arr_of(xs@).len() != arr_of(ys@).len());
                }
                return false;
            }
            let mut i: usize = 0;
            while i < xs.len()
                invariant
                    i <= xs@.len(),
                    xs@.len() == ys@.len(),
                    *a == JsonValue::Array(*xs),
                    *b == JsonValue::Array(*ys),
                    forall|k: int| 0 <= k < i ==> json_of(#[trigger] xs@[k]) == json_of(ys@[k]),
                decreases xs@.len() - i,
            {
                proof {
                    vstd::std_specs::vec::axiom_vec_index_decreases(*xs, i as int);
                    assert(decreases_to!(*a => (*a)->Array_0));
                }
                if !json_equal(&xs[i], &ys[i]) {
                    proof {
                        assert(arr_of(xs@)[i as int] != arr_of(ys@)[i as int]);
                    }
                    return false;
                }
                i = i + 1;
            }
            proof {
                assert(arr_of(xs@) =~= arr_of(ys@));
            }
            true
        },
        (JsonValue::Object(xs), JsonValue::Object(ys)) => {
            if xs.len() != ys.len() {
                proof {
                    assert(obj_of(xs@).len() != obj_of(ys@).len());
                }
                return false;
            }
            let mut i: usize = 0;
            while i < xs.len()
                invariant
                    i <= xs@.len(),
                    xs@.len() == ys@.len(),
                    *a == JsonValue::Object(*xs),
                    *b == JsonValue::Object(*ys),
                    forall|k: int| 0 <= k < i ==> (#[trigger] xs@[k]).key@ == ys@[k].key@ && json_of(xs@[k].value) == json_of(
                        ys@[k].value,
                    ),
                decreases xs@.len() - i,
            {
                proof {
                    vstd::std_specs::vec::axiom_vec_index_decreases(*xs, i as int);
                    assert(decreases_to!(*a => (*a)->Object_0));
                    assert(decreases_to!(xs[i as int] => xs[i as int].value));
                }
                if !str_equal(xs[i].key.as_str(), ys[i].key.as_str()) || !json_equal(&xs[i].value, &ys[i].value) {
                    proof {
                        assert(obj_of(xs@)[i as int] != obj_of(ys@)[i as int]);
                    }
                    return false;
                }
                i = i + 1;
            }
            proof {
                assert(obj_of(xs@) =~= obj_of(ys@));
            }
            true
        },
        _ => false,
    }
}

impl JsonValue {
    /// Whether the value is an object.
    pub open spec fn is_object(self) -> bool {
        self is Object
    }

    /// The members of an object value.
    pub fn as_object(&self) -> (r: Option<&Vec<JsonMember>>)
        ensures
            r is Some <==> self is Object,
            r matches Some(m) ==> self == JsonValue::Object(*m),
    {
        match self {
            JsonValue::Object(members) => Some(members),
            _ => None,
        }
    }

    /// Whether the value is `null`.
    pub fn is_null(&self) -> (b: bool)
        ensures
            b == (self is Null),
    {
        matches!(self, JsonValue::Null)
    }
}

impl JsonNumber {
    /// A copy of the number.
    pub fn duplicate(&self) -> (r: Self)
        ensures
            r == *self,
    {
        match self {
            JsonNumber::PosInt(n) => JsonNumber::PosInt(*n),
            JsonNumber::NegInt(n) => JsonNumber::NegInt(*n),
            JsonNumber::Float(text) => JsonNumber::Float(text.clone()),
        }
    }
}

impl JsonValue {
    /// A copy of the value; scalars are copied exactly, arrays and objects
    /// member by member.
    pub fn duplicate(&self) -> (r: Self)
        ensures
            !(self is Array || self is Object) ==> r == *self,
            self is Array <==> r is Array,
            self is Object <==> r is Object,
            json_of(r) == json_of(*self),
        decreases self,
    {
        match self {
            JsonValue::Null => JsonValue::Null,
            JsonValue::Bool(b) => JsonValue::Bool(*b),
            JsonValue::Number(n) => JsonValue::Number(n.duplicate()),
            JsonValue::String(text) => JsonValue::String(text.clone()),
            JsonValue::Array(items) => {
                let mut out: Vec<JsonValue> = Vec::new();
                let mut i: usize = 0;
                while i < items.len()
                    invariant
                        i <= items@.len(),
                        *self == JsonValue::Array(*items),
                        out@.len() == i,
                        forall|k: int| 0 <= k < i ==> json_of(#[trigger] out@[k]) == json_of(items@[k]),
                    decreases items@.len() - i,
                {
                    proof {
                        vstd::std_specs::vec::axiom_vec_index_decreases(*items, i as int);
                        assert(decreases_to!(*self => (*self)->Array_0));
                    }
                    out.push(items[i].duplicate());
                    i = i + 1;
                }
                proof {
                    assert(arr_of(out@) =~= arr_of(items@));
                }
                JsonValue::Array(out)
            },
            JsonValue::Object(members) => {
                let mut out: Vec<JsonMember> = Vec::new();
                let mut i: usize = 0;
                while i < members.len()
                    invariant
                        i <= members@.len(),
                        *self == JsonValue::Object(*members),
                        out@.len() == i,
                        forall|k: int| 0 <= k < i ==> (#[trigger] out@[k]).key@ == members@[k].key@ && json_of(out@[k].value) == json_of(
                            members@[k].value,
                        ),
                    decreases members@.len() - i,
                {
                    proof {
                        vstd::std_specs::vec::axiom_vec_index_decreases(*members, i as int);
                        assert(decreases_to!(*self => (*self)->Object_0));
                        assert(decreases_to!(members[i as int] => members[i as int].value));
                    }
                    let m = JsonMember { key: members[i].key.clone(), value: members[i].value.duplicate() };
                    out.push(m);
                    i = i + 1;
                }
                proof {
                    assert(obj_of(out@) =~= obj_of(members@));
                }
                JsonValue::Object(out)
            },
        }
    }
}

impl Clone for JsonNumber {
    fn clone(&self) -> (r: Self)
        ensures
            r == *self,
    {
        self.duplicate()
    }
}

impl Clone for JsonValue {
    fn clone(&self) -> (r: Self) {
        self.duplicate()
    }
}

impl Clone for JsonMember {
    fn clone(&self) -> (r: Self) {
        JsonMember { key: self.key.clone(), value: self.value.duplicate() }
    }
}

/// Whether an object with these members has a member named `key`.
pub fn object_contains_key(members: &Vec<JsonMember>, key: &str) -> (b: bool)
    ensures
        b == members_have_key(members@, key@),
{
    let mut i: usize = 0;
    while i < members.len()
        invariant
            i <= members@.len(),
            forall|j: int| 0 <= j < i ==> (#[trigger] members@[j]).key@ != key@,
        decreases members@.len() - i,
    {
        if str_equal(members[i].key.as_str(), key) {
            return true;
        }
        i = i + 1;
    }
    false
}

/// Whether two strings hold the same characters.
pub fn str_equal(a: &str, b: &str) -> (r: bool)
    ensures
        r == (a@ == b@),
{
    let a_owned = a.to_owned();
    let b_owned = b.to_owned();
    a_owned == b_owned
}

} // verus!
