//! A JSON document model: the values that serde_json's `Value` holds, with
//! every number kept as its integer form (when it has one) and its binary64
//! form.

use vstd::prelude::*;

use crate::binary64::{is_nan, order_key, Binary64};
use crate::text::{lemma_seq_lt_irreflexive, lemma_seq_lt_transitive, seq_lt, str_eq};

use serde_json::Number;
use serde_json::Value;

verus! {

/// A JSON number as serde_json holds it.
#[derive(Clone, Copy, Debug)]
pub enum JsonNumber {
    /// A non-negative integer, with its binary64 conversion.
    NonNegative(u64, Binary64),
    /// A negative integer, with its binary64 conversion.
    Negative(i64, Binary64),
    /// A finite number that is not held as an integer.
    Float(Binary64),
}

impl JsonNumber {
    /// The integer, if the number is a non-negative integer.
    pub open spec fn spec_as_u64(self) -> Option<u64> {
        match self {
            JsonNumber::NonNegative(n, _) => Some(n),
            _ => None,
        }
    }

    /// The binary64 value of the number.
    pub open spec fn spec_as_f64(self) -> Binary64 {
        match self {
            JsonNumber::NonNegative(_, f) => f,
            JsonNumber::Negative(_, f) => f,
            JsonNumber::Float(f) => f,
        }
    }

    /// Number equality: integers by value, other numbers by IEEE 754
    /// equality, and never an integer with a non-integer.
    pub open spec fn spec_eq(self, other: JsonNumber) -> bool {
        match (self, other) {
            (JsonNumber::NonNegative(a, _), JsonNumber::NonNegative(b, _)) => a == b,
            (JsonNumber::Negative(a, _), JsonNumber::Negative(b, _)) => a == b,
            (JsonNumber::Float(a), JsonNumber::Float(b)) => !is_nan(a.bits) && !is_nan(b.bits)
                && order_key(a.bits) == order_key(b.bits),
            _ => false,
        }
    }

    /// Returns the integer if the number is a non-negative integer.
    pub fn as_u64(&self) -> (res: Option<u64>)
        ensures
            res == self.spec_as_u64(),
    {
        match self {
            JsonNumber::NonNegative(n, _) => Some(*n),
            _ => None,
        }
    }

    /// Returns the binary64 value of the number.
    pub fn as_f64(&self) -> (res: Binary64)
        ensures
            res == self.spec_as_f64(),
    {
        match self {
            JsonNumber::NonNegative(_, f) => *f,
            JsonNumber::Negative(_, f) => *f,
            JsonNumber::Float(f) => *f,
        }
    }

    /// Compares two numbers as serde_json does.
    pub fn equals(&self, other: &JsonNumber) -> (res: bool)
        ensures
            res == self.spec_eq(*other),
    {
        match (self, other) {
            (JsonNumber::NonNegative(a, _), JsonNumber::NonNegative(b, _)) => *a == *b,
            (JsonNumber::Negative(a, _), JsonNumber::Negative(b, _)) => *a == *b,
            (JsonNumber::Float(a), JsonNumber::Float(b)) => a.le(b) && b.le(a),
            _ => false,
        }
    }
}

/// A JSON value. Objects list their members in order; in a well-formed
/// value (`json_well_formed`), as serde_json parses them, keys ascend
/// strictly, so each key occurs once.
#[derive(Debug)]
pub enum JsonValue {
    Null,
    Bool(bool),
    Number(JsonNumber),
    String(String),
    Array(Vec<JsonValue>),
    Object(Vec<(String, JsonValue)>),
}

/// The value of the first member named `key`.
pub open spec fn find_member(members: Seq<(String, JsonValue)>, key: Seq<char>) -> Option<JsonValue>
    decreases members.len(),
{
    if members.len() == 0 {
        None
    } else if members[0].0@ == key {
        Some(members[0].1)
    } else {
        find_member(members.drop_first(), key)
    }
}

/// Deep equality of JSON values: same kind, equal scalars, element-wise
/// equal arrays, and objects with equal keys and values in the same order.
pub open spec fn json_eq(a: JsonValue, b: JsonValue) -> bool
    decreases a, 1nat,
{
    match (a, b) {
        (JsonValue::Null, JsonValue::Null) => true,
        (JsonValue::Bool(x), JsonValue::Bool(y)) => x == y,
        (JsonValue::Number(x), JsonValue::Number(y)) => x.spec_eq(y),
        (JsonValue::String(x), JsonValue::String(y)) => x@ == y@,
        (JsonValue::Array(x), JsonValue::Array(y)) => elements_eq(x@, y@),
        (JsonValue::Object(x), JsonValue::Object(y)) => members_eq(x@, y@),
        _ => false,
    }
}

/// Element-wise deep equality of two sequences of values.
pub open spec fn elements_eq(x: Seq<JsonValue>, y: Seq<JsonValue>) -> bool
    decreases x, 0nat,
{
    if x.len() != y.len() {
        false
    } else if x.len() == 0 {
        true
    } else {
        json_eq(x[0], y[0]) && elements_eq(x.drop_first(), y.drop_first())
    }
}

/// Member-wise equality of two objects.
pub open spec fn members_eq(x: Seq<(String, JsonValue)>, y: Seq<(String, JsonValue)>) -> bool
    decreases x, 0nat,
{
    if x.len() != y.len() {
        false
    } else if x.len() == 0 {
        true
    } else {
        x[0].0@ == y[0].0@ && json_eq(x[0].1, y[0].1) && members_eq(x.drop_first(), y.drop_first())
    }
}

} // verus!

verus! {

impl JsonValue {
    /// The member `key` of an object; `None` for other values.
    pub open spec fn spec_get(&self, key: Seq<char>) -> Option<JsonValue> {
        match self {
            JsonValue::Object(m) => find_member(m@, key),
            _ => None,
        }
    }

    /// The member `key` of an object, or `null` where there is none.
    pub open spec fn spec_index(&self, key: Seq<char>) -> JsonValue {
        match self.spec_get(key) {
            Some(v) => v,
            None => JsonValue::Null,
        }
    }

    /// The elements of an array.
    pub open spec fn spec_as_array(&self) -> Option<Seq<JsonValue>> {
        match self {
            JsonValue::Array(a) => Some(a@),
            _ => None,
        }
    }

    /// The text of a string.
    pub open spec fn spec_as_str(&self) -> Option<String> {
        match self {
            JsonValue::String(s) => Some(*s),
            _ => None,
        }
    }

    /// The value as a non-negative integer.
    pub open spec fn spec_as_u64(&self) -> Option<u64> {
        match self {
            JsonValue::Number(n) => n.spec_as_u64(),
            _ => None,
        }
    }

    /// The value as a binary64 number.
    pub open spec fn spec_as_f64(&self) -> Option<Binary64> {
        match self {
            JsonValue::Number(n) => Some(n.spec_as_f64()),
            _ => None,
        }
    }

    /// Returns the member `key` of an object (`Value::get` with a string key).
    #[verifier::loop_isolation(false)]
    pub fn get(&self, key: &str) -> (res: Option<&JsonValue>)
        ensures
            match res {
                Some(v) => self.spec_get(key@) == Some(*v),
                None => self.spec_get(key@) is None,
            },
    {
        match self {
            JsonValue::Object(members) => {
                let n = members.len();
                let mut i: usize = 0;
                assert(members@.skip(0) =~= members@);
                while i < n
                    invariant
                        n == members@.len(),
                        0 <= i <= n,
                        find_member(members@, key@) == find_member(members@.skip(i as int), key@),
                    decreases n - i,
                {
                    assert(members@.skip(i as int)[0] == members@[i as int]);
                    assert(members@.skip(i as int).drop_first() =~= members@.skip(i + 1));
                    if str_eq(members[i].0.as_str(), key) {
                        return Some(&members[i].1);
                    }
                    i = i + 1;
                }
                None
            },
            _ => None,
        }
    }

    /// Returns the elements of an array.
    pub fn as_array(&self) -> (res: Option<&Vec<JsonValue>>)
        ensures
            match res {
                Some(a) => self.spec_as_array() == Some(a@),
                None => self.spec_as_array() is None,
            },
    {
        match self {
            JsonValue::Array(a) => Some(a),
            _ => None,
        }
    }

    /// Returns the text of a string.
    pub fn as_str(&self) -> (res: Option<&String>)
        ensures
            match res {
                Some(s) => self.spec_as_str() == Some(*s),
                None => self.spec_as_str() is None,
            },
    {
        match self {
            JsonValue::String(s) => Some(s),
            _ => None,
        }
    }

    /// Returns the value as a non-negative integer.
    pub fn as_u64(&self) -> (res: Option<u64>)
        ensures
            res == self.spec_as_u64(),
    {
        match self {
            JsonValue::Number(n) => n.as_u64(),
            _ => None,
        }
    }

    /// Returns the value as a binary64 number.
    pub fn as_f64(&self) -> (res: Option<Binary64>)
        ensures
            res == self.spec_as_f64(),
    {
        match self {
            JsonValue::Number(n) => Some(n.as_f64()),
            _ => None,
        }
    }

    /// Compares two values member by member in order; on well-formed values,
    /// as every parsed document is, this is serde_json's `Value` equality.
    #[verifier::loop_isolation(false)]
    pub fn equals(&self, other: &JsonValue) -> (res: bool)
        ensures
            res == json_eq(*self, *other),
            json_well_formed(*self) && json_well_formed(*other) ==> res == json_same(*self, *other),
        decreases *self,
    {
        proof {
            if json_well_formed(*self) && json_well_formed(*other) {
                lemma_eq_is_same(*self, *other);
            }
        }
        match (self, other) {
            (JsonValue::Null, JsonValue::Null) => true,
            (JsonValue::Bool(x), JsonValue::Bool(y)) => *x == *y,
            (JsonValue::Number(x), JsonValue::Number(y)) => x.equals(y),
            (JsonValue::String(x), JsonValue::String(y)) => *x == *y,
            (JsonValue::Array(x), JsonValue::Array(y)) => {
                if x.len() != y.len() {
                    return false;
                }
                let n = x.len();
                let mut i: usize = 0;
                assert(x@.skip(0) =~= x@);
                assert(y@.skip(0) =~= y@);
                while i < n
                    invariant
                        n == x@.len(),
                        n == y@.len(),
                        0 <= i <= n,
                        elements_eq(x@, y@) == elements_eq(x@.skip(i as int), y@.skip(i as int)),
                    decreases n - i,
                {
                    assert(x@.skip(i as int)[0] == x@[i as int]);
                    assert(y@.skip(i as int)[0] == y@[i as int]);
                    assert(x@.skip(i as int).drop_first() =~= x@.skip(i + 1));
                    assert(y@.skip(i as int).drop_first() =~= y@.skip(i + 1));
                    assert(decreases_to!(*self => *x));
                    assert(decreases_to!(*x => x@));
                    assert(decreases_to!(x@ => x@[i as int]));
                    if !x[i].equals(&y[i]) {
                        return false;
                    }
                    i = i + 1;
                }
                true
            },
            (JsonValue::Object(x), JsonValue::Object(y)) => {
                if x.len() != y.len() {
                    return false;
                }
                let n = x.len();
                let mut i: usize = 0;
                assert(x@.skip(0) =~= x@);
                assert(y@.skip(0) =~= y@);
                while i < n
                    invariant
                        n == x@.len(),
                        n == y@.len(),
                        0 <= i <= n,
                        members_eq(x@, y@) == members_eq(x@.skip(i as int), y@.skip(i as int)),
                    decreases n - i,
                {
                    assert(x@.skip(i as int)[0] == x@[i as int]);
                    assert(y@.skip(i as int)[0] == y@[i as int]);
                    assert(x@.skip(i as int).drop_first() =~= x@.skip(i + 1));
                    assert(y@.skip(i as int).drop_first() =~= y@.skip(i + 1));
                    assert(decreases_to!(*self => *x));
                    assert(decreases_to!(*x => x@));
                    assert(decreases_to!(x@ => x@[i as int]));
                    assert(decreases_to!(x@[i as int] => x@[i as int].1));
                    if !(x[i].0 == y[i].0) || !x[i].1.equals(&y[i].1) {
                        return false;
                    }
                    i = i + 1;
                }
                true
            },
            _ => false,
        }
    }
}

} // verus!

verus! {

/// Whether every object in a value lists its members in strictly ascending
/// key order, so each key once.
pub open spec fn json_well_formed(v: JsonValue) -> bool
    decreases v, 1nat,
{
    match v {
        JsonValue::Array(x) => elements_well_formed(x@),
        JsonValue::Object(x) => members_well_formed(x@),
        _ => true,
    }
}

/// Whether every value of a sequence is well formed.
pub open spec fn elements_well_formed(x: Seq<JsonValue>) -> bool
    decreases x, 0nat,
{
    if x.len() == 0 {
        true
    } else {
        json_well_formed(x[0]) && elements_well_formed(x.drop_first())
    }
}

/// Whether the members of an object have strictly ascending keys and well
/// formed values.
pub open spec fn members_well_formed(x: Seq<(String, JsonValue)>) -> bool
    decreases x, 0nat,
{
    if x.len() == 0 {
        true
    } else {
        &&& json_well_formed(x[0].1)
        &&& (x.len() > 1 ==> seq_lt(x[0].0@, x[1].0@))
        &&& members_well_formed(x.drop_first())
    }
}

/// `serde_json::Value`, carried only through the parsing wrappers.
#[verifier::external_type_specification]
#[verifier::external_body]
pub struct ExValue(Value);

/// `serde_json::Number`, carried only through the parsing wrappers.
#[verifier::external_type_specification]
#[verifier::external_body]
pub struct ExNumber(Number);

/// The document that `serde_json::from_str::<Value>` parses from a text, or
/// the text of its error.
pub uninterp spec fn spec_parse_json(text: Seq<char>) -> Result<JsonValue, Seq<char>>;

/// The document that `serde_json::from_slice::<Value>` parses from bytes, or
/// the text of its error.
pub uninterp spec fn spec_parse_json_bytes(bytes: Seq<u8>) -> Result<JsonValue, Seq<char>>;

/// Converts one `serde_json` number: its integer form where it holds one,
/// and its `f64` value as an encoding.
#[verifier::external_body]
fn number_to_json(number: &Number) -> JsonNumber {
    let binary = Binary64 { bits: number.as_f64().map_or(u64::default(), |value| value.to_bits()) };
    match (number.as_u64(), number.as_i64()) {
        (Some(unsigned), _) => JsonNumber::NonNegative(unsigned, binary),
        (None, Some(signed)) => JsonNumber::Negative(signed, binary),
        (None, None) => JsonNumber::Float(binary),
    }
}

/// Converts one `serde_json` value, variant for variant; object members
/// come in the map's (ascending) key order.
#[verifier::external_body]
fn value_to_json(value: &Value) -> JsonValue {
    match value {
        Value::Null => JsonValue::Null,
        Value::Bool(flag) => JsonValue::Bool(*flag),
        Value::Number(number) => JsonValue::Number(number_to_json(number)),
        Value::String(text) => JsonValue::String(text.clone()),
        Value::Array(items) => JsonValue::Array(items.iter().map(value_to_json).collect()),
        Value::Object(map) => JsonValue::Object(map.iter().map(|(key, item)| (key.clone(), value_to_json(item))).collect()),
    }
}

/// Parses a JSON text with `serde_json::from_str::<Value>`. The result is a
/// function of the text (`spec_parse_json`); serde_json's map keeps its keys
/// in a `BTreeMap`, so every parsed object is well formed.
#[verifier::external_body]
pub(crate) fn parse_json(text: &str) -> (res: Result<JsonValue, String>)
    ensures
        match (res, spec_parse_json(text@)) {
            (Ok(v), Ok(w)) => v == w,
            (Err(e), Err(m)) => e@ == m,
            _ => false,
        },
        res matches Ok(v) ==> json_well_formed(v),
{
    serde_json::from_str::<Value>(text).map(|value| value_to_json(&value)).map_err(|error| error.to_string())
}

/// Parses JSON bytes with `serde_json::from_slice::<Value>`. The result is a
/// function of the bytes (`spec_parse_json_bytes`); every parsed object is
/// well formed, as for `parse_json`.
#[verifier::external_body]
pub(crate) fn parse_json_bytes(bytes: &[u8]) -> (res: Result<JsonValue, String>)
    ensures
        match (res, spec_parse_json_bytes(bytes@)) {
            (Ok(v), Ok(w)) => v == w,
            (Err(e), Err(m)) => e@ == m,
            _ => false,
        },
        res matches Ok(v) ==> json_well_formed(v),
{
    serde_json::from_slice::<Value>(bytes).map(|value| value_to_json(&value)).map_err(|error| error.to_string())
}

} // verus!

verus! {

/// Value equality as serde_json's `Value` defines it: objects compare as
/// maps, with the same number of members and, for each member of the one,
/// an equal value under the same key in the other.
pub open spec fn json_same(a: JsonValue, b: JsonValue) -> bool
    decreases a, 1nat,
{
    match (a, b) {
        (JsonValue::Null, JsonValue::Null) => true,
        (JsonValue::Bool(x), JsonValue::Bool(y)) => x == y,
        (JsonValue::Number(x), JsonValue::Number(y)) => x.spec_eq(y),
        (JsonValue::String(x), JsonValue::String(y)) => x@ == y@,
        (JsonValue::Array(x), JsonValue::Array(y)) => elements_same(x@, y@),
        (JsonValue::Object(x), JsonValue::Object(y)) => x@.len() == y@.len() && members_within(x@, y@),
        _ => false,
    }
}

/// Element-wise `json_same` of two sequences.
pub open spec fn elements_same(x: Seq<JsonValue>, y: Seq<JsonValue>) -> bool
    decreases x, 0nat,
{
    if x.len() != y.len() {
        false
    } else if x.len() == 0 {
        true
    } else {
        json_same(x[0], y[0]) && elements_same(x.drop_first(), y.drop_first())
    }
}

/// Whether each member of `x` has a `json_same` value under its key in `y`.
pub open spec fn members_within(x: Seq<(String, JsonValue)>, y: Seq<(String, JsonValue)>) -> bool
    decreases x, 0nat,
{
    if x.len() == 0 {
        true
    } else {
        match find_member(y, x[0].0@) {
            Some(v) => json_same(x[0].1, v) && members_within(x.drop_first(), y),
            None => false,
        }
    }
}

/// Whether the keys of `x` ascend strictly.
pub open spec fn sorted_keys(x: Seq<(String, JsonValue)>) -> bool {
    forall|i: int, j: int| 0 <= i < j < x.len() ==> seq_lt(#[trigger] x[i].0@, #[trigger] x[j].0@)
}

proof fn lemma_elements_eq_forall(x: Seq<JsonValue>, y: Seq<JsonValue>)
    ensures
        elements_eq(x, y) <==> (x.len() == y.len() && forall|i: int| 0 <= i < x.len() ==> json_eq(#[trigger] x[i], y[i])),
    decreases x.len(),
{
    if x.len() == y.len() && x.len() > 0 {
        lemma_elements_eq_forall(x.drop_first(), y.drop_first());
        if forall|i: int| 0 <= i < x.len() ==> json_eq(#[trigger] x[i], y[i]) {
            assert forall|i: int| 0 <= i < x.drop_first().len() implies json_eq(#[trigger] x.drop_first()[i], y.drop_first()[i]) by {
                assert(json_eq(x[i + 1], y[i + 1]));
            }
        }
        if elements_eq(x, y) {
            assert forall|i: int| 0 <= i < x.len() implies json_eq(#[trigger] x[i], y[i]) by {
                if i > 0 {
                    assert(json_eq(x.drop_first()[i - 1], y.drop_first()[i - 1]));
                }
            }
        }
    }
}

proof fn lemma_elements_same_forall(x: Seq<JsonValue>, y: Seq<JsonValue>)
    ensures
        elements_same(x, y) <==> (x.len() == y.len() && forall|i: int| 0 <= i < x.len() ==> json_same(#[trigger] x[i], y[i])),
    decreases x.len(),
{
    if x.len() == y.len() && x.len() > 0 {
        lemma_elements_same_forall(x.drop_first(), y.drop_first());
        if forall|i: int| 0 <= i < x.len() ==> json_same(#[trigger] x[i], y[i]) {
            assert forall|i: int| 0 <= i < x.drop_first().len() implies json_same(#[trigger] x.drop_first()[i], y.drop_first()[i]) by {
                assert(json_same(x[i + 1], y[i + 1]));
            }
        }
        if elements_same(x, y) {
            assert forall|i: int| 0 <= i < x.len() implies json_same(#[trigger] x[i], y[i]) by {
                if i > 0 {
                    assert(json_same(x.drop_first()[i - 1], y.drop_first()[i - 1]));
                }
            }
        }
    }
}

proof fn lemma_elements_wf_forall(x: Seq<JsonValue>)
    requires
        elements_well_formed(x),
    ensures
        forall|i: int| 0 <= i < x.len() ==> json_well_formed(#[trigger] x[i]),
    decreases x.len(),
{
    if x.len() > 0 {
        lemma_elements_wf_forall(x.drop_first());
        assert forall|i: int| 0 <= i < x.len() implies json_well_formed(#[trigger] x[i]) by {
            if i > 0 {
                assert(json_well_formed(x.drop_first()[i - 1]));
            }
        }
    }
}

proof fn lemma_members_wf_forall(x: Seq<(String, JsonValue)>)
    requires
        members_well_formed(x),
    ensures
        forall|i: int| 0 <= i < x.len() ==> json_well_formed(#[trigger] x[i].1),
        sorted_keys(x),
    decreases x.len(),
{
    if x.len() > 0 {
        let t = x.drop_first();
        lemma_members_wf_forall(t);
        assert forall|i: int| 0 <= i < x.len() implies json_well_formed(#[trigger] x[i].1) by {
            if i > 0 {
                assert(json_well_formed(t[i - 1].1));
            }
        }
        assert forall|i: int, j: int| 0 <= i < j < x.len() implies seq_lt(#[trigger] x[i].0@, #[trigger] x[j].0@) by {
            if i > 0 {
                assert(seq_lt(t[i - 1].0@, t[j - 1].0@));
            } else if j > 1 {
                assert(seq_lt(t[0].0@, t[j - 1].0@));
                lemma_seq_lt_transitive(x[0].0@, x[1].0@, x[j].0@);
            }
        }
    }
}

proof fn lemma_members_eq_forall(x: Seq<(String, JsonValue)>, y: Seq<(String, JsonValue)>)
    ensures
        members_eq(x, y) <==> (x.len() == y.len() && forall|i: int|
            0 <= i < x.len() ==> (#[trigger] x[i]).0@ == y[i].0@ && json_eq(x[i].1, y[i].1)),
    decreases x.len(),
{
    if x.len() == y.len() && x.len() > 0 {
        lemma_members_eq_forall(x.drop_first(), y.drop_first());
        if forall|i: int| 0 <= i < x.len() ==> (#[trigger] x[i]).0@ == y[i].0@ && json_eq(x[i].1, y[i].1) {
            assert forall|i: int| 0 <= i < x.drop_first().len() implies (#[trigger] x.drop_first()[i]).0@ == y.drop_first()[i].0@
                && json_eq(x.drop_first()[i].1, y.drop_first()[i].1) by {
                assert(x[i + 1].0@ == y[i + 1].0@);
            }
        }
        if members_eq(x, y) {
            assert forall|i: int| 0 <= i < x.len() implies (#[trigger] x[i]).0@ == y[i].0@ && json_eq(x[i].1, y[i].1) by {
                if i > 0 {
                    assert(x.drop_first()[i - 1].0@ == y.drop_first()[i - 1].0@);
                }
            }
        }
    }
}

proof fn lemma_members_within_forall(x: Seq<(String, JsonValue)>, y: Seq<(String, JsonValue)>)
    ensures
        members_within(x, y) <==> forall|i: int|
            0 <= i < x.len() ==> (find_member(y, (#[trigger] x[i]).0@) is Some && json_same(
                x[i].1,
                find_member(y, x[i].0@)->0,
            )),
    decreases x.len(),
{
    if x.len() > 0 {
        let t = x.drop_first();
        lemma_members_within_forall(t, y);
        if forall|i: int|
            0 <= i < x.len() ==> (find_member(y, (#[trigger] x[i]).0@) is Some && json_same(x[i].1, find_member(y, x[i].0@)->0)) {
            assert forall|i: int| 0 <= i < t.len() implies (find_member(y, (#[trigger] t[i]).0@) is Some && json_same(
                t[i].1,
                find_member(y, t[i].0@)->0,
            )) by {
                assert(t[i] == x[i + 1]);
            }
            assert(find_member(y, x[0].0@) is Some);
        }
        if members_within(x, y) {
            assert forall|i: int| 0 <= i < x.len() implies (find_member(y, (#[trigger] x[i]).0@) is Some && json_same(
                x[i].1,
                find_member(y, x[i].0@)->0,
            )) by {
                if i > 0 {
                    assert(t[i - 1] == x[i]);
                }
            }
        }
    }
}

/// In a sequence with strictly ascending keys, each key finds its own
/// member.
proof fn lemma_find_sorted(y: Seq<(String, JsonValue)>, i: int)
    requires
        sorted_keys(y),
        0 <= i < y.len(),
    ensures
        find_member(y, y[i].0@) == Some(y[i].1),
    decreases i,
{
    if i > 0 {
        assert(seq_lt(y[0].0@, y[i].0@));
        lemma_seq_lt_irreflexive(y[i].0@);
        let t = y.drop_first();
        assert forall|a: int, b: int| 0 <= a < b < t.len() implies seq_lt(#[trigger] t[a].0@, #[trigger] t[b].0@) by {
            assert(seq_lt(y[a + 1].0@, y[b + 1].0@));
        }
        lemma_find_sorted(t, i - 1);
    }
}

/// A key that finds a member names one of the members.
proof fn lemma_find_some(y: Seq<(String, JsonValue)>, k: Seq<char>)
    requires
        find_member(y, k) is Some,
    ensures
        exists|j: int| 0 <= j < y.len() && (#[trigger] y[j]).0@ == k,
    decreases y.len(),
{
    if y[0].0@ != k {
        lemma_find_some(y.drop_first(), k);
        let j = choose|j: int| 0 <= j < y.drop_first().len() && (#[trigger] y.drop_first()[j]).0@ == k;
        assert(y[j + 1] == y.drop_first()[j]);
    } else {
        assert(y[0].0@ == k);
    }
}

/// The index of a member with key `k`.
spec fn key_index(y: Seq<(String, JsonValue)>, k: Seq<char>) -> int {
    choose|j: int| 0 <= j < y.len() && (#[trigger] y[j]).0@ == k
}

/// Whether some member of `y` has key `k`.
spec fn has_key(y: Seq<(String, JsonValue)>, k: Seq<char>) -> bool {
    exists|j: int| 0 <= j < y.len() && (#[trigger] y[j]).0@ == k
}

/// Whether every key of `x` is a key of `y`.
spec fn keys_within(x: Seq<(String, JsonValue)>, y: Seq<(String, JsonValue)>) -> bool {
    forall|i: int| 0 <= i < x.len() ==> has_key(y, (#[trigger] x[i]).0@)
}

proof fn lemma_key_index_monotone(x: Seq<(String, JsonValue)>, y: Seq<(String, JsonValue)>, i: int, i2: int)
    requires
        sorted_keys(x),
        sorted_keys(y),
        keys_within(x, y),
        0 <= i < i2 < x.len(),
    ensures
        0 <= key_index(y, x[i].0@) < key_index(y, x[i2].0@) < y.len(),
{
    assert(has_key(y, x[i].0@));
    assert(has_key(y, x[i2].0@));
    let a = key_index(y, x[i].0@);
    let b = key_index(y, x[i2].0@);
    assert(seq_lt(x[i].0@, x[i2].0@));
    lemma_seq_lt_irreflexive(x[i].0@);
    if b < a {
        assert(seq_lt(y[b].0@, y[a].0@));
        lemma_seq_lt_transitive(x[i].0@, x[i2].0@, x[i].0@);
    }
}

proof fn lemma_key_index_lower(x: Seq<(String, JsonValue)>, y: Seq<(String, JsonValue)>, i: int)
    requires
        sorted_keys(x),
        sorted_keys(y),
        keys_within(x, y),
        0 <= i < x.len(),
    ensures
        i <= key_index(y, x[i].0@),
    decreases i,
{
    assert(has_key(y, x[i].0@));
    if i > 0 {
        lemma_key_index_lower(x, y, i - 1);
        lemma_key_index_monotone(x, y, i - 1, i);
    }
}

proof fn lemma_key_index_upper(x: Seq<(String, JsonValue)>, y: Seq<(String, JsonValue)>, i: int)
    requires
        sorted_keys(x),
        sorted_keys(y),
        keys_within(x, y),
        x.len() == y.len(),
        0 <= i < x.len(),
    ensures
        key_index(y, x[i].0@) <= i,
    decreases x.len() - i,
{
    assert(has_key(y, x[i].0@));
    if i + 1 < x.len() {
        lemma_key_index_upper(x, y, i + 1);
        lemma_key_index_monotone(x, y, i, i + 1);
    }
}

/// Two sequences with strictly ascending keys, of equal length, where
/// every key of the first is a key of the second, have the same keys in
/// the same order.
proof fn lemma_same_keys(x: Seq<(String, JsonValue)>, y: Seq<(String, JsonValue)>)
    requires
        sorted_keys(x),
        sorted_keys(y),
        keys_within(x, y),
        x.len() == y.len(),
    ensures
        forall|i: int| 0 <= i < x.len() ==> (#[trigger] x[i]).0@ == y[i].0@,
{
    assert forall|i: int| 0 <= i < x.len() implies (#[trigger] x[i]).0@ == y[i].0@ by {
        assert(has_key(y, x[i].0@));
        lemma_key_index_lower(x, y, i);
        lemma_key_index_upper(x, y, i);
    }
}

/// On well-formed values, the in-order comparison `json_eq` is serde_json's
/// equality `json_same`.
pub proof fn lemma_eq_is_same(a: JsonValue, b: JsonValue)
    requires
        json_well_formed(a),
        json_well_formed(b),
    ensures
        json_eq(a, b) == json_same(a, b),
    decreases a,
{
    match (a, b) {
        (JsonValue::Array(x), JsonValue::Array(y)) => {
            lemma_elements_wf_forall(x@);
            lemma_elements_wf_forall(y@);
            lemma_elements_eq_forall(x@, y@);
            lemma_elements_same_forall(x@, y@);
            if x@.len() == y@.len() {
                assert forall|i: int| 0 <= i < x@.len() implies json_eq(#[trigger] x@[i], y@[i]) == json_same(x@[i], y@[i]) by {
                    assert(decreases_to!(a => x));
                    assert(decreases_to!(x => x@));
                    assert(decreases_to!(x@ => x@[i]));
                    lemma_eq_is_same(x@[i], y@[i]);
                }
            }
        },
        (JsonValue::Object(x), JsonValue::Object(y)) => {
            let xs = x@;
            let ys = y@;
            lemma_members_wf_forall(xs);
            lemma_members_wf_forall(ys);
            lemma_members_eq_forall(xs, ys);
            lemma_members_within_forall(xs, ys);
            if xs.len() == ys.len() {
                assert forall|i: int| 0 <= i < xs.len() implies json_eq((#[trigger] xs[i]).1, ys[i].1) == json_same(xs[i].1, ys[i].1) by {
                    assert(decreases_to!(a => x));
                    assert(decreases_to!(x => x@));
                    assert(decreases_to!(x@ => x@[i]));
                    assert(decreases_to!(x@[i] => x@[i].1));
                    lemma_eq_is_same(xs[i].1, ys[i].1);
                }
                if json_eq(a, b) {
                    assert forall|i: int| 0 <= i < xs.len() implies (find_member(ys, (#[trigger] xs[i]).0@) is Some && json_same(
                        xs[i].1,
                        find_member(ys, xs[i].0@)->0,
                    )) by {
                        lemma_find_sorted(ys, i);
                        assert(json_eq(xs[i].1, ys[i].1));
                    }
                }
                if json_same(a, b) {
                    assert forall|i: int| 0 <= i < xs.len() implies has_key(ys, (#[trigger] xs[i]).0@) by {
                        assert(find_member(ys, xs[i].0@) is Some);
                        lemma_find_some(ys, xs[i].0@);
                    }
                    lemma_same_keys(xs, ys);
                    assert forall|i: int| 0 <= i < xs.len() implies (#[trigger] xs[i]).0@ == ys[i].0@ && json_eq(xs[i].1, ys[i].1) by {
                        lemma_find_sorted(ys, i);
                        assert(find_member(ys, xs[i].0@) is Some);
                    }
                }
            }
        },
        _ => {},
    }
}

} // verus!
