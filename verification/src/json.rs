//! A plain model of the JSON values that task metadata and tool arguments
//! carry. Numbers keep their textual form, so no floating point is needed.
use vstd::prelude::*;

use crate::text::{chars_of, str_eq};

verus! {

/// A JSON value. `Object` keeps its members in order; lookups take the
/// first member with a key.
#[derive(Debug)]
pub enum Json {
    Null,
    Bool(bool),
    Number(String),
    Str(String),
    Array(Vec<Json>),
    /// Member keys and member values, position by position.
    Object(Vec<String>, Vec<Json>),
}

/// The mathematical value of a `Json`.
pub enum JsonV {
    Null,
    Bool(bool),
    Number(Seq<char>),
    Str(Seq<char>),
    Array(Seq<JsonV>),
    Object(Seq<Seq<char>>, Seq<JsonV>),
}

impl View for Json {
    type V = JsonV;

    open spec fn view(&self) -> JsonV
        decreases self,
    {
        match self {
            Json::Null => JsonV::Null,
            Json::Bool(b) => JsonV::Bool(*b),
            Json::Number(t) => JsonV::Number(t@),
            Json::Str(t) => JsonV::Str(t@),
            Json::Array(items) => JsonV::Array(
                Seq::new(
                    items.len() as nat,
                    |i: int|
                        if 0 <= i < items.len() {
                            items@[i].view()
                        } else {
                            JsonV::Null
                        },
                ),
            ),
            Json::Object(keys, values) => JsonV::Object(
                keys.deep_view(),
                Seq::new(
                    values.len() as nat,
                    |i: int|
                        if 0 <= i < values.len() {
                            values@[i].view()
                        } else {
                            JsonV::Null
                        },
                ),
            ),
        }
    }
}

/// The values of a sequence of `Json`.
pub open spec fn items_view(items: Seq<Json>) -> Seq<JsonV> {
    Seq::new(items.len(), |i: int| items[i]@)
}

/// The view of an array or object is built from the views of its parts.
pub proof fn lemma_view_parts(j: Json)
    ensures
        j matches Json::Object(keys, values) ==> j@ == JsonV::Object(keys.deep_view(), items_view(values@)),
        j matches Json::Array(items) ==> j@ == JsonV::Array(items_view(items@)),
{
    match j {
        Json::Object(keys, values) => {
            assert(j@->Object_1 =~= items_view(values@));
        },
        Json::Array(items) => {
            assert(j@->Array_0 =~= items_view(items@));
        },
        _ => {},
    }
}

/// The value of the first member with key `key`, among the members at
/// positions `i` and later.
pub open spec fn members_get(keys: Seq<Seq<char>>, values: Seq<JsonV>, key: Seq<char>, i: int) -> Option<JsonV>
    decreases keys.len() - i,
{
    if i < 0 || i >= keys.len() || i >= values.len() {
        None
    } else if keys[i] == key {
        Some(values[i])
    } else {
        members_get(keys, values, key, i + 1)
    }
}

/// `value.get(key)`: the member of an object, `None` for anything else.
pub open spec fn json_get(j: JsonV, key: Seq<char>) -> Option<JsonV> {
    match j {
        JsonV::Object(keys, values) => members_get(keys, values, key, 0),
        _ => None,
    }
}

/// `value[key]`: like `json_get`, with `Null` for a missing member.
pub open spec fn json_at(j: JsonV, key: Seq<char>) -> JsonV {
    match json_get(j, key) {
        Some(v) => v,
        None => JsonV::Null,
    }
}

/// `as_str`.
pub open spec fn json_str(j: JsonV) -> Option<Seq<char>> {
    match j {
        JsonV::Str(s) => Some(s),
        _ => None,
    }
}

/// `as_bool`.
pub open spec fn json_bool(j: JsonV) -> Option<bool> {
    match j {
        JsonV::Bool(b) => Some(b),
        _ => None,
    }
}

/// Whether a character is an ASCII decimal digit.
pub open spec fn is_digit(c: char) -> bool {
    '0' <= c && c <= '9'
}

/// The value of a string of decimal digits.
pub open spec fn digits_value(s: Seq<char>) -> nat
    decreases s.len(),
{
    if s.len() == 0 {
        0
    } else {
        digits_value(s.drop_last()) * 10 + ((s.last() as u32) - ('0' as u32)) as nat
    }
}

/// The unsigned integer a decimal text denotes, when it is one that fits in
/// 64 bits.
pub open spec fn parse_u64_spec(s: Seq<char>) -> Option<u64> {
    if s.len() > 0 && (forall|i: int| 0 <= i < s.len() ==> is_digit(#[trigger] s[i]))
        && digits_value(s) <= u64::MAX {
        Some(digits_value(s) as u64)
    } else {
        None
    }
}

/// `as_u64`: a number that is a non-negative integer in range.
pub open spec fn json_u64(j: JsonV) -> Option<u64> {
    match j {
        JsonV::Number(text) => parse_u64_spec(text),
        _ => None,
    }
}

/// Parses a text of decimal digits into a `u64`.
pub fn parse_u64(s: &str) -> (r: Option<u64>)
    ensures
        r == parse_u64_spec(s@),
{
    let x = chars_of(s);
    if x.len() == 0 {
        return None;
    }
    let mut value: u64 = 0;
    let mut i: usize = 0;
    while i < x.len()
        invariant
            i <= x.len(),
            x@ == s@,
            forall|k: int| 0 <= k < i ==> is_digit(#[trigger] x@[k]),
            value as nat == digits_value(x@.take(i as int)),
        decreases x.len() - i,
    {
        let c = x[i];
        if !('0' <= c && c <= '9') {
            return None;
        }
        let d = (c as u32 - '0' as u32) as u64;
        proof {
            assert(x@.take(i + 1).drop_last() =~= x@.take(i as int));
            assert(digits_value(x@.take(i + 1)) == value * 10 + d);
        }
        if value > 1844674407370955161u64 || (value == 1844674407370955161u64 && d > 5) {
            proof {
                lemma_digits_grow(x@, i as int + 1);
                assert(x@.take(x@.len() as int) =~= x@);
            }
            return None;
        }
        value = value * 10 + d;
        i = i + 1;
    }
    proof {
        assert(x@.take(x@.len() as int) =~= x@);
    }
    Some(value)
}

proof fn lemma_digits_grow(s: Seq<char>, i: int)
    requires
        0 <= i <= s.len(),
    ensures
        digits_value(s.take(i)) <= digits_value(s),
    decreases s.len() - i,
{
    if i < s.len() {
        lemma_digits_grow(s, i + 1);
        assert(s.take(i + 1).drop_last() =~= s.take(i));
    } else {
        assert(s.take(i) =~= s);
    }
}

impl Json {
    /// `get`: the first member of an object with this key.
    pub fn get(&self, key: &str) -> (r: Option<&Json>)
        ensures
            match r {
                Some(v) => json_get(self@, key@) == Some(v@),
                None => json_get(self@, key@) is None,
            },
    {
        match self {
            Json::Object(keys, values) => {
                proof {
                    lemma_view_parts(*self);
                }
                let mut i: usize = 0;
                while i < keys.len() && i < values.len()
                    invariant
                        i <= keys.len(),
                        json_get(self@, key@) == members_get(keys.deep_view(), items_view(values@), key@, i as int),
                    decreases keys.len() - i,
                {
                    if str_eq(keys[i].as_str(), key) {
                        return Some(&values[i]);
                    }
                    i = i + 1;
                }
                None
            },
            _ => None,
        }
    }

    /// `as_str`.
    pub fn as_str(&self) -> (r: Option<&String>)
        ensures
            match r {
                Some(s) => json_str(self@) == Some(s@),
                None => json_str(self@) is None,
            },
    {
        match self {
            Json::Str(s) => Some(s),
            _ => None,
        }
    }

    /// `as_bool`.
    pub fn as_bool(&self) -> (r: Option<bool>)
        ensures
            r == json_bool(self@),
    {
        match self {
            Json::Bool(b) => Some(*b),
            _ => None,
        }
    }

    /// `as_u64`.
    pub fn as_u64(&self) -> (r: Option<u64>)
        ensures
            r == json_u64(self@),
    {
        match self {
            Json::Number(text) => parse_u64(text.as_str()),
            _ => None,
        }
    }

    /// A string member of an object: `value[key].as_str()`.
    pub fn str_field(&self, key: &str) -> (r: Option<&String>)
        ensures
            match r {
                Some(s) => json_str(json_at(self@, key@)) == Some(s@),
                None => json_str(json_at(self@, key@)) is None,
            },
    {
        match self.get(key) {
            Some(v) => v.as_str(),
            None => None,
        }
    }

    /// A structural copy of the value.
    pub fn deep_copy(&self) -> (r: Json)
        ensures
            r@ == self@,
        decreases self,
    {
        match self {
            Json::Null => Json::Null,
            Json::Bool(b) => Json::Bool(*b),
            Json::Number(t) => Json::Number(t.clone()),
            Json::Str(t) => Json::Str(t.clone()),
            Json::Array(items) => {
                let mut out: Vec<Json> = Vec::new();
                let mut i: usize = 0;
                while i < items.len()
                    invariant
                        i <= items.len(),
                        out.len() == i,
                        *self == Json::Array(*items),
                        forall|k: int| 0 <= k < i ==> out@[k]@ == items@[k]@,
                    decreases items.len() - i,
                {
                    proof {
                        broadcast use vstd::std_specs::vec::axiom_vec_index_decreases;
                        assert(decreases_to!(*items => items[i as int]));
                        assert(decreases_to!(*self => (*self)->Array_0));
                        assert((*self)->Array_0 == *items);
                        assert(decreases_to!(*self => items[i as int]));
                    }
                    let item = items[i].deep_copy();
                    out.push(item);
                    i = i + 1;
                }
                let r = Json::Array(out);
                proof {
                    lemma_view_parts(r);
                    lemma_view_parts(*self);
                    assert(items_view(out@) =~= items_view(items@));
                }
                r
            },
            Json::Object(keys, values) => {
                let mut out: Vec<Json> = Vec::new();
                let mut i: usize = 0;
                while i < values.len()
                    invariant
                        i <= values.len(),
                        out.len() == i,
                        *self == Json::Object(*keys, *values),
                        forall|k: int| 0 <= k < i ==> out@[k]@ == values@[k]@,
                    decreases values.len() - i,
                {
                    proof {
                        broadcast use vstd::std_specs::vec::axiom_vec_index_decreases;
                        assert(decreases_to!(*values => values[i as int]));
                        assert(decreases_to!(*self => (*self)->Object_1));
                        assert((*self)->Object_1 == *values);
                        assert(decreases_to!(*self => values[i as int]));
                    }
                    let value = values[i].deep_copy();
                    out.push(value);
                    i = i + 1;
                }
                let r = Json::Object(crate::text::copy_strings(keys), out);
                proof {
                    lemma_view_parts(r);
                    lemma_view_parts(*self);
                    assert(items_view(out@) =~= items_view(values@));
                    assert(r->Object_0.deep_view() =~= keys.deep_view());
                }
                r
            },
        }
    }
}

impl Clone for Json {
    fn clone(&self) -> (r: Self)
        ensures
            r@ == self@,
    {
        self.deep_copy()
    }
}

/// A copy of an optional value.
pub fn copy_opt_json(j: &Option<Json>) -> (r: Option<Json>)
    ensures
        opt_json_view(r) == opt_json_view(*j),
{
    match j {
        Some(v) => Some(v.deep_copy()),
        None => None,
    }
}

/// The value of an optional `Json`.
pub open spec fn opt_json_view(j: Option<Json>) -> Option<JsonV> {
    match j {
        Some(v) => Some(v@),
        None => None,
    }
}

/// The members of an object with `key` set to `value`: the first member with
/// that key gets the value in place, or the member is appended.
pub open spec fn members_insert(keys: Seq<Seq<char>>, values: Seq<JsonV>, key: Seq<char>, value: JsonV) -> (Seq<Seq<char>>, Seq<JsonV>) {
    let k = keys.index_of_first(key);
    match k {
        Some(k) => (keys, values.update(k, value)),
        None => (keys.push(key), values.push(value)),
    }
}

/// Sets a member of an object (`Map::insert`).
pub fn object_insert(keys: &mut Vec<String>, values: &mut Vec<Json>, key: String, value: Json)
    requires
        old(keys).len() == old(values).len(),
    ensures
        final(keys).len() == final(values).len(),
        (final(keys).deep_view(), items_view(final(values)@)) == members_insert(
            old(keys).deep_view(),
            items_view(old(values)@),
            key@,
            value@,
        ),
{
    let ghost kv = keys.deep_view();
    let mut i: usize = 0;
    while i < keys.len()
        invariant
            i <= keys.len(),
            keys@ == old(keys)@,
            values@ == old(values)@,
            keys.len() == values.len(),
            kv == keys.deep_view(),
            forall|j: int| 0 <= j < i ==> kv[j] != key@,
        decreases keys.len() - i,
    {
        if str_eq(keys[i].as_str(), key.as_str()) {
            proof {
                kv.index_of_first_ensures(key@);
                assert(kv[i as int] == key@);
                assert(kv.contains(key@));
            }
            let ghost vv = value@;
            values.set(i, value);
            assert(items_view(values@) =~= items_view(old(values)@).update(i as int, vv));
            return;
        }
        i = i + 1;
    }
    proof {
        kv.index_of_first_ensures(key@);
    }
    let ghost k = key@;
    let ghost vv = value@;
    keys.push(key);
    values.push(value);
    assert(keys.deep_view() =~= kv.push(k));
    assert(items_view(values@) =~= items_view(old(values)@).push(vv));
}

/// The first member of an object with key `key` is the one `index_of_first`
/// finds, provided it has a value.
pub proof fn lemma_members_get_first(keys: Seq<Seq<char>>, values: Seq<JsonV>, key: Seq<char>)
    ensures
        members_get(keys, values, key, 0) == match keys.index_of_first(key) {
            Some(k) => if k < values.len() {
                Some(values[k])
            } else {
                None::<JsonV>
            },
            None => None::<JsonV>,
        },
{
    keys.index_of_first_ensures(key);
    lemma_members_get_from(keys, values, key, 0);
}

proof fn lemma_members_get_from(keys: Seq<Seq<char>>, values: Seq<JsonV>, key: Seq<char>, i: int)
    requires
        0 <= i,
        forall|j: int| 0 <= j < i && j < keys.len() ==> keys[j] != key,
    ensures
        members_get(keys, values, key, i) == match keys.index_of_first(key) {
            Some(k) => if k < values.len() {
                Some(values[k])
            } else {
                None::<JsonV>
            },
            None => None::<JsonV>,
        },
    decreases keys.len() - i,
{
    keys.index_of_first_ensures(key);
    if i >= keys.len() || i >= values.len() {
        match keys.index_of_first(key) {
            Some(k) => {
                assert(keys[k] == key);
            },
            None => {},
        }
    } else if keys[i] == key {
        match keys.index_of_first(key) {
            Some(k) => {
                assert(k == i);
            },
            None => {
                assert(keys.contains(key));
            },
        }
    } else {
        lemma_members_get_from(keys, values, key, i + 1);
    }
}

/// The position of the first key equal to `key`.
pub fn member_index(keys: &Vec<String>, key: &str) -> (r: Option<usize>)
    ensures
        match r {
            Some(k) => keys.deep_view().index_of_first(key@) == Some(k as int),
            None => keys.deep_view().index_of_first(key@) is None,
        },
{
    let ghost kv = keys.deep_view();
    proof {
        kv.index_of_first_ensures(key@);
    }
    let mut i: usize = 0;
    while i < keys.len()
        invariant
            i <= keys.len(),
            kv == keys.deep_view(),
            forall|j: int| 0 <= j < i ==> kv[j] != key@,
            match kv.index_of_first(key@) {
                Some(index) => {
                    &&& kv.contains(key@)
                    &&& 0 <= index < kv.len()
                    &&& kv[index] == key@
                    &&& forall|j: int| 0 <= j < index < kv.len() ==> kv[j] != key@
                },
                None => !kv.contains(key@),
            },
        decreases keys.len() - i,
    {
        if str_eq(keys[i].as_str(), key) {
            assert(kv[i as int] == key@);
            assert(kv.contains(key@));
            return Some(i);
        }
        i = i + 1;
    }
    proof {
        if kv.index_of_first(key@) is Some {
            assert(kv[kv.index_of_first(key@)->0] == key@);
        }
    }
    None
}

/// An object with one member.
pub fn single_member(key: &str, value: Json) -> (r: Json)
    ensures
        r@ == JsonV::Object(seq![key@], seq![value@]),
{
    let mut keys: Vec<String> = Vec::new();
    keys.push(crate::text::owned(key));
    let mut values: Vec<Json> = Vec::new();
    let ghost vv = value@;
    values.push(value);
    let r = Json::Object(keys, values);
    proof {
        lemma_view_parts(r);
        assert(keys.deep_view() =~= seq![key@]);
        assert(items_view(values@) =~= seq![vv]);
    }
    r
}

/// An object with two members.
pub fn two_members(k1: &str, v1: Json, k2: &str, v2: Json) -> (r: Json)
    ensures
        r@ == JsonV::Object(seq![k1@, k2@], seq![v1@, v2@]),
{
    let mut keys: Vec<String> = Vec::new();
    keys.push(crate::text::owned(k1));
    keys.push(crate::text::owned(k2));
    let ghost a = v1@;
    let ghost b = v2@;
    let mut values: Vec<Json> = Vec::new();
    values.push(v1);
    values.push(v2);
    let r = Json::Object(keys, values);
    proof {
        lemma_view_parts(r);
        assert(keys.deep_view() =~= seq![k1@, k2@]);
        assert(items_view(values@) =~= seq![a, b]);
    }
    r
}

/// An object with three members.
pub fn three_members(k1: &str, v1: Json, k2: &str, v2: Json, k3: &str, v3: Json) -> (r: Json)
    ensures
        r@ == JsonV::Object(seq![k1@, k2@, k3@], seq![v1@, v2@, v3@]),
{
    let mut keys: Vec<String> = Vec::new();
    keys.push(crate::text::owned(k1));
    keys.push(crate::text::owned(k2));
    keys.push(crate::text::owned(k3));
    let ghost a = v1@;
    let ghost b = v2@;
    let ghost c = v3@;
    let mut values: Vec<Json> = Vec::new();
    values.push(v1);
    values.push(v2);
    values.push(v3);
    let r = Json::Object(keys, values);
    proof {
        lemma_view_parts(r);
        assert(keys.deep_view() =~= seq![k1@, k2@, k3@]);
        assert(items_view(values@) =~= seq![a, b, c]);
    }
    r
}

/// The indented JSON text that `serde_json::to_string_pretty` writes for a
/// value.
pub uninterp spec fn pretty_text(j: JsonV) -> Seq<char>;

/// `serde_json::to_string_pretty` of the value's `serde_json` form:
/// claimed to give `pretty_text` of the value (a `Value` always serializes).
#[verifier::external_body]
pub fn pretty(j: &Json) -> (r: String)
    ensures
        r@ == pretty_text(j@),
{
    serde_json::to_string_pretty(&serde_value(j)).unwrap_or_default()
}

/// What `serde_json` reads from a text as a `Value`, in the model (object
/// members in key order, numbers in the text `Display` gives them), or the
/// text of its error.
pub uninterp spec fn json_parse(text: Seq<char>) -> Result<JsonV, Seq<char>>;

/// The model of a `serde_json::Value`, variant by variant. Nothing is
/// stated of the result.
#[verifier::external_body]
fn json_of_serde(v: &serde_json::Value) -> Json {
    match v {
        serde_json::Value::Null => Json::Null,
        serde_json::Value::Bool(b) => Json::Bool(*b),
        serde_json::Value::Number(n) => Json::Number(n.to_string()),
        serde_json::Value::String(t) => Json::Str(t.clone()),
        serde_json::Value::Array(items) => Json::Array(items.iter().map(json_of_serde).collect()),
        serde_json::Value::Object(m) => Json::Object(m.keys().cloned().collect(), m.values().map(json_of_serde).collect()),
    }
}

/// `serde_json::from_str::<Value>`: claimed to give `json_parse(text)`, the
/// error as its `Display` text.
#[verifier::external_body]
pub fn parse_json(text: &str) -> (r: Result<Json, String>)
    ensures
        match json_parse(text@) {
            Ok(j) => r matches Ok(x) && x@ == j,
            Err(m) => r matches Err(e) && e@ == m,
        },
{
    match serde_json::from_str::<serde_json::Value>(text) {
        Ok(v) => Ok(json_of_serde(&v)),
        Err(e) => Err(e.to_string()),
    }
}

/// A hexadecimal digit, lower case.
pub open spec fn hex_digit(d: nat) -> char {
    if d < 10 {
        crate::text::digit_char(d)
    } else if d == 10 {
        'a'
    } else if d == 11 {
        'b'
    } else if d == 12 {
        'c'
    } else if d == 13 {
        'd'
    } else if d == 14 {
        'e'
    } else {
        'f'
    }
}

/// A hexadecimal digit, lower case.
pub fn hex(d: u32) -> (c: char)
    requires
        d < 16,
    ensures
        c == hex_digit(d as nat),
{
    if d < 10 {
        if d == 0 { '0' } else if d == 1 { '1' } else if d == 2 { '2' } else if d == 3 { '3' } else if d == 4 { '4' }
        else if d == 5 { '5' } else if d == 6 { '6' } else if d == 7 { '7' } else if d == 8 { '8' } else { '9' }
    } else if d == 10 {
        'a'
    } else if d == 11 {
        'b'
    } else if d == 12 {
        'c'
    } else if d == 13 {
        'd'
    } else if d == 14 {
        'e'
    } else {
        'f'
    }
}

/// The compact JSON text that `serde_json` writes for a value
/// (`Value::to_string`).
pub uninterp spec fn compact_text(j: JsonV) -> Seq<char>;

#[verifier::external_type_specification]
#[verifier::external_body]
pub struct ExSerdeValue(serde_json::Value);

/// The `serde_json::Value` of a value, member by member; a number's text
/// becomes a `serde_json::Number` by its `FromStr`, `null` where that
/// refuses it. Nothing is stated of the result.
#[verifier::external_body]
fn serde_value(j: &Json) -> serde_json::Value {
    match j {
        Json::Null => serde_json::Value::Null,
        Json::Bool(b) => serde_json::Value::Bool(*b),
        Json::Number(t) => match t.parse::<serde_json::Number>() {
            Ok(n) => serde_json::Value::Number(n),
            Err(_) => serde_json::Value::Null,
        },
        Json::Str(t) => serde_json::Value::String(t.clone()),
        Json::Array(items) => serde_json::Value::Array(items.iter().map(serde_value).collect()),
        Json::Object(keys, values) => serde_json::Value::Object(
            keys.iter().cloned().zip(values.iter().map(serde_value)).collect(),
        ),
    }
}

/// `serde_json::Value::to_string` of the value's `serde_json` form: claimed
/// to give `compact_text` of the value, a function of the value alone.
#[verifier::external_body]
pub fn compact(j: &Json) -> (r: String)
    ensures
        r@ == compact_text(j@),
{
    serde_value(j).to_string()
}

/// The `i64` a text denotes (`str::parse::<i64>`): an optional sign, then
/// decimal digits, in range.
pub open spec fn parse_i64_spec(s: Seq<char>) -> Option<i64> {
    if s.len() > 0 && s[0] == '-' {
        match parse_u64_spec(s.skip(1)) {
            Some(v) => if v <= 9223372036854775808u64 {
                Some((0 - v) as i64)
            } else {
                None
            },
            None => None,
        }
    } else {
        let d = if s.len() > 0 && s[0] == '+' {
            s.skip(1)
        } else {
            s
        };
        match parse_u64_spec(d) {
            Some(v) => if v <= 9223372036854775807u64 {
                Some(v as i64)
            } else {
                None
            },
            None => None,
        }
    }
}

/// Parses a signed decimal integer.
pub fn parse_i64(s: &str) -> (r: Option<i64>)
    ensures
        r == parse_i64_spec(s@),
{
    let x = chars_of(s);
    let negative = x.len() > 0 && x[0] == '-';
    let start: usize = if x.len() > 0 && (x[0] == '-' || x[0] == '+') {
        1
    } else {
        0
    };
    let d = crate::text::string_of(&x[start..x.len()]);
    assert(d@ =~= x@.skip(start as int));
    proof {
        if start == 0 {
            assert(x@.skip(0) =~= x@);
        }
    }
    let u = parse_u64(d.as_str());
    match u {
        None => None,
        Some(v) => {
            if negative {
                if v <= 9223372036854775807u64 {
                    Some(0 - (v as i64))
                } else if v == 9223372036854775808u64 {
                    Some(i64::MIN)
                } else {
                    None
                }
            } else if v <= 9223372036854775807u64 {
                Some(v as i64)
            } else {
                None
            }
        },
    }
}

} // verus!
