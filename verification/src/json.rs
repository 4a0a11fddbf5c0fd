//! JSON documents as plain values.
use vstd::prelude::*;

use crate::text::str_eq;

verus! {

/// A JSON number as it was written: a non-negative integer, a negative integer, or
/// anything else, by the bits of its double-precision value.
#[derive(Clone, Copy, Debug, PartialEq, Eq, Structural)]
pub enum JsonNumber {
    Unsigned(u64),
    Negative(i64),
    Float(u64),
}

/// A JSON document.
#[derive(Debug)]
pub enum Json {
    Null,
    Bool(bool),
    Num(JsonNumber),
    Str(String),
    Arr(Vec<Json>),
    Obj(Vec<(String, Json)>),
}

/// What a [`Json`] holds.
pub enum JsonV {
    Null,
    Bool(bool),
    Num(JsonNumber),
    Str(Seq<char>),
    Arr(Seq<JsonV>),
    Obj(Seq<(Seq<char>, JsonV)>),
}

pub open spec fn json_view(j: Json) -> JsonV
    decreases j,
{
    match j {
        Json::Null => JsonV::Null,
        Json::Bool(b) => JsonV::Bool(b),
        Json::Num(n) => JsonV::Num(n),
        Json::Str(s) => JsonV::Str(s@),
        Json::Arr(v) => JsonV::Arr(
            Seq::new(
                v@.len(),
                |i: int|
                    if 0 <= i < v@.len() {
                        json_view(v@[i])
                    } else {
                        JsonV::Null
                    },
            ),
        ),
        Json::Obj(v) => JsonV::Obj(
            Seq::new(
                v@.len(),
                |i: int|
                    if 0 <= i < v@.len() {
                        (v@[i].0@, json_view(v@[i].1))
                    } else {
                        (Seq::empty(), JsonV::Null)
                    },
            ),
        ),
    }
}

impl View for Json {
    type V = JsonV;

    open spec fn view(&self) -> JsonV {
        json_view(*self)
    }
}

// ---- Reading ---------------------------------------------------------------------------

/// The value of the first pair with the given key.
pub open spec fn lookup(o: Seq<(Seq<char>, JsonV)>, key: Seq<char>) -> Option<JsonV>
    decreases o.len(),
{
    if o.len() == 0 {
        None
    } else if o[0].0 == key {
        Some(o[0].1)
    } else {
        lookup(o.drop_first(), key)
    }
}

/// The member `key` of an object; nothing where `v` is no object or has no such member.
pub open spec fn field(v: JsonV, key: Seq<char>) -> Option<JsonV> {
    match v {
        JsonV::Obj(o) => lookup(o, key),
        _ => None,
    }
}

/// The member `inner` of the member `outer`.
pub open spec fn field2(v: JsonV, outer: Seq<char>, inner: Seq<char>) -> Option<JsonV> {
    match field(v, outer) {
        Some(m) => field(m, inner),
        None => None,
    }
}

pub open spec fn str_of(v: Option<JsonV>) -> Option<Seq<char>> {
    match v {
        Some(JsonV::Str(s)) => Some(s),
        _ => None,
    }
}

pub open spec fn bool_of(v: Option<JsonV>) -> Option<bool> {
    match v {
        Some(JsonV::Bool(b)) => Some(b),
        _ => None,
    }
}

pub open spec fn arr_of(v: Option<JsonV>) -> Option<Seq<JsonV>> {
    match v {
        Some(JsonV::Arr(a)) => Some(a),
        _ => None,
    }
}

pub open spec fn u64_of(v: Option<JsonV>) -> Option<u64> {
    match v {
        Some(JsonV::Num(JsonNumber::Unsigned(n))) => Some(n),
        _ => None,
    }
}

/// An integer that fits in 64 bits with a sign.
pub open spec fn i64_of(v: Option<JsonV>) -> Option<i64> {
    match v {
        Some(JsonV::Num(JsonNumber::Unsigned(n))) => if n <= i64::MAX {
            Some(n as i64)
        } else {
            None
        },
        Some(JsonV::Num(JsonNumber::Negative(n))) => Some(n),
        _ => None,
    }
}

pub open spec fn num_of(v: Option<JsonV>) -> Option<JsonNumber> {
    match v {
        Some(JsonV::Num(n)) => Some(n),
        _ => None,
    }
}

/// The view of an optional borrowed document.
pub open spec fn opt_json(v: Option<&Json>) -> Option<JsonV> {
    match v {
        Some(j) => Some(j@),
        None => None,
    }
}

/// The view of an optional document.
pub open spec fn opt_owned(v: Option<Json>) -> Option<JsonV> {
    match v {
        Some(j) => Some(j@),
        None => None,
    }
}

/// The views of a list of documents.
pub open spec fn json_views(v: Seq<Json>) -> Seq<JsonV> {
    Seq::new(v.len(), |i: int| v[i]@)
}

impl Json {
    /// The document that a text holds.
    pub fn parse(text: &str) -> (r: Option<Json>)
        ensures
            opt_owned(r) == json_document(text@),
            r matches Some(j) ==> json_size(j@) <= text@.len(),
    {
        parse_json(text)
    }

    /// The member `key`.
    pub fn get(&self, key: &str) -> (r: Option<&Json>)
        ensures
            opt_json(r) == field(self@, key@),
    {
        match self {
            Json::Obj(v) => {
                let ghost o = self@->Obj_0;
                assert(o.skip(0) =~= o);
                for i in 0..v.len()
                    invariant
                        self@ == JsonV::Obj(o),
                        *self == Json::Obj(*v),
                        o.len() == v@.len(),
                        forall|j: int|
                            0 <= j < v@.len() ==> #[trigger] o[j] == (v@[j].0@, v@[j].1@),
                        lookup(o, key@) == lookup(o.skip(i as int), key@),
                {
                    assert(o.skip(i as int).drop_first() =~= o.skip(i + 1));
                    assert(o.skip(i as int)[0] == o[i as int]);
                    if str_eq(v[i].0.as_str(), key) {
                        return Some(&v[i].1);
                    }
                }
                None
            },
            _ => None,
        }
    }

    /// The member `inner` of the member `outer`.
    pub fn get2(&self, outer: &str, inner: &str) -> (r: Option<&Json>)
        ensures
            opt_json(r) == field2(self@, outer@, inner@),
    {
        match self.get(outer) {
            Some(m) => m.get(inner),
            None => None,
        }
    }
}

pub fn as_str(v: Option<&Json>) -> (r: Option<&str>)
    ensures
        crate::text::opt_ref(r) == str_of(opt_json(v)),
{
    match v {
        Some(Json::Str(s)) => Some(s.as_str()),
        _ => None,
    }
}

pub fn as_bool(v: Option<&Json>) -> (r: Option<bool>)
    ensures
        r == bool_of(opt_json(v)),
{
    match v {
        Some(Json::Bool(b)) => Some(*b),
        _ => None,
    }
}

pub fn as_array(v: Option<&Json>) -> (r: Option<&Vec<Json>>)
    ensures
        match r {
            Some(a) => arr_of(opt_json(v)) == Some(json_views(a@)),
            None => arr_of(opt_json(v)) is None,
        },
{
    match v {
        Some(Json::Arr(a)) => {
            assert(arr_of(opt_json(v))->0 =~= json_views(a@));
            Some(a)
        },
        _ => None,
    }
}

pub fn as_u64(v: Option<&Json>) -> (r: Option<u64>)
    ensures
        r == u64_of(opt_json(v)),
{
    match v {
        Some(Json::Num(JsonNumber::Unsigned(n))) => Some(*n),
        _ => None,
    }
}

pub fn as_i64(v: Option<&Json>) -> (r: Option<i64>)
    ensures
        r == i64_of(opt_json(v)),
{
    match v {
        Some(Json::Num(JsonNumber::Unsigned(n))) => if *n <= i64::MAX as u64 {
            Some(*n as i64)
        } else {
            None
        },
        Some(Json::Num(JsonNumber::Negative(n))) => Some(*n),
        _ => None,
    }
}

pub fn as_number(v: Option<&Json>) -> (r: Option<JsonNumber>)
    ensures
        r == num_of(opt_json(v)),
{
    match v {
        Some(Json::Num(n)) => Some(*n),
        _ => None,
    }
}

// ---- Size ------------------------------------------------------------------------------

/// The number of values in a document, itself included.
pub open spec fn json_size(v: JsonV) -> nat
    decreases v,
{
    match v {
        JsonV::Arr(a) => 1 + sizes(a),
        JsonV::Obj(o) => 1 + member_sizes(o),
        _ => 1,
    }
}

pub open spec fn sizes(a: Seq<JsonV>) -> nat
    decreases a,
{
    if a.len() == 0 {
        0
    } else {
        sizes(a.drop_last()) + json_size(a.last())
    }
}

pub open spec fn member_sizes(o: Seq<(Seq<char>, JsonV)>) -> nat
    decreases o,
{
    if o.len() == 0 {
        0
    } else {
        json_size(o[0].1) + member_sizes(o.drop_first())
    }
}

/// A member is no larger than the object.
pub proof fn lemma_field_size(v: JsonV, key: Seq<char>)
    ensures
        field(v, key) matches Some(m) ==> json_size(m) < json_size(v),
{
    if let JsonV::Obj(o) = v {
        lemma_lookup_size(o, key);
    }
}

proof fn lemma_lookup_size(o: Seq<(Seq<char>, JsonV)>, key: Seq<char>)
    ensures
        lookup(o, key) matches Some(m) ==> json_size(m) <= member_sizes(o),
    decreases o.len(),
{
    if o.len() > 0 && o[0].0 != key {
        lemma_lookup_size(o.drop_first(), key);
    }
}

/// An array has no more elements than values.
pub proof fn lemma_sizes_len(a: Seq<JsonV>)
    ensures
        a.len() <= sizes(a),
    decreases a.len(),
{
    if a.len() > 0 {
        lemma_sizes_len(a.drop_last());
        let last = a.last();
        assert(json_size(last) >= 1);
    }
}

// ---- Laws ------------------------------------------------------------------------------

/// The member of an object is the first of its name; a member of another name does not hide
/// it; and what is no object has no members.
pub proof fn law_members_are_found_by_name(
    o: Seq<(Seq<char>, JsonV)>,
    key: Seq<char>,
    other: Seq<char>,
    v: JsonV,
    w: JsonV,
)
    requires
        other != key,
    ensures
        field(JsonV::Obj(seq![(key, v)] + o), key) == Some(v),
        field(JsonV::Obj(seq![(other, w)] + o), key) == field(JsonV::Obj(o), key),
        field(JsonV::Obj(Seq::empty()), key) is None,
        !(w is Obj) ==> field(w, key) is None,
        field(v, other) is None ==> field2(v, other, key) is None,
        field(v, other) == Some(w) ==> field2(v, other, key) == field(w, key),
{
    assert((seq![(other, w)] + o).drop_first() =~= o);
}

/// Each kind of value is read as itself and as nothing else. A number without a sign that
/// fits is read with a sign too, and a negative number only with one.
pub proof fn law_values_are_read_by_their_kind(
    b: bool,
    n: u64,
    m: i64,
    bits: u64,
    s: Seq<char>,
    a: Seq<JsonV>,
)
    ensures
        bool_of(Some(JsonV::Bool(b))) == Some(b),
        str_of(Some(JsonV::Str(s))) == Some(s),
        arr_of(Some(JsonV::Arr(a))) == Some(a),
        u64_of(Some(JsonV::Num(JsonNumber::Unsigned(n)))) == Some(n),
        n <= i64::MAX ==> i64_of(Some(JsonV::Num(JsonNumber::Unsigned(n)))) == Some(n as i64),
        n > i64::MAX ==> i64_of(Some(JsonV::Num(JsonNumber::Unsigned(n)))) is None,
        i64_of(Some(JsonV::Num(JsonNumber::Negative(m)))) == Some(m),
        u64_of(Some(JsonV::Num(JsonNumber::Negative(m)))) is None,
        u64_of(Some(JsonV::Num(JsonNumber::Float(bits)))) is None,
        i64_of(Some(JsonV::Num(JsonNumber::Float(bits)))) is None,
        num_of(Some(JsonV::Num(JsonNumber::Float(bits)))) == Some(JsonNumber::Float(bits)),
        str_of(None) is None && bool_of(None) is None && arr_of(None) is None && u64_of(
            None,
        ) is None && i64_of(None) is None && num_of(None) is None,
        str_of(Some(JsonV::Null)) is None && u64_of(Some(JsonV::Null)) is None && str_of(
            Some(JsonV::Num(JsonNumber::Unsigned(n))),
        ) is None && u64_of(Some(JsonV::Str(s))) is None && bool_of(Some(JsonV::Str(s))) is None
            && arr_of(Some(JsonV::Str(s))) is None,
{
}

/// A document is seen as it is.
pub proof fn law_documents_are_seen_as_they_are(j: Json, i: int)
    ensures
        j is Null ==> j@ == JsonV::Null,
        j matches Json::Bool(b) ==> j@ == JsonV::Bool(b),
        j matches Json::Num(n) ==> j@ == JsonV::Num(n),
        j matches Json::Str(s) ==> j@ == JsonV::Str(s@),
        j matches Json::Arr(v) ==> j@ is Arr && j@->Arr_0.len() == v@.len() && (0 <= i < v@.len()
            ==> j@->Arr_0[i] == v@[i]@),
        j matches Json::Obj(v) ==> j@ is Obj && j@->Obj_0.len() == v@.len() && (0 <= i < v@.len()
            ==> j@->Obj_0[i] == (v@[i].0@, v@[i].1@)),
{
}

// ---- Parsing ---------------------------------------------------------------------------

/// `serde_json::Value`, carried from the parser to the conversion below.
#[verifier::external_type_specification]
#[verifier::external_body]
pub struct ExValue(serde_json::Value);

/// `serde_json::Number`, a part of the above.
#[verifier::external_type_specification]
#[verifier::external_body]
pub struct ExNumber(serde_json::Number);

/// The document that `serde_json::from_str` reads from a text; nothing where it fails.
pub uninterp spec fn json_document(text: Seq<char>) -> Option<JsonV>;

/// Reads a text with `serde_json::from_str`.
///
/// Trusted: the outcome is a function of the text alone, and a document has no more
/// values than the text has characters, since the parser reads each value from a
/// stretch of the text of its own.
#[verifier::external_body]
pub(crate) fn parse_json(text: &str) -> (r: Option<Json>)
    ensures
        opt_owned(r) == json_document(text@),
        r matches Some(j) ==> json_size(j@) <= text@.len(),
{
    match serde_json::from_str::<serde_json::Value>(text) {
        Ok(v) => Some(json_of(v)),
        Err(_) => None,
    }
}

/// Converts a `serde_json::Value`, variant by variant; part of [`parse_json`], whose
/// contract speaks of the outcome.
#[verifier::external_body]
fn json_of(v: serde_json::Value) -> Json {
    match v {
        serde_json::Value::Null => Json::Null,
        serde_json::Value::Bool(b) => Json::Bool(b),
        serde_json::Value::Number(n) => Json::Num(number_of(n)),
        serde_json::Value::String(s) => Json::Str(s),
        serde_json::Value::Array(a) => Json::Arr(a.into_iter().map(json_of).collect()),
        serde_json::Value::Object(m) => Json::Obj(
            m.into_iter().map(|(k, v)| (k, json_of(v))).collect(),
        ),
    }
}

/// Converts a `serde_json::Number` by `as_u64`, `as_i64` and `as_f64`, the three forms
/// that a number can have there.
#[verifier::external_body]
fn number_of(n: serde_json::Number) -> JsonNumber {
    match (n.as_u64(), n.as_i64()) {
        (Some(u), _) => JsonNumber::Unsigned(u),
        (None, Some(i)) => JsonNumber::Negative(i),
        (None, None) => JsonNumber::Float(n.as_f64().map_or(0, |x| x.to_bits())),
    }
}

} // verus!
