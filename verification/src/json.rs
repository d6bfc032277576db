//! The document model, and the operations of `serde_json` that the comparison rests on.
//!
//! Documents are `serde_json::Value`s. Verus cannot look into one, so every contract of this
//! crate speaks of the mathematical document [`Json`] that a value holds, [`json_of`]. What this
//! module says of `serde_json` is assumed, not proved: each such item says in its comment which
//! function of `serde_json` it stands for.
use vstd::prelude::*;

verus! {

/// A JSON number, as `serde_json` holds one: an integer from zero up, an integer below zero, or a
/// finite binary floating-point number, which is given by its 64 bits in IEEE 754 layout.
pub enum Number {
    PosInt(u64),
    NegInt(i64),
    Float(u64),
}

impl Number {
    /// One of the two floating-point zeros, `0.0` and `-0.0`.
    pub open spec fn is_float_zero(self) -> bool {
        self == Number::Float(0) || self == Number::Float(0x8000_0000_0000_0000)
    }

    /// Equality of numbers: the same kind and the same numeric value. Two floating-point numbers
    /// have the same value when their bits agree or both are zero; an integer never equals a
    /// floating-point number.
    pub open spec fn same(self, other: Number) -> bool {
        self == other || (self.is_float_zero() && other.is_float_zero())
    }
}

/// The six shapes of a document.
#[derive(Clone, Copy, Debug, PartialEq, Eq, Structural)]
pub enum Kind {
    Null,
    Bool,
    Number,
    String,
    Array,
    Object,
}

/// A JSON document as a mathematical value.
pub enum Json {
    Null,
    Bool(bool),
    Number(Number),
    String(Seq<char>),
    Array(Seq<Json>),
    Object(Map<Seq<char>, Json>),
}

impl Json {
    /// The shape of the document.
    pub open spec fn kind(self) -> Kind {
        match self {
            Json::Null => Kind::Null,
            Json::Bool(_) => Kind::Bool,
            Json::Number(_) => Kind::Number,
            Json::String(_) => Kind::String,
            Json::Array(_) => Kind::Array,
            Json::Object(_) => Kind::Object,
        }
    }

    /// Deep equality of documents: the same shape throughout, the same keys in every object, and
    /// numbers equal in the sense of [`Number::same`].
    pub open spec fn same(self, other: Json) -> bool
        decreases self,
    {
        match (self, other) {
            (Json::Number(a), Json::Number(b)) => a.same(b),
            (Json::Array(a), Json::Array(b)) => {
                &&& a.len() == b.len()
                &&& forall|i: int| 0 <= i < a.len() ==> (#[trigger] a[i]).same(b[i])
            },
            (Json::Object(a), Json::Object(b)) => {
                &&& a.dom() =~= b.dom()
                &&& forall|key: Seq<char>| a.dom().contains(key) ==> (#[trigger] a[key]).same(b[key])
            },
            _ => self == other,
        }
    }
}

/// Whether `pairs` lists the entries of `map`: each pair is an entry, no key comes twice, and
/// every key of the map comes.
pub open spec fn lists_entries(pairs: Seq<(Seq<char>, Json)>, map: Map<Seq<char>, Json>) -> bool {
    &&& forall|i: int| 0 <= i < pairs.len() ==> map.contains_pair((#[trigger] pairs[i]).0, pairs[i].1)
    &&& forall|i: int, j: int|
        0 <= i < j < pairs.len() ==> (#[trigger] pairs[i]).0 != (#[trigger] pairs[j]).0
    &&& forall|key: Seq<char>| #[trigger]
        map.dom().contains(key) ==> exists|i: int| 0 <= i < pairs.len() && (#[trigger] pairs[i]).0 == key
}

/// The map without entries.
pub open spec fn no_entries() -> Map<Seq<char>, Json> {
    Map::empty()
}

/// The key and the document of one entry that `map_entries` hands out.
pub open spec fn entry_of(entry: (&String, &serde_json::Value)) -> (Seq<char>, Json) {
    (entry.0@, json_of(*entry.1))
}

/// `serde_json::Value`, a JSON document. Nothing of its inside is known but through the
/// functions below.
#[verifier::external_type_specification]
#[verifier::external_body]
pub struct ExValue(serde_json::Value);

/// `serde_json::Map`, the entries of a JSON object.
#[verifier::external_type_specification]
#[verifier::external_body]
#[verifier::reject_recursive_types(K)]
#[verifier::reject_recursive_types(V)]
pub struct ExMap<K, V>(serde_json::Map<K, V>);

/// `serde_json::Error`, what reading or printing a document fails with.
#[verifier::external_type_specification]
#[verifier::external_body]
pub struct ExError(serde_json::Error);

/// The document that a `serde_json::Value` holds.
pub uninterp spec fn json_of(value: serde_json::Value) -> Json;

/// The entries that a `serde_json::Map` holds, by key.
pub uninterp spec fn entries_of(map: serde_json::Map<String, serde_json::Value>) -> Map<Seq<char>, Json>;

/// What `serde_json::from_slice` makes of a text: the document it reads, or the message of the
/// error it reports.
pub uninterp spec fn parsed(text: Seq<u8>) -> Result<Json, Seq<char>>;

/// What `serde_json::to_string_pretty` makes of a document: its indented text, or the message of
/// the error it reports.
pub uninterp spec fn printed(document: Json) -> Result<Seq<char>, Seq<char>>;

/// The message that a `serde_json::Error` displays.
pub uninterp spec fn message_of(error: serde_json::Error) -> Seq<char>;

/// Tells the variants of `serde_json::Value` apart.
#[verifier::external_body]
pub(crate) fn kind_of(value: &serde_json::Value) -> (kind: Kind)
    ensures
        kind == json_of(*value).kind(),
{
    match value {
        serde_json::Value::Null => Kind::Null,
        serde_json::Value::Bool(_) => Kind::Bool,
        serde_json::Value::Number(_) => Kind::Number,
        serde_json::Value::String(_) => Kind::String,
        serde_json::Value::Array(_) => Kind::Array,
        serde_json::Value::Object(_) => Kind::Object,
    }
}

/// `==` of `serde_json::Value`, which `serde_json` derives for the value and its numbers hold by
/// kind and numeric value: deep equality of the two documents.
#[verifier::external_body]
pub(crate) fn value_eq(first: &serde_json::Value, second: &serde_json::Value) -> (equal: bool)
    ensures
        equal == json_of(*first).same(json_of(*second)),
{
    first == second
}

/// `Clone` of `serde_json::Value`: a value that holds the same document.
#[verifier::external_body]
pub(crate) fn clone_value(value: &serde_json::Value) -> (copy: serde_json::Value)
    ensures
        json_of(copy) == json_of(*value),
{
    value.clone()
}

/// `serde_json::Value::as_array`: the items of an array in their order, and nothing for a value
/// of any other shape.
#[verifier::external_body]
pub(crate) fn as_array(value: &serde_json::Value) -> (items: Option<&Vec<serde_json::Value>>)
    ensures
        items is Some <==> json_of(*value) is Array,
        items matches Some(v) ==> v@.map_values(|item: serde_json::Value| json_of(item)) == json_of(
            *value,
        )->Array_0,
{
    value.as_array()
}

/// `serde_json::Value::as_object`: the map of an object, and nothing for a value of any other
/// shape.
#[verifier::external_body]
pub(crate) fn as_object(value: &serde_json::Value) -> (map: Option<
    &serde_json::Map<String, serde_json::Value>,
>)
    ensures
        map is Some <==> json_of(*value) is Object,
        map matches Some(m) ==> entries_of(*m) == json_of(*value)->Object_0,
{
    value.as_object()
}

/// `serde_json::Map::iter`, collected into a vector: every entry of the map, once.
#[verifier::external_body]
pub(crate) fn map_entries<'a>(map: &'a serde_json::Map<String, serde_json::Value>) -> (entries: Vec<
    (&'a String, &'a serde_json::Value),
>)
    ensures
        lists_entries(
            entries@.map_values(|entry: (&String, &serde_json::Value)| entry_of(entry)),
            entries_of(*map),
        ),
{
    map.iter().collect()
}

/// `serde_json::Map::get`: the value under a key, if the map has the key.
#[verifier::external_body]
pub(crate) fn map_get<'a>(
    map: &'a serde_json::Map<String, serde_json::Value>,
    key: &String,
) -> (found: Option<&'a serde_json::Value>)
    ensures
        found is Some <==> entries_of(*map).dom().contains(key@),
        found matches Some(value) ==> json_of(*value) == entries_of(*map)[key@],
{
    map.get(key)
}

/// `serde_json::Map::contains_key`.
#[verifier::external_body]
pub(crate) fn map_contains_key(map: &serde_json::Map<String, serde_json::Value>, key: &String) -> (found:
    bool)
    ensures
        found == entries_of(*map).dom().contains(key@),
{
    map.contains_key(key)
}

/// `serde_json::Map::with_capacity`: a map without entries.
#[verifier::external_body]
pub(crate) fn map_with_capacity(capacity: usize) -> (map: serde_json::Map<String, serde_json::Value>)
    ensures
        entries_of(map) == no_entries(),
{
    serde_json::Map::with_capacity(capacity)
}

/// `serde_json::Map::insert`: the map holds the value under the key afterwards, in place of what
/// it held there, and its other entries as before. The value that it held there is handed back.
#[verifier::external_body]
pub(crate) fn map_insert(
    map: &mut serde_json::Map<String, serde_json::Value>,
    key: String,
    value: serde_json::Value,
) -> (replaced: Option<serde_json::Value>)
    ensures
        entries_of(*final(map)) == entries_of(*old(map)).insert(key@, json_of(value)),
        replaced is Some <==> entries_of(*old(map)).dom().contains(key@),
        replaced matches Some(former) ==> json_of(former) == entries_of(*old(map))[key@],
{
    map.insert(key, value)
}

/// `serde_json::Map::is_empty`.
#[verifier::external_body]
pub(crate) fn map_is_empty(map: &serde_json::Map<String, serde_json::Value>) -> (empty: bool)
    ensures
        empty == (entries_of(*map) == no_entries()),
{
    map.is_empty()
}

/// The variant `serde_json::Value::Null`.
#[verifier::external_body]
pub(crate) fn null_value() -> (value: serde_json::Value)
    ensures
        json_of(value) == Json::Null,
{
    serde_json::Value::Null
}

/// The variant `serde_json::Value::Array` around the items.
#[verifier::external_body]
pub(crate) fn array_value(items: Vec<serde_json::Value>) -> (value: serde_json::Value)
    ensures
        json_of(value) == Json::Array(items@.map_values(|item: serde_json::Value| json_of(item))),
{
    serde_json::Value::Array(items)
}

/// The variant `serde_json::Value::Object` around the map.
#[verifier::external_body]
pub(crate) fn object_value(map: serde_json::Map<String, serde_json::Value>) -> (value:
    serde_json::Value)
    ensures
        json_of(value) == Json::Object(entries_of(map)),
{
    serde_json::Value::Object(map)
}

/// `serde_json::from_slice`, for a `serde_json::Value`: the outcome depends on the text alone.
#[verifier::external_body]
pub(crate) fn from_slice(text: &[u8]) -> (outcome: Result<serde_json::Value, serde_json::Error>)
    ensures
        outcome matches Ok(value) ==> (parsed(text@) matches Ok(document) && document == json_of(value)),
        outcome matches Err(error) ==> (parsed(text@) matches Err(message) && message == message_of(error)),
{
    serde_json::from_slice(text)
}

/// `serde_json::to_string_pretty`, of a `serde_json::Value`: the outcome depends on the document
/// alone.
#[verifier::external_body]
pub(crate) fn to_string_pretty(value: &serde_json::Value) -> (outcome: Result<String, serde_json::Error>)
    ensures
        outcome matches Ok(text) ==> (printed(json_of(*value)) matches Ok(written) && written == text@),
        outcome matches Err(error) ==> (printed(json_of(*value)) matches Err(message) && message == message_of(
            error,
        )),
{
    serde_json::to_string_pretty(value)
}

/// `Display` of `serde_json::Error`, through `to_string`.
#[verifier::external_body]
pub(crate) fn error_message(error: &serde_json::Error) -> (message: String)
    ensures
        message@ == message_of(*error),
{
    error.to_string()
}

} // verus!
