//! The JSON side of the conversion: the `serde_json` types that carry values
//! through the library, and the calls into `serde_json` together with what is
//! taken on trust about them.

use vstd::prelude::*;
use crate::value_conversion::{FieldValue, FieldValueView};

verus! {

/// `serde_json::Number`, a JSON number. It is carried through as it is:
/// nothing is known of what it holds.
#[verifier::external_type_specification]
#[verifier::external_body]
pub struct ExJsonNumber(serde_json::Number);

/// `serde_json::Value`, a JSON value: what the objects hold. Nothing is
/// known of what it holds.
#[verifier::external_type_specification]
#[verifier::external_body]
pub struct ExJsonValue(serde_json::Value);

/// `serde_json::Map`, a JSON object. What it holds is spoken of through
/// `object_entries` only.
#[verifier::external_type_specification]
#[verifier::external_body]
#[verifier::reject_recursive_types(K)]
#[verifier::reject_recursive_types(V)]
pub struct ExJsonObject<K, V>(serde_json::Map<K, V>);

/// `serde_json::Error`, the error of a failed serialization. Nothing is
/// known of what it holds.
#[verifier::external_type_specification]
#[verifier::external_body]
pub struct ExJsonError(serde_json::Error);

/// Why a conversion failed.
#[derive(Debug, Clone, Copy, PartialEq, Eq, Structural)]
pub enum ConvertError {
    /// A JSON object could not be written as text.
    Serialize,
    /// The workbook has no sheet with the name that was asked for.
    SheetNotFound,
    /// The workbook has no sheet at all.
    NoSheets,
}

/// The JSON number that a text stands for when read as a floating-point
/// number, if it stands for a finite one: what `str::parse` followed by
/// `serde_json::Number::from_f64` gives for the text.
pub uninterp spec fn float_number(text: Seq<char>) -> Option<serde_json::Number>;

/// The number is what some text stands for when read as a floating-point
/// number. Such a number is of the floating-point kind: an object that holds
/// it tells it apart from every integer.
pub open spec fn is_float_reading(number: serde_json::Number) -> bool {
    exists|text: Seq<char>| #[trigger] float_number(text) == Some(number)
}

/// The value can be stored in an object: where it is a floating-point
/// number, the number was read from floating-point text.
pub open spec fn is_storable(value: FieldValueView) -> bool {
    value is Float ==> is_float_reading(value->Float_0)
}

/// The entries of a JSON object, as key and value, in the order in which the
/// object lists them: what a `serde_json::Map` holds.
pub uninterp spec fn object_entries(object: serde_json::Map<String, serde_json::Value>) -> Seq<
    (Seq<char>, FieldValueView),
>;

/// The compact JSON text of an object with the given entries, if it can be
/// written: what `serde_json::to_string` gives for the object.
pub uninterp spec fn json_text(entries: Seq<(Seq<char>, FieldValueView)>) -> Option<Seq<char>>;

/// Some entry has the key.
pub open spec fn has_key(entries: Seq<(Seq<char>, FieldValueView)>, key: Seq<char>) -> bool {
    exists|i: int| 0 <= i < entries.len() && (#[trigger] entries[i]).0 == key
}

/// The place of an entry that has the key, where some entry has it.
pub open spec fn key_position(entries: Seq<(Seq<char>, FieldValueView)>, key: Seq<char>) -> int {
    choose|i: int| 0 <= i < entries.len() && (#[trigger] entries[i]).0 == key
}

/// The entries after `key` is set to `value`: an entry that has the key keeps
/// its place and takes the value; without such an entry a new one is added at
/// the end.
pub open spec fn with_entry(
    entries: Seq<(Seq<char>, FieldValueView)>,
    key: Seq<char>,
    value: FieldValueView,
) -> Seq<(Seq<char>, FieldValueView)> {
    if has_key(entries, key) {
        entries.update(key_position(entries, key), (key, value))
    } else {
        entries.push((key, value))
    }
}

/// No two entries have the same key.
pub open spec fn keys_unique(entries: Seq<(Seq<char>, FieldValueView)>) -> bool {
    forall|i: int, j: int|
        0 <= i < j < entries.len() ==> (#[trigger] entries[i]).0 != (#[trigger] entries[j]).0
}

/// Setting a key adds that key to the keys and no other, keeps every entry
/// with another key where and as it was, and keeps the keys distinct.
pub proof fn lemma_with_entry(
    entries: Seq<(Seq<char>, FieldValueView)>,
    key: Seq<char>,
    value: FieldValueView,
)
    ensures
        forall|k: Seq<char>|
            has_key(with_entry(entries, key, value), k) <==> (has_key(entries, k) || k == key),
        has_key(entries, key) ==> with_entry(entries, key, value).len() == entries.len(),
        !has_key(entries, key) ==> with_entry(entries, key, value) == entries.push((key, value)),
        exists|i: int|
            0 <= i < with_entry(entries, key, value).len() && #[trigger] with_entry(
                entries,
                key,
                value,
            )[i] == (key, value),
        forall|i: int|
            0 <= i < entries.len() && (#[trigger] entries[i]).0 != key ==> with_entry(
                entries,
                key,
                value,
            )[i] == entries[i],
        keys_unique(entries) ==> keys_unique(with_entry(entries, key, value)),
{
    let after = with_entry(entries, key, value);
    if has_key(entries, key) {
        let at = key_position(entries, key);
        assert(after[at] == (key, value));
        assert forall|k: Seq<char>| has_key(after, k) <==> (has_key(entries, k) || k == key) by {
            if has_key(after, k) {
                let i = choose|i: int| 0 <= i < after.len() && (#[trigger] after[i]).0 == k;
                if i != at {
                    assert(entries[i].0 == k);
                }
            }
            if has_key(entries, k) {
                let i = choose|i: int| 0 <= i < entries.len() && (#[trigger] entries[i]).0 == k;
                assert(after[i].0 == k);
            }
            if k == key {
                assert(after[at].0 == k);
            }
        }
        if keys_unique(entries) {
            assert forall|i: int, j: int| 0 <= i < j < after.len() implies (#[trigger] after[i]).0
                != (#[trigger] after[j]).0 by {
                assert(after[i].0 == entries[i].0);
                assert(after[j].0 == entries[j].0);
            }
        }
    } else {
        let last = entries.len() as int;
        assert(after[last] == (key, value));
        assert forall|k: Seq<char>| has_key(after, k) <==> (has_key(entries, k) || k == key) by {
            if has_key(after, k) {
                let i = choose|i: int| 0 <= i < after.len() && (#[trigger] after[i]).0 == k;
                if i != last {
                    assert(entries[i].0 == k);
                }
            }
            if has_key(entries, k) {
                let i = choose|i: int| 0 <= i < entries.len() && (#[trigger] entries[i]).0 == k;
                assert(after[i].0 == k);
            }
            if k == key {
                assert(after[last].0 == k);
            }
        }
        if keys_unique(entries) {
            assert forall|i: int, j: int| 0 <= i < j < after.len() implies (#[trigger] after[i]).0
                != (#[trigger] after[j]).0 by {
                if j == last {
                    assert(entries[i].0 != key);
                } else {
                    assert(after[i].0 == entries[i].0);
                    assert(after[j].0 == entries[j].0);
                }
            }
        }
    }
}

/// Reads `field` as a floating-point number with `str::parse` and hands the
/// outcome to `serde_json::Number::from_f64`.
///
/// Trusted: the result is a function of the text alone. It is `None` where
/// the text does not parse, and where it parses to an infinity or to a NaN,
/// which `from_f64` turns down.
#[verifier::external_body]
pub(crate) fn parse_float_number(field: &str) -> (number: Option<serde_json::Number>)
    ensures
        number == float_number(field@),
{
    serde_json::Number::from_f64(field.parse().ok()?)
}

/// Makes an empty object with `serde_json::Map::new`.
///
/// Trusted: the new object has no entries.
#[verifier::external_body]
pub(crate) fn new_object() -> (object: serde_json::Map<String, serde_json::Value>)
    ensures
        object_entries(object) == Seq::<(Seq<char>, FieldValueView)>::empty(),
{
    serde_json::Map::new()
}

/// Sets `key` to `value` with `serde_json::Map::insert`, on a map that keeps
/// its entries in insertion order.
///
/// Trusted: a key that the object holds keeps its place and takes the new
/// value; a key that it does not hold is added after all others. No other
/// entry changes.
///
/// An integer and a floating-point number are both stored as a
/// `serde_json::Number`. The stored number is read back as the value that
/// went in only if a floating-point value holds a number of the
/// floating-point kind, which `is_storable` asks for.
#[verifier::external_body]
pub(crate) fn insert_entry(
    object: &mut serde_json::Map<String, serde_json::Value>,
    key: String,
    value: FieldValue,
)
    requires
        is_storable(value@),
    ensures
        object_entries(*final(object)) == with_entry(object_entries(*old(object)), key@, value@),
{
    let json = match value {
        FieldValue::Null => serde_json::Value::Null,
        FieldValue::Bool(b) => serde_json::Value::Bool(b),
        FieldValue::Integer(i) => serde_json::Value::Number(i.into()),
        FieldValue::Float(n) => serde_json::Value::Number(n),
        FieldValue::Text(s) => serde_json::Value::String(s),
    };
    object.insert(key, json);
}

/// Writes an object as compact JSON text with `serde_json::to_string`.
///
/// Trusted: whether the object can be written, and the text that comes out,
/// depend on its entries alone.
#[verifier::external_body]
pub(crate) fn object_text(object: &serde_json::Map<String, serde_json::Value>) -> (text: Result<
    String,
    serde_json::Error,
>)
    ensures
        match text {
            Ok(s) => json_text(object_entries(*object)) == Some(s@),
            Err(_) => json_text(object_entries(*object)) is None,
        },
{
    serde_json::to_string(object)
}

/// Writes an object as one line of compact JSON, without a line break.
pub fn to_json_line(object: &serde_json::Map<String, serde_json::Value>) -> (line: Result<
    String,
    ConvertError,
>)
    ensures
        match line {
            Ok(s) => json_text(object_entries(*object)) == Some(s@),
            Err(e) => e == ConvertError::Serialize && json_text(object_entries(*object)) is None,
        },
{
    match object_text(object) {
        Ok(s) => Ok(s),
        Err(_) => Err(ConvertError::Serialize),
    }
}

} // verus!
