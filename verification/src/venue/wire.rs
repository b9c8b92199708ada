//! Values in the JSON that venues send.
use serde::Deserialize;
use serde_json::Value;
use vstd::prelude::*;

use crate::domain::decimal::{parsed_units, text_units, DecimalParseError};
use crate::domain::price::{lemma_price_exists, lemma_price_value};
use crate::domain::quantity::{lemma_quantity_exists, lemma_quantity_value};
use crate::domain::{Price, Quantity};
use crate::text::{chars_of, decimal, decimal_text, string_of};

verus! {

/// A JSON value.
pub enum JsonView {
    Null,
    Bool(bool),
    /// A number by its rendering, and its value if it is an integer that is not negative
    /// and fits in 64 bits.
    Number { rendering: Seq<char>, unsigned: Option<u64> },
    Text(Seq<char>),
    List(Seq<JsonView>),
    Object(Map<Seq<char>, JsonView>),
}

#[verifier::external_type_specification]
#[verifier::external_body]
pub struct ExValue(serde_json::Value);

/// What a parsed value holds.
pub uninterp spec fn json_contents(value: Value) -> JsonView;

/// The value that bytes stand for, or what is wrong with them.
pub uninterp spec fn json_reading(bytes: Seq<u8>) -> Result<JsonView, Seq<char>>;

/// Why a value is not a `u64`.
pub uninterp spec fn u64_rejection(value: JsonView) -> Seq<char>;

/// Why a value is not a `u32`.
pub uninterp spec fn u32_rejection(value: JsonView) -> Seq<char>;

/// Why a value is not a `bool`.
pub uninterp spec fn bool_rejection(value: JsonView) -> Seq<char>;

/// Why a value is not a text.
pub uninterp spec fn text_rejection(value: JsonView) -> Seq<char>;

/// Why a value is not a list.
pub uninterp spec fn list_rejection(value: JsonView) -> Seq<char>;

/// `serde_json::from_slice` for a `serde_json::Value`: the value of the bytes, or the message
/// of the error, each a function of the bytes alone. The grammar itself is left unsaid.
#[verifier::external_body]
pub(crate) fn parse_json(bytes: &[u8]) -> (result: Result<Value, String>)
    ensures
        match result {
            Ok(value) => json_reading(bytes@) == Ok::<JsonView, Seq<char>>(json_contents(value)),
            Err(error) => json_reading(bytes@) == Err::<JsonView, Seq<char>>(error@),
        },
{
    serde_json::from_slice::<Value>(bytes).map_err(|error| error.to_string())
}

/// `serde_json::Value::get` for a key: the value of an object under the key.
#[verifier::external_body]
pub(crate) fn json_get<'a>(value: &'a Value, key: &str) -> (found: Option<&'a Value>)
    ensures
        match found {
            Some(inner) => member(json_contents(*value), key@) == Some(json_contents(*inner)),
            None => member(json_contents(*value), key@) is None,
        },
{
    value.get(key)
}

/// `serde_json::Value::is_object`: whether the value is an object.
#[verifier::external_body]
pub(crate) fn json_is_object(value: &Value) -> (r: bool)
    ensures
        r == (json_contents(*value) is Object),
{
    value.is_object()
}

/// `serde_json::Value::is_null`: whether the value is null.
#[verifier::external_body]
pub(crate) fn json_is_null(value: &Value) -> (r: bool)
    ensures
        r == (json_contents(*value) is Null),
{
    value.is_null()
}

/// `serde_json::Value::as_array`: the elements of a list, in their order.
#[verifier::external_body]
pub(crate) fn json_list<'a>(value: &'a Value) -> (items: Option<&'a Vec<Value>>)
    ensures
        match items {
            Some(items) => json_contents(*value) == JsonView::List(contents_of(items@)),
            None => !(json_contents(*value) is List),
        },
{
    value.as_array()
}

/// `Deserialize` of `u64` from a value: an integer that is not negative and fits; what
/// is said of another value is a function of the value alone.
#[verifier::external_body]
pub(crate) fn decode_u64(value: &Value) -> (result: Result<u64, String>)
    ensures
        match result {
            Ok(number) => unsigned_value(json_contents(*value)) == Some(number),
            Err(error) => {
                &&& unsigned_value(json_contents(*value)) is None
                &&& error@ == u64_rejection(json_contents(*value))
            },
        },
{
    u64::deserialize(value).map_err(|error| error.to_string())
}

/// `Deserialize` of `u32` from a value: an integer that is not negative and fits; what
/// is said of another value is a function of the value alone.
#[verifier::external_body]
pub(crate) fn decode_u32(value: &Value) -> (result: Result<u32, String>)
    ensures
        match result {
            Ok(number) => unsigned_value(json_contents(*value)) == Some(number as u64),
            Err(error) => {
                &&& unsigned_value(json_contents(*value)) matches Some(number) ==> number
                    > u32::MAX
                &&& error@ == u32_rejection(json_contents(*value))
            },
        },
{
    u32::deserialize(value).map_err(|error| error.to_string())
}

/// `Deserialize` of `bool` from a value: a boolean; what is said of another value is a
/// function of the value alone.
#[verifier::external_body]
pub(crate) fn decode_bool(value: &Value) -> (result: Result<bool, String>)
    ensures
        match result {
            Ok(truth) => json_contents(*value) == JsonView::Bool(truth),
            Err(error) => {
                &&& !(json_contents(*value) is Bool)
                &&& error@ == bool_rejection(json_contents(*value))
            },
        },
{
    bool::deserialize(value).map_err(|error| error.to_string())
}

/// `Deserialize` of `String` from a value: a text; what is said of another value is a
/// function of the value alone.
#[verifier::external_body]
pub(crate) fn decode_text(value: &Value) -> (result: Result<String, String>)
    ensures
        match result {
            Ok(text) => json_contents(*value) == JsonView::Text(text@),
            Err(error) => {
                &&& !(json_contents(*value) is Text)
                &&& error@ == text_rejection(json_contents(*value))
            },
        },
{
    String::deserialize(value).map_err(|error| error.to_string())
}

/// `Deserialize` of a vector of values from a value: the elements of a list, in their
/// order; what is said of another value is a function of the value alone.
#[verifier::external_body]
pub(crate) fn decode_list(value: &Value) -> (result: Result<Vec<Value>, String>)
    ensures
        match result {
            Ok(items) => json_contents(*value) == JsonView::List(contents_of(items@)),
            Err(error) => {
                &&& !(json_contents(*value) is List)
                &&& error@ == list_rejection(json_contents(*value))
            },
        },
{
    Vec::<Value>::deserialize(value).map_err(|error| error.to_string())
}

/// What parsed values hold.
pub open spec fn contents_of(values: Seq<Value>) -> Seq<JsonView> {
    values.map_values(|value: Value| json_contents(value))
}

/// The value of an integer that is not negative and fits in 64 bits.
pub open spec fn unsigned_value(value: JsonView) -> Option<u64> {
    match value {
        JsonView::Number { unsigned, .. } => unsigned,
        _ => None,
    }
}

/// The value of an object under a key.
pub open spec fn member(value: JsonView, key: Seq<char>) -> Option<JsonView> {
    match value {
        JsonView::Object(members) => if members.contains_key(key) {
            Some(members[key])
        } else {
            None
        },
        _ => None,
    }
}

/// The text of an object under a key.
pub open spec fn member_text(value: JsonView, key: Seq<char>) -> Option<Seq<char>> {
    match member(value, key) {
        Some(JsonView::Text(text)) => Some(text),
        _ => None,
    }
}

/// The text of an object under a key.
pub(crate) fn text_under(value: &Value, key: &str) -> (text: Option<String>)
    ensures
        match text {
            Some(text) => member_text(json_contents(*value), key@) == Some(text@),
            None => member_text(json_contents(*value), key@) is None,
        },
{
    match json_get(value, key) {
        Some(inner) => match decode_text(inner) {
            Ok(text) => Some(text),
            Err(_) => None,
        },
        None => None,
    }
}

/// The text of an object under a key, if there is anything; or why what is there is none.
pub open spec fn text_field(value: JsonView, key: Seq<char>) -> Result<
    Option<Seq<char>>,
    Seq<char>,
> {
    match member(value, key) {
        None => Ok(None),
        Some(JsonView::Text(text)) => Ok(Some(text)),
        Some(other) => Err(text_rejection(other)),
    }
}

/// The number of an object under a key, if there is anything; or why what is there is
/// none.
pub open spec fn u64_field(value: JsonView, key: Seq<char>) -> Result<Option<u64>, Seq<char>> {
    match member(value, key) {
        None => Ok(None),
        Some(inner) => match unsigned_value(inner) {
            Some(number) => Ok(Some(number)),
            None => Err(u64_rejection(inner)),
        },
    }
}

/// The small number of an object under a key, if there is anything; or why what is there
/// is none.
pub open spec fn u32_field(value: JsonView, key: Seq<char>) -> Result<Option<u32>, Seq<char>> {
    match member(value, key) {
        None => Ok(None),
        Some(inner) => match unsigned_value(inner) {
            Some(number) => if number <= u32::MAX {
                Ok(Some(number as u32))
            } else {
                Err(u32_rejection(inner))
            },
            None => Err(u32_rejection(inner)),
        },
    }
}

/// The truth value of an object under a key, if there is anything; or why what is there
/// is none.
pub open spec fn bool_field(value: JsonView, key: Seq<char>) -> Result<Option<bool>, Seq<char>> {
    match member(value, key) {
        None => Ok(None),
        Some(JsonView::Bool(truth)) => Ok(Some(truth)),
        Some(other) => Err(bool_rejection(other)),
    }
}

/// The model of an optional text that may be rejected.
pub open spec fn optional_text_view(result: Result<Option<String>, String>) -> Result<
    Option<Seq<char>>,
    Seq<char>,
> {
    match result {
        Ok(Some(text)) => Ok(Some(text@)),
        Ok(None) => Ok(None),
        Err(error) => Err(error@),
    }
}

/// The model of a value that may be rejected.
pub open spec fn rejectable<T>(result: Result<T, String>) -> Result<T, Seq<char>> {
    match result {
        Ok(value) => Ok(value),
        Err(error) => Err(error@),
    }
}

pub(crate) fn read_text_field(value: &Value, key: &str) -> (result: Result<Option<String>, String>)
    ensures
        optional_text_view(result) == text_field(json_contents(*value), key@),
{
    match json_get(value, key) {
        None => Ok(None),
        Some(inner) => match decode_text(inner) {
            Ok(text) => Ok(Some(text)),
            Err(error) => Err(error),
        },
    }
}

pub(crate) fn read_u64_field(value: &Value, key: &str) -> (result: Result<Option<u64>, String>)
    ensures
        rejectable(result) == u64_field(json_contents(*value), key@),
{
    match json_get(value, key) {
        None => Ok(None),
        Some(inner) => match decode_u64(inner) {
            Ok(number) => Ok(Some(number)),
            Err(error) => Err(error),
        },
    }
}

pub(crate) fn read_u32_field(value: &Value, key: &str) -> (result: Result<Option<u32>, String>)
    ensures
        rejectable(result) == u32_field(json_contents(*value), key@),
{
    match json_get(value, key) {
        None => Ok(None),
        Some(inner) => match decode_u32(inner) {
            Ok(number) => Ok(Some(number)),
            Err(error) => Err(error),
        },
    }
}

pub(crate) fn read_bool_field(value: &Value, key: &str) -> (result: Result<Option<bool>, String>)
    ensures
        rejectable(result) == bool_field(json_contents(*value), key@),
{
    match json_get(value, key) {
        None => Ok(None),
        Some(inner) => match decode_bool(inner) {
            Ok(truth) => Ok(Some(truth)),
            Err(error) => Err(error),
        },
    }
}

/// What is said of a field that an object lacks.
pub open spec fn missing_field(key: Seq<char>) -> Seq<char> {
    "missing field `"@ + key + "`"@
}

pub(crate) fn missing_field_text(key: &str) -> (text: String)
    ensures
        text@ == missing_field(key@),
{
    let mut text: String = "missing field `".to_owned();
    text.append(key);
    text.append("`");
    text
}

/// What is said of a list of the wrong length.
pub open spec fn wrong_length(length: nat, expected: Seq<char>) -> Seq<char> {
    "invalid length "@ + decimal(length) + ", expected "@ + expected
}

pub(crate) fn wrong_length_text(length: usize, expected: &str) -> (text: String)
    ensures
        text@ == wrong_length(length as nat, expected@),
{
    let mut text: String = "invalid length ".to_owned();
    text.append(decimal_text(length as u128).as_str());
    text.append(", expected ");
    text.append(expected);
    text
}

/// A message that ends in `from`, made to end in `to`.
pub open spec fn re_ended(text: Seq<char>, from: Seq<char>, to: Seq<char>) -> Seq<char> {
    if from.len() <= text.len() && text.skip(text.len() - from.len()) == from {
        text.take(text.len() - from.len()) + to
    } else {
        text
    }
}

pub(crate) fn re_end(text: &str, from: &str, to: &str) -> (result: String)
    ensures
        result@ == re_ended(text@, from@, to@),
{
    let chars: Vec<char> = chars_of(text);
    let ending: Vec<char> = chars_of(from);
    if ending.len() > chars.len() {
        return text.to_owned();
    }
    let start: usize = chars.len() - ending.len();
    let mut i: usize = 0;
    while i < ending.len()
        invariant
            i <= ending.len(),
            chars@ == text@,
            ending@ == from@,
            start == chars.len() - ending.len(),
            forall|j: int| 0 <= j < i ==> text@[start + j] == #[trigger] from@[j],
        decreases ending.len() - i,
    {
        if chars[start + i] != ending[i] {
            assert(text@.skip(start as int)[i as int] != from@[i as int]);
            return text.to_owned();
        }
        i = i + 1;
    }
    assert(text@.skip(start as int) =~= from@);
    let kept: &[char] = vstd::slice::slice_subrange(chars.as_slice(), 0, start);
    let mut result: String = string_of(kept);
    assert(kept@ =~= text@.take(start as int));
    result.append(to);
    result
}

/// Whether a value has the shape of a struct: an object, or a list that holds the fields
/// in their places.
pub open spec fn shaped(value: JsonView, least: nat, most: nat) -> bool {
    match value {
        JsonView::Object(_) => true,
        JsonView::List(items) => least <= items.len() <= most,
        _ => false,
    }
}

/// The field of a struct, by its key or by its place.
pub open spec fn field(value: JsonView, key: Seq<char>, place: nat) -> Option<JsonView> {
    match value {
        JsonView::List(items) => if place < items.len() {
            Some(items[place as int])
        } else {
            None
        },
        _ => member(value, key),
    }
}

pub(crate) fn json_shaped(value: &Value, least: usize, most: usize) -> (r: bool)
    ensures
        r == shaped(json_contents(*value), least as nat, most as nat),
{
    if json_is_object(value) {
        return true;
    }
    match json_list(value) {
        Some(items) => least <= items.len() && items.len() <= most,
        None => false,
    }
}

pub(crate) fn json_field<'a>(value: &'a Value, key: &str, place: usize) -> (found: Option<
    &'a Value,
>)
    ensures
        match found {
            Some(inner) => field(json_contents(*value), key@, place as nat) == Some(
                json_contents(*inner),
            ),
            None => field(json_contents(*value), key@, place as nat) is None,
        },
{
    match json_list(value) {
        Some(items) => if place < items.len() {
            Some(&items[place])
        } else {
            None
        },
        None => json_get(value, key),
    }
}

/// The text of a struct's field.
pub open spec fn text_at(value: JsonView, key: Seq<char>, place: nat) -> Option<Seq<char>> {
    match field(value, key, place) {
        Some(JsonView::Text(text)) => Some(text),
        _ => None,
    }
}

/// The number of a struct's field.
pub open spec fn u64_at(value: JsonView, key: Seq<char>, place: nat) -> Option<u64> {
    match field(value, key, place) {
        Some(inner) => unsigned_value(inner),
        None => None,
    }
}

pub(crate) fn read_text_at(value: &Value, key: &str, place: usize) -> (text: Option<String>)
    ensures
        crate::text::optional_text(text) == text_at(json_contents(*value), key@, place as nat),
{
    match json_field(value, key, place) {
        Some(inner) => match decode_text(inner) {
            Ok(text) => Some(text),
            Err(_) => None,
        },
        None => None,
    }
}

pub(crate) fn read_u64_at(value: &Value, key: &str, place: usize) -> (number: Option<u64>)
    ensures
        number == u64_at(json_contents(*value), key@, place as nat),
{
    match json_field(value, key, place) {
        Some(inner) => match decode_u64(inner) {
            Ok(number) => Some(number),
            Err(_) => None,
        },
        None => None,
    }
}

/// What the items of a list stand for, in their order, or what is said of the first that
/// stands for nothing.
pub open spec fn read_all<S, T, E>(
    items: Seq<S>,
    reading: spec_fn(int, S) -> Result<T, E>,
) -> Result<Seq<T>, E>
    decreases items.len(),
{
    if items.len() == 0 {
        Ok(Seq::empty())
    } else {
        match read_all(items.drop_last(), reading) {
            Err(error) => Err(error),
            Ok(prefix) => match reading(items.len() - 1, items.last()) {
                Err(error) => Err(error),
                Ok(value) => Ok(prefix.push(value)),
            },
        }
    }
}

/// A list stands for something exactly if each of its items does, and then for what the
/// items stand for, in their order.
pub proof fn lemma_read_all_items<S, T, E>(
    items: Seq<S>,
    reading: spec_fn(int, S) -> Result<T, E>,
)
    ensures
        read_all(items, reading) is Ok <==> forall|i: int|
            0 <= i < items.len() ==> reading(i, #[trigger] items[i]) is Ok,
        read_all(items, reading) matches Ok(values) ==> {
            &&& values.len() == items.len()
            &&& forall|i: int|
                0 <= i < items.len() ==> reading(i, #[trigger] items[i]) == Ok::<T, E>(values[i])
        },
    decreases items.len(),
{
    if items.len() > 0 {
        let rest = items.drop_last();
        lemma_read_all_items(rest, reading);
        assert forall|i: int| 0 <= i < rest.len() implies #[trigger] rest[i] == items[i] by {}
        if read_all(items, reading) is Ok {
            let values = read_all(items, reading)->Ok_0;
            let before = read_all(rest, reading)->Ok_0;
            assert forall|i: int| 0 <= i < items.len() implies reading(i, #[trigger] items[i])
                == Ok::<T, E>(values[i]) by {
                if i < rest.len() {
                    assert(rest[i] == items[i]);
                    assert(values[i] == before[i]);
                }
            }
        }
        if forall|i: int| 0 <= i < items.len() ==> reading(i, #[trigger] items[i]) is Ok {
            assert forall|i: int| 0 <= i < rest.len() implies reading(i, #[trigger] rest[i]) is Ok by {
                assert(rest[i] == items[i]);
            }
            assert(reading(items.len() - 1, items[items.len() - 1]) is Ok);
        }
    }
}

pub proof fn lemma_read_all_step<S, T, E>(
    items: Seq<S>,
    i: int,
    reading: spec_fn(int, S) -> Result<T, E>,
)
    requires
        0 <= i < items.len(),
        read_all(items.take(i), reading) is Ok,
    ensures
        read_all(items.take(i + 1), reading) == (match reading(i, items[i]) {
            Err(error) => Err(error),
            Ok(value) => Ok(read_all(items.take(i), reading)->Ok_0.push(value)),
        }),
        reading(i, items[i]) is Err ==> read_all(items, reading) == read_all(
            items.take(i + 1),
            reading,
        ),
{
    assert(items.take(i + 1).drop_last() =~= items.take(i));
    if reading(i, items[i]) is Err {
        lemma_read_all_fails(items, i + 1, reading);
    }
}

proof fn lemma_read_all_fails<S, T, E>(
    items: Seq<S>,
    i: int,
    reading: spec_fn(int, S) -> Result<T, E>,
)
    requires
        0 <= i <= items.len(),
        read_all(items.take(i), reading) is Err,
    ensures
        read_all(items, reading) == read_all(items.take(i), reading),
    decreases items.len() - i,
{
    if i == items.len() {
        assert(items.take(i) =~= items);
    } else {
        assert(items.take(i + 1).drop_last() =~= items.take(i));
        lemma_read_all_fails(items, i + 1, reading);
    }
}

/// What every item of a list stands for, unless one stands for nothing.
pub open spec fn all_of<S, T>(items: Seq<S>, reading: spec_fn(S) -> Option<T>) -> Option<Seq<T>>
    decreases items.len(),
{
    if items.len() == 0 {
        Some(Seq::empty())
    } else {
        match (all_of(items.drop_last(), reading), reading(items.last())) {
            (Some(prefix), Some(value)) => Some(prefix.push(value)),
            _ => None,
        }
    }
}

/// A list stands for something exactly if each of its items does, and then for what the
/// items stand for, in their order.
pub proof fn lemma_all_of_items<S, T>(items: Seq<S>, reading: spec_fn(S) -> Option<T>)
    ensures
        all_of(items, reading) is Some <==> forall|i: int|
            0 <= i < items.len() ==> reading(#[trigger] items[i]) is Some,
        all_of(items, reading) matches Some(values) ==> {
            &&& values.len() == items.len()
            &&& forall|i: int|
                0 <= i < items.len() ==> reading(#[trigger] items[i]) == Some(values[i])
        },
    decreases items.len(),
{
    if items.len() > 0 {
        let rest = items.drop_last();
        lemma_all_of_items(rest, reading);
        assert forall|i: int| 0 <= i < rest.len() implies #[trigger] rest[i] == items[i] by {}
        if all_of(items, reading) is Some {
            let values = all_of(items, reading)->Some_0;
            let before = all_of(rest, reading)->Some_0;
            assert forall|i: int| 0 <= i < items.len() implies reading(#[trigger] items[i])
                == Some(values[i]) by {
                if i < rest.len() {
                    assert(rest[i] == items[i]);
                    assert(values[i] == before[i]);
                }
            }
        }
        if forall|i: int| 0 <= i < items.len() ==> reading(#[trigger] items[i]) is Some {
            assert forall|i: int| 0 <= i < rest.len() implies reading(#[trigger] rest[i]) is Some by {
                assert(rest[i] == items[i]);
            }
            assert(reading(items[items.len() - 1]) is Some);
        }
    }
}

pub proof fn lemma_all_of_step<S, T>(items: Seq<S>, i: int, reading: spec_fn(S) -> Option<T>)
    requires
        0 <= i < items.len(),
        all_of(items.take(i), reading) is Some,
    ensures
        all_of(items.take(i + 1), reading) == (match reading(items[i]) {
            None => None,
            Some(value) => Some(all_of(items.take(i), reading)->Some_0.push(value)),
        }),
        reading(items[i]) is None ==> all_of(items, reading) is None,
{
    assert(items.take(i + 1).drop_last() =~= items.take(i));
    if reading(items[i]) is None {
        lemma_all_of_fails(items, i + 1, reading);
    }
}

proof fn lemma_all_of_fails<S, T>(items: Seq<S>, i: int, reading: spec_fn(S) -> Option<T>)
    requires
        0 <= i <= items.len(),
        all_of(items.take(i), reading) is None,
    ensures
        all_of(items, reading) is None,
    decreases items.len() - i,
{
    if i == items.len() {
        assert(items.take(i) =~= items);
    } else {
        assert(items.take(i + 1).drop_last() =~= items.take(i));
        lemma_all_of_fails(items, i + 1, reading);
    }
}

/// The first place at which a key stands.
pub open spec fn first_place<T>(keys: Seq<T>, key: T) -> Option<nat>
    decreases keys.len(),
{
    if keys.len() == 0 {
        None
    } else {
        match first_place(keys.drop_last(), key) {
            Some(place) => Some(place),
            None => if keys.last() == key {
                Some((keys.len() - 1) as nat)
            } else {
                None
            },
        }
    }
}

pub proof fn lemma_first_place_step<T>(keys: Seq<T>, i: int, key: T)
    requires
        0 <= i < keys.len(),
        first_place(keys.take(i), key) is None,
    ensures
        keys[i] == key ==> first_place(keys, key) == Some(i as nat),
        keys[i] != key ==> first_place(keys.take(i + 1), key) is None,
{
    assert(keys.take(i + 1).drop_last() =~= keys.take(i));
    if keys[i] == key {
        lemma_first_place_stays(keys, i + 1, key);
    }
}

proof fn lemma_first_place_stays<T>(keys: Seq<T>, i: int, key: T)
    requires
        0 <= i <= keys.len(),
        first_place(keys.take(i), key) is Some,
    ensures
        first_place(keys, key) == first_place(keys.take(i), key),
    decreases keys.len() - i,
{
    if i == keys.len() {
        assert(keys.take(i) =~= keys);
    } else {
        assert(keys.take(i + 1).drop_last() =~= keys.take(i));
        lemma_first_place_stays(keys, i + 1, key);
    }
}

/// A place that was found is the first of the key's places, and one is found if there is
/// any.
pub proof fn lemma_first_place<T>(keys: Seq<T>, key: T)
    ensures
        first_place(keys, key) matches Some(place) ==> {
            &&& place < keys.len()
            &&& keys[place as int] == key
            &&& forall|i: int| 0 <= i < place ==> #[trigger] keys[i] != key
        },
        first_place(keys, key) is None ==> forall|i: int|
            0 <= i < keys.len() ==> #[trigger] keys[i] != key,
    decreases keys.len(),
{
    if keys.len() > 0 {
        let rest = keys.drop_last();
        lemma_first_place(rest, key);
        assert forall|i: int| 0 <= i < rest.len() implies #[trigger] keys[i] == rest[i] by {}
    }
}

/// The price that a text stands for, or why it stands for none.
pub open spec fn price_reading(text: Seq<char>) -> Result<Price, DecimalParseError> {
    match parsed_units(text) {
        Ok(units) => Ok(choose|price: Price| #[trigger] price.valid() && price.units() == units),
        Err(error) => Err(error),
    }
}

/// The quantity that a text stands for, or why it stands for none.
pub open spec fn quantity_reading(text: Seq<char>) -> Result<Quantity, DecimalParseError> {
    match parsed_units(text) {
        Ok(units) => Ok(
            choose|quantity: Quantity| #[trigger] quantity.valid() && quantity.units() == units,
        ),
        Err(error) => Err(error),
    }
}

/// Reads a price.
pub fn read_price(text: &str) -> (result: Result<Price, DecimalParseError>)
    ensures
        result == price_reading(text@),
        result matches Ok(price) ==> price.valid(),
{
    let result = Price::from_str(text);
    proof {
        if let Ok(price) = result {
            lemma_price_value(price, price);
            lemma_price_value(price, price_reading(text@)->Ok_0);
        }
    }
    result
}

/// Reads a quantity.
pub fn read_quantity(text: &str) -> (result: Result<Quantity, DecimalParseError>)
    ensures
        result == quantity_reading(text@),
        result matches Ok(quantity) ==> quantity.valid(),
{
    let result = Quantity::from_str(text);
    proof {
        if let Ok(quantity) = result {
            lemma_quantity_value(quantity, quantity);
            lemma_quantity_value(quantity, quantity_reading(text@)->Ok_0);
        }
    }
    result
}

/// A text is read as the price that it writes: the one valid price of its value, which is
/// positive.
pub proof fn lemma_price_read(text: Seq<char>)
    ensures
        price_reading(text) is Ok <==> parsed_units(text) is Ok,
        price_reading(text) matches Ok(price) ==> {
            &&& price.valid()
            &&& price.units() == text_units(text)
            &&& price.units() > 0
        },
{
    if let Ok(units) = parsed_units(text) {
        let price = lemma_price_exists(units);
        assert(price.valid());
    }
}

/// A text is read as the quantity that it writes: the one valid quantity of its value,
/// which is positive.
pub proof fn lemma_quantity_read(text: Seq<char>)
    ensures
        quantity_reading(text) is Ok <==> parsed_units(text) is Ok,
        quantity_reading(text) matches Ok(quantity) ==> {
            &&& quantity.valid()
            &&& quantity.units() == text_units(text)
            &&& quantity.units() > 0
        },
{
    if let Ok(units) = parsed_units(text) {
        let quantity = lemma_quantity_exists(units);
        assert(quantity.valid());
    }
}

} // verus!
