//! JSON texts as structs: which fields they give, each still as the text that stands for it.
//!
//! A struct is an object with its fields in any order, each at most once, or a list with its
//! fields in their places. What stands in a field that nobody asks for is skipped as it is.
use serde::de::IgnoredAny;
use serde_json::Value;
use vstd::prelude::*;
use vstd::slice::slice_subrange;

use crate::text::{optional_text, same_text};
use crate::venue::wire::{
    contents_of, decode_bool, decode_list, decode_text, decode_u32, decode_u64, json_contents,
    json_is_null, json_reading, parse_json, unsigned_value, JsonView,
};

verus! {

/// Where the first value in bytes ends, if they start with one.
pub uninterp spec fn first_value_end(bytes: Seq<u8>) -> Option<nat>;

/// `serde_json::Deserializer::from_slice` with `into_iter` for `serde::de::IgnoredAny`, and
/// `byte_offset` behind the first value: how many bytes the first value and the white space
/// in front of it take, a function of the bytes alone; none where they start with no value.
/// The value is only skipped, so that a number may be out of every range and an escape may
/// stand for no character. The grammar itself is left unsaid.
#[verifier::external_body]
fn skip_value(bytes: &[u8]) -> (end: Option<usize>)
    ensures
        match end {
            Some(end) => first_value_end(bytes@) == Some(end as nat) && 0 < end <= bytes@.len(),
            None => first_value_end(bytes@) is None,
        },
{
    let mut values = serde_json::Deserializer::from_slice(bytes).into_iter::<IgnoredAny>();
    match values.next() {
        Some(Ok(_)) => Some(values.byte_offset()),
        _ => None,
    }
}

/// The first value in bytes, and what follows it.
pub open spec fn next_value(bytes: Seq<u8>) -> Option<(Seq<u8>, Seq<u8>)> {
    match first_value_end(bytes) {
        Some(end) => if 0 < end <= bytes.len() {
            Some((bytes.take(end as int), bytes.skip(end as int)))
        } else {
            None
        },
        None => None,
    }
}

/// The white space of JSON.
pub open spec fn is_space(byte: u8) -> bool {
    byte == 32 || byte == 9 || byte == 10 || byte == 13
}

/// Bytes without the white space in front.
pub open spec fn past_space(bytes: Seq<u8>) -> Seq<u8>
    decreases bytes.len(),
{
    if bytes.len() > 0 && is_space(bytes[0]) {
        past_space(bytes.skip(1))
    } else {
        bytes
    }
}

/// What follows a mark, if it is what comes next.
pub open spec fn past_mark(bytes: Seq<u8>, mark: u8) -> Option<Seq<u8>> {
    let rest = past_space(bytes);
    if rest.len() > 0 && rest[0] == mark {
        Some(rest.skip(1))
    } else {
        None
    }
}

/// What follows the comma in front of an element, where there is to be one.
pub open spec fn past_comma(bytes: Seq<u8>, first: bool) -> Option<Seq<u8>> {
    if first {
        Some(bytes)
    } else {
        past_mark(bytes, 44)
    }
}

/// The elements of a list up to its end, and what follows it.
pub open spec fn list_rest(bytes: Seq<u8>, first: bool) -> Option<(Seq<Seq<u8>>, Seq<u8>)>
    decreases bytes.len(),
{
    match past_mark(bytes, 93) {
        Some(end) => Some((Seq::empty(), end)),
        None => match past_comma(bytes, first) {
            None => None,
            Some(start) => match next_value(start) {
                None => None,
                Some((value, rest)) => if rest.len() < bytes.len() {
                    led_by(seq![value], list_rest(rest, false))
                } else {
                    None
                },
            },
        },
    }
}

/// One member of an object, its key and its value, and what follows it.
pub open spec fn next_member(bytes: Seq<u8>) -> Option<((Seq<char>, Seq<u8>), Seq<u8>)> {
    match next_value(bytes) {
        None => None,
        Some((quoted, rest)) => match json_reading(quoted) {
            Ok(JsonView::Text(key)) => match past_mark(rest, 58) {
                None => None,
                Some(rest) => match next_value(rest) {
                    None => None,
                    Some((value, rest)) => Some(((key, value), rest)),
                },
            },
            _ => None,
        },
    }
}

/// The members of an object up to its end, and what follows it.
pub open spec fn object_rest(bytes: Seq<u8>, first: bool) -> Option<
    (Seq<(Seq<char>, Seq<u8>)>, Seq<u8>),
>
    decreases bytes.len(),
{
    match past_mark(bytes, 125) {
        Some(end) => Some((Seq::empty(), end)),
        None => match past_comma(bytes, first) {
            None => None,
            Some(start) => match next_member(start) {
                None => None,
                Some((member, rest)) => if rest.len() < bytes.len() {
                    led_by(seq![member], object_rest(rest, false))
                } else {
                    None
                },
            },
        },
    }
}

/// With what came before.
pub open spec fn led_by<T>(earlier: Seq<T>, later: Option<(Seq<T>, Seq<u8>)>) -> Option<
    (Seq<T>, Seq<u8>),
> {
    match later {
        None => None,
        Some((elements, rest)) => Some((earlier + elements, rest)),
    }
}

/// The elements, unless something follows them.
pub open spec fn nothing_behind<T>(found: Option<(Seq<T>, Seq<u8>)>) -> Option<Seq<T>> {
    match found {
        None => None,
        Some((elements, rest)) => if past_space(rest).len() == 0 {
            Some(elements)
        } else {
            None
        },
    }
}

/// The elements of a list.
pub open spec fn list_items(bytes: Seq<u8>) -> Option<Seq<Seq<u8>>> {
    match past_mark(bytes, 91) {
        Some(rest) => nothing_behind(list_rest(rest, true)),
        None => None,
    }
}

/// The members of an object.
pub open spec fn object_fields(bytes: Seq<u8>) -> Option<Seq<(Seq<char>, Seq<u8>)>> {
    match past_mark(bytes, 123) {
        Some(rest) => nothing_behind(object_rest(rest, true)),
        None => None,
    }
}

/// The fields that a text gives, by their keys or by their places.
#[derive(Debug)]
pub enum Parts<'a> {
    Object(Vec<(String, &'a [u8])>),
    List(Vec<&'a [u8]>),
}

/// The model of `Parts`.
pub enum PartsView {
    Object(Seq<(Seq<char>, Seq<u8>)>),
    List(Seq<Seq<u8>>),
}

/// The models of members.
pub open spec fn member_views(members: Seq<(String, &[u8])>) -> Seq<(Seq<char>, Seq<u8>)> {
    members.map_values(|member: (String, &[u8])| (member.0@, member.1@))
}

/// The models of elements.
pub open spec fn item_views(items: Seq<&[u8]>) -> Seq<Seq<u8>> {
    items.map_values(|item: &[u8]| item@)
}

impl<'a> View for Parts<'a> {
    type V = PartsView;

    open spec fn view(&self) -> PartsView {
        match *self {
            Parts::Object(members) => PartsView::Object(member_views(members@)),
            Parts::List(items) => PartsView::List(item_views(items@)),
        }
    }
}

/// The fields that a text gives, if it has the shape of a struct.
pub open spec fn parts_of(bytes: Seq<u8>) -> Option<PartsView> {
    match object_fields(bytes) {
        Some(members) => Some(PartsView::Object(members)),
        None => match list_items(bytes) {
            Some(items) => Some(PartsView::List(items)),
            None => None,
        },
    }
}

/// What stands in a field.
pub enum FieldView {
    Absent,
    Given(Seq<u8>),
    /// The field is given more than once.
    Repeated,
}

/// What stands under a key.
pub open spec fn under_key(members: Seq<(Seq<char>, Seq<u8>)>, key: Seq<char>) -> FieldView
    decreases members.len(),
{
    if members.len() == 0 {
        FieldView::Absent
    } else {
        let earlier = under_key(members.drop_last(), key);
        if members.last().0 != key {
            earlier
        } else if earlier is Absent {
            FieldView::Given(members.last().1)
        } else {
            FieldView::Repeated
        }
    }
}

impl PartsView {
    /// Whether a list gives no fewer and no more fields than there may be.
    pub open spec fn fits(self, least: nat, most: nat) -> bool {
        match self {
            PartsView::Object(_) => true,
            PartsView::List(items) => least <= items.len() <= most,
        }
    }

    /// What stands in a field, by its key or by its place.
    pub open spec fn part(self, key: Seq<char>, place: nat) -> FieldView {
        match self {
            PartsView::Object(members) => under_key(members, key),
            PartsView::List(items) => if place < items.len() {
                FieldView::Given(items[place as int])
            } else {
                FieldView::Absent
            },
        }
    }

    /// The value of a field.
    pub open spec fn value(self, key: Seq<char>, place: nat) -> Option<JsonView> {
        match self.part(key, place) {
            FieldView::Given(bytes) => match json_reading(bytes) {
                Ok(value) => Some(value),
                Err(_) => None,
            },
            _ => None,
        }
    }

    /// The text of a field.
    pub open spec fn text(self, key: Seq<char>, place: nat) -> Option<Seq<char>> {
        match self.value(key, place) {
            Some(JsonView::Text(text)) => Some(text),
            _ => None,
        }
    }

    /// The number of a field.
    pub open spec fn number(self, key: Seq<char>, place: nat) -> Option<u64> {
        match self.value(key, place) {
            Some(value) => unsigned_value(value),
            None => None,
        }
    }

    /// The small number of a field.
    pub open spec fn small_number(self, key: Seq<char>, place: nat) -> Option<u32> {
        match self.number(key, place) {
            Some(number) => if number <= u32::MAX {
                Some(number as u32)
            } else {
                None
            },
            None => None,
        }
    }

    /// The truth value of a field.
    pub open spec fn truth(self, key: Seq<char>, place: nat) -> Option<bool> {
        match self.value(key, place) {
            Some(JsonView::Bool(truth)) => Some(truth),
            _ => None,
        }
    }
}

/// A value that stands inside another: it may nest one level less than a value by itself.
pub open spec fn inner_value(bytes: Seq<u8>) -> Option<JsonView> {
    match json_reading(seq![91u8] + bytes + seq![93u8]) {
        Ok(JsonView::List(items)) => if items.len() == 1 {
            Some(items[0])
        } else {
            None
        },
        _ => None,
    }
}

proof fn lemma_past_space(bytes: Seq<u8>)
    ensures
        past_space(bytes).len() <= bytes.len(),
    decreases bytes.len(),
{
    if bytes.len() > 0 && is_space(bytes[0]) {
        lemma_past_space(bytes.skip(1));
    }
}

fn skip_space<'a>(bytes: &'a [u8]) -> (rest: &'a [u8])
    ensures
        rest@ == past_space(bytes@),
{
    let mut rest: &'a [u8] = bytes;
    while rest.len() > 0 && (rest[0] == 32 || rest[0] == 9 || rest[0] == 10 || rest[0] == 13)
        invariant
            past_space(rest@) == past_space(bytes@),
        decreases rest@.len(),
    {
        let next: &'a [u8] = slice_subrange(rest, 1, rest.len());
        assert(next@ =~= rest@.skip(1));
        rest = next;
    }
    rest
}

fn skip_mark<'a>(bytes: &'a [u8], mark: u8) -> (rest: Option<&'a [u8]>)
    ensures
        past_mark(bytes@, mark) == (match rest {
            Some(rest) => Some(rest@),
            None => None,
        }),
        rest matches Some(rest) ==> rest@.len() < bytes@.len(),
{
    proof {
        lemma_past_space(bytes@);
    }
    let found: &'a [u8] = skip_space(bytes);
    if found.len() > 0 && found[0] == mark {
        let rest: &'a [u8] = slice_subrange(found, 1, found.len());
        assert(rest@ =~= found@.skip(1));
        Some(rest)
    } else {
        None
    }
}

fn skip_comma<'a>(bytes: &'a [u8], first: bool) -> (rest: Option<&'a [u8]>)
    ensures
        past_comma(bytes@, first) == (match rest {
            Some(rest) => Some(rest@),
            None => None,
        }),
        rest matches Some(rest) ==> rest@.len() <= bytes@.len(),
{
    if first {
        Some(bytes)
    } else {
        skip_mark(bytes, 44)
    }
}

fn split_value<'a>(bytes: &'a [u8]) -> (split: Option<(&'a [u8], &'a [u8])>)
    ensures
        next_value(bytes@) == (match split {
            Some((value, rest)) => Some((value@, rest@)),
            None => None,
        }),
        split matches Some((_, rest)) ==> rest@.len() < bytes@.len(),
{
    match skip_value(bytes) {
        Some(end) => {
            let value: &'a [u8] = slice_subrange(bytes, 0, end);
            let rest: &'a [u8] = slice_subrange(bytes, end, bytes.len());
            assert(value@ =~= bytes@.take(end as int));
            assert(rest@ =~= bytes@.skip(end as int));
            Some((value, rest))
        },
        None => None,
    }
}

fn split_member<'a>(bytes: &'a [u8]) -> (split: Option<((String, &'a [u8]), &'a [u8])>)
    ensures
        next_member(bytes@) == (match split {
            Some((member, rest)) => Some(((member.0@, member.1@), rest@)),
            None => None,
        }),
        split matches Some((_, rest)) ==> rest@.len() < bytes@.len(),
{
    let (quoted, rest) = match split_value(bytes) {
        Some(split) => split,
        None => return None,
    };
    let key: String = match parse_json(quoted) {
        Ok(value) => match decode_text(&value) {
            Ok(key) => key,
            Err(_) => return None,
        },
        Err(_) => return None,
    };
    let rest: &'a [u8] = match skip_mark(rest, 58) {
        Some(rest) => rest,
        None => return None,
    };
    match split_value(rest) {
        Some((value, rest)) => Some(((key, value), rest)),
        None => None,
    }
}

proof fn lemma_led_on<T>(earlier: Seq<T>, next: T, later: Option<(Seq<T>, Seq<u8>)>)
    ensures
        led_by(earlier, led_by(seq![next], later)) == led_by(earlier.push(next), later),
{
    if let Some((elements, _)) = later {
        assert(earlier + (seq![next] + elements) =~= earlier.push(next) + elements);
    }
}

proof fn lemma_led_by_none<T>(later: Option<(Seq<T>, Seq<u8>)>)
    ensures
        led_by(Seq::empty(), later) == later,
{
    if let Some((elements, _)) = later {
        assert(Seq::<T>::empty() + elements =~= elements);
    }
}

/// Splits a list into its elements.
pub(crate) fn split_list<'a>(bytes: &'a [u8]) -> (items: Option<Vec<&'a [u8]>>)
    ensures
        list_items(bytes@) == (match items {
            Some(items) => Some(item_views(items@)),
            None => None,
        }),
{
    let inside: &'a [u8] = match skip_mark(bytes, 91) {
        Some(rest) => rest,
        None => return None,
    };
    let ghost whole = list_rest(inside@, true);
    let mut items: Vec<&'a [u8]> = Vec::new();
    let mut rest: &'a [u8] = inside;
    let mut first: bool = true;
    assert(item_views(items@) =~= Seq::<Seq<u8>>::empty());
    proof {
        lemma_led_by_none(whole);
    }
    loop
        invariant
            list_items(bytes@) == nothing_behind(whole),
            whole == led_by(item_views(items@), list_rest(rest@, first)),
        decreases rest@.len(),
    {
        if let Some(end) = skip_mark(rest, 93) {
            assert(item_views(items@) + Seq::<Seq<u8>>::empty() =~= item_views(items@));
            return if skip_space(end).len() == 0 {
                Some(items)
            } else {
                None
            };
        }
        let start: &'a [u8] = match skip_comma(rest, first) {
            Some(start) => start,
            None => return None,
        };
        let (value, next) = match split_value(start) {
            Some(split) => split,
            None => return None,
        };
        proof {
            lemma_led_on(item_views(items@), value@, list_rest(next@, false));
        }
        let ghost before = items@;
        items.push(value);
        assert(item_views(items@) =~= item_views(before).push(value@));
        rest = next;
        first = false;
    }
}

/// Splits an object into its members.
pub(crate) fn split_object<'a>(bytes: &'a [u8]) -> (members: Option<Vec<(String, &'a [u8])>>)
    ensures
        object_fields(bytes@) == (match members {
            Some(members) => Some(member_views(members@)),
            None => None,
        }),
{
    let inside: &'a [u8] = match skip_mark(bytes, 123) {
        Some(rest) => rest,
        None => return None,
    };
    let ghost whole = object_rest(inside@, true);
    let mut members: Vec<(String, &'a [u8])> = Vec::new();
    let mut rest: &'a [u8] = inside;
    let mut first: bool = true;
    assert(member_views(members@) =~= Seq::<(Seq<char>, Seq<u8>)>::empty());
    proof {
        lemma_led_by_none(whole);
    }
    loop
        invariant
            object_fields(bytes@) == nothing_behind(whole),
            whole == led_by(member_views(members@), object_rest(rest@, first)),
        decreases rest@.len(),
    {
        if let Some(end) = skip_mark(rest, 125) {
            assert(member_views(members@) + Seq::<(Seq<char>, Seq<u8>)>::empty()
                =~= member_views(members@));
            return if skip_space(end).len() == 0 {
                Some(members)
            } else {
                None
            };
        }
        let start: &'a [u8] = match skip_comma(rest, first) {
            Some(start) => start,
            None => return None,
        };
        let (member, next) = match split_member(start) {
            Some(split) => split,
            None => return None,
        };
        let ghost view = (member.0@, member.1@);
        proof {
            lemma_led_on(member_views(members@), view, object_rest(next@, false));
        }
        let ghost before = members@;
        members.push(member);
        assert(member_views(members@) =~= member_views(before).push(view));
        rest = next;
        first = false;
    }
}

/// What stands in a field.
pub enum Field<'a> {
    Absent,
    Given(&'a [u8]),
    Repeated,
}

impl<'a> View for Field<'a> {
    type V = FieldView;

    open spec fn view(&self) -> FieldView {
        match *self {
            Field::Absent => FieldView::Absent,
            Field::Given(bytes) => FieldView::Given(bytes@),
            Field::Repeated => FieldView::Repeated,
        }
    }
}

impl<'a> Parts<'a> {
    /// The fields that a text gives, if it has the shape of a struct.
    pub fn read(bytes: &'a [u8]) -> (parts: Option<Self>)
        ensures
            parts_of(bytes@) == (match parts {
                Some(parts) => Some(parts@),
                None => None,
            }),
    {
        match split_object(bytes) {
            Some(members) => Some(Parts::Object(members)),
            None => match split_list(bytes) {
                Some(items) => Some(Parts::List(items)),
                None => None,
            },
        }
    }

    /// Whether a list gives no fewer and no more fields than there may be.
    pub fn fits(&self, least: usize, most: usize) -> (fits: bool)
        ensures
            fits == self@.fits(least as nat, most as nat),
    {
        match self {
            Parts::Object(_) => true,
            Parts::List(items) => least <= items.len() && items.len() <= most,
        }
    }

    /// What stands in a field, by its key or by its place.
    pub fn part(&self, key: &str, place: usize) -> (part: Field<'a>)
        ensures
            part@ == self@.part(key@, place as nat),
    {
        match self {
            Parts::List(items) => if place < items.len() {
                Field::Given(items[place])
            } else {
                Field::Absent
            },
            Parts::Object(members) => {
                let ghost views = member_views(members@);
                let mut found: Field<'a> = Field::Absent;
                let mut i: usize = 0;
                assert(views.take(0) =~= Seq::<(Seq<char>, Seq<u8>)>::empty());
                while i < members.len()
                    invariant
                        i <= members.len(),
                        views == member_views(members@),
                        found@ == under_key(views.take(i as int), key@),
                    decreases members.len() - i,
                {
                    proof {
                        assert(views.take(i + 1).drop_last() =~= views.take(i as int));
                        assert(views.take(i + 1).last() == views[i as int]);
                    }
                    if same_text(members[i].0.as_str(), key) {
                        found = match found {
                            Field::Absent => Field::Given(members[i].1),
                            _ => Field::Repeated,
                        };
                    }
                    i = i + 1;
                }
                assert(views.take(i as int) =~= views);
                found
            },
        }
    }

    fn value(&self, key: &str, place: usize) -> (value: Option<Value>)
        ensures
            self@.value(key@, place as nat) == (match value {
                Some(value) => Some(json_contents(value)),
                None => None,
            }),
    {
        match self.part(key, place) {
            Field::Given(bytes) => match parse_json(bytes) {
                Ok(value) => Some(value),
                Err(_) => None,
            },
            _ => None,
        }
    }

    /// The text of a field.
    pub fn text(&self, key: &str, place: usize) -> (text: Option<String>)
        ensures
            optional_text(text) == self@.text(key@, place as nat),
    {
        match self.value(key, place) {
            Some(value) => match decode_text(&value) {
                Ok(text) => Some(text),
                Err(_) => None,
            },
            None => None,
        }
    }

    /// The number of a field.
    pub fn number(&self, key: &str, place: usize) -> (number: Option<u64>)
        ensures
            number == self@.number(key@, place as nat),
    {
        match self.value(key, place) {
            Some(value) => match decode_u64(&value) {
                Ok(number) => Some(number),
                Err(_) => None,
            },
            None => None,
        }
    }

    /// The small number of a field.
    pub fn small_number(&self, key: &str, place: usize) -> (number: Option<u32>)
        ensures
            number == self@.small_number(key@, place as nat),
    {
        match self.value(key, place) {
            Some(value) => match decode_u32(&value) {
                Ok(number) => Some(number),
                Err(_) => None,
            },
            None => None,
        }
    }

    /// The truth value of a field.
    pub fn truth(&self, key: &str, place: usize) -> (truth: Option<bool>)
        ensures
            truth == self@.truth(key@, place as nat),
    {
        match self.value(key, place) {
            Some(value) => match decode_bool(&value) {
                Ok(truth) => Some(truth),
                Err(_) => None,
            },
            None => None,
        }
    }
}

/// Whether bytes stand for null.
pub open spec fn stands_for_null(bytes: Seq<u8>) -> bool {
    json_reading(bytes) == Ok::<JsonView, Seq<char>>(JsonView::Null)
}

pub(crate) fn is_null(bytes: &[u8]) -> (null: bool)
    ensures
        null == stands_for_null(bytes@),
{
    match parse_json(bytes) {
        Ok(value) => json_is_null(&value),
        Err(_) => false,
    }
}

/// Reads a value that stands inside another.
pub(crate) fn read_inner_value(bytes: &[u8]) -> (value: Option<Value>)
    ensures
        inner_value(bytes@) == (match value {
            Some(value) => Some(json_contents(value)),
            None => None,
        }),
{
    let mut list: Vec<u8> = Vec::new();
    list.push(91);
    crate::bytes::push_all(&mut list, bytes);
    list.push(93);
    assert(list@ =~= seq![91u8] + bytes@ + seq![93u8]);
    let value: Value = match parse_json(list.as_slice()) {
        Ok(value) => value,
        Err(_) => return None,
    };
    let mut items: Vec<Value> = match decode_list(&value) {
        Ok(items) => items,
        Err(_) => return None,
    };
    let ghost contents = contents_of(items@);
    if items.len() == 1 {
        assert(contents[0] == json_contents(items@[0]));
        items.pop()
    } else {
        None
    }
}

} // verus!
