//! The elementary values of the Postcard wire format.
use vstd::prelude::*;
use vstd::utf8::{
    decode_utf8, encode_utf8, encode_utf8_decode_utf8, encode_utf8_valid_utf8, valid_utf8,
};

use crate::bytes::push_all;

verus! {

/// The variable-length form of a number: groups of seven bits, least significant
/// first, each but the last marked by its high bit.
pub open spec fn varint(value: nat) -> Seq<u8>
    decreases value,
{
    if value < 128 {
        seq![value as u8]
    } else {
        seq![(value % 128 + 128) as u8] + varint(value / 128)
    }
}

/// The groups at the front of `bytes`, up to and with the first unmarked one.
pub open spec fn group_count(bytes: Seq<u8>) -> nat
    decreases bytes.len(),
{
    if bytes.len() == 0 {
        0
    } else if bytes[0] < 128 {
        1
    } else {
        1 + group_count(bytes.skip(1))
    }
}

/// The number that groups stand for.
pub open spec fn group_value(groups: Seq<u8>) -> nat
    decreases groups.len(),
{
    if groups.len() == 0 {
        0
    } else {
        (groups[0] % 128) as nat + 128 * group_value(groups.skip(1))
    }
}

/// What is said where the bytes end too early.
pub open spec fn unexpected_end() -> Seq<char> {
    "Hit the end of buffer, expected more data"@
}

/// What is said of a number that takes too many groups.
pub open spec fn bad_varint() -> Seq<char> {
    "Found a varint that didn't terminate. Is the usize too big for this platform?"@
}

/// What is said of a text that is not UTF-8.
pub open spec fn bad_utf8() -> Seq<char> {
    "Tried to parse invalid utf-8"@
}

/// The number at the front of `bytes` and what follows it. A number takes at most
/// `most` groups, and the last of that many is at most `last`.
pub open spec fn varint_reading(bytes: Seq<u8>, most: nat, last: nat) -> Result<
    (nat, Seq<u8>),
    Seq<char>,
> {
    let count = group_count(bytes);
    if count == 0 || bytes[count - 1] >= 128 {
        if bytes.len() < most {
            Err(unexpected_end())
        } else {
            Err(bad_varint())
        }
    } else if count > most || (count == most && bytes[count - 1] > last) {
        Err(bad_varint())
    } else {
        Ok((group_value(bytes.take(count as int)), bytes.skip(count as int)))
    }
}

/// The reading of a `u64`.
pub open spec fn u64_reading(bytes: Seq<u8>) -> Result<(nat, Seq<u8>), Seq<char>> {
    varint_reading(bytes, 10, 1)
}

/// The reading of a `u32`.
pub open spec fn u32_reading(bytes: Seq<u8>) -> Result<(nat, Seq<u8>), Seq<char>> {
    varint_reading(bytes, 5, 15)
}

/// The unsigned number that stands for a signed one: the sign in the lowest bit.
pub open spec fn zigzag(value: int) -> nat {
    if value >= 0 {
        (2 * value) as nat
    } else {
        (-2 * value - 1) as nat
    }
}

/// The signed number that an unsigned one stands for.
pub open spec fn unzigzag(value: nat) -> int {
    if value % 2 == 0 {
        (value / 2) as int
    } else {
        -((value / 2) as int) - 1
    }
}

/// The reading of an `i128`.
pub open spec fn i128_reading(bytes: Seq<u8>) -> Result<(int, Seq<u8>), Seq<char>> {
    match varint_reading(bytes, 19, 3) {
        Ok((value, rest)) => Ok((unzigzag(value), rest)),
        Err(error) => Err(error),
    }
}

/// A text: how many bytes it has, then its bytes.
pub open spec fn text_bytes(text: Seq<char>) -> Seq<u8> {
    varint(encode_utf8(text).len()) + encode_utf8(text)
}

/// The reading of a length, which has the width of the machine's addresses.
pub open spec fn length_reading(bytes: Seq<u8>) -> Result<(nat, Seq<u8>), Seq<char>> {
    if usize::MAX > u32::MAX {
        u64_reading(bytes)
    } else {
        u32_reading(bytes)
    }
}

/// The reading of a text.
pub open spec fn text_reading(bytes: Seq<u8>) -> Result<(Seq<char>, Seq<u8>), Seq<char>> {
    match length_reading(bytes) {
        Err(error) => Err(error),
        Ok((length, rest)) => if length > rest.len() {
            Err(unexpected_end())
        } else if !valid_utf8(rest.take(length as int)) {
            Err(bad_utf8())
        } else {
            Ok((decode_utf8(rest.take(length as int)), rest.skip(length as int)))
        },
    }
}

/// `postcard::to_allocvec` of a `u64`: the variable-length form of the number. A
/// vector always has room, so this does not fail. Every unsigned integer, length and
/// variant index of at least 16 bits has the same form.
#[verifier::external_body]
fn encode_u64(value: u64) -> (result: Result<Vec<u8>, String>)
    ensures
        result is Ok,
        result->Ok_0@ == varint(value as nat),
{
    postcard::to_allocvec(&value).map_err(|error| error.to_string())
}

/// `postcard::to_allocvec` of an `i128`: the variable-length form of the number with
/// its sign in the lowest bit. A vector always has room, so this does not fail.
#[verifier::external_body]
fn encode_i128(value: i128) -> (result: Result<Vec<u8>, String>)
    ensures
        result is Ok,
        result->Ok_0@ == varint(zigzag(value as int)),
{
    postcard::to_allocvec(&value).map_err(|error| error.to_string())
}

/// `postcard::to_allocvec` of a `str`: its length in bytes, then its bytes. A vector
/// always has room, so this does not fail.
#[verifier::external_body]
fn encode_str(value: &str) -> (result: Result<Vec<u8>, String>)
    ensures
        result is Ok,
        result->Ok_0@ == text_bytes(value@),
{
    postcard::to_allocvec(value).map_err(|error| error.to_string())
}

/// `postcard::take_from_bytes` for a `u64`: the number in at most ten groups, and the
/// bytes behind it.
#[verifier::external_body]
pub(crate) fn take_u64<'a>(bytes: &'a [u8]) -> (result: Result<(u64, &'a [u8]), String>)
    ensures
        match result {
            Ok((value, rest)) => u64_reading(bytes@) == Ok::<(nat, Seq<u8>), Seq<char>>(
                (value as nat, rest@),
            ),
            Err(error) => u64_reading(bytes@) == Err::<(nat, Seq<u8>), Seq<char>>(error@),
        },
{
    postcard::take_from_bytes::<u64>(bytes).map_err(|error| error.to_string())
}

/// `postcard::take_from_bytes` for a `u32`: the number in at most five groups, and the
/// bytes behind it. The variant index of an enum is read in the same way.
#[verifier::external_body]
pub(crate) fn take_u32<'a>(bytes: &'a [u8]) -> (result: Result<(u32, &'a [u8]), String>)
    ensures
        match result {
            Ok((value, rest)) => u32_reading(bytes@) == Ok::<(nat, Seq<u8>), Seq<char>>(
                (value as nat, rest@),
            ),
            Err(error) => u32_reading(bytes@) == Err::<(nat, Seq<u8>), Seq<char>>(error@),
        },
{
    postcard::take_from_bytes::<u32>(bytes).map_err(|error| error.to_string())
}

/// `postcard::take_from_bytes` for an `i128`: the number in at most nineteen groups,
/// its sign in the lowest bit, and the bytes behind it.
#[verifier::external_body]
pub(crate) fn take_i128<'a>(bytes: &'a [u8]) -> (result: Result<(i128, &'a [u8]), String>)
    ensures
        match result {
            Ok((value, rest)) => i128_reading(bytes@) == Ok::<(int, Seq<u8>), Seq<char>>(
                (value as int, rest@),
            ),
            Err(error) => i128_reading(bytes@) == Err::<(int, Seq<u8>), Seq<char>>(error@),
        },
{
    postcard::take_from_bytes::<i128>(bytes).map_err(|error| error.to_string())
}

/// `postcard::take_from_bytes` for a `String`: a length in bytes, as many bytes of
/// UTF-8, and the bytes behind them.
#[verifier::external_body]
pub(crate) fn take_text<'a>(bytes: &'a [u8]) -> (result: Result<(String, &'a [u8]), String>)
    ensures
        match result {
            Ok((value, rest)) => text_reading(bytes@) == Ok::<(Seq<char>, Seq<u8>), Seq<char>>(
                (value@, rest@),
            ),
            Err(error) => text_reading(bytes@) == Err::<(Seq<char>, Seq<u8>), Seq<char>>(error@),
        },
{
    postcard::take_from_bytes::<String>(bytes).map_err(|error| error.to_string())
}

/// Appends a number in its variable-length form.
pub fn push_u64(out: &mut Vec<u8>, value: u64)
    ensures
        final(out)@ == old(out)@ + varint(value as nat),
{
    let bytes: Vec<u8> = encode_u64(value).unwrap();
    push_all(out, bytes.as_slice());
}

/// Appends a signed number.
pub fn push_i128(out: &mut Vec<u8>, value: i128)
    ensures
        final(out)@ == old(out)@ + varint(zigzag(value as int)),
{
    let bytes: Vec<u8> = encode_i128(value).unwrap();
    push_all(out, bytes.as_slice());
}

/// Appends a text.
pub fn push_text(out: &mut Vec<u8>, value: &str)
    ensures
        final(out)@ == old(out)@ + text_bytes(value@),
        encode_utf8(value@).len() <= usize::MAX,
{
    let _ = value.as_bytes().len();
    let bytes: Vec<u8> = encode_str(value).unwrap();
    push_all(out, bytes.as_slice());
}

/// The first number that `most` groups, of which the last is at most `last`, cannot
/// hold.
pub open spec fn group_limit(most: nat, last: nat) -> nat
    decreases most,
{
    if most <= 1 {
        last + 1
    } else {
        128 * group_limit((most - 1) as nat, last)
    }
}

/// Reading gives back the number that was written, if it is one that `most` groups
/// of which the last is at most `last` can hold.
pub proof fn lemma_varint_round_trip(value: nat, rest: Seq<u8>, most: nat, last: nat)
    requires
        most > 0,
        last < 128,
        value < group_limit(most, last),
    ensures
        varint_reading(varint(value) + rest, most, last) == Ok::<(nat, Seq<u8>), Seq<char>>(
            (value, rest),
        ),
{
    lemma_groups(value, rest, most, last);
    assert((varint(value) + rest).take(varint(value).len() as int) =~= varint(value));
    assert((varint(value) + rest).skip(varint(value).len() as int) =~= rest);
}

proof fn lemma_groups(value: nat, rest: Seq<u8>, most: nat, last: nat)
    requires
        most > 0,
        last < 128,
        value < group_limit(most, last),
    ensures
        0 < varint(value).len() <= most,
        varint(value).len() == most ==> varint(value).last() <= last,
        varint(value).last() < 128,
        group_count(varint(value) + rest) == varint(value).len(),
        group_value(varint(value)) == value,
    decreases most,
{
    let bytes = varint(value) + rest;
    if value < 128 {
        assert(varint(value).skip(1) =~= Seq::<u8>::empty());
        assert(group_value(varint(value).skip(1)) == 0);
    } else {
        let tail = varint(value / 128);
        lemma_groups(value / 128, rest, (most - 1) as nat, last);
        assert(bytes.skip(1) =~= tail + rest);
        assert(varint(value).skip(1) =~= tail);
        assert(varint(value).last() == tail.last());
        assert(varint(value)[0] == (value % 128 + 128) as u8);
    }
}

/// Reading gives back a `u64` that was written.
pub proof fn lemma_u64_round_trip(value: nat, rest: Seq<u8>)
    requires
        value <= u64::MAX,
    ensures
        u64_reading(varint(value) + rest) == Ok::<(nat, Seq<u8>), Seq<char>>((value, rest)),
{
    assert(group_limit(10, 1) == 0x1_0000_0000_0000_0000) by {
        reveal_with_fuel(group_limit, 10);
    }
    lemma_varint_round_trip(value, rest, 10, 1);
}

/// Reading gives back a `u32` that was written.
pub proof fn lemma_u32_round_trip(value: nat, rest: Seq<u8>)
    requires
        value <= u32::MAX,
    ensures
        u32_reading(varint(value) + rest) == Ok::<(nat, Seq<u8>), Seq<char>>((value, rest)),
{
    assert(group_limit(5, 15) == 0x1_0000_0000) by {
        reveal_with_fuel(group_limit, 5);
    }
    lemma_varint_round_trip(value, rest, 5, 15);
}

/// Reading gives back an `i128` that was written.
pub proof fn lemma_i128_round_trip(value: i128, rest: Seq<u8>)
    ensures
        i128_reading(varint(zigzag(value as int)) + rest) == Ok::<(int, Seq<u8>), Seq<char>>(
            (value as int, rest),
        ),
{
    assert(group_limit(19, 3) == 0x1_0000_0000_0000_0000_0000_0000_0000_0000) by {
        reveal_with_fuel(group_limit, 19);
    }
    lemma_varint_round_trip(zigzag(value as int), rest, 19, 3);
}

/// Reading gives back a text that was written.
pub proof fn lemma_text_round_trip(text: Seq<char>, rest: Seq<u8>)
    requires
        encode_utf8(text).len() <= usize::MAX,
    ensures
        text_reading(text_bytes(text) + rest) == Ok::<(Seq<char>, Seq<u8>), Seq<char>>(
            (text, rest),
        ),
{
    let bytes = encode_utf8(text);
    assert(text_bytes(text) + rest =~= varint(bytes.len()) + (bytes + rest));
    if usize::MAX > u32::MAX {
        lemma_u64_round_trip(bytes.len(), bytes + rest);
    } else {
        lemma_u32_round_trip(bytes.len(), bytes + rest);
    }
    assert((bytes + rest).take(bytes.len() as int) =~= bytes);
    assert((bytes + rest).skip(bytes.len() as int) =~= rest);
    encode_utf8_valid_utf8(text);
    encode_utf8_decode_utf8(text);
}

} // verus!
