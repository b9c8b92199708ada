//! Reading settings and arguments: splitting, trimming and whole numbers.
use vstd::prelude::*;

use crate::domain::decimal::lemma_decimal_digits;
use crate::text::{
    all_digits, chars_of, decimal, digits_value, is_digit, is_white_space, string_of, white_space,
};

verus! {

/// The text from its first character that is not white space.
pub open spec fn without_leading_space(text: Seq<char>) -> Seq<char>
    decreases text.len(),
{
    if text.len() > 0 && is_white_space(text[0]) {
        without_leading_space(text.skip(1))
    } else {
        text
    }
}

/// The text up to its last character that is not white space.
pub open spec fn without_trailing_space(text: Seq<char>) -> Seq<char>
    decreases text.len(),
{
    if text.len() > 0 && is_white_space(text.last()) {
        without_trailing_space(text.drop_last())
    } else {
        text
    }
}

/// The text without white space at its ends.
pub open spec fn trimmed(text: Seq<char>) -> Seq<char> {
    without_trailing_space(without_leading_space(text))
}

/// Removes white space from the ends of a text.
pub fn trim_text(text: &str) -> (result: String)
    ensures
        result@ == trimmed(text@),
{
    let chars: Vec<char> = chars_of(text);
    let mut start: usize = 0;
    assert(chars@.skip(0) =~= chars@);
    while start < chars.len() && white_space(chars[start])
        invariant
            start <= chars.len(),
            without_leading_space(chars@.skip(start as int)) == without_leading_space(chars@),
        decreases chars.len() - start,
    {
        assert(chars@.skip(start as int).skip(1) =~= chars@.skip(start + 1));
        start = start + 1;
    }
    let ghost front = chars@.skip(start as int);
    assert(without_leading_space(chars@) == front);
    let mut end: usize = chars.len();
    assert(chars@.subrange(start as int, end as int) =~= front);
    while end > start && white_space(chars[end - 1])
        invariant
            start <= end <= chars.len(),
            without_trailing_space(chars@.subrange(start as int, end as int))
                == without_trailing_space(front),
        decreases end,
    {
        assert(chars@.subrange(start as int, end as int).drop_last() =~= chars@.subrange(
            start as int,
            end - 1,
        ));
        end = end - 1;
    }
    string_of(vstd::slice::slice_subrange(chars.as_slice(), start, end))
}

/// The parts of a text between separators. There is always one more than there are
/// separators.
pub open spec fn split(text: Seq<char>, separator: char) -> Seq<Seq<char>>
    decreases text.len(),
{
    if text.len() == 0 {
        seq![Seq::empty()]
    } else {
        let earlier = split(text.drop_last(), separator);
        if text.last() == separator {
            earlier.push(Seq::empty())
        } else {
            earlier.drop_last().push(earlier.last().push(text.last()))
        }
    }
}

/// Splits a text at every separator.
pub fn split_text(text: &str, separator: char) -> (parts: Vec<String>)
    ensures
        parts@.map_values(|part: String| part@) == split(text@, separator),
        parts@.len() > 0,
{
    let chars: Vec<char> = chars_of(text);
    let mut parts: Vec<String> = Vec::new();
    let mut part: String = String::new();
    let mut i: usize = 0;
    proof {
        assert(chars@.take(0) =~= Seq::<char>::empty());
        assert(part@ =~= Seq::<char>::empty());
        assert(parts@.map_values(|part: String| part@).push(part@) =~= split(
            chars@.take(0),
            separator,
        ));
    }
    while i < chars.len()
        invariant
            i <= chars.len(),
            parts@.map_values(|part: String| part@).push(part@) == split(
                chars@.take(i as int),
                separator,
            ),
        decreases chars.len() - i,
    {
        let ghost earlier = split(chars@.take(i as int), separator);
        let ghost texts = parts@.map_values(|part: String| part@);
        proof {
            assert(chars@.take(i + 1).drop_last() =~= chars@.take(i as int));
            assert(earlier.drop_last() =~= texts);
            assert(earlier.last() == part@);
        }
        let c: char = chars[i];
        if c == separator {
            parts.push(part);
            part = String::new();
            proof {
                assert(part@ =~= Seq::<char>::empty());
                assert(parts@.map_values(|part: String| part@) =~= earlier);
            }
        } else {
            part.push(c);
        }
        i = i + 1;
    }
    assert(chars@.take(i as int) =~= chars@);
    let ghost texts = parts@.map_values(|part: String| part@);
    let ghost last = part@;
    parts.push(part);
    assert(parts@.map_values(|part: String| part@) =~= texts.push(last));
    parts
}

/// The parts before and after the first separator, if there is one.
pub open spec fn split_once(text: Seq<char>, separator: char) -> Option<(Seq<char>, Seq<char>)>
    decreases text.len(),
{
    if text.len() == 0 {
        None
    } else if text[0] == separator {
        Some((Seq::empty(), text.skip(1)))
    } else {
        match split_once(text.skip(1), separator) {
            None => None,
            Some(parts) => Some((seq![text[0]] + parts.0, parts.1)),
        }
    }
}

/// Splits a text at the first separator.
pub fn split_text_once(text: &str, separator: char) -> (parts: Option<(String, String)>)
    ensures
        split_once(text@, separator) == (match parts {
            Some(parts) => Some((parts.0@, parts.1@)),
            None => None,
        }),
{
    let chars: Vec<char> = chars_of(text);
    let mut i: usize = 0;
    proof {
        assert(chars@.skip(0) =~= chars@);
    }
    while i < chars.len()
        invariant
            i <= chars.len(),
            chars@ == text@,
            split_once(text@, separator) == (match split_once(
                chars@.skip(i as int),
                separator,
            ) {
                None => None,
                Some(parts) => Some((chars@.take(i as int) + parts.0, parts.1)),
            }),
        decreases chars.len() - i,
    {
        let ghost rest = chars@.skip(i as int);
        proof {
            assert(rest[0] == chars@[i as int]);
            assert(rest.skip(1) =~= chars@.skip(i + 1));
        }
        if chars[i] == separator {
            let key: String = string_of(vstd::slice::slice_subrange(chars.as_slice(), 0, i));
            let value: String = string_of(
                vstd::slice::slice_subrange(chars.as_slice(), i + 1, chars.len()),
            );
            proof {
                assert(key@ =~= chars@.take(i as int) + Seq::<char>::empty());
                assert(value@ =~= rest.skip(1));
            }
            return Some((key, value));
        }
        proof {
            if let Some(parts) = split_once(chars@.skip(i + 1), separator) {
                assert(chars@.take(i as int) + (seq![chars@[i as int]] + parts.0) =~= chars@.take(
                    i + 1,
                ) + parts.0);
            }
        }
        i = i + 1;
    }
    None
}

/// The number that a text stands for: digits, perhaps behind a plus sign.
pub open spec fn unsigned_value(text: Seq<char>) -> Option<nat> {
    let digits = if text.len() > 0 && text[0] == '+' {
        text.skip(1)
    } else {
        text
    };
    if digits.len() > 0 && all_digits(digits) {
        Some(digits_value(digits))
    } else {
        None
    }
}

/// The number that a text stands for, if it is not above a limit.
pub open spec fn unsigned_within(text: Seq<char>, limit: u64) -> Option<u64> {
    match unsigned_value(text) {
        Some(value) => if value <= limit {
            Some(value as u64)
        } else {
            None
        },
        None => None,
    }
}

/// Reads a number that is not above a limit.
pub fn parse_unsigned(text: &str, limit: u64) -> (result: Option<u64>)
    ensures
        result == unsigned_within(text@, limit),
{
    let chars: Vec<char> = chars_of(text);
    let start: usize = if chars.len() > 0 && chars[0] == '+' {
        1
    } else {
        0
    };
    let ghost digits = text@.skip(start as int);
    proof {
        assert(text@.skip(0) =~= text@);
    }
    if chars.len() == start {
        return None;
    }
    let mut value: u128 = 0;
    let mut i: usize = start;
    let mut above: bool = false;
    assert(digits.take(0) =~= Seq::<char>::empty());
    while i < chars.len()
        invariant
            start <= i <= chars.len(),
            chars@ == text@,
            digits == text@.skip(start as int),
            digits.len() > 0,
            start == (if text@.len() > 0 && text@[0] == '+' {
                1int
            } else {
                0int
            }),
            start == 0 ==> digits == text@,
            all_digits(digits.take(i - start)),
            above ==> digits_value(digits.take(i - start)) > limit,
            !above ==> value == digits_value(digits.take(i - start)) && value <= limit,
        decreases chars.len() - i,
    {
        let c: char = chars[i];
        let ghost so_far = digits.take(i - start);
        let ghost next = digits.take(i + 1 - start);
        proof {
            assert(digits[i - start] == c);
            assert(next.drop_last() =~= so_far);
            assert(next.last() == c);
        }
        if c < '0' || '9' < c {
            assert(!is_digit(digits[i - start]));
            return None;
        }
        proof {
            assert forall|j: int| 0 <= j < next.len() implies is_digit(#[trigger] next[j]) by {
                if j < so_far.len() {
                    assert(next[j] == so_far[j]);
                }
            }
        }
        if !above {
            value = value * 10 + (c as u32 - 48) as u128;
            if value > limit as u128 {
                above = true;
            }
        }
        i = i + 1;
    }
    assert(digits.take(i - start) =~= digits);
    if above {
        None
    } else {
        Some(value as u64)
    }
}

/// Parts with separators between them.
pub open spec fn joined_by(parts: Seq<Seq<char>>, separator: char) -> Seq<char>
    decreases parts.len(),
{
    if parts.len() == 0 {
        Seq::empty()
    } else if parts.len() == 1 {
        parts[0]
    } else {
        joined_by(parts.drop_last(), separator).push(separator) + parts.last()
    }
}

/// The parts of a text are what stands between its separators: joined again they are the
/// text, and none of them holds a separator.
pub proof fn lemma_split_parts(text: Seq<char>, separator: char)
    ensures
        split(text, separator).len() > 0,
        joined_by(split(text, separator), separator) == text,
        forall|i: int|
            0 <= i < split(text, separator).len() ==> !(#[trigger] split(
                text,
                separator,
            )[i]).contains(separator),
    decreases text.len(),
{
    let parts = split(text, separator);
    if text.len() == 0 {
        assert(joined_by(parts, separator) =~= text);
    } else {
        let shorter = text.drop_last();
        let earlier = split(shorter, separator);
        lemma_split_parts(shorter, separator);
        assert(text =~= shorter.push(text.last()));
        if text.last() == separator {
            assert(parts.drop_last() =~= earlier);
            assert(parts.last() =~= Seq::<char>::empty());
            assert(joined_by(parts, separator) =~= text);
            assert forall|i: int| 0 <= i < parts.len() implies !(#[trigger] parts[i]).contains(
                separator,
            ) by {
                if i < earlier.len() {
                    assert(parts[i] == earlier[i]);
                }
            }
        } else {
            let last = earlier.last().push(text.last());
            assert(parts.drop_last() =~= earlier.drop_last());
            assert(parts.last() == last);
            if earlier.len() == 1 {
                assert(joined_by(parts, separator) =~= text);
            } else {
                assert(joined_by(parts, separator) =~= joined_by(
                    earlier.drop_last(),
                    separator,
                ).push(separator) + last);
                assert(joined_by(parts, separator) =~= text);
            }
            assert forall|i: int| 0 <= i < parts.len() implies !(#[trigger] parts[i]).contains(
                separator,
            ) by {
                if i < parts.len() - 1 {
                    assert(parts[i] == earlier[i]);
                } else {
                    assert(!earlier[i].contains(separator));
                    if last.contains(separator) {
                        let k = choose|k: int| 0 <= k < last.len() && last[k] == separator;
                        assert(earlier.last()[k] == separator);
                    }
                }
            }
        }
    }
}

/// A text that is split once is split at its first separator.
pub proof fn lemma_split_once_parts(text: Seq<char>, separator: char)
    ensures
        split_once(text, separator) is Some <==> text.contains(separator),
        split_once(text, separator) matches Some(parts) ==> {
            &&& text == parts.0.push(separator) + parts.1
            &&& !parts.0.contains(separator)
        },
    decreases text.len(),
{
    if text.len() > 0 {
        let rest = text.skip(1);
        lemma_split_once_parts(rest, separator);
        assert(text =~= seq![text[0]] + rest);
        if text[0] == separator {
            assert(text =~= Seq::<char>::empty().push(separator) + rest);
        } else {
            if text.contains(separator) {
                let k = choose|k: int| 0 <= k < text.len() && text[k] == separator;
                assert(rest[k - 1] == separator);
            }
            if let Some(parts) = split_once(rest, separator) {
                let first = seq![text[0]] + parts.0;
                assert(text =~= first.push(separator) + parts.1);
                assert(rest[parts.0.len() as int] == separator);
                assert(text[parts.0.len() as int + 1] == separator);
                if first.contains(separator) {
                    let k = choose|k: int| 0 <= k < first.len() && first[k] == separator;
                    assert(parts.0[k - 1] == separator);
                }
            }
        }
    }
}

proof fn lemma_leading_space(text: Seq<char>)
    ensures
        ({
            let rest = without_leading_space(text);
            &&& rest.len() <= text.len()
            &&& rest == text.skip(text.len() - rest.len())
            &&& forall|i: int|
                0 <= i < text.len() - rest.len() ==> is_white_space(#[trigger] text[i])
            &&& rest.len() > 0 ==> !is_white_space(rest[0])
        }),
    decreases text.len(),
{
    if text.len() > 0 && is_white_space(text[0]) {
        lemma_leading_space(text.skip(1));
        let rest = without_leading_space(text);
        assert(rest =~= text.skip(text.len() - rest.len()));
        assert forall|i: int| 0 <= i < text.len() - rest.len() implies is_white_space(
            #[trigger] text[i],
        ) by {
            if i > 0 {
                assert(text.skip(1)[i - 1] == text[i]);
            }
        }
    } else {
        assert(text.skip(0) =~= text);
    }
}

proof fn lemma_trailing_space(text: Seq<char>)
    ensures
        ({
            let rest = without_trailing_space(text);
            &&& rest.len() <= text.len()
            &&& rest == text.take(rest.len() as int)
            &&& forall|i: int| rest.len() <= i < text.len() ==> is_white_space(#[trigger] text[i])
            &&& rest.len() > 0 ==> !is_white_space(rest.last())
        }),
    decreases text.len(),
{
    if text.len() > 0 && is_white_space(text.last()) {
        lemma_trailing_space(text.drop_last());
        let rest = without_trailing_space(text);
        assert(rest =~= text.take(rest.len() as int));
        assert forall|i: int| rest.len() <= i < text.len() implies is_white_space(
            #[trigger] text[i],
        ) by {
            if i < text.len() - 1 {
                assert(text.drop_last()[i] == text[i]);
            }
        }
    } else {
        assert(text.take(text.len() as int) =~= text);
    }
}

/// Trimming takes the white space off both ends of a text and nothing else.
pub proof fn lemma_trimmed_text(text: Seq<char>)
    ensures
        exists|from: int, to: int|
            #![trigger text.subrange(from, to)]
            {
                &&& 0 <= from <= to <= text.len()
                &&& trimmed(text) == text.subrange(from, to)
                &&& forall|i: int|
                    (0 <= i < from || to <= i < text.len()) ==> is_white_space(#[trigger] text[i])
            },
        trimmed(text).len() > 0 ==> !is_white_space(trimmed(text)[0]) && !is_white_space(
            trimmed(text).last(),
        ),
{
    lemma_leading_space(text);
    let led = without_leading_space(text);
    lemma_trailing_space(led);
    let rest = trimmed(text);
    let from = text.len() - led.len();
    let to = from + rest.len();
    assert(rest =~= text.subrange(from, to));
    assert forall|i: int| (0 <= i < from || to <= i < text.len()) implies is_white_space(
        #[trigger] text[i],
    ) by {
        if i >= to {
            assert(led[i - from] == text[i]);
        }
    }
    if rest.len() > 0 {
        assert(rest[0] == led[0]);
    }
}

/// A number that is written out is read back, with or without a plus sign in front, as long
/// as it is not above the limit.
pub proof fn lemma_written_number_read(number: nat, limit: u64)
    ensures
        unsigned_value(decimal(number)) == Some(number),
        unsigned_value(seq!['+'] + decimal(number)) == Some(number),
        unsigned_within(decimal(number), limit) == if number <= limit {
            Some(number as u64)
        } else {
            None
        },
{
    let digits = decimal(number);
    lemma_decimal_digits(number);
    assert(is_digit(digits[0]));
    assert((seq!['+'] + digits).skip(1) =~= digits);
}

} // verus!
