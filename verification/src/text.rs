//! Text helpers shared by every module: digits, padding, hexadecimal and
//! white space.
use vstd::prelude::*;

verus! {

/// `std::string::String::push`: appends one character at the end of the string.
pub assume_specification[ String::push ](string: &mut String, c: char)
    ensures
        final(string)@ == old(string)@.push(c),
;

/// The quoted and escaped rendering that `std` gives to a text for debugging.
pub uninterp spec fn debug_rendering(text: Seq<char>) -> Seq<char>;

/// Renders a text with the `Debug` implementation of `str`: the result is a
/// function of the text alone. Which characters it escapes is left unsaid.
#[verifier::external_body]
pub(crate) fn debug_text(text: &str) -> (rendering: String)
    ensures
        rendering@ == debug_rendering(text@),
{
    format!("{text:?}")
}

/// The character of a decimal digit.
pub open spec fn digit_char(digit: nat) -> char {
    (48 + digit) as char
}

/// The usual decimal rendering of a number, without leading zeroes.
pub open spec fn decimal(value: nat) -> Seq<char>
    decreases value,
{
    if value < 10 {
        seq![digit_char(value)]
    } else {
        decimal(value / 10).push(digit_char(value % 10))
    }
}

/// Whether a character is an ASCII decimal digit.
pub open spec fn is_digit(c: char) -> bool {
    '0' <= c <= '9'
}

/// Whether every character is an ASCII decimal digit.
pub open spec fn all_digits(text: Seq<char>) -> bool {
    forall|i: int| 0 <= i < text.len() ==> is_digit(#[trigger] text[i])
}

/// The number that a row of decimal digits stands for.
pub open spec fn digits_value(text: Seq<char>) -> nat
    decreases text.len(),
{
    if text.len() == 0 {
        0
    } else {
        digits_value(text.drop_last()) * 10 + (text.last() as nat - 48) as nat
    }
}

/// Text made of `count` copies of one character.
pub open spec fn repeated(c: char, count: nat) -> Seq<char> {
    Seq::new(count, |i: int| c)
}

/// Text padded on the left with zeroes to at least `width` characters.
pub open spec fn zero_padded(text: Seq<char>, width: nat) -> Seq<char> {
    if text.len() >= width {
        text
    } else {
        repeated('0', (width - text.len()) as nat) + text
    }
}

/// The lower-case hexadecimal digit of a number below sixteen.
pub open spec fn hex_char(value: nat) -> char {
    if value < 10 {
        (48 + value) as char
    } else {
        (87 + value) as char
    }
}

/// Bytes rendered as two lower-case hexadecimal digits each.
pub open spec fn hex(bytes: Seq<u8>) -> Seq<char>
    decreases bytes.len(),
{
    if bytes.len() == 0 {
        Seq::empty()
    } else {
        hex(bytes.drop_last()).push(hex_char((bytes.last() / 16) as nat)).push(
            hex_char((bytes.last() % 16) as nat),
        )
    }
}

/// The characters with the Unicode property `White_Space`.
pub open spec fn is_white_space(c: char) -> bool {
    let code = c as u32;
    ||| 0x9 <= code <= 0xd
    ||| code == 0x20
    ||| code == 0x85
    ||| code == 0xa0
    ||| code == 0x1680
    ||| 0x2000 <= code <= 0x200a
    ||| code == 0x2028
    ||| code == 0x2029
    ||| code == 0x202f
    ||| code == 0x205f
    ||| code == 0x3000
}

/// The characters of the Unicode general category `Cc`.
pub open spec fn is_control(c: char) -> bool {
    let code = c as u32;
    code <= 0x1f || 0x7f <= code <= 0x9f
}

/// The text of an optional string.
pub open spec fn optional_text(value: Option<String>) -> Option<Seq<char>> {
    match value {
        Some(text) => Some(text@),
        None => None,
    }
}

/// Lexicographic order of texts by code point, which is also the byte order of
/// their UTF-8 encodings.
pub open spec fn text_less(left: Seq<char>, right: Seq<char>) -> bool
    decreases left.len(),
{
    if right.len() == 0 {
        false
    } else if left.len() == 0 {
        true
    } else if left[0] == right[0] {
        text_less(left.drop_first(), right.drop_first())
    } else {
        left[0] < right[0]
    }
}

pub proof fn lemma_text_less_irreflexive(text: Seq<char>)
    ensures
        !text_less(text, text),
    decreases text.len(),
{
    if text.len() > 0 {
        lemma_text_less_irreflexive(text.drop_first());
    }
}

pub proof fn lemma_text_less_total(left: Seq<char>, right: Seq<char>)
    ensures
        left == right || text_less(left, right) || text_less(right, left),
    decreases left.len(),
{
    if left.len() > 0 && right.len() > 0 && left[0] == right[0] {
        lemma_text_less_total(left.drop_first(), right.drop_first());
        if left.drop_first() == right.drop_first() {
            assert(left =~= seq![left[0]] + left.drop_first());
            assert(right =~= seq![right[0]] + right.drop_first());
        }
    } else if left.len() == 0 && right.len() == 0 {
        assert(left =~= right);
    }
}

pub proof fn lemma_text_less_transitive(a: Seq<char>, b: Seq<char>, c: Seq<char>)
    requires
        text_less(a, b),
        text_less(b, c),
    ensures
        text_less(a, c),
    decreases a.len(),
{
    if a.len() > 0 && b.len() > 0 && c.len() > 0 && a[0] == b[0] && b[0] == c[0] {
        lemma_text_less_transitive(a.drop_first(), b.drop_first(), c.drop_first());
    }
}

/// The characters of a string in order.
pub fn chars_of(text: &str) -> (chars: Vec<char>)
    ensures
        chars@ == text@,
{
    let mut chars: Vec<char> = Vec::new();
    for c in iter: text.chars()
        invariant
            chars@ == iter.seq().subrange(0, iter.index() as int),
    {
        chars.push(c);
    }
    chars
}

/// The string with the given characters.
pub fn string_of(chars: &[char]) -> (text: String)
    ensures
        text@ == chars@,
{
    let mut text = String::new();
    let mut i: usize = 0;
    while i < chars.len()
        invariant
            i <= chars.len(),
            text@ == chars@.subrange(0, i as int),
        decreases chars.len() - i,
    {
        text.push(chars[i]);
        i = i + 1;
        assert(chars@.subrange(0, i as int).drop_last() =~= chars@.subrange(0, i - 1));
    }
    assert(chars@.subrange(0, i as int) =~= chars@);
    text
}

/// Whether two texts hold the same characters.
pub fn same_text(left: &str, right: &str) -> (same: bool)
    ensures
        same == (left@ == right@),
{
    let left_chars: Vec<char> = chars_of(left);
    let right_chars: Vec<char> = chars_of(right);
    if left_chars.len() != right_chars.len() {
        return false;
    }
    let mut i: usize = 0;
    while i < left_chars.len()
        invariant
            i <= left_chars.len() == right_chars.len(),
            left_chars@ == left@,
            right_chars@ == right@,
            forall|j: int| 0 <= j < i ==> left@[j] == right@[j],
        decreases left_chars.len() - i,
    {
        if left_chars[i] != right_chars[i] {
            return false;
        }
        i = i + 1;
    }
    assert(left@ =~= right@);
    true
}

/// Whether `left` sorts before `right`.
pub fn sorts_before(left: &str, right: &str) -> (before: bool)
    ensures
        before == text_less(left@, right@),
{
    let left_chars: Vec<char> = chars_of(left);
    let right_chars: Vec<char> = chars_of(right);
    let mut i: usize = 0;
    proof {
        assert(left@.skip(0) =~= left@);
        assert(right@.skip(0) =~= right@);
    }
    while i < left_chars.len() && i < right_chars.len()
        invariant
            i <= left_chars.len(),
            i <= right_chars.len(),
            left_chars@ == left@,
            right_chars@ == right@,
            text_less(left@, right@) == text_less(left@.skip(i as int), right@.skip(i as int)),
        decreases left_chars.len() - i,
    {
        proof {
            assert(left@.skip(i as int).drop_first() =~= left@.skip(i + 1));
            assert(right@.skip(i as int).drop_first() =~= right@.skip(i + 1));
        }
        if left_chars[i] != right_chars[i] {
            return left_chars[i] < right_chars[i];
        }
        i = i + 1;
    }
    i < right_chars.len()
}

/// A decimal digit as a character.
pub fn digit(value: u8) -> (c: char)
    requires
        value < 10,
    ensures
        c == digit_char(value as nat),
{
    (48 + value) as char
}

/// The decimal rendering of a number.
pub fn decimal_text(value: u128) -> (text: String)
    ensures
        text@ == decimal(value as nat),
    decreases value,
{
    if value < 10 {
        let mut text = String::new();
        text.push(digit(value as u8));
        assert(text@ =~= seq![digit_char(value as nat)]);
        text
    } else {
        let mut text = decimal_text(value / 10);
        text.push(digit((value % 10) as u8));
        text
    }
}

/// Text padded on the left with zeroes.
pub fn pad_zeroes(text: &str, width: usize) -> (padded: String)
    ensures
        padded@ == zero_padded(text@, width as nat),
{
    let length: usize = text.unicode_len();
    let mut padded = String::new();
    let mut i: usize = length;
    while i < width
        invariant
            length <= i,
            i <= width || i == length,
            length == text@.len(),
            padded@ == repeated('0', (i - length) as nat),
        decreases width - i,
    {
        padded.push('0');
        i = i + 1;
        assert(padded@ =~= repeated('0', (i - length) as nat));
    }
    padded.append(text);
    assert(padded@ =~= zero_padded(text@, width as nat));
    padded
}

/// A hexadecimal digit as a character.
pub fn hex_digit(value: u8) -> (c: char)
    requires
        value < 16,
    ensures
        c == hex_char(value as nat),
{
    if value < 10 {
        (48 + value) as char
    } else {
        (87 + value) as char
    }
}

/// Bytes rendered as lower-case hexadecimal text.
pub fn encode_hex(bytes: &[u8]) -> (encoded: String)
    ensures
        encoded@ == hex(bytes@),
{
    let mut encoded = String::new();
    let mut i: usize = 0;
    while i < bytes.len()
        invariant
            i <= bytes.len(),
            encoded@ == hex(bytes@.subrange(0, i as int)),
        decreases bytes.len() - i,
    {
        encoded.push(hex_digit(bytes[i] / 16));
        encoded.push(hex_digit(bytes[i] % 16));
        i = i + 1;
        assert(bytes@.subrange(0, i as int).drop_last() =~= bytes@.subrange(0, i - 1));
    }
    assert(bytes@.subrange(0, i as int) =~= bytes@);
    encoded
}

/// Whether a character is white space.
pub fn white_space(c: char) -> (r: bool)
    ensures
        r == is_white_space(c),
{
    let code: u32 = c as u32;
    (0x9 <= code && code <= 0xd) || code == 0x20 || code == 0x85 || code == 0xa0 || code == 0x1680
        || (0x2000 <= code && code <= 0x200a) || code == 0x2028 || code == 0x2029 || code == 0x202f
        || code == 0x205f || code == 0x3000
}

/// Whether a character is a control character.
pub fn control(c: char) -> (r: bool)
    ensures
        r == is_control(c),
{
    let code: u32 = c as u32;
    code <= 0x1f || (0x7f <= code && code <= 0x9f)
}

/// The number that a lower-case hexadecimal digit stands for.
pub open spec fn hex_value(c: char) -> int {
    if '0' <= c <= '9' {
        c as int - '0' as int
    } else {
        c as int - 'a' as int + 10
    }
}

/// Whether a character is a lower-case hexadecimal digit.
pub open spec fn is_hex_digit(c: char) -> bool {
    '0' <= c <= '9' || 'a' <= c <= 'f'
}

/// The hexadecimal form of bytes has two digits for every byte, the higher one first.
pub proof fn lemma_hex_digits(bytes: Seq<u8>)
    ensures
        hex(bytes).len() == 2 * bytes.len(),
        forall|i: int| 0 <= i < hex(bytes).len() ==> is_hex_digit(#[trigger] hex(bytes)[i]),
        forall|i: int|
            0 <= i < bytes.len() ==> #[trigger] bytes[i] == 16 * hex_value(hex(bytes)[2 * i])
                + hex_value(hex(bytes)[2 * i + 1]),
    decreases bytes.len(),
{
    if bytes.len() > 0 {
        let earlier = bytes.drop_last();
        lemma_hex_digits(earlier);
        let all = hex(bytes);
        assert forall|i: int| 0 <= i < all.len() implies is_hex_digit(#[trigger] all[i]) by {
            if i < hex(earlier).len() {
                assert(all[i] == hex(earlier)[i]);
            }
        }
        assert forall|i: int| 0 <= i < bytes.len() implies #[trigger] bytes[i] == 16 * hex_value(
            all[2 * i],
        ) + hex_value(all[2 * i + 1]) by {
            if i < earlier.len() {
                assert(earlier[i] == bytes[i]);
                assert(all[2 * i] == hex(earlier)[2 * i]);
                assert(all[2 * i + 1] == hex(earlier)[2 * i + 1]);
            }
        }
    }
}

/// Different bytes have different hexadecimal forms.
pub proof fn lemma_hex_unique(left: Seq<u8>, right: Seq<u8>)
    requires
        hex(left) == hex(right),
    ensures
        left == right,
{
    lemma_hex_digits(left);
    lemma_hex_digits(right);
    assert forall|i: int| 0 <= i < left.len() implies #[trigger] left[i] == right[i] by {
        assert(right[i] == 16 * hex_value(hex(right)[2 * i]) + hex_value(hex(right)[2 * i + 1]));
    }
    assert(left =~= right);
}

/// Whether one text comes before another by what they hold at a place, up to which they agree:
/// it ends there and the other does not, or its character there is smaller.
pub open spec fn differs_at(left: Seq<char>, right: Seq<char>, place: int) -> bool {
    &&& 0 <= place < right.len()
    &&& place <= left.len()
    &&& forall|i: int| 0 <= i < place ==> #[trigger] left[i] == right[i]
    &&& place < left.len() ==> left[place] < right[place]
}

/// Texts are ordered by the first place at which they differ, as words are in a dictionary.
pub proof fn lemma_texts_ordered(left: Seq<char>, right: Seq<char>)
    ensures
        text_less(left, right) <==> exists|place: int| #[trigger] differs_at(left, right, place),
    decreases left.len(),
{
    if right.len() > 0 && left.len() > 0 && left[0] == right[0] {
        let rest = left.drop_first();
        let other = right.drop_first();
        lemma_texts_ordered(rest, other);
        if text_less(rest, other) {
            let place = choose|place: int| #[trigger] differs_at(rest, other, place);
            assert forall|i: int| 0 <= i < place + 1 implies #[trigger] left[i] == right[i] by {
                if i > 0 {
                    assert(rest[i - 1] == other[i - 1]);
                }
            }
            assert(differs_at(left, right, place + 1));
        }
        if exists|place: int| #[trigger] differs_at(left, right, place) {
            let place = choose|place: int| #[trigger] differs_at(left, right, place);
            assert(place > 0);
            assert forall|i: int| 0 <= i < place - 1 implies #[trigger] rest[i] == other[i] by {
                assert(left[i + 1] == right[i + 1]);
            }
            assert(differs_at(rest, other, place - 1));
        }
    } else if right.len() > 0 {
        if text_less(left, right) {
            assert(differs_at(left, right, 0));
        } else if exists|place: int| #[trigger] differs_at(left, right, place) {
            let place = choose|place: int| #[trigger] differs_at(left, right, place);
            if place > 0 {
                assert(left[0] == right[0]);
            }
        }
    }
}

} // verus!
