//! Exact positive decimals with at most eighteen fractional digits.
use vstd::prelude::*;

use crate::text::{
    all_digits, chars_of, decimal, decimal_text, digits_value, is_digit, pad_zeroes, string_of,
    zero_padded,
};

verus! {

/// The largest number of fractional digits that a decimal may carry.
pub const MAX_SCALE: u8 = 18;

/// Powers of ten.
pub open spec fn pow10(exponent: nat) -> nat
    decreases exponent,
{
    if exponent == 0 {
        1
    } else {
        10 * pow10((exponent - 1) as nat)
    }
}

pub proof fn lemma_pow10_monotone(low: nat, high: nat)
    requires
        low <= high,
    ensures
        0 < pow10(low) <= pow10(high),
    decreases high,
{
    if low < high {
        lemma_pow10_monotone(low, (high - 1) as nat);
    } else if low > 0 {
        lemma_pow10_monotone((low - 1) as nat, (high - 1) as nat);
    }
}

pub proof fn lemma_pow10_38()
    ensures
        pow10(38) == 100_000_000_000_000_000_000_000_000_000_000_000_000,
{
    reveal_with_fuel(pow10, 39);
}

pub proof fn lemma_pow10_add(a: nat, b: nat)
    ensures
        pow10(a + b) == pow10(a) * pow10(b),
    decreases a,
{
    if a > 0 {
        lemma_pow10_add((a - 1) as nat, b);
        assert((a + b - 1) as nat == (a - 1) as nat + b);
        assert(10 * (pow10((a - 1) as nat) * pow10(b)) == (10 * pow10((a - 1) as nat)) * pow10(b))
            by (nonlinear_arith);
    } else {
        assert(pow10(0) == 1);
        assert(1 * pow10(b) == pow10(b));
    }
}

/// Ten to the given power.
pub fn power_of_ten(exponent: u8) -> (power: i128)
    requires
        exponent <= 38,
    ensures
        power == pow10(exponent as nat),
{
    let mut power: i128 = 1;
    let mut i: u8 = 0;
    while i < exponent
        invariant
            i <= exponent <= 38,
            power == pow10(i as nat),
        decreases exponent - i,
    {
        proof {
            lemma_pow10_monotone((i + 1) as nat, 38);
            lemma_pow10_38();
        }
        power = power * 10;
        i = i + 1;
    }
    power
}

/// A positive decimal: `coefficient / 10^scale`, always in the one form whose
/// coefficient has no trailing zero below the decimal point.
#[derive(Clone, Copy, Debug, Eq, Hash, PartialEq, Structural)]
pub struct ExactDecimal {
    coefficient: i128,
    scale: u8,
}

/// Why a text is not an exact positive decimal.
#[derive(Clone, Copy, Debug, Eq, PartialEq, Structural)]
pub enum DecimalParseError {
    InvalidFormat,
    NonPositive,
    ScaleTooLarge,
    OutOfRange,
}

/// The position of the first decimal point, or the length where there is none.
pub open spec fn point_position(text: Seq<char>) -> nat
    decreases text.len(),
{
    if text.len() == 0 || text[0] == '.' {
        0
    } else {
        1 + point_position(text.drop_first())
    }
}

/// The digits before the decimal point.
pub open spec fn whole_part(text: Seq<char>) -> Seq<char> {
    text.take(point_position(text) as int)
}

/// The digits after the decimal point; empty where there is no point.
pub open spec fn fractional_part(text: Seq<char>) -> Seq<char> {
    if point_position(text) < text.len() {
        text.skip(point_position(text) as int + 1)
    } else {
        Seq::empty()
    }
}

/// `digits` or `digits.digits`, each row non-empty.
pub open spec fn is_decimal_text(text: Seq<char>) -> bool {
    let point = point_position(text);
    &&& whole_part(text).len() > 0
    &&& all_digits(whole_part(text))
    &&& point < text.len() ==> fractional_part(text).len() > 0 && all_digits(fractional_part(text))
}

/// The value of a decimal text in units of `10^-18`.
pub open spec fn text_units(text: Seq<char>) -> nat {
    digits_value(whole_part(text) + fractional_part(text)) * pow10(
        (MAX_SCALE - fractional_part(text).len()) as nat,
    )
}

/// What a text means: its value in units of `10^-18`, or why it has none.
pub open spec fn parsed_units(text: Seq<char>) -> Result<nat, DecimalParseError> {
    if !is_decimal_text(text) {
        Err(DecimalParseError::InvalidFormat)
    } else if fractional_part(text).len() > MAX_SCALE {
        Err(DecimalParseError::ScaleTooLarge)
    } else {
        units_in_range(text_units(text))
    }
}

/// A value in units of `10^-18`, if it is positive and in range.
pub open spec fn units_in_range(units: nat) -> Result<nat, DecimalParseError> {
    if units == 0 {
        Err(DecimalParseError::NonPositive)
    } else if units > i128::MAX {
        Err(DecimalParseError::OutOfRange)
    } else {
        Ok(units)
    }
}

/// The value of a coefficient and a scale in units of `10^-18`, or why they
/// are not an exact positive decimal.
pub open spec fn parts_units(coefficient: int, scale: nat) -> Result<nat, DecimalParseError> {
    if coefficient < 0 {
        Err(DecimalParseError::InvalidFormat)
    } else if scale > MAX_SCALE {
        Err(DecimalParseError::ScaleTooLarge)
    } else {
        units_in_range((coefficient * pow10((MAX_SCALE - scale) as nat)) as nat)
    }
}

/// The rendering of `coefficient / 10^scale` with `scale` fractional digits.
pub open spec fn scaled_text(coefficient: nat, scale: nat) -> Seq<char> {
    let digits = decimal(coefficient);
    if scale == 0 {
        digits
    } else if digits.len() <= scale {
        "0."@ + zero_padded(digits, scale)
    } else {
        digits.take(digits.len() - scale) + "."@ + digits.skip(digits.len() - scale)
    }
}

/// Whether a coefficient and a scale are the normal form of a positive decimal
/// that can be compared after scaling.
pub open spec fn is_normal(coefficient: int, scale: nat) -> bool {
    &&& coefficient > 0
    &&& scale <= MAX_SCALE
    &&& scale > 0 ==> coefficient % 10 != 0
    &&& coefficient * pow10((MAX_SCALE - scale) as nat) <= i128::MAX
}

/// A normal form is determined by its value.
pub proof fn lemma_normal_form_unique(c1: int, s1: nat, c2: int, s2: nat)
    requires
        is_normal(c1, s1),
        is_normal(c2, s2),
        c1 * pow10((MAX_SCALE - s1) as nat) == c2 * pow10((MAX_SCALE - s2) as nat),
    ensures
        c1 == c2,
        s1 == s2,
{
    if s1 < s2 {
        lemma_normal_form_step(c1, s1, c2, s2);
    } else if s2 < s1 {
        lemma_normal_form_step(c2, s2, c1, s1);
    } else {
        let p = pow10((MAX_SCALE - s1) as nat);
        lemma_pow10_monotone(0, (MAX_SCALE - s1) as nat);
        assert(c1 == c2) by (nonlinear_arith)
            requires
                c1 * p == c2 * p,
                p > 0,
        ;
    }
}

proof fn lemma_normal_form_step(c1: int, s1: nat, c2: int, s2: nat)
    requires
        is_normal(c1, s1),
        is_normal(c2, s2),
        s1 < s2,
    ensures
        c1 * pow10((MAX_SCALE - s1) as nat) != c2 * pow10((MAX_SCALE - s2) as nat),
{
    let low = (MAX_SCALE - s2) as nat;
    let gap = (s2 - s1) as nat;
    lemma_pow10_add(gap, low);
    lemma_pow10_monotone(0, low);
    let p = pow10(low);
    let q = pow10(gap);
    let q_less = pow10((gap - 1) as nat);
    assert(q == 10 * q_less);
    if c1 * (q * p) == c2 * p {
        assert(c2 == c1 * q) by (nonlinear_arith)
            requires
                c1 * (q * p) == c2 * p,
                p > 0,
        ;
        assert(c2 == 10 * (c1 * q_less)) by (nonlinear_arith)
            requires
                c2 == c1 * q,
                q == 10 * q_less,
        ;
    }
}

proof fn lemma_strip_zero(coefficient: int, scale: nat)
    requires
        0 < scale <= MAX_SCALE,
        coefficient % 10 == 0,
    ensures
        (coefficient / 10) * pow10((MAX_SCALE - (scale - 1)) as nat) == coefficient * pow10(
            (MAX_SCALE - scale) as nat,
        ),
{
    let p = pow10((MAX_SCALE - scale) as nat);
    assert(pow10((MAX_SCALE - (scale - 1)) as nat) == 10 * p);
    assert((coefficient / 10) * (10 * p) == coefficient * p) by (nonlinear_arith)
        requires
            coefficient == 10 * (coefficient / 10),
    ;
}

pub proof fn lemma_digits_value_extends(text: Seq<char>, length: int)
    requires
        0 <= length <= text.len(),
    ensures
        digits_value(text.take(length)) <= digits_value(text),
    decreases text.len(),
{
    if length == text.len() {
        assert(text.take(length) =~= text);
    } else {
        lemma_digits_value_extends(text.drop_last(), length);
        assert(text.drop_last().take(length) =~= text.take(length));
    }
}

impl ExactDecimal {
    /// The coefficient of the normal form.
    pub closed spec fn coefficient_value(self) -> int {
        self.coefficient as int
    }

    /// The scale of the normal form.
    pub closed spec fn scale_value(self) -> nat {
        self.scale as nat
    }

    /// The value in units of `10^-18`, by which decimals compare.
    pub open spec fn units(self) -> int {
        self.coefficient_value() * pow10((MAX_SCALE - self.scale_value()) as nat)
    }

    /// Whether the decimal is in normal form; true of every decimal that was
    /// built by this module.
    pub open spec fn valid(self) -> bool {
        is_normal(self.coefficient_value(), self.scale_value())
    }

    #[verifier::type_invariant]
    spec fn normal_form(self) -> bool {
        self.valid()
    }

    /// Parses a positive decimal.
    pub fn parse_positive(value: &str) -> (result: Result<Self, DecimalParseError>)
        ensures
            match result {
                Ok(parsed) => parsed.valid() && parsed_units(value@) == Ok::<
                    nat,
                    DecimalParseError,
                >(parsed.units() as nat),
                Err(error) => parsed_units(value@) == Err::<nat, DecimalParseError>(error),
            },
    {
        let chars: Vec<char> = chars_of(value);
        let point: usize = find_point(&chars);
        if point == 0 {
            return Err(DecimalParseError::InvalidFormat);
        }
        if !digits_between(&chars, 0, point) {
            return Err(DecimalParseError::InvalidFormat);
        }
        assert(whole_part(value@) == chars@.subrange(0, point as int));
        let mut scale: usize = 0;
        if point < chars.len() {
            if point + 1 == chars.len() {
                return Err(DecimalParseError::InvalidFormat);
            }
            if !digits_between(&chars, point + 1, chars.len()) {
                return Err(DecimalParseError::InvalidFormat);
            }
            assert(fractional_part(value@) == chars@.subrange(point + 1, chars.len() as int));
            scale = chars.len() - point - 1;
        }
        assert(is_decimal_text(value@));
        assert(fractional_part(value@).len() == scale);
        if scale > 18 {
            return Err(DecimalParseError::ScaleTooLarge);
        }
        let ghost digits = whole_part(value@) + fractional_part(value@);
        let ghost power = pow10((18 - scale) as nat);
        proof {
            lemma_pow10_monotone(0, (18 - scale) as nat);
        }
        let mut coefficient: i128 = 0;
        let mut i: usize = 0;
        let count: usize = point + scale;
        assert(digits.len() == count);
        assert(digits.take(0) =~= Seq::<char>::empty());
        while i < count
            invariant
                i <= count == digits.len(),
                count == point + scale,
                chars@ == value@,
                point <= chars.len(),
                scale <= 18,
                scale > 0 ==> chars.len() == point + 1 + scale,
                forall|j: int| 0 <= j < point ==> digits[j] == chars@[j],
                forall|j: int| point <= j < count ==> digits[j] == chars@[j + 1],
                all_digits(digits),
                digits == whole_part(value@) + fractional_part(value@),
                is_decimal_text(value@),
                fractional_part(value@).len() == scale,
                coefficient == digits_value(digits.take(i as int)),
                coefficient >= 0,
            decreases count - i,
        {
            let position: usize = if i < point {
                i
            } else {
                i + 1
            };
            let digit: i128 = (chars[position] as u32) as i128 - 48;
            proof {
                assert(is_digit(digits[i as int]));
                assert(digits.take(i + 1).drop_last() =~= digits.take(i as int));
                lemma_digits_value_extends(digits, i + 1);
                lemma_pow10_monotone(0, (18 - scale) as nat);
                let total = digits_value(digits);
                let power = pow10((18 - scale) as nat);
                assert(total * power >= total) by (nonlinear_arith)
                    requires
                        total >= 0,
                        power >= 1,
                ;
            }
            let shifted: i128 = match coefficient.checked_mul(10) {
                Some(shifted) => shifted,
                None => return Err(DecimalParseError::OutOfRange),
            };
            coefficient = match shifted.checked_add(digit) {
                Some(sum) => sum,
                None => return Err(DecimalParseError::OutOfRange),
            };
            i = i + 1;
        }
        assert(digits.take(i as int) =~= digits);
        if coefficient == 0 {
            assert(0 * power == 0);
            return Err(DecimalParseError::NonPositive);
        }
        proof {
            assert(coefficient * power > 0) by (nonlinear_arith)
                requires
                    coefficient > 0,
                    power > 0,
            ;
        }
        match coefficient.checked_mul(power_of_ten(18 - scale as u8)) {
            Some(_) => Ok(Self::normalized(coefficient, scale as u8)),
            None => Err(DecimalParseError::OutOfRange),
        }
    }

    /// The decimal `coefficient / 10^scale`.
    pub fn from_parts(coefficient: i128, scale: u8) -> (result: Result<Self, DecimalParseError>)
        ensures
            match result {
                Ok(decimal) => decimal.valid() && parts_units(coefficient as int, scale as nat)
                    == Ok::<nat, DecimalParseError>(decimal.units() as nat),
                Err(error) => parts_units(coefficient as int, scale as nat) == Err::<
                    nat,
                    DecimalParseError,
                >(error),
            },
    {
        if coefficient < 0 {
            return Err(DecimalParseError::InvalidFormat);
        }
        if scale > 18 {
            return Err(DecimalParseError::ScaleTooLarge);
        }
        let ghost power = pow10((18 - scale) as nat);
        proof {
            lemma_pow10_monotone(0, (18 - scale) as nat);
        }
        if coefficient == 0 {
            assert(0 * power == 0);
            return Err(DecimalParseError::NonPositive);
        }
        proof {
            assert(coefficient * power > 0) by (nonlinear_arith)
                requires
                    coefficient > 0,
                    power > 0,
            ;
        }
        match coefficient.checked_mul(power_of_ten(18 - scale)) {
            Some(_) => Ok(Self::normalized(coefficient, scale)),
            None => Err(DecimalParseError::OutOfRange),
        }
    }

    fn normalized(coefficient: i128, scale: u8) -> (decimal: Self)
        requires
            coefficient > 0,
            scale <= 18,
            coefficient * pow10((18 - scale) as nat) <= i128::MAX,
        ensures
            decimal.valid(),
            decimal.units() == coefficient * pow10((18 - scale) as nat),
    {
        let mut rest: i128 = coefficient;
        let mut places: u8 = scale;
        while places > 0 && rest % 10 == 0
            invariant
                rest > 0,
                places <= scale <= 18,
                rest * pow10((18 - places) as nat) == coefficient * pow10((18 - scale) as nat),
            decreases places,
        {
            proof {
                lemma_strip_zero(rest as int, places as nat);
            }
            rest = rest / 10;
            places = places - 1;
        }
        ExactDecimal { coefficient: rest, scale: places }
    }

    pub fn coefficient(self) -> (coefficient: i128)
        ensures
            coefficient == self.coefficient_value(),
            self.valid(),
    {
        proof {
            use_type_invariant(&self);
        }
        self.coefficient
    }

    pub fn scale(self) -> (scale: u8)
        ensures
            scale == self.scale_value(),
            self.valid(),
    {
        proof {
            use_type_invariant(&self);
        }
        self.scale
    }

    /// The value in units of `10^-18`.
    pub fn comparison_units(self) -> (units: i128)
        ensures
            units == self.units(),
            units > 0,
            self.valid(),
    {
        proof {
            use_type_invariant(&self);
            let power = pow10((18 - self.scale) as nat);
            lemma_pow10_monotone(0, (18 - self.scale) as nat);
            let coefficient = self.coefficient as int;
            assert(coefficient * power > 0) by (nonlinear_arith)
                requires
                    coefficient > 0,
                    power > 0,
            ;
        }
        self.coefficient * power_of_ten(18 - self.scale)
    }

    /// The decimal rendering.
    pub fn to_text(&self) -> (text: String)
        ensures
            text@ == scaled_text(self.coefficient_value() as nat, self.scale_value()),
    {
        proof {
            use_type_invariant(self);
        }
        let digits: String = decimal_text(self.coefficient as u128);
        if self.scale == 0 {
            return digits;
        }
        let scale: usize = self.scale as usize;
        let chars: Vec<char> = chars_of(digits.as_str());
        if chars.len() <= scale {
            let padded: String = pad_zeroes(digits.as_str(), scale);
            let mut text: String = "0.".to_owned();
            text.append(padded.as_str());
            text
        } else {
            let split: usize = chars.len() - scale;
            let whole: String = string_of(vstd::slice::slice_subrange(chars.as_slice(), 0, split));
            let fraction: String = string_of(
                vstd::slice::slice_subrange(chars.as_slice(), split, chars.len()),
            );
            let mut text: String = whole;
            text.append(".");
            text.append(fraction.as_str());
            proof {
                assert(chars@.subrange(0, split as int) =~= chars@.take(split as int));
                assert(chars@.subrange(split as int, chars.len() as int) =~= chars@.skip(
                    split as int,
                ));
            }
            text
        }
    }
}

fn find_point(chars: &Vec<char>) -> (point: usize)
    ensures
        point == point_position(chars@),
        point <= chars.len(),
        forall|j: int| 0 <= j < point ==> chars@[j] != '.',
{
    let mut point: usize = 0;
    assert(chars@.skip(0) =~= chars@);
    while point < chars.len() && chars[point] != '.'
        invariant
            point <= chars.len(),
            point + point_position(chars@.skip(point as int)) == point_position(chars@),
            forall|j: int| 0 <= j < point ==> chars@[j] != '.',
        decreases chars.len() - point,
    {
        assert(chars@.skip(point as int).drop_first() =~= chars@.skip(point + 1));
        point = point + 1;
    }
    point
}

fn digits_between(chars: &Vec<char>, from: usize, to: usize) -> (all: bool)
    requires
        from <= to <= chars.len(),
    ensures
        all == all_digits(chars@.subrange(from as int, to as int)),
{
    let ghost part = chars@.subrange(from as int, to as int);
    let mut i: usize = from;
    while i < to
        invariant
            from <= i <= to <= chars.len(),
            part == chars@.subrange(from as int, to as int),
            forall|j: int| 0 <= j < i - from ==> is_digit(#[trigger] part[j]),
        decreases to - i,
    {
        assert(part[i - from] == chars@[i as int]);
        if chars[i] < '0' || chars[i] > '9' {
            return false;
        }
        i = i + 1;
    }
    true
}

impl PartialOrd for ExactDecimal {
    fn partial_cmp(&self, other: &Self) -> (order: Option<core::cmp::Ordering>) {
        let left: i128 = self.comparison_units();
        let right: i128 = other.comparison_units();
        if left < right {
            Some(core::cmp::Ordering::Less)
        } else if left > right {
            Some(core::cmp::Ordering::Greater)
        } else {
            Some(core::cmp::Ordering::Equal)
        }
    }
}

impl vstd::std_specs::cmp::PartialOrdSpecImpl for ExactDecimal {
    open spec fn obeys_partial_cmp_spec() -> bool {
        true
    }

    open spec fn partial_cmp_spec(&self, other: &Self) -> Option<core::cmp::Ordering> {
        if self.units() < other.units() {
            Some(core::cmp::Ordering::Less)
        } else if self.units() > other.units() {
            Some(core::cmp::Ordering::Greater)
        } else {
            Some(core::cmp::Ordering::Equal)
        }
    }
}

impl DecimalParseError {
    /// The message of the error.
    pub open spec fn message(self) -> Seq<char> {
        match self {
            DecimalParseError::InvalidFormat => "invalid decimal format"@,
            DecimalParseError::NonPositive => "value must be positive"@,
            DecimalParseError::ScaleTooLarge => "decimal scale exceeds 18 digits"@,
            DecimalParseError::OutOfRange => "decimal value exceeds supported range"@,
        }
    }

    pub fn to_text(&self) -> (text: String)
        ensures
            text@ == self.message(),
    {
        match self {
            DecimalParseError::InvalidFormat => "invalid decimal format".to_owned(),
            DecimalParseError::NonPositive => "value must be positive".to_owned(),
            DecimalParseError::ScaleTooLarge => "decimal scale exceeds 18 digits".to_owned(),
            DecimalParseError::OutOfRange => "decimal value exceeds supported range".to_owned(),
        }
    }
}

/// Coefficient and scale determine a decimal.
pub proof fn lemma_decimal_parts(left: ExactDecimal, right: ExactDecimal)
    ensures
        left.coefficient_value() == right.coefficient_value() && left.scale_value()
            == right.scale_value() ==> left == right,
{
}

/// Two decimals of equal value are the same decimal.
pub proof fn lemma_equal_units_equal(left: ExactDecimal, right: ExactDecimal)
    requires
        left.valid(),
        right.valid(),
        left.units() == right.units(),
    ensures
        left == right,
{
    lemma_normal_form_unique(
        left.coefficient_value(),
        left.scale_value(),
        right.coefficient_value(),
        right.scale_value(),
    );
}

/// What is written of a number are digits that stand for it.
pub proof fn lemma_decimal_digits(value: nat)
    ensures
        decimal(value).len() > 0,
        all_digits(decimal(value)),
        digits_value(decimal(value)) == value,
    decreases value,
{
    reveal_with_fuel(digits_value, 2);
    if value >= 10 {
        lemma_decimal_digits(value / 10);
        assert(decimal(value).drop_last() =~= decimal(value / 10));
    } else {
        assert(decimal(value).drop_last() =~= Seq::<char>::empty());
    }
}

proof fn lemma_point_after_digits(text: Seq<char>, length: nat)
    requires
        length <= text.len(),
        forall|i: int| 0 <= i < length ==> is_digit(#[trigger] text[i]),
        length < text.len() ==> text[length as int] == '.',
    ensures
        point_position(text) == length,
    decreases length,
{
    if length > 0 {
        assert(is_digit(text[0]));
        let rest = text.drop_first();
        assert forall|i: int| 0 <= i < length - 1 implies is_digit(#[trigger] rest[i]) by {
            assert(is_digit(text[i + 1]));
        }
        lemma_point_after_digits(rest, (length - 1) as nat);
    }
}

proof fn lemma_leading_zeroes(zeroes: Seq<char>, digits: Seq<char>)
    requires
        forall|i: int| 0 <= i < zeroes.len() ==> #[trigger] zeroes[i] == '0',
    ensures
        digits_value(zeroes + digits) == digits_value(digits),
    decreases zeroes.len() + digits.len(),
{
    if digits.len() > 0 {
        lemma_leading_zeroes(zeroes, digits.drop_last());
        assert((zeroes + digits).drop_last() =~= zeroes + digits.drop_last());
    } else if zeroes.len() > 0 {
        lemma_leading_zeroes(zeroes.drop_last(), digits);
        assert((zeroes + digits).drop_last() =~= zeroes.drop_last() + digits);
        assert(zeroes.last() == '0');
    } else {
        assert(zeroes + digits =~= digits);
    }
}

/// Rendering loses nothing: the text of a decimal parses back to its value,
/// and so, by `lemma_equal_units_equal`, to the same decimal.
pub proof fn lemma_rendered_decimal_parses_back(value: ExactDecimal)
    requires
        value.valid(),
    ensures
        parsed_units(scaled_text(value.coefficient_value() as nat, value.scale_value())) == Ok::<
            nat,
            DecimalParseError,
        >(value.units() as nat),
{
    let coefficient = value.coefficient_value() as nat;
    let scale = value.scale_value();
    let digits = decimal(coefficient);
    let text = scaled_text(coefficient, scale);
    lemma_decimal_digits(coefficient);
    reveal_strlit("0.");
    reveal_strlit(".");
    lemma_pow10_monotone(0, (MAX_SCALE - scale) as nat);
    let power = pow10((MAX_SCALE - scale) as nat);
    assert(coefficient * power > 0) by (nonlinear_arith)
        requires
            coefficient > 0,
            power > 0,
    ;
    if scale == 0 {
        lemma_point_after_digits(text, text.len());
        assert(whole_part(text) =~= digits);
        assert(whole_part(text) + fractional_part(text) =~= digits);
    } else if digits.len() <= scale {
        let padded = zero_padded(digits, scale);
        let zeroes = crate::text::repeated('0', (scale - digits.len()) as nat);
        assert(padded =~= zeroes + digits);
        lemma_point_after_digits(text, 1);
        assert(whole_part(text) =~= seq!['0']);
        assert(fractional_part(text) =~= padded);
        assert forall|i: int| 0 <= i < padded.len() implies is_digit(#[trigger] padded[i]) by {
            if i >= zeroes.len() {
                assert(is_digit(digits[i - zeroes.len()]));
            }
        }
        assert(whole_part(text) + fractional_part(text) =~= (seq!['0'] + zeroes) + digits);
        lemma_leading_zeroes(seq!['0'] + zeroes, digits);
    } else {
        let split = (digits.len() - scale) as nat;
        assert forall|i: int| 0 <= i < split implies is_digit(#[trigger] text[i]) by {
            assert(is_digit(digits[i]));
        }
        lemma_point_after_digits(text, split);
        assert(whole_part(text) =~= digits.take(split as int));
        assert(fractional_part(text) =~= digits.skip(split as int));
        assert forall|i: int| 0 <= i < scale implies is_digit(
            #[trigger] fractional_part(text)[i],
        ) by {
            assert(is_digit(digits[split + i]));
        }
        assert(whole_part(text) + fractional_part(text) =~= digits);
    }
}

/// Every value that is positive and in range has a normal form.
pub proof fn lemma_normal_form_exists(coefficient: int, scale: nat) -> (value: ExactDecimal)
    requires
        coefficient > 0,
        scale <= MAX_SCALE,
        coefficient * pow10((MAX_SCALE - scale) as nat) <= i128::MAX,
    ensures
        value.valid(),
        value.units() == coefficient * pow10((MAX_SCALE - scale) as nat),
    decreases scale,
{
    let power = pow10((MAX_SCALE - scale) as nat);
    lemma_pow10_monotone(0, (MAX_SCALE - scale) as nat);
    assert(coefficient <= coefficient * power) by (nonlinear_arith)
        requires
            coefficient > 0,
            power >= 1,
    ;
    if scale > 0 && coefficient % 10 == 0 {
        lemma_strip_zero(coefficient, scale);
        lemma_normal_form_exists(coefficient / 10, (scale - 1) as nat)
    } else {
        ExactDecimal { coefficient: coefficient as i128, scale: scale as u8 }
    }
}

proof fn lemma_digits_join(first: Seq<char>, second: Seq<char>)
    ensures
        digits_value(first + second) == digits_value(first) * pow10(second.len()) + digits_value(
            second,
        ),
    decreases second.len(),
{
    let whole = first + second;
    if second.len() == 0 {
        assert(whole =~= first);
        assert(digits_value(first) * 1 == digits_value(first));
    } else {
        let earlier = second.drop_last();
        lemma_digits_join(first, earlier);
        assert(whole.drop_last() =~= first + earlier);
        assert(whole.last() == second.last());
        let value = digits_value(first);
        let power = pow10(earlier.len());
        assert((value * power) * 10 == value * (10 * power)) by (nonlinear_arith);
    }
}

/// What a decimal text stands for. Digits are read as a number, digits behind a point as a
/// fraction of as many places, both in units of the eighteenth place; more than eighteen
/// places, zero, and what is beyond the range are not read.
pub proof fn lemma_decimal_text_value(whole: Seq<char>, fraction: Seq<char>)
    requires
        whole.len() > 0,
        all_digits(whole),
        fraction.len() > 0,
        all_digits(fraction),
    ensures
        parsed_units(whole) == units_in_range(digits_value(whole) * pow10(18)),
        fraction.len() <= 18 ==> parsed_units(whole.push('.') + fraction) == units_in_range(
            digits_value(whole) * pow10(18) + digits_value(fraction) * pow10(
                (18 - fraction.len()) as nat,
            ),
        ),
        fraction.len() > 18 ==> parsed_units(whole.push('.') + fraction) == Err::<
            nat,
            DecimalParseError,
        >(DecimalParseError::ScaleTooLarge),
{
    lemma_point_after_digits(whole, whole.len());
    assert(whole_part(whole) =~= whole);
    assert(fractional_part(whole) =~= Seq::<char>::empty());
    assert(whole_part(whole) + fractional_part(whole) =~= whole);
    let text = whole.push('.') + fraction;
    assert forall|i: int| 0 <= i < whole.len() implies is_digit(#[trigger] text[i]) by {
        assert(text[i] == whole[i]);
    }
    lemma_point_after_digits(text, whole.len());
    assert(whole_part(text) =~= whole);
    assert(fractional_part(text) =~= fraction);
    if fraction.len() <= 18 {
        let places = fraction.len();
        let rest = (18 - places) as nat;
        lemma_digits_join(whole, fraction);
        lemma_pow10_add(places, rest);
        let a = digits_value(whole);
        let b = digits_value(fraction);
        let p = pow10(places);
        let q = pow10(rest);
        assert((a * p + b) * q == a * (p * q) + b * q) by (nonlinear_arith);
    }
}

/// Nothing else is a decimal text: what is not refused for its format is a row of digits, or
/// two of them with a point between.
pub proof fn lemma_decimal_text_form(text: Seq<char>)
    requires
        parsed_units(text) != Err::<nat, DecimalParseError>(DecimalParseError::InvalidFormat),
    ensures
        ({
            let whole = whole_part(text);
            let fraction = fractional_part(text);
            &&& whole.len() > 0 && all_digits(whole)
            &&& text == whole || fraction.len() > 0 && all_digits(fraction) && text == whole.push(
                '.',
            ) + fraction
        }),
{
    lemma_point_position(text);
    if point_position(text) < text.len() {
        assert(text =~= whole_part(text).push('.') + fractional_part(text));
    } else {
        assert(text =~= whole_part(text));
    }
}

proof fn lemma_point_position(text: Seq<char>)
    ensures
        point_position(text) <= text.len(),
        point_position(text) < text.len() ==> text[point_position(text) as int] == '.',
    decreases text.len(),
{
    if text.len() > 0 && text[0] != '.' {
        lemma_point_position(text.drop_first());
    }
}

} // verus!
