//! Numbers as text: decimal and hexadecimal, both ways.

use vstd::prelude::*;

use crate::text::{self, chars_of};

verus! {

/// Why a text is not a number.
#[derive(Debug, Clone, Copy, PartialEq, Eq, Structural)]
pub enum NumberError {
    /// There is no character.
    Empty,
    /// A character is not a digit.
    InvalidDigit,
    /// The number is too large for 32 bits.
    TooLarge,
}

impl NumberError {
    /// The error in words.
    pub open spec fn words(self) -> Seq<char> {
        match self {
            NumberError::Empty => "cannot parse integer from empty string"@,
            NumberError::InvalidDigit => "invalid digit found in string"@,
            NumberError::TooLarge => "number too large to fit in target type"@,
        }
    }

    /// The error in words.
    pub fn message(self) -> (text: String)
        ensures
            text@ == self.words(),
    {
        match self {
            NumberError::Empty => "cannot parse integer from empty string".to_owned(),
            NumberError::InvalidDigit => "invalid digit found in string".to_owned(),
            NumberError::TooLarge => "number too large to fit in target type".to_owned(),
        }
    }
}

/// The value of a digit in a base of at most sixteen.
pub open spec fn digit_value(c: char, radix: int) -> Option<int> {
    let value = if '0' <= c <= '9' {
        c as u32 - '0' as u32
    } else if 'a' <= c <= 'f' {
        c as u32 - 'a' as u32 + 10
    } else if 'A' <= c <= 'F' {
        c as u32 - 'A' as u32 + 10
    } else {
        radix
    };
    if value < radix {
        Some(value)
    } else {
        None
    }
}

/// The value of a string of digits, read from the left. The first character
/// that is no digit, or that makes the value too large, decides the error.
pub open spec fn digits_value(digits: Seq<char>, radix: int) -> Result<int, NumberError>
    decreases digits.len(),
{
    if digits.len() == 0 {
        Ok(0)
    } else {
        match digits_value(digits.drop_last(), radix) {
            Err(error) => Err(error),
            Ok(before) => match digit_value(digits.last(), radix) {
                None => Err(NumberError::InvalidDigit),
                Some(digit) => if before * radix + digit > u32::MAX {
                    Err(NumberError::TooLarge)
                } else {
                    Ok(before * radix + digit)
                },
            },
        }
    }
}

/// The number that a text stands for: digits, which a plus sign may precede.
pub open spec fn number_value(text: Seq<char>, radix: int) -> Result<int, NumberError> {
    if text.len() == 0 {
        Err(NumberError::Empty)
    } else if text == seq!['+'] {
        Err(NumberError::InvalidDigit)
    } else if text.first() == '+' {
        digits_value(text.drop_first(), radix)
    } else {
        digits_value(text, radix)
    }
}

/// The value of a digit.
fn digit(c: char, radix: u32) -> (value: Option<u32>)
    requires
        2 <= radix <= 16,
    ensures
        match value {
            Some(v) => digit_value(c, radix as int) == Some(v as int),
            None => digit_value(c, radix as int) is None,
        },
{
    let value: u32 = if '0' <= c && c <= '9' {
        c as u32 - '0' as u32
    } else if 'a' <= c && c <= 'f' {
        c as u32 - 'a' as u32 + 10
    } else if 'A' <= c && c <= 'F' {
        c as u32 - 'A' as u32 + 10
    } else {
        radix
    };
    if value < radix {
        Some(value)
    } else {
        None
    }
}

/// Where reading digits has failed, it fails for every longer string.
proof fn lemma_digits_error(digits: Seq<char>, radix: int, count: int)
    requires
        0 <= count <= digits.len(),
        digits_value(digits.take(count), radix) is Err,
    ensures
        digits_value(digits, radix) == digits_value(digits.take(count), radix),
    decreases digits.len() - count,
{
    if count < digits.len() {
        assert(digits.take(count + 1).drop_last() =~= digits.take(count));
        lemma_digits_error(digits, radix, count + 1);
    } else {
        assert(digits.take(count) =~= digits);
    }
}

/// Reads an unsigned number in the given base.
pub fn parse_u32(text: &str, radix: u32) -> (number: Result<u32, NumberError>)
    requires
        2 <= radix <= 16,
    ensures
        match number {
            Ok(value) => number_value(text@, radix as int) == Ok::<int, NumberError>(value as int),
            Err(error) => number_value(text@, radix as int) == Err::<int, NumberError>(error),
        },
{
    let chars = chars_of(text);
    if chars.len() == 0 {
        return Err(NumberError::Empty);
    }
    let signed = chars[0] == '+';
    if signed && chars.len() == 1 {
        assert(text@ =~= seq!['+']);
        return Err(NumberError::InvalidDigit);
    }
    let from: usize = if signed {
        1
    } else {
        0
    };
    let ghost digits = text@.skip(from as int);
    proof {
        if signed {
            assert(digits =~= text@.drop_first());
            assert(text@ != seq!['+']);
        } else {
            assert(digits =~= text@);
            assert(text@.first() != seq!['+'].first());
        }
        assert(number_value(text@, radix as int) == digits_value(digits, radix as int));
        assert(digits.take(0) =~= Seq::<char>::empty());
    }
    let mut value: u32 = 0;
    for i in from..chars.len()
        invariant
            2 <= radix <= 16,
            chars@ == text@,
            from <= chars@.len(),
            digits == text@.skip(from as int),
            number_value(text@, radix as int) == digits_value(digits, radix as int),
            digits_value(digits.take(i - from), radix as int) == Ok::<int, NumberError>(
                value as int,
            ),
    {
        let ghost count = i - from;
        proof {
            assert(digits.take(count + 1).drop_last() =~= digits.take(count));
            assert(digits.take(count + 1).last() == chars@[i as int]);
        }
        match digit(chars[i], radix) {
            None => {
                proof {
                    lemma_digits_error(digits, radix as int, count + 1);
                }
                return Err(NumberError::InvalidDigit);
            },
            Some(d) => {
                assert(value as u64 * radix as u64 <= u32::MAX as u64 * 16) by (nonlinear_arith)
                    requires
                        value <= u32::MAX,
                        radix <= 16,
                ;
                let next: u64 = value as u64 * radix as u64 + d as u64;
                if next > 0xffff_ffff {
                    proof {
                        lemma_digits_error(digits, radix as int, count + 1);
                    }
                    return Err(NumberError::TooLarge);
                }
                value = next as u32;
            },
        }
    }
    assert(digits.take(digits.len() as int) =~= digits);
    Ok(value)
}

/// The character of a digit.
pub open spec fn digit_char(value: int) -> char {
    if value < 10 {
        ('0' as u32 + value) as char
    } else {
        ('a' as u32 + value - 10) as char
    }
}

/// A number in the given base, in lower case and without leading zeros.
pub open spec fn numeral(value: nat, radix: nat) -> Seq<char>
    decreases value,
{
    if radix < 2 || value < radix {
        seq![digit_char(value as int)]
    } else {
        proof {
            assert(value / radix < value) by (nonlinear_arith)
                requires
                    2 <= radix <= value,
            ;
        }
        numeral(value / radix, radix).push(digit_char((value % radix) as int))
    }
}

/// The character of a digit.
fn digit_to_char(value: u8) -> (c: char)
    requires
        value < 16,
    ensures
        c == digit_char(value as int),
{
    if value < 10 {
        ('0' as u8 + value) as char
    } else {
        ('a' as u8 + (value - 10)) as char
    }
}

/// Writes a number in the given base, in lower case and without leading zeros.
pub fn write_number(value: u64, radix: u64) -> (text: String)
    requires
        2 <= radix <= 16,
    ensures
        text@ == numeral(value as nat, radix as nat),
    decreases value,
{
    if value < radix {
        let mut text = String::new();
        text.push(digit_to_char(value as u8));
        assert(text@ =~= seq![digit_char(value as int)]);
        text
    } else {
        assert(value / radix < value) by (nonlinear_arith)
            requires
                2 <= radix <= value,
        ;
        assert(value % radix < radix) by (nonlinear_arith)
            requires
                2 <= radix,
        ;
        let mut text = write_number(value / radix, radix);
        text.push(digit_to_char((value % radix) as u8));
        text
    }
}

/// A number in decimal.
pub open spec fn decimal(value: int) -> Seq<char> {
    numeral(value as nat, 10)
}

/// Writes a number in decimal.
pub fn to_decimal(value: u64) -> (text: String)
    ensures
        text@ == decimal(value as int),
{
    write_number(value, 10)
}

/// A text filled up with zeros on the left to a least width.
pub open spec fn zero_padded(text: Seq<char>, width: int) -> Seq<char>
    decreases width - text.len(),
{
    if text.len() >= width {
        text
    } else {
        zero_padded(seq!['0'] + text, width)
    }
}

/// A text filled up with zeros on the left to a least width.
pub fn pad_with_zeros(text: &str, width: usize) -> (padded: String)
    ensures
        padded@ == zero_padded(text@, width as int),
    decreases width - text@.len(),
{
    if text.unicode_len() >= width {
        text.to_owned()
    } else {
        let longer = "0".to_owned().concat(text);
        proof {
            reveal_strlit("0");
            assert("0"@ =~= seq!['0']);
        }
        pad_with_zeros(longer.as_str(), width)
    }
}

/// The value of digits is never negative, and fits 32 bits.
proof fn lemma_digits_fit(digits: Seq<char>, radix: int)
    requires
        2 <= radix <= 16,
    ensures
        digits_value(digits, radix) matches Ok(value) ==> 0 <= value <= u32::MAX,
    decreases digits.len(),
{
    if digits.len() > 0 {
        lemma_digits_fit(digits.drop_last(), radix);
        if let Ok(before) = digits_value(digits.drop_last(), radix) {
            assert(before * radix >= 0) by (nonlinear_arith)
                requires
                    before >= 0,
                    radix >= 2,
            ;
        }
    }
}

/// A number that is read is never negative, and fits 32 bits.
pub proof fn law_numbers_fit(text: Seq<char>, radix: int)
    requires
        2 <= radix <= 16,
    ensures
        number_value(text, radix) matches Ok(value) ==> 0 <= value <= u32::MAX,
{
    if text.len() > 0 {
        lemma_digits_fit(text, radix);
        lemma_digits_fit(text.drop_first(), radix);
    }
}

/// The digits of a numeral are read back as the number.
proof fn lemma_numeral_is_read_back(value: nat, radix: nat)
    requires
        2 <= radix <= 16,
        value <= u32::MAX,
    ensures
        digits_value(numeral(value, radix), radix as int) == Ok::<int, NumberError>(value as int),
        numeral(value, radix).len() > 0,
        numeral(value, radix).first() != '+',
    decreases value,
{
    let text = numeral(value, radix);
    if value < radix {
        assert(0 * radix as int == 0) by (nonlinear_arith);
        assert(digit_value(digit_char(value as int), radix as int) == Some(value as int));
        assert(text.drop_last() =~= Seq::<char>::empty());
        assert(digits_value(text.drop_last(), radix as int) == Ok::<int, NumberError>(0));
    } else {
        assert(value / radix < value && value % radix < radix && value == (value / radix) * radix
            + value % radix) by (nonlinear_arith)
            requires
                2 <= radix <= value,
        ;
        lemma_numeral_is_read_back(value / radix, radix);
        let low = (value % radix) as int;
        assert(digit_value(digit_char(low), radix as int) == Some(low));
        assert(text.drop_last() =~= numeral(value / radix, radix));
        assert(text.first() == numeral(value / radix, radix).first());
    }
}

/// Leading zeros do not change the value of digits.
proof fn lemma_leading_zero(digits: Seq<char>, radix: int)
    requires
        2 <= radix <= 16,
    ensures
        digits_value(seq!['0'] + digits, radix) == digits_value(digits, radix),
    decreases digits.len(),
{
    let text = seq!['0'] + digits;
    if digits.len() == 0 {
        assert(0 * radix == 0) by (nonlinear_arith);
        assert(digit_value('0', radix) == Some(0int));
        assert(text.drop_last() =~= Seq::<char>::empty());
        assert(digits_value(text.drop_last(), radix) == Ok::<int, NumberError>(0));
    } else {
        assert(text.drop_last() =~= seq!['0'] + digits.drop_last());
        lemma_leading_zero(digits.drop_last(), radix);
    }
}

/// Zeros on the left change neither the value of digits nor what stands before
/// them.
proof fn lemma_padding_keeps_the_value(text: Seq<char>, radix: int, width: int)
    requires
        2 <= radix <= 16,
        text.len() > 0,
        text.first() != '+',
    ensures
        digits_value(zero_padded(text, width), radix) == digits_value(text, radix),
        zero_padded(text, width).len() > 0,
        zero_padded(text, width).first() != '+',
    decreases width - text.len(),
{
    if text.len() < width {
        lemma_leading_zero(text, radix);
        lemma_padding_keeps_the_value(seq!['0'] + text, radix, width);
    }
}

/// A number that was written is read back: in any base, with any padding.
pub proof fn law_written_numbers_are_read_back(value: nat, radix: nat, width: int)
    requires
        2 <= radix <= 16,
        value <= u32::MAX,
    ensures
        number_value(zero_padded(numeral(value, radix), width), radix as int) == Ok::<
            int,
            NumberError,
        >(value as int),
{
    lemma_numeral_is_read_back(value, radix);
    lemma_padding_keeps_the_value(numeral(value, radix), radix as int, width);
}

/// The case of digits does not change their value.
proof fn lemma_digits_in_upper_case(digits: Seq<char>, radix: int)
    ensures
        digits_value(text::uppercase(digits), radix) == digits_value(digits, radix),
    decreases digits.len(),
{
    if digits.len() > 0 {
        let upper = text::uppercase(digits);
        assert(upper.drop_last() =~= text::uppercase(digits.drop_last()));
        lemma_digits_in_upper_case(digits.drop_last(), radix);
        assert(upper.last() == text::upper(digits.last()));
        assert(digit_value(upper.last(), radix) == digit_value(digits.last(), radix));
    } else {
        assert(text::uppercase(digits) =~= digits);
    }
}

/// The case of its digits does not change the number that a text stands for.
pub proof fn law_case_of_digits_does_not_matter(text: Seq<char>, radix: int)
    ensures
        number_value(text::uppercase(text), radix) == number_value(text, radix),
{
    let upper = text::uppercase(text);
    lemma_digits_in_upper_case(text, radix);
    if text.len() > 0 {
        assert(upper.drop_first() =~= text::uppercase(text.drop_first()));
        lemma_digits_in_upper_case(text.drop_first(), radix);
        assert(upper.first() == text::upper(text.first()));
        if text == seq!['+'] {
            assert(upper =~= seq!['+']);
        } else if upper == seq!['+'] {
            assert(upper[0] == '+');
            assert(text =~= seq!['+']);
        }
    }
}

/// Whether a character is a digit as numbers are written: a decimal digit or a
/// lower-case letter up to `f`.
pub open spec fn is_written_digit(c: char) -> bool {
    '0' <= c <= '9' || 'a' <= c <= 'f'
}

/// A number is written in digits only.
proof fn lemma_numeral_digits(value: nat, radix: nat)
    requires
        2 <= radix <= 16,
    ensures
        numeral(value, radix).len() > 0,
        forall|i: int|
            0 <= i < numeral(value, radix).len() ==> is_written_digit(
                #[trigger] numeral(value, radix)[i],
            ),
    decreases value,
{
    if value >= radix {
        assert(value / radix < value && value % radix < radix) by (nonlinear_arith)
            requires
                2 <= radix <= value,
        ;
        lemma_numeral_digits(value / radix, radix);
    }
}

/// Zeros on the left are digits.
proof fn lemma_padded_digits(text: Seq<char>, width: int)
    requires
        text.len() > 0,
        forall|i: int| 0 <= i < text.len() ==> is_written_digit(#[trigger] text[i]),
    ensures
        zero_padded(text, width).len() > 0,
        forall|i: int|
            0 <= i < zero_padded(text, width).len() ==> is_written_digit(
                #[trigger] zero_padded(text, width)[i],
            ),
    decreases width - text.len(),
{
    if text.len() < width {
        lemma_padded_digits(seq!['0'] + text, width);
    }
}

/// A number is written in at least one digit, and in digits only, with any
/// padding.
pub proof fn law_numbers_are_written_in_digits(value: nat, radix: nat, width: int)
    requires
        2 <= radix <= 16,
    ensures
        zero_padded(numeral(value, radix), width).len() > 0,
        forall|i: int|
            0 <= i < zero_padded(numeral(value, radix), width).len() ==> is_written_digit(
                #[trigger] zero_padded(numeral(value, radix), width)[i],
            ),
{
    lemma_numeral_digits(value, radix);
    lemma_padded_digits(numeral(value, radix), width);
}

/// Digits that can be read are digits, all of them.
proof fn lemma_read_digits(digits: Seq<char>, radix: int, i: int)
    requires
        digits_value(digits, radix) is Ok,
        0 <= i < digits.len(),
    ensures
        digit_value(digits[i], radix) is Some,
    decreases digits.len(),
{
    if i < digits.len() - 1 {
        lemma_read_digits(digits.drop_last(), radix, i);
    }
}

/// A text that stands for a number holds digits only, but for a plus sign that
/// may come first; and it holds at least one digit.
pub proof fn law_numbers_hold_only_digits(text: Seq<char>, radix: int, i: int)
    requires
        number_value(text, radix) is Ok,
        0 <= i < text.len(),
    ensures
        i > 0 || text[0] != '+' ==> digit_value(text[i], radix) is Some,
        text[0] == '+' ==> text.len() >= 2,
{
    if text[0] == '+' {
        if text.len() == 1 {
            assert(text =~= seq!['+']);
        }
        if i > 0 {
            lemma_read_digits(text.drop_first(), radix, i - 1);
        }
    } else {
        lemma_read_digits(text, radix, i);
    }
}

/// The digits of a base are the first of `0123456789abcdef`, in either case, and
/// stand for their place there.
pub proof fn law_digits_stand_for_their_place(c: char, radix: int)
    requires
        2 <= radix <= 16,
    ensures
        digit_value(c, radix) matches Some(value) ==> 0 <= value < radix && ("0123456789abcdef"@[value]
            == c || "0123456789ABCDEF"@[value] == c),
        forall|value: int|
            0 <= value < radix ==> digit_value(#[trigger] "0123456789abcdef"@[value], radix) == Some(
                value,
            ) && digit_value("0123456789ABCDEF"@[value], radix) == Some(value),
{
    reveal_strlit("0123456789abcdef");
    reveal_strlit("0123456789ABCDEF");
}

/// A plus sign before digits changes nothing.
pub proof fn law_plus_sign_changes_nothing(digits: Seq<char>, radix: int)
    requires
        digits.len() > 0,
        digits.first() != '+',
    ensures
        number_value(seq!['+'] + digits, radix) == number_value(digits, radix),
{
    let text = seq!['+'] + digits;
    assert(text.drop_first() =~= digits);
    assert(text.len() >= 2);
    assert(text != seq!['+']);
    assert(digits != seq!['+']) by {
        assert(seq!['+'].first() == '+');
    }
}

/// Reading the numeral of a number that is too large fails.
proof fn lemma_large_numeral(value: nat, radix: nat)
    requires
        2 <= radix <= 16,
        value > u32::MAX,
    ensures
        digits_value(numeral(value, radix), radix as int) == Err::<int, NumberError>(
            NumberError::TooLarge,
        ),
        numeral(value, radix).len() > 1,
        numeral(value, radix).first() != '+',
    decreases value,
{
    let text = numeral(value, radix);
    let high = value / radix;
    assert(high < value && value % radix < radix && value == high * radix + value % radix && high
        > 0) by (nonlinear_arith)
        requires
            2 <= radix <= 16,
            value > u32::MAX,
            high == value / radix,
    ;
    assert(text.drop_last() =~= numeral(high, radix));
    let low = (value % radix) as int;
    assert(digit_value(digit_char(low), radix as int) == Some(low));
    if high > u32::MAX {
        lemma_large_numeral(high, radix);
    } else {
        lemma_numeral_is_read_back(high, radix);
    }
    assert(text.first() == numeral(high, radix).first());
}

/// A number that does not fit 32 bits is refused as too large.
pub proof fn law_large_numbers_are_refused(value: nat, radix: nat)
    requires
        2 <= radix <= 16,
        value > u32::MAX,
    ensures
        number_value(numeral(value, radix), radix as int) == Err::<int, NumberError>(
            NumberError::TooLarge,
        ),
{
    lemma_large_numeral(value, radix);
}

/// Padding puts zeros before a text, just as many as the width asks for, and
/// changes nothing else.
pub proof fn law_padding_is_zeros(text: Seq<char>, width: int)
    ensures
        ({
            let padded = zero_padded(text, width);
            let zeros = padded.len() - text.len();
            &&& padded.len() == (if text.len() >= width {
                text.len() as int
            } else {
                width
            })
            &&& padded.skip(zeros) == text
            &&& forall|i: int| 0 <= i < zeros ==> #[trigger] padded[i] == '0'
        }),
    decreases width - text.len(),
{
    if text.len() < width {
        let longer = seq!['0'] + text;
        law_padding_is_zeros(longer, width);
        let padded = zero_padded(text, width);
        let zeros = padded.len() - text.len();
        assert(padded.skip(zeros - 1) == longer);
        assert(padded.skip(zeros - 1).skip(1) =~= padded.skip(zeros));
        assert(longer.skip(1) =~= text);
        assert(padded[zeros - 1] == padded.skip(zeros - 1)[0]);
        assert(longer[0] == '0');
    } else {
        assert(text.skip(0) =~= text);
    }
}

/// A number is written without leading zeros, and different numbers are written
/// differently.
pub proof fn law_numbers_are_written_apart(value: nat, other: nat, radix: nat)
    requires
        2 <= radix <= 16,
        value <= u32::MAX,
        other <= u32::MAX,
    ensures
        value > 0 ==> numeral(value, radix).first() != '0',
        numeral(value, radix) == numeral(other, radix) <==> value == other,
{
    lemma_no_leading_zero(value, radix);
    lemma_numeral_is_read_back(value, radix);
    lemma_numeral_is_read_back(other, radix);
}

/// The first digit of a number is no zero, unless the number is.
proof fn lemma_no_leading_zero(value: nat, radix: nat)
    requires
        2 <= radix <= 16,
    ensures
        numeral(value, radix).len() > 0,
        value > 0 ==> numeral(value, radix).first() != '0',
    decreases value,
{
    if value >= radix {
        assert(value / radix < value && value / radix > 0) by (nonlinear_arith)
            requires
                2 <= radix <= value,
        ;
        lemma_no_leading_zero(value / radix, radix);
        assert(numeral(value, radix).first() == numeral(value / radix, radix).first());
    }
}

} // verus!
