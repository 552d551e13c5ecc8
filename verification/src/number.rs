//! Decimal numbers: how they are written and how they are read.
use vstd::prelude::*;

use crate::text::chars_of;

verus! {

/// The character of the decimal digit `value`.
pub open spec fn digit(value: int) -> char {
    ('0' as int + value) as char
}

/// `value` in decimal, without leading zeros.
pub open spec fn decimal(value: nat) -> Seq<char>
    decreases value,
{
    if value < 10 {
        seq![digit(value as int)]
    } else {
        decimal(value / 10).push(digit((value % 10) as int))
    }
}

/// `value` in decimal, with a minus sign where it is negative.
pub open spec fn signed_decimal(value: int) -> Seq<char> {
    if value < 0 {
        seq!['-'] + decimal((-value) as nat)
    } else {
        decimal(value as nat)
    }
}

fn digit_char(value: u64) -> (c: char)
    requires
        value < 10,
    ensures
        c == digit(value as int),
{
    (48u8 + value as u8) as char
}

/// Writes `value` in decimal.
pub fn write_decimal(value: u64) -> (text: String)
    ensures
        text@ == decimal(value as nat),
    decreases value,
{
    if value < 10 {
        let mut text = String::new();
        text.push(digit_char(value));
        assert(text@ =~= decimal(value as nat));
        text
    } else {
        let mut text = write_decimal(value / 10);
        text.push(digit_char(value % 10));
        text
    }
}

/// Writes `value` in decimal.
pub fn write_signed(value: i32) -> (text: String)
    ensures
        text@ == signed_decimal(value as int),
{
    if value < 0 {
        let mut text = String::new();
        text.push('-');
        text.append(&write_decimal((-(value as i64)) as u64));
        assert(text@ =~= signed_decimal(value as int));
        text
    } else {
        write_decimal(value as u64)
    }
}

/// Whether `c` is one of the ten ASCII digits.
pub open spec fn is_digit(c: char) -> bool {
    '0' <= c <= '9'
}

/// Whether `text` is one digit or more and nothing else.
pub open spec fn is_number(text: Seq<char>) -> bool {
    text.len() > 0 && forall|i: int| 0 <= i < text.len() ==> is_digit(#[trigger] text[i])
}

/// The number that the digits of `text` write.
pub open spec fn number_value(text: Seq<char>) -> nat
    decreases text.len(),
{
    if text.len() == 0 {
        0
    } else {
        number_value(text.drop_last()) * 10 + (text.last() as int - '0' as int) as nat
    }
}

/// `text` without the sign `sign` in front, if it is there.
pub open spec fn unsigned_part(text: Seq<char>, sign: char) -> Seq<char> {
    if text.len() > 0 && text[0] == sign {
        text.skip(1)
    } else {
        text
    }
}

/// The count up to `limit` that `text` writes: digits, with or without a plus sign
/// in front.
pub open spec fn parsed_count(text: Seq<char>, limit: nat) -> Option<nat> {
    let digits = unsigned_part(text, '+');
    if is_number(digits) && number_value(digits) <= limit {
        Some(number_value(digits))
    } else {
        None
    }
}

/// The integer of 32 bits that `text` writes: digits, with or without a sign in
/// front.
pub open spec fn parsed_integer(text: Seq<char>) -> Option<int> {
    if text.len() > 0 && text[0] == '-' {
        let digits = text.skip(1);
        if is_number(digits) && number_value(digits) <= -(i32::MIN as int) {
            Some(-number_value(digits))
        } else {
            None
        }
    } else {
        match parsed_count(text, i32::MAX as nat) {
            Some(value) => Some(value as int),
            None => None,
        }
    }
}

/// Reads the digits `from..` of `chars` as a number up to `limit`.
fn read_digits(chars: &Vec<char>, from: usize, limit: u64) -> (value: Option<u64>)
    requires
        from <= chars@.len(),
    ensures
        match value {
            Some(v) => {
                &&& is_number(chars@.skip(from as int))
                &&& v == number_value(chars@.skip(from as int))
                &&& v <= limit
            },
            None => {
                ||| !is_number(chars@.skip(from as int))
                ||| number_value(chars@.skip(from as int)) > limit
            },
        },
{
    let ghost digits = chars@.skip(from as int);
    if from == chars.len() {
        return None;
    }
    let mut value: u64 = 0;
    let mut fits = true;
    let mut i: usize = from;
    while i < chars.len()
        invariant
            from <= i <= chars@.len(),
            digits == chars@.skip(from as int),
            forall|j: int| 0 <= j < i - from ==> is_digit(#[trigger] digits[j]),
            fits ==> value == number_value(digits.take(i - from)) && value <= limit,
            !fits ==> number_value(digits.take(i - from)) > limit,
        decreases chars@.len() - i,
    {
        let c = chars[i];
        assert(c == digits[i - from]);
        if c < '0' || c > '9' {
            return None;
        }
        assert(digits.take(i + 1 - from).drop_last() == digits.take(i - from));
        let step = (c as u32 - 48u32) as u64;
        if fits {
            if value <= (limit / 10) && value * 10 <= limit && step <= limit - value * 10 {
                value = value * 10 + step;
            } else {
                fits = false;
            }
        }
        i += 1;
    }
    assert(digits.take(i - from) == digits);
    if fits {
        Some(value)
    } else {
        None
    }
}

/// Reads a count.
pub fn parse_usize(text: &str) -> (value: Option<usize>)
    ensures
        match parsed_count(text@, usize::MAX as nat) {
            Some(v) => value is Some && value->0 == v,
            None => value is None,
        },
{
    let chars = chars_of(text);
    let from: usize = if chars.len() > 0 && chars[0] == '+' { 1 } else { 0 };
    assert(chars@.skip(from as int) == unsigned_part(text@, '+'));
    match read_digits(&chars, from, usize::MAX as u64) {
        Some(value) => Some(value as usize),
        None => None,
    }
}

/// Reads an integer of 32 bits.
pub fn parse_i32(text: &str) -> (value: Option<i32>)
    ensures
        match parsed_integer(text@) {
            Some(v) => value is Some && value->0 == v,
            None => value is None,
        },
{
    let chars = chars_of(text);
    if chars.len() > 0 && chars[0] == '-' {
        match read_digits(&chars, 1, 2147483648) {
            Some(value) => Some((-(value as i64)) as i32),
            None => None,
        }
    } else {
        let from: usize = if chars.len() > 0 && chars[0] == '+' { 1 } else { 0 };
        assert(chars@.skip(from as int) == unsigned_part(text@, '+'));
        match read_digits(&chars, from, 2147483647) {
            Some(value) => Some(value as i32),
            None => None,
        }
    }
}

/// What is written in decimal reads back as the same number.
pub proof fn law_decimal_reads_back(value: nat)
    ensures
        is_number(decimal(value)),
        number_value(decimal(value)) == value,
        parsed_count(decimal(value), value) == Some(value),
    decreases value,
{
    let text = decimal(value);
    if value < 10 {
        assert(text.last() == digit(value as int));
        assert(text.drop_last() == Seq::<char>::empty());
        reveal_with_fuel(number_value, 2);
    } else {
        law_decimal_reads_back(value / 10);
        assert(text.drop_last() == decimal(value / 10));
        assert(text.last() == digit((value % 10) as int));
        assert forall|i: int| 0 <= i < text.len() implies is_digit(#[trigger] text[i]) by {
            if i < text.len() - 1 {
                assert(text[i] == decimal(value / 10)[i]);
            }
        }
    }
    assert(is_digit(text[0]));
}

/// What is written of an integer of 32 bits reads back as the same integer.
pub proof fn law_integer_reads_back(value: i32)
    ensures
        parsed_integer(signed_decimal(value as int)) == Some(value as int),
{
    let text = signed_decimal(value as int);
    if value < 0 {
        law_decimal_reads_back((-value) as nat);
        assert(text.skip(1) == decimal((-value) as nat));
    } else {
        law_decimal_reads_back(value as nat);
        assert(is_digit(text[0]));
    }
}

/// A number is read from its digits, with a plus sign in front or not, where it is no more
/// than the limit; from nothing, or from a text with anything but digits behind its first
/// character, no number is read.
pub proof fn law_numbers_are_digits(text: Seq<char>, value: nat, limit: nat)
    ensures
        text == decimal(value) || text == seq!['+'] + decimal(value) ==> parsed_count(text, limit)
            == (if value <= limit {
            Some(value)
        } else {
            None
        }),
        text.len() == 0 ==> parsed_count(text, limit) is None,
        (exists|i: int| 0 < i < text.len() && !('0' <= #[trigger] text[i] <= '9')) ==> parsed_count(
            text,
            limit,
        ) is None,
        text.len() > 0 && text[0] != '+' && !('0' <= text[0] <= '9') ==> parsed_count(text, limit)
            is None,
        text == seq!['+'] ==> parsed_count(text, limit) is None,
{
    law_decimal_reads_back(value);
    assert(is_digit(decimal(value)[0]));
    assert((seq!['+'] + decimal(value)).skip(1) =~= decimal(value));
    if exists|i: int| 0 < i < text.len() && !('0' <= #[trigger] text[i] <= '9') {
        let i = choose|i: int| 0 < i < text.len() && !('0' <= #[trigger] text[i] <= '9');
        if text[0] == '+' {
            assert(text.skip(1)[i - 1] == text[i]);
        } else {
            assert(!is_digit(text[i]));
        }
    }
    if text.len() > 0 && text[0] != '+' && !('0' <= text[0] <= '9') {
        assert(!is_digit(text[0]));
    }
}

/// Zeros in front of digits change nothing of their number, and neither does one plus sign
/// in front of a text without a sign.
pub proof fn law_zeros_and_signs_in_front(text: Seq<char>, limit: nat)
    ensures
        text.len() > 0 && (forall|i: int|
            0 <= i < text.len() ==> '0' <= #[trigger] text[i] <= '9') ==> parsed_count(
            seq!['0'] + text,
            limit,
        ) == parsed_count(text, limit),
        text.len() == 0 || text[0] != '+' ==> parsed_count(seq!['+'] + text, limit)
            == parsed_count(text, limit),
        text.len() > 0 && text[0] == '+' ==> parsed_count(seq!['+'] + text, limit) is None,
{
    let zeros = seq!['0'] + text;
    let signed = seq!['+'] + text;
    assert(signed.skip(1) =~= text);
    if text.len() > 0 && forall|i: int| 0 <= i < text.len() ==> '0' <= #[trigger] text[i] <= '9' {
        lemma_zero_in_front(text);
        assert(is_digit(text[0]));
        assert forall|i: int| 0 <= i < zeros.len() implies is_digit(#[trigger] zeros[i]) by {
            if i > 0 {
                assert(is_digit(text[i - 1]));
            }
        }
        assert forall|i: int| 0 <= i < text.len() implies is_digit(#[trigger] text[i]) by {}
    }
    if text.len() > 0 && text[0] == '+' {
        assert(!is_digit(signed.skip(1)[0]));
    }
}

proof fn lemma_zero_in_front(text: Seq<char>)
    ensures
        number_value(seq!['0'] + text) == number_value(text),
    decreases text.len(),
{
    let longer = seq!['0'] + text;
    if text.len() == 0 {
        assert(longer =~= seq!['0']);
        assert(longer.drop_last() =~= Seq::<char>::empty());
        reveal_with_fuel(number_value, 2);
    } else {
        assert(longer.drop_last() =~= seq!['0'] + text.drop_last());
        lemma_zero_in_front(text.drop_last());
    }
}

/// An integer is read from digits with a sign in front or not, where 32 bits hold it, and
/// with a minus sign it is the negative one.
pub proof fn law_integers_are_signed_digits(value: nat, text: Seq<char>)
    ensures
        parsed_integer(decimal(value)) == (if value <= i32::MAX {
            Some(value as int)
        } else {
            None
        }),
        parsed_integer(seq!['+'] + decimal(value)) == parsed_integer(decimal(value)),
        parsed_integer(seq!['-'] + decimal(value)) == (if value <= i32::MAX as int + 1 {
            Some(-(value as int))
        } else {
            None
        }),
        text.len() == 0 ==> parsed_integer(text) is None,
        (exists|i: int| 0 < i < text.len() && !('0' <= #[trigger] text[i] <= '9'))
            ==> parsed_integer(text) is None,
        text.len() > 0 && text[0] != '+' && text[0] != '-' && !('0' <= text[0] <= '9')
            ==> parsed_integer(text) is None,
{
    let digits = decimal(value);
    law_decimal_reads_back(value);
    law_numbers_are_digits(digits, value, i32::MAX as nat);
    law_numbers_are_digits(seq!['+'] + digits, value, i32::MAX as nat);
    law_numbers_are_digits(text, value, i32::MAX as nat);
    assert(is_digit(digits[0]));
    assert((seq!['-'] + digits).skip(1) =~= digits);
    if exists|i: int| 0 < i < text.len() && !('0' <= #[trigger] text[i] <= '9') {
        let i = choose|i: int| 0 < i < text.len() && !('0' <= #[trigger] text[i] <= '9');
        assert(text.skip(1)[i - 1] == text[i]);
        assert(!is_digit(text.skip(1)[i - 1]));
    }
}

/// A decimal has one digit for a number below ten, and one more for every further place.
pub proof fn law_decimals_grow_by_places(value: nat, last: nat)
    requires
        last < 10,
    ensures
        decimal(last).len() == 1,
        decimal(last)[0] as int == '0' as int + last,
        value > 0 ==> decimal(value * 10 + last) == decimal(value) + decimal(last),
{
    if value > 0 {
        assert((value * 10 + last) / 10 == value);
        assert((value * 10 + last) % 10 == last);
        assert(decimal(value * 10 + last) =~= decimal(value) + decimal(last));
    }
}

} // verus!
