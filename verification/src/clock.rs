//! The time in Korea.
use chrono::{DateTime, FixedOffset};
use vstd::prelude::*;

#[allow(unused_imports)]
use vstd::arithmetic::div_mod::{
    lemma_fundamental_div_mod, lemma_fundamental_div_mod_converse, lemma_mod_bound,
};
#[allow(unused_imports)]
use crate::number::{decimal, digit, is_number, law_decimal_reads_back, number_value};

verus! {

/// The seconds by which Korea is ahead of UTC.
pub const KST_OFFSET: i32 = 32400;

/// The first second of the year -262143, counted from the start of 1970 in UTC.
pub const FIRST_SECOND: i64 = -8334601228800;

/// The last second of the year 262142, counted from the start of 1970 in UTC.
pub const LAST_SECOND: i64 = 8210266876799;

/// Whether a second has a date in UTC and in a zone that is ahead by `offset`.
pub open spec fn has_date(utc_seconds: int, offset: int) -> bool {
    &&& FIRST_SECOND <= utc_seconds <= LAST_SECOND
    &&& FIRST_SECOND <= utc_seconds + offset <= LAST_SECOND
}

/// A number below a hundred in two digits.
pub open spec fn two_digits(value: int) -> Seq<char> {
    seq![digit(value / 10), digit(value % 10)]
}

/// The time of day of a second: hours, minutes and seconds.
pub open spec fn clock_text(second_of_day: int) -> Seq<char> {
    two_digits(second_of_day / 3600) + ":"@ + two_digits(second_of_day / 60 % 60) + ":"@
        + two_digits(second_of_day % 60)
}

/// Whether a year has 366 days.
pub open spec fn is_leap(year: int) -> bool {
    year % 4 == 0 && (year % 100 != 0 || year % 400 == 0)
}

/// The days of a year before the first of a month.
pub open spec fn days_before(year: int, month: int) -> int {
    let days: Seq<int> = seq![0, 31, 59, 90, 120, 151, 181, 212, 243, 273, 304, 334, 365];
    days[month - 1] + (if month > 2 && is_leap(year) {
        1int
    } else {
        0
    })
}

/// Whether a date is one of the Gregorian calendar.
pub open spec fn is_date(year: int, month: int, day: int) -> bool {
    &&& 1 <= month <= 12
    &&& 1 <= day <= days_before(year, month + 1) - days_before(year, month)
}

/// The days before the first day of a year, counted from the start of year 1.
pub open spec fn days_to_year(year: int) -> int {
    365 * (year - 1) + (year - 1) / 4 - (year - 1) / 100 + (year - 1) / 400
}

/// The days from the start of 1970 to a date.
pub open spec fn day_number(year: int, month: int, day: int) -> int {
    days_to_year(year) + days_before(year, month) + day - 1 - 719162
}

/// `digits` with zeros in front up to four places.
pub open spec fn in_four_places(digits: Seq<char>) -> Seq<char> {
    Seq::new(
        if digits.len() < 4 {
            (4 - digits.len()) as nat
        } else {
            0
        },
        |i: int| '0',
    ) + digits
}

/// A year as a date writes it: four digits, or a sign and four digits or more.
pub open spec fn year_text(year: int) -> Seq<char> {
    if year < 0 {
        seq!['-'] + in_four_places(decimal((-year) as nat))
    } else if year > 9999 {
        seq!['+'] + in_four_places(decimal(year as nat))
    } else {
        in_four_places(decimal(year as nat))
    }
}

/// A date: year, month and day.
pub open spec fn date_text(year: int, month: int, day: int) -> Seq<char> {
    year_text(year) + "-"@ + two_digits(month) + "-"@ + two_digits(day)
}

/// Whether `text` is the date of the day `number`, counted from the start of 1970.
pub open spec fn is_date_of(text: Seq<char>, number: int) -> bool {
    exists|year: int, month: int, day: int|
        is_date(year, month, day) && #[trigger] day_number(year, month, day) == number && text
            == date_text(year, month, day)
}

/// `DateTime::format` of the crate `chrono` with `%H:%M:%S`, on the second that
/// `DateTime::from_timestamp` makes and `DateTime::with_timezone` moves to the zone of
/// `FixedOffset::east_opt`: the time of day there, in two digits each.
#[verifier::external_body]
fn zone_clock(utc_seconds: i64, offset: i32) -> (text: String)
    requires
        -86400 < offset < 86400,
        has_date(utc_seconds as int, offset as int),
    ensures
        text@ == clock_text((utc_seconds + offset) % 86400),
{
    let zone = FixedOffset::east_opt(offset).expect("an offset below a day");
    let moment = DateTime::from_timestamp(utc_seconds, 0).expect("a second with a date");
    moment.with_timezone(&zone).format("%H:%M:%S").to_string()
}

/// `DateTime::date_naive` of the crate `chrono` and the text of that `NaiveDate`, on the
/// second that `DateTime::from_timestamp` makes and `DateTime::with_timezone` moves to
/// the zone of `FixedOffset::east_opt`: the date there in the Gregorian calendar.
#[verifier::external_body]
fn zone_date(utc_seconds: i64, offset: i32) -> (text: String)
    requires
        -86400 < offset < 86400,
        has_date(utc_seconds as int, offset as int),
    ensures
        is_date_of(text@, (utc_seconds + offset) / 86400),
{
    let zone = FixedOffset::east_opt(offset).expect("an offset below a day");
    let moment = DateTime::from_timestamp(utc_seconds, 0).expect("a second with a date");
    moment.with_timezone(&zone).date_naive().to_string()
}

/// The time of day in Korea, of a second counted from the start of 1970 in UTC.
pub fn kst_now(utc_seconds: i64) -> (text: String)
    requires
        has_date(utc_seconds as int, KST_OFFSET as int),
    ensures
        text@ == clock_text((utc_seconds + 32400) % 86400),
{
    zone_clock(utc_seconds, KST_OFFSET)
}

/// The date in Korea, of a second counted from the start of 1970 in UTC.
pub fn today_kst(utc_seconds: i64) -> (text: String)
    requires
        has_date(utc_seconds as int, KST_OFFSET as int),
    ensures
        is_date_of(text@, (utc_seconds + 32400) / 86400),
{
    zone_date(utc_seconds, KST_OFFSET)
}

/// A quotient grows by one at each multiple of its divisor.
proof fn lemma_quotient_steps(value: int, divisor: int)
    requires
        divisor > 0,
    ensures
        value / divisor - (value - 1) / divisor == (if value % divisor == 0 {
            1int
        } else {
            0
        }),
{
    let quotient = value / divisor;
    let rest = value % divisor;
    lemma_fundamental_div_mod(value, divisor);
    if rest == 0 {
        assert(value - 1 == (quotient - 1) * divisor + (divisor - 1)) by (nonlinear_arith)
            requires
                value == divisor * quotient + rest,
                rest == 0,
        ;
        lemma_fundamental_div_mod_converse(value - 1, divisor, quotient - 1, divisor - 1);
    } else {
        assert(value - 1 == quotient * divisor + (rest - 1)) by (nonlinear_arith)
            requires
                value == divisor * quotient + rest,
        ;
        lemma_mod_bound(value, divisor);
        lemma_fundamental_div_mod_converse(value - 1, divisor, quotient, rest - 1);
    }
}

proof fn lemma_next_year(year: int)
    ensures
        days_to_year(year + 1) == days_to_year(year) + 365 + (if is_leap(year) {
            1int
        } else {
            0
        }),
{
    lemma_quotient_steps(year, 4);
    lemma_quotient_steps(year, 100);
    lemma_quotient_steps(year, 400);
    assert(year % 100 == 0 ==> year % 4 == 0);
    assert(year % 400 == 0 ==> year % 100 == 0);
}

proof fn lemma_years_apart(first: int, second: int)
    requires
        first < second,
    ensures
        days_to_year(second) >= days_to_year(first) + 365 + (if is_leap(first) {
            1int
        } else {
            0
        }),
    decreases second - first,
{
    lemma_next_year(first);
    if second > first + 1 {
        lemma_years_apart(first + 1, second);
    }
}

/// Every day has one date.
pub proof fn law_date_is_unique(
    year: int,
    month: int,
    day: int,
    other_year: int,
    other_month: int,
    other_day: int,
)
    requires
        is_date(year, month, day),
        is_date(other_year, other_month, other_day),
        day_number(year, month, day) == day_number(other_year, other_month, other_day),
    ensures
        year == other_year,
        month == other_month,
        day == other_day,
{
    if year < other_year {
        lemma_years_apart(year, other_year);
    } else if other_year < year {
        lemma_years_apart(other_year, year);
    }
}

/// The time of day reads back: its digits are the hours, minutes and seconds that make up
/// the second, with colons between them.
pub proof fn law_clock_reads_back(second_of_day: int)
    requires
        0 <= second_of_day < 86400,
    ensures
        ({
            let text = clock_text(second_of_day);
            &&& text.len() == 8
            &&& text[2] == ':' && text[5] == ':'
            &&& is_number(text.subrange(0, 2)) && is_number(text.subrange(3, 5)) && is_number(
                text.subrange(6, 8),
            )
            &&& number_value(text.subrange(0, 2)) < 24
            &&& number_value(text.subrange(3, 5)) < 60
            &&& number_value(text.subrange(6, 8)) < 60
            &&& number_value(text.subrange(0, 2)) * 3600 + number_value(text.subrange(3, 5)) * 60
                + number_value(text.subrange(6, 8)) == second_of_day
        }),
{
    reveal_strlit(":");
    let text = clock_text(second_of_day);
    lemma_two_digits_read_back(second_of_day / 3600);
    lemma_two_digits_read_back(second_of_day / 60 % 60);
    lemma_two_digits_read_back(second_of_day % 60);
    assert(text.subrange(0, 2) =~= two_digits(second_of_day / 3600));
    assert(text.subrange(3, 5) =~= two_digits(second_of_day / 60 % 60));
    assert(text.subrange(6, 8) =~= two_digits(second_of_day % 60));
}

proof fn lemma_two_digits_read_back(value: int)
    requires
        0 <= value < 100,
    ensures
        two_digits(value).len() == 2,
        is_number(two_digits(value)),
        number_value(two_digits(value)) == value,
{
    let text = two_digits(value);
    assert(text.drop_last() =~= seq![digit(value / 10)]);
    assert(text.drop_last().drop_last() =~= Seq::<char>::empty());
    reveal_with_fuel(number_value, 3);
}

/// A date of this and the coming millennia reads back: year, month and day with a dash
/// between them.
pub proof fn law_date_reads_back(year: int, month: int, day: int)
    requires
        1000 <= year <= 9999,
        is_date(year, month, day),
    ensures
        ({
            let text = date_text(year, month, day);
            &&& text.len() == 10
            &&& text[4] == '-' && text[7] == '-'
            &&& number_value(text.subrange(0, 4)) == year
            &&& number_value(text.subrange(5, 7)) == month
            &&& number_value(text.subrange(8, 10)) == day
        }),
{
    reveal_strlit("-");
    let digits = decimal(year as nat);
    let text = date_text(year, month, day);
    law_decimal_reads_back(year as nat);
    reveal_with_fuel(decimal, 5);
    assert(digits.len() == 4);
    assert(year_text(year) =~= digits);
    lemma_two_digits_read_back(month);
    lemma_two_digits_read_back(day);
    assert(text.subrange(0, 4) =~= digits);
    assert(text.subrange(5, 7) =~= two_digits(month));
    assert(text.subrange(8, 10) =~= two_digits(day));
}

/// The next day follows: the next of the month, or the first of the next month, or of the
/// next year.
pub proof fn law_days_follow(year: int, month: int, day: int)
    requires
        is_date(year, month, day),
    ensures
        is_date(year, month, day + 1) ==> day_number(year, month, day + 1) == day_number(
            year,
            month,
            day,
        ) + 1,
        !is_date(year, month, day + 1) && month < 12 ==> is_date(year, month + 1, 1) && day_number(
            year,
            month + 1,
            1,
        ) == day_number(year, month, day) + 1,
        !is_date(year, month, day + 1) && month == 12 ==> day == 31 && is_date(year + 1, 1, 1)
            && day_number(year + 1, 1, 1) == day_number(year, month, day) + 1,
        day_number(1970, 1, 1) == 0,
{
    lemma_next_year(year);
}

/// The months of a year have 31 days, but for four with 30 and the second with 28, or 29 in a
/// leap year.
pub proof fn law_months_have_their_days(year: int, month: int, day: int)
    requires
        1 <= month <= 12,
    ensures
        is_date(year, month, day) <==> 1 <= day <= (if month == 4 || month == 6 || month == 9
            || month == 11 {
            30int
        } else if month != 2 {
            31
        } else if year % 4 == 0 && (year % 100 != 0 || year % 400 == 0) {
            29
        } else {
            28
        }),
{
}

} // verus!
