//! The local calendar.

use crate::text::{push_signed, push_two_digits};
use chrono::{Datelike, Local};
use vstd::prelude::*;

verus! {

/// A reading of the local calendar.
pub struct LocalTime {
    pub year: i32,
    /// The month, from 1 to 12.
    pub month: u32,
    /// The date and time as RFC 3339 writes it.
    pub rfc3339: String,
}

impl LocalTime {
    /// The month is one of the calendar.
    pub open spec fn has_month(self) -> bool {
        1 <= self.month <= 12
    }

    /// The month is one of the calendar, and the text is of the same year and month.
    pub open spec fn wf(self) -> bool {
        &&& self.has_month()
        &&& is_rfc3339_in(self.rfc3339@, self.year as int, self.month as nat)
    }

    /// The label of the month of this reading.
    pub open spec fn label(self) -> Seq<char> {
        month_label(self.year as int, self.month as nat)
    }
}

/// A decimal digit.
pub open spec fn is_digit(c: char) -> bool {
    '0' <= c <= '9'
}

/// A text that begins as RFC 3339 writes a date and time in a given year and month: in a year of up
/// to four digits with `YYYY-MM-ddThh:mm:ss`, and in any other with the sign of the year.
pub open spec fn is_rfc3339_in(text: Seq<char>, year: int, month: nat) -> bool {
    if 0 <= year <= 9999 {
        &&& text.len() > 19
        &&& text.take(8) == crate::text::two_digits((year / 100) as nat) + crate::text::two_digits(
            (year % 100) as nat,
        ) + seq!['-'] + crate::text::two_digits(month) + seq!['-']
        &&& is_digit(text[8]) && is_digit(text[9])
        &&& text[10] == 'T'
        &&& is_digit(text[11]) && is_digit(text[12])
        &&& text[13] == ':'
        &&& is_digit(text[14]) && is_digit(text[15])
        &&& text[16] == ':'
        &&& is_digit(text[17]) && is_digit(text[18])
    } else {
        &&& text.len() > 0
        &&& text[0] == '+' || text[0] == '-'
    }
}

/// Reads the clock with `chrono::Local::now`, and takes the year, the month and the RFC 3339 text
/// of the reading. Month numbers run from 1 to 12, and the text begins with that year and month;
/// which moment it is remains open, since each reading is another one.
#[verifier::external_body]
pub(crate) fn local_now() -> (now: LocalTime)
    ensures
        now.wf(),
{
    let now = Local::now();
    LocalTime { year: now.year(), month: now.month(), rfc3339: now.to_rfc3339() }
}

/// A month as `year-month`, with two digits for the month.
pub open spec fn month_label(year: int, month: nat) -> Seq<char> {
    crate::text::signed_decimal(year) + seq!['-'] + crate::text::two_digits(month)
}

/// Writes a month as `year-month`, with two digits for the month.
pub fn month_text(year: i32, month: u32) -> (s: String)
    ensures
        s@ == month_label(year as int, month as nat),
{
    let mut s = String::new();
    push_signed(&mut s, year);
    s.push('-');
    push_two_digits(&mut s, month);
    assert(s@ =~= month_label(year as int, month as nat));
    s
}

/// Each month has a label of its own.
pub proof fn law_months_have_own_labels(a: LocalTime, b: LocalTime)
    requires
        a.has_month(),
        b.has_month(),
        a.label() == b.label(),
    ensures
        a.year == b.year,
        a.month == b.month,
{
    let n = a.label().len() as int;
    let year_a = crate::text::signed_decimal(a.year as int);
    let year_b = crate::text::signed_decimal(b.year as int);
    crate::text::law_two_digits_are_injective(a.month as nat, b.month as nat);
    crate::text::law_two_digits_are_injective(b.month as nat, a.month as nat);
    assert(a.label().skip(n - 2) =~= crate::text::two_digits(a.month as nat));
    assert(b.label().skip(n - 2) =~= crate::text::two_digits(b.month as nat));
    assert(a.label().take(n - 3) =~= year_a);
    assert(b.label().take(n - 3) =~= year_b);
    crate::text::law_signed_decimal_is_injective(a.year as int, b.year as int);
}

/// In a year of four digits the text of a reading begins with the label of its month.
pub proof fn law_text_begins_with_month(now: LocalTime)
    requires
        now.wf(),
        1000 <= now.year <= 9999,
    ensures
        now.label().len() == 7,
        now.rfc3339@.take(8) == now.label() + seq!['-'],
{
    reveal_with_fuel(crate::text::decimal, 5);
    let year = now.year as nat;
    crate::text::law_two_digits_are_injective(now.month as nat, now.month as nat);
    assert(year / 10 / 10 == year / 100);
    assert(year % 100 % 10 == year % 10);
    assert(year % 100 / 10 == year / 10 % 10);
    assert(crate::text::two_digits(year / 100) + crate::text::two_digits(year % 100)
        =~= crate::text::decimal(year));
    assert(now.rfc3339@.take(8) =~= now.label() + seq!['-']);
}

/// The label of a month is its year in decimal, a hyphen, and two digits of the month.
pub proof fn law_label_names_year_and_month(now: LocalTime)
    requires
        now.month < 100,
    ensures
        ({
            let n = now.label().len() as int;
            &&& n > 3
            &&& now.label()[n - 3] == '-'
            &&& now.label()[n - 2] as int == 48 + now.month / 10
            &&& now.label()[n - 1] as int == 48 + now.month % 10
            &&& now.label().take(n - 3) == if now.year < 0 {
                seq!['-'] + crate::text::decimal((-now.year) as nat)
            } else {
                crate::text::decimal(now.year as nat)
            }
        }),
{
    let n = now.label().len() as int;
    crate::text::law_two_digits_have_the_value(now.month as nat);
    crate::text::law_decimal_has_the_value((-now.year) as nat);
    crate::text::law_decimal_has_the_value(now.year as nat);
    assert(now.label().take(n - 3) =~= crate::text::signed_decimal(now.year as int));
}

} // verus!
