//! Value objects: dates, periods, frequencies, units, source codes, and the
//! product scope guard.
//!
//! This module expresses only the identity and dimension of source facts: no
//! date library, no unit conversion, no derived indicators.

use vstd::prelude::*;

use crate::error::{fault_of, EastMoneyError, EastMoneyErrorKind, EastMoneyResult, Fault};
use crate::text::{any_control, has_control, is_control, trim, trimmed};
use vstd::string::StringSliceAdditionalSpecFns;

mod observation;

pub use observation::{
    binary64_equal, interbank_series_from_text, is_finite_bits, is_nan_bits, money_supply_refusal,
    money_supply_verdict, series_label, unknown_series_reason, values_equal,
    validate_money_supply, EastMoneyAggregateFinancing, EastMoneyInterbankRate,
    EastMoneyInterbankSeries, EastMoneyMissingReason, EastMoneyMoneySupply,
    EastMoneyNorthboundFlow, EastMoneyOmoOperation, EastMoneySeriesKind, EastMoneyValue,
    SERIES_KINDS,
};

verus! {

// ---------------------------------------------------------------------------
// Calendar rules
// ---------------------------------------------------------------------------

/// Leap year: divisible by 4, and not by 100 unless by 400.
pub open spec fn is_leap_year(y: int) -> bool {
    y % 4 == 0 && (y % 100 != 0 || y % 400 == 0)
}

/// The number of days of month `m` in year `y` (0 outside 1..=12).
pub open spec fn days_in_month(y: int, m: int) -> int {
    if m == 1 || m == 3 || m == 5 || m == 7 || m == 8 || m == 10 || m == 12 {
        31
    } else if m == 4 || m == 6 || m == 9 || m == 11 {
        30
    } else if m == 2 {
        if is_leap_year(y) {
            29
        } else {
            28
        }
    } else {
        0
    }
}

/// A four-digit year, a month in 1..=12 and a day that the month really has.
pub open spec fn is_valid_date(y: int, m: int, d: int) -> bool {
    &&& 1000 <= y <= 9999
    &&& 1 <= m <= 12
    &&& 1 <= d <= days_in_month(y, m)
}

/// Why a date is refused: the first failing check among year, month and day.
pub open spec fn date_refusal(y: int, m: int) -> Seq<char> {
    if !(1000 <= y <= 9999) {
        "年份须为 4 位形态（1000–9999）"@
    } else if !(1 <= m <= 12) {
        "月份须在 1–12 之间"@
    } else {
        "日超出该月实际天数（已含闰年规则）"@
    }
}

/// A calendar date (the identity of a strict ISO `YYYY-MM-DD`, without time
/// zone or time of day).
///
/// The fields are public for reading; construct through [`Date::new`] or
/// [`Date::parse`], which check the calendar.
#[derive(Debug, Clone, Copy, PartialEq, Eq, PartialOrd, Ord, Hash, Structural)]
pub struct Date {
    /// Year (four-digit form, 1000-9999).
    pub year: i16,
    /// Month (1-12).
    pub month: u8,
    /// Day (checked against the days of the month, leap years included).
    pub day: u8,
}

fn leap_year(year: i16) -> (r: bool)
    requires
        year >= 0,
    ensures
        r == is_leap_year(year as int),
{
    year % 4 == 0 && (year % 100 != 0 || year % 400 == 0)
}

fn month_days(year: i16, month: u8) -> (r: u8)
    requires
        year >= 0,
    ensures
        r == days_in_month(year as int, month as int),
{
    match month {
        1 | 3 | 5 | 7 | 8 | 10 | 12 => 31,
        4 | 6 | 9 | 11 => 30,
        2 => if leap_year(year) {
            29
        } else {
            28
        },
        _ => 0,
    }
}

/// The value of four ASCII decimal digits.
pub open spec fn four_digit_value(b: Seq<u8>) -> Option<int> {
    if b.len() == 4 && (forall|i: int| 0 <= i < 4 ==> is_ascii_digit(#[trigger] b[i])) {
        Some(
            (b[0] - 48) * 1000 + (b[1] - 48) * 100 + (b[2] - 48) * 10 + (b[3] - 48),
        )
    } else {
        None
    }
}

/// The value of two ASCII decimal digits.
pub open spec fn two_digit_value(b: Seq<u8>) -> Option<int> {
    if b.len() == 2 && is_ascii_digit(b[0]) && is_ascii_digit(b[1]) {
        Some((b[0] - 48) * 10 + (b[1] - 48))
    } else {
        None
    }
}

/// The value of one ASCII decimal digit.
pub open spec fn one_digit_value(b: Seq<u8>) -> Option<int> {
    if b.len() == 1 && is_ascii_digit(b[0]) {
        Some(b[0] - 48)
    } else {
        None
    }
}

/// Whether a byte is an ASCII decimal digit.
pub open spec fn is_ascii_digit(c: u8) -> bool {
    48 <= c <= 57
}

/// The date that a strict ISO `YYYY-MM-DD` text (as bytes) denotes, or why
/// it is refused (always as `Invalid`), in the order of the checks.
pub open spec fn date_from_bytes(b: Seq<u8>) -> Result<Date, Seq<char>> {
    if !(b.len() == 10 && b[4] == 45 && b[7] == 45) {
        Err("日期须为严格 ISO 形态 YYYY-MM-DD"@)
    } else {
        match four_digit_value(b.subrange(0, 4)) {
            None => Err("年份须为 4 位数字"@),
            Some(y) => match two_digit_value(b.subrange(5, 7)) {
                None => Err("月/日须为 2 位数字"@),
                Some(m) => match two_digit_value(b.subrange(8, 10)) {
                    None => Err("月/日须为 2 位数字"@),
                    Some(d) => if is_valid_date(y, m, d) {
                        Ok(Date { year: y as i16, month: m as u8, day: d as u8 })
                    } else {
                        Err(date_refusal(y, m))
                    },
                },
            },
        }
    }
}

fn four_digits(b: &[u8], at: usize) -> (r: Option<u16>)
    requires
        at + 4 <= b@.len(),
    ensures
        r matches Some(v) ==> four_digit_value(b@.subrange(at as int, at + 4)) == Some(v as int),
        r is None ==> four_digit_value(b@.subrange(at as int, at + 4)) is None,
{
    let ghost s = b@.subrange(at as int, at + 4);
    assert(s[0] == b@[at as int] && s[1] == b@[at + 1] && s[2] == b@[at + 2] && s[3] == b@[at
        + 3]);
    let (c0, c1, c2, c3) = (b[at], b[at + 1], b[at + 2], b[at + 3]);
    if 48 <= c0 && c0 <= 57 && 48 <= c1 && c1 <= 57 && 48 <= c2 && c2 <= 57 && 48 <= c3 && c3
        <= 57 {
        assert(forall|i: int| 0 <= i < 4 ==> is_ascii_digit(#[trigger] s[i]));
        Some((c0 - 48) as u16 * 1000 + (c1 - 48) as u16 * 100 + (c2 - 48) as u16 * 10 + (c3
            - 48) as u16)
    } else {
        assert(!is_ascii_digit(s[0]) || !is_ascii_digit(s[1]) || !is_ascii_digit(s[2])
            || !is_ascii_digit(s[3]));
        None
    }
}

fn two_digits(b: &[u8], at: usize) -> (r: Option<u8>)
    requires
        at + 2 <= b@.len(),
    ensures
        r matches Some(v) ==> two_digit_value(b@.subrange(at as int, at + 2)) == Some(v as int),
        r is None ==> two_digit_value(b@.subrange(at as int, at + 2)) is None,
{
    let ghost s = b@.subrange(at as int, at + 2);
    assert(s[0] == b@[at as int] && s[1] == b@[at + 1]);
    let (c0, c1) = (b[at], b[at + 1]);
    if 48 <= c0 && c0 <= 57 && 48 <= c1 && c1 <= 57 {
        Some((c0 - 48) * 10 + (c1 - 48))
    } else {
        None
    }
}

fn one_digit(b: &[u8], at: usize) -> (r: Option<u8>)
    requires
        at + 1 <= b@.len(),
    ensures
        r matches Some(v) ==> one_digit_value(b@.subrange(at as int, at + 1)) == Some(v as int),
        r is None ==> one_digit_value(b@.subrange(at as int, at + 1)) is None,
{
    let ghost s = b@.subrange(at as int, at + 1);
    assert(s[0] == b@[at as int]);
    let c0 = b[at];
    if 48 <= c0 && c0 <= 57 {
        Some(c0 - 48)
    } else {
        None
    }
}

impl Date {
    /// Whether this date obeys the calendar (four-digit year, leap years included).
    pub open spec fn is_valid(self) -> bool {
        is_valid_date(self.year as int, self.month as int, self.day as int)
    }

    /// Whether this date comes strictly after `other` in calendar order.
    pub open spec fn is_after(self, other: Date) -> bool {
        ||| self.year > other.year
        ||| self.year == other.year && self.month > other.month
        ||| self.year == other.year && self.month == other.month && self.day > other.day
    }

    /// Build and check a date.
    ///
    /// A year outside the four-digit form, a month outside 1-12 or a day the
    /// month does not have gives `Invalid`.
    pub fn new(year: i16, month: u8, day: u8) -> (r: EastMoneyResult<Self>)
        ensures
            r is Ok <==> is_valid_date(year as int, month as int, day as int),
            r matches Ok(d) ==> d == (Date { year, month, day }),
            r matches Err(e) ==> e.class() == EastMoneyErrorKind::Invalid && e.reason()
                == date_refusal(year as int, month as int),
    {
        if !(1000 <= year && year <= 9999) {
            return Err(EastMoneyError::Invalid("年份须为 4 位形态（1000–9999）".to_owned()));
        }
        if !(1 <= month && month <= 12) {
            return Err(EastMoneyError::Invalid("月份须在 1–12 之间".to_owned()));
        }
        if day < 1 || day > month_days(year, month) {
            return Err(EastMoneyError::Invalid("日超出该月实际天数（已含闰年规则）".to_owned()));
        }
        Ok(Date { year, month, day })
    }

    /// Parse a strict ISO `YYYY-MM-DD`: zero-padded month and day, `-` as the
    /// separator, no time part.
    pub fn parse(input: &str) -> (r: EastMoneyResult<Self>)
        ensures
            r is Ok <==> date_from_bytes(input.spec_bytes()) is Ok,
            r matches Ok(d) ==> date_from_bytes(input.spec_bytes()) == Ok::<_, Seq<char>>(d),
            r matches Err(e) ==> e.class() == EastMoneyErrorKind::Invalid && date_from_bytes(
                input.spec_bytes(),
            ) == Err::<Date, _>(e.reason()),
    {
        let b = input.as_bytes();
        Self::parse_bytes(b)
    }

    fn parse_bytes(b: &[u8]) -> (r: EastMoneyResult<Self>)
        ensures
            r is Ok <==> date_from_bytes(b@) is Ok,
            r matches Ok(d) ==> date_from_bytes(b@) == Ok::<_, Seq<char>>(d),
            r matches Err(e) ==> e.class() == EastMoneyErrorKind::Invalid && date_from_bytes(b@)
                == Err::<Date, _>(e.reason()),
    {
        if b.len() != 10 || b[4] != 45 || b[7] != 45 {
            return Err(EastMoneyError::Invalid("日期须为严格 ISO 形态 YYYY-MM-DD".to_owned()));
        }
        let year = match four_digits(b, 0) {
            Some(v) => v,
            None => return Err(EastMoneyError::Invalid("年份须为 4 位数字".to_owned())),
        };
        let month = match two_digits(b, 5) {
            Some(v) => v,
            None => return Err(EastMoneyError::Invalid("月/日须为 2 位数字".to_owned())),
        };
        let day = match two_digits(b, 8) {
            Some(v) => v,
            None => return Err(EastMoneyError::Invalid("月/日须为 2 位数字".to_owned())),
        };
        Self::new(year as i16, month, day)
    }
}

/// Whether `a` comes strictly after `b` in calendar order.
pub fn date_is_after(a: Date, b: Date) -> (r: bool)
    ensures
        r == a.is_after(b),
{
    a.year > b.year || (a.year == b.year && a.month > b.month) || (a.year == b.year && a.month
        == b.month && a.day > b.day)
}

/// The rank of a date in calendar order: the year counts first, then the
/// month, then the day (month and day each stay below 256).
pub open spec fn date_rank(d: Date) -> int {
    d.year as int * 65536 + d.month as int * 256 + d.day as int
}

/// Calendar order is the order of the rank: `a` comes after `b` exactly when
/// its year is later, or its year is the same and its month later, or both are
/// the same and its day later. So "after" is irreflexive, asymmetric,
/// transitive, and any two different dates are ordered one way or the other.
pub proof fn lemma_calendar_order(a: Date, b: Date, c: Date)
    ensures
        a.is_after(b) <==> date_rank(a) > date_rank(b),
        a.is_after(b) <==> (a.year > b.year || (a.year == b.year && a.month > b.month) || (
        a.year == b.year && a.month == b.month && a.day > b.day)),
        !a.is_after(a),
        a.is_after(b) ==> !b.is_after(a),
        a.is_after(b) && b.is_after(c) ==> a.is_after(c),
        a != b ==> a.is_after(b) || b.is_after(a),
        !a.is_after(b) <==> (a == b || b.is_after(a)),
{
    assert(date_rank(a) == date_rank(b) ==> a == b);
    assert(date_rank(a) > date_rank(b) <==> (a.year > b.year || (a.year == b.year && a.month
        > b.month) || (a.year == b.year && a.month == b.month && a.day > b.day)));
    assert(date_rank(b) > date_rank(c) <==> b.is_after(c));
    assert(date_rank(b) > date_rank(a) <==> b.is_after(a));
}

/// The ASCII byte of a decimal digit `v` (0-9).
pub open spec fn digit_byte(v: int) -> u8 {
    (v + 48) as u8
}

/// A date written as strict ISO `YYYY-MM-DD` (zero-padded), as bytes.
pub open spec fn date_text_bytes(d: Date) -> Seq<u8> {
    let y = d.year as int;
    let m = d.month as int;
    let dd = d.day as int;
    seq![
        digit_byte(y / 1000),
        digit_byte((y / 100) % 10),
        digit_byte((y / 10) % 10),
        digit_byte(y % 10),
        45u8,
        digit_byte(m / 10),
        digit_byte(m % 10),
        45u8,
        digit_byte(dd / 10),
        digit_byte(dd % 10),
    ]
}

/// Dates and their text correspond one to one: a text parses to `d` exactly
/// when `d` is a valid calendar date and the text is `d` written zero-padded
/// as `YYYY-MM-DD`. So every valid date, written out, parses back to itself,
/// and nothing else parses to it.
pub proof fn lemma_date_text_round_trip(b: Seq<u8>, d: Date)
    ensures
        date_from_bytes(b) == Ok::<Date, Seq<char>>(d) <==> (d.is_valid() && b
            == date_text_bytes(d)),
{
    let t = date_text_bytes(d);
    if d.is_valid() {
        let y = d.year as int;
        let m = d.month as int;
        let dd = d.day as int;
        assert(t.subrange(0, 4) =~= seq![t[0], t[1], t[2], t[3]]);
        assert(t.subrange(5, 7) =~= seq![t[5], t[6]]);
        assert(t.subrange(8, 10) =~= seq![t[8], t[9]]);
        assert((y / 1000) * 1000 + ((y / 100) % 10) * 100 + ((y / 10) % 10) * 10 + y % 10 == y)
            by (nonlinear_arith)
            requires
                1000 <= y <= 9999,
        ;
        assert((m / 10) * 10 + m % 10 == m) by (nonlinear_arith)
            requires
                1 <= m <= 12,
        ;
        assert((dd / 10) * 10 + dd % 10 == dd) by (nonlinear_arith)
            requires
                1 <= dd <= 31,
        ;
        assert(four_digit_value(t.subrange(0, 4)) == Some(y));
        assert(two_digit_value(t.subrange(5, 7)) == Some(m));
        assert(two_digit_value(t.subrange(8, 10)) == Some(dd));
        assert(date_from_bytes(t) == Ok::<Date, Seq<char>>(d));
    }
    if date_from_bytes(b) == Ok::<Date, Seq<char>>(d) {
        let y4 = b.subrange(0, 4);
        let m2 = b.subrange(5, 7);
        let d2 = b.subrange(8, 10);
        assert(y4[0] == b[0] && y4[1] == b[1] && y4[2] == b[2] && y4[3] == b[3]);
        assert(m2[0] == b[5] && m2[1] == b[6] && d2[0] == b[8] && d2[1] == b[9]);
        assert(is_ascii_digit(y4[0]) && is_ascii_digit(y4[1]) && is_ascii_digit(y4[2])
            && is_ascii_digit(y4[3]));
        let (a0, a1, a2, a3) = (b[0] - 48, b[1] - 48, b[2] - 48, b[3] - 48);
        let (m0, m1, d0, d1) = (b[5] - 48, b[6] - 48, b[8] - 48, b[9] - 48);
        let y = d.year as int;
        assert(y == a0 * 1000 + a1 * 100 + a2 * 10 + a3);
        assert(y / 1000 == a0 && (y / 100) % 10 == a1 && (y / 10) % 10 == a2 && y % 10 == a3)
            by (nonlinear_arith)
            requires
                y == a0 * 1000 + a1 * 100 + a2 * 10 + a3,
                0 <= a0 <= 9,
                0 <= a1 <= 9,
                0 <= a2 <= 9,
                0 <= a3 <= 9,
        ;
        let m = d.month as int;
        let dd = d.day as int;
        assert(m == m0 * 10 + m1 && dd == d0 * 10 + d1);
        assert(m / 10 == m0 && m % 10 == m1) by (nonlinear_arith)
            requires
                m == m0 * 10 + m1,
                0 <= m0 <= 9,
                0 <= m1 <= 9,
        ;
        assert(dd / 10 == d0 && dd % 10 == d1) by (nonlinear_arith)
            requires
                dd == d0 * 10 + d1,
                0 <= d0 <= 9,
                0 <= d1 <= 9,
        ;
        assert(b =~= t);
    }
}

// ---------------------------------------------------------------------------
// Periods
// ---------------------------------------------------------------------------

/// The identity of a business period.
#[non_exhaustive]
#[derive(Debug, Clone, Copy, PartialEq, Eq, PartialOrd, Ord, Hash, Structural)]
pub enum Period {
    /// A day.
    Day(Date),
    /// A month.
    Month {
        /// Year.
        year: i16,
        /// Month (1-12).
        month: u8,
    },
    /// A quarter.
    Quarter {
        /// Year.
        year: i16,
        /// Quarter (1-4).
        quarter: u8,
    },
    /// A year.
    Year(i16),
    /// An event (a point in time, such as one open market operation).
    Event {
        /// The event's date.
        date: Date,
    },
}

impl Period {
    /// Whether every component of the period is in range.
    pub open spec fn is_valid(self) -> bool {
        match self {
            Period::Day(d) => d.is_valid(),
            Period::Event { date } => date.is_valid(),
            Period::Month { year, month } => is_valid_date(year as int, month as int, 1),
            Period::Quarter { year, quarter } => is_valid_date(year as int, 1, 1) && 1 <= quarter
                <= 4,
            Period::Year(year) => is_valid_date(year as int, 1, 1),
        }
    }

    /// Re-check the public components of a period, so that direct construction
    /// cannot bypass the date range.
    pub(crate) fn validate(&self) -> (r: EastMoneyResult<()>)
        ensures
            r is Ok <==> self.is_valid(),
            r matches Err(e) ==> e.class() == EastMoneyErrorKind::Invalid && e.reason()
                == period_refusal(*self),
    {
        match *self {
            Period::Day(date) => Date::new(date.year, date.month, date.day).map(|_d: Date| ()),
            Period::Event { date } => Date::new(date.year, date.month, date.day).map(
                |_d: Date| (),
            ),
            Period::Month { year, month } => Date::new(year, month, 1).map(|_d: Date| ()),
            Period::Quarter { year, quarter } => {
                match Date::new(year, 1, 1) {
                    Ok(_) => {},
                    Err(e) => return Err(e),
                }
                if !(1 <= quarter && quarter <= 4) {
                    return Err(EastMoneyError::Invalid("季度须在 1–4 之间".to_owned()));
                }
                Ok(())
            },
            Period::Year(year) => Date::new(year, 1, 1).map(|_d: Date| ()),
        }
    }

    /// Parse a period: `YYYY-MM-DD` is a day, `YYYY-MM` a month, `YYYY-Qn`
    /// a quarter, `YYYY` a year. Any other shape, or a component
    /// out of range, gives `Invalid`.
    pub fn parse(input: &str) -> (r: EastMoneyResult<Self>)
        ensures
            r is Ok <==> period_from_bytes(input.spec_bytes()) is Ok,
            r matches Ok(p) ==> period_from_bytes(input.spec_bytes()) == Ok::<_, Seq<char>>(p),
            r matches Err(e) ==> e.class() == EastMoneyErrorKind::Invalid && period_from_bytes(
                input.spec_bytes(),
            ) == Err::<Period, _>(e.reason()),
    {
        let b = input.as_bytes();
        let period = if b.len() == 10 {
            match Date::parse_bytes(b) {
                Ok(d) => Period::Day(d),
                Err(e) => return Err(e),
            }
        } else if b.len() == 7 && b[4] == 45 && b[5] == 81 {
            let year = match four_digits(b, 0) {
                Some(v) => v,
                None => return Err(EastMoneyError::Invalid("年份须为 4 位数字".to_owned())),
            };
            let quarter = match one_digit(b, 6) {
                Some(v) => v,
                None => return Err(EastMoneyError::Invalid("季度须为 1 位数字".to_owned())),
            };
            if !(1 <= quarter && quarter <= 4) {
                return Err(EastMoneyError::Invalid("季度须在 1–4 之间".to_owned()));
            }
            Period::Quarter { year: year as i16, quarter }
        } else if b.len() == 7 && b[4] == 45 {
            let year = match four_digits(b, 0) {
                Some(v) => v,
                None => return Err(EastMoneyError::Invalid("年份须为 4 位数字".to_owned())),
            };
            let month = match two_digits(b, 5) {
                Some(v) => v,
                None => return Err(EastMoneyError::Invalid("月/日须为 2 位数字".to_owned())),
            };
            if !(1 <= month && month <= 12) {
                return Err(EastMoneyError::Invalid("月份须在 1–12 之间".to_owned()));
            }
            Period::Month { year: year as i16, month }
        } else if b.len() == 4 {
            match four_digits(b, 0) {
                Some(v) => Period::Year(v as i16),
                None => return Err(EastMoneyError::Invalid("年份须为 4 位数字".to_owned())),
            }
        } else {
            return Err(
                EastMoneyError::Invalid(
                    "期间须为 YYYY / YYYY-MM / YYYY-Qn / YYYY-MM-DD 之一".to_owned(),
                ),
            );
        };
        match period.validate() {
            Ok(()) => Ok(period),
            Err(e) => Err(e),
        }
    }
}

/// Why a period's re-check refuses it.
pub open spec fn period_refusal(p: Period) -> Seq<char> {
    match p {
        Period::Day(d) => date_refusal(d.year as int, d.month as int),
        Period::Event { date } => date_refusal(date.year as int, date.month as int),
        Period::Month { year, month } => date_refusal(year as int, month as int),
        Period::Quarter { year, quarter } => if !is_valid_date(year as int, 1, 1) {
            date_refusal(year as int, 1)
        } else {
            "季度须在 1–4 之间"@
        },
        Period::Year(year) => date_refusal(year as int, 1),
    }
}

/// The period that a text (as bytes) denotes, or why it is refused (always as
/// `Invalid`), in the order of the checks. The shapes are `YYYY-MM-DD`,
/// `YYYY-MM`, `YYYY-Qn` (uppercase `Q`) and `YYYY`.
pub open spec fn period_from_bytes(b: Seq<u8>) -> Result<Period, Seq<char>> {
    if b.len() == 10 {
        match date_from_bytes(b) {
            Ok(d) => Ok(Period::Day(d)),
            Err(m) => Err(m),
        }
    } else if b.len() == 7 && b[4] == 45 && b[5] == 81 {
        match four_digit_value(b.subrange(0, 4)) {
            None => Err("年份须为 4 位数字"@),
            Some(y) => match one_digit_value(b.subrange(6, 7)) {
                None => Err("季度须为 1 位数字"@),
                Some(q) => if !(1 <= q <= 4) {
                    Err("季度须在 1–4 之间"@)
                } else if !is_valid_date(y, 1, 1) {
                    Err(date_refusal(y, 1))
                } else {
                    Ok(Period::Quarter { year: y as i16, quarter: q as u8 })
                },
            },
        }
    } else if b.len() == 7 && b[4] == 45 {
        match four_digit_value(b.subrange(0, 4)) {
            None => Err("年份须为 4 位数字"@),
            Some(y) => match two_digit_value(b.subrange(5, 7)) {
                None => Err("月/日须为 2 位数字"@),
                Some(m) => if !(1 <= m <= 12) {
                    Err("月份须在 1–12 之间"@)
                } else if !is_valid_date(y, m, 1) {
                    Err(date_refusal(y, m))
                } else {
                    Ok(Period::Month { year: y as i16, month: m as u8 })
                },
            },
        }
    } else if b.len() == 4 {
        match four_digit_value(b) {
            None => Err("年份须为 4 位数字"@),
            Some(y) => if !is_valid_date(y, 1, 1) {
                Err(date_refusal(y, 1))
            } else {
                Ok(Period::Year(y as i16))
            },
        }
    } else {
        Err("期间须为 YYYY / YYYY-MM / YYYY-Qn / YYYY-MM-DD 之一"@)
    }
}

/// A four-digit year as ASCII bytes.
pub open spec fn year_text_bytes(y: int) -> Seq<u8> {
    seq![digit_byte(y / 1000), digit_byte((y / 100) % 10), digit_byte((y / 10) % 10), digit_byte(y % 10)]
}

/// A period written in its text form, as bytes: `YYYY-MM-DD` for a day,
/// `YYYY-MM` for a month, `YYYY-Qn` for a quarter, `YYYY` for a year (an event
/// has no text form).
pub open spec fn period_text_bytes(p: Period) -> Seq<u8> {
    match p {
        Period::Day(d) => date_text_bytes(d),
        Period::Month { year, month } => year_text_bytes(year as int) + seq![
            45u8,
            digit_byte(month as int / 10),
            digit_byte(month as int % 10),
        ],
        Period::Quarter { year, quarter } => year_text_bytes(year as int) + seq![
            45u8,
            81u8,
            digit_byte(quarter as int),
        ],
        Period::Year(year) => year_text_bytes(year as int),
        Period::Event { .. } => seq![],
    }
}

/// Four digits read back give the year they were written from, and four
/// digits that read as `y` are `y` written out.
proof fn lemma_year_text(b: Seq<u8>, y: int)
    ensures
        1000 <= y <= 9999 ==> four_digit_value(year_text_bytes(y)) == Some(y),
        four_digit_value(b) == Some(y) ==> b == year_text_bytes(y),
{
    let t = year_text_bytes(y);
    if 1000 <= y <= 9999 {
        assert((y / 1000) * 1000 + ((y / 100) % 10) * 100 + ((y / 10) % 10) * 10 + y % 10 == y)
            by (nonlinear_arith)
            requires
                1000 <= y <= 9999,
        ;
        assert(is_ascii_digit(t[0]) && is_ascii_digit(t[1]) && is_ascii_digit(t[2])
            && is_ascii_digit(t[3]));
    }
    if four_digit_value(b) == Some(y) {
        assert(is_ascii_digit(b[0]) && is_ascii_digit(b[1]) && is_ascii_digit(b[2])
            && is_ascii_digit(b[3]));
        let (a0, a1, a2, a3) = (b[0] - 48, b[1] - 48, b[2] - 48, b[3] - 48);
        assert(y / 1000 == a0 && (y / 100) % 10 == a1 && (y / 10) % 10 == a2 && y % 10 == a3)
            by (nonlinear_arith)
            requires
                y == a0 * 1000 + a1 * 100 + a2 * 10 + a3,
                0 <= a0 <= 9,
                0 <= a1 <= 9,
                0 <= a2 <= 9,
                0 <= a3 <= 9,
        ;
        assert(b =~= t);
    }
}

/// Periods and their text correspond one to one: a text parses to `p`
/// exactly when `p` is a day, month, quarter or year whose components are in
/// range and the text is `p` written in its form (`YYYY-MM-DD`, `YYYY-MM`,
/// `YYYY-Qn` with an uppercase `Q`, `YYYY`). So every valid period, written
/// out, parses back to itself; no text parses to an event.
pub proof fn lemma_period_text_round_trip(b: Seq<u8>, p: Period)
    ensures
        period_from_bytes(b) == Ok::<Period, Seq<char>>(p) <==> (!(p is Event) && p.is_valid()
            && b == period_text_bytes(p)),
{
    let t = period_text_bytes(p);
    match p {
        Period::Day(d) => {
            lemma_date_text_round_trip(b, d);
            lemma_date_text_round_trip(t, d);
        },
        Period::Month { year, month } => {
            let y = year as int;
            let m = month as int;
            lemma_year_text(b.subrange(0, 4), y);
            if p.is_valid() {
                lemma_year_text(t.subrange(0, 4), y);
                assert(t.subrange(0, 4) =~= year_text_bytes(y));
                assert((m / 10) * 10 + m % 10 == m) by (nonlinear_arith)
                    requires
                        1 <= m <= 12,
                ;
                assert(t.subrange(5, 7) =~= seq![t[5], t[6]]);
                assert(period_from_bytes(t) == Ok::<Period, Seq<char>>(p));
            }
            if period_from_bytes(b) == Ok::<Period, Seq<char>>(p) {
                let m2 = b.subrange(5, 7);
                assert(m2[0] == b[5] && m2[1] == b[6]);
                let (m0, m1) = (b[5] - 48, b[6] - 48);
                assert(m / 10 == m0 && m % 10 == m1) by (nonlinear_arith)
                    requires
                        m == m0 * 10 + m1,
                        0 <= m0 <= 9,
                        0 <= m1 <= 9,
                ;
                assert(b =~= b.subrange(0, 4) + b.subrange(4, 7));
                assert(b =~= t);
            }
        },
        Period::Quarter { year, quarter } => {
            let y = year as int;
            let q = quarter as int;
            lemma_year_text(b.subrange(0, 4), y);
            if p.is_valid() {
                lemma_year_text(t.subrange(0, 4), y);
                assert(t.subrange(0, 4) =~= year_text_bytes(y));
                assert(t.subrange(6, 7) =~= seq![t[6]]);
                assert(period_from_bytes(t) == Ok::<Period, Seq<char>>(p));
            }
            if period_from_bytes(b) == Ok::<Period, Seq<char>>(p) {
                assert(b.subrange(6, 7)[0] == b[6]);
                assert(b =~= b.subrange(0, 4) + b.subrange(4, 7));
                assert(b =~= t);
            }
        },
        Period::Year(year) => {
            let y = year as int;
            lemma_year_text(b, y);
            lemma_year_text(t, y);
        },
        Period::Event { .. } => {},
    }
}

/// A source code is accepted exactly when it is a non-empty text of at most
/// 64 characters, without a control character and without surrounding
/// whitespace; every refusal is `Invalid`.
pub proof fn lemma_code_acceptance(v: Seq<char>)
    ensures
        code_verdict(v) is Ok <==> (0 < v.len() <= 64 && trim(v) == v && forall|i: int|
            0 <= i < v.len() ==> !is_control(#[trigger] v[i])),
        code_verdict(v) matches Err(e) ==> e.0 == EastMoneyErrorKind::Invalid,
{
}

// ---------------------------------------------------------------------------
// Frequency and unit
// ---------------------------------------------------------------------------

/// Observation frequency.
#[non_exhaustive]
#[derive(Debug, Clone, Copy, PartialEq, Eq, Hash, Structural)]
pub enum Frequency {
    /// Daily.
    Daily,
    /// Weekly.
    Weekly,
    /// Monthly.
    Monthly,
    /// Quarterly.
    Quarterly,
    /// Annual.
    Annual,
    /// Event (irregular points in time).
    Event,
    /// Irregular.
    Irregular,
}

/// The unit on the source side. The source unit is kept; conversion belongs
/// downstream.
#[non_exhaustive]
#[derive(Debug, Clone, Copy, PartialEq, Eq, Hash, Structural)]
pub enum Unit {
    /// Percent.
    Percent,
    /// Basis point.
    BasisPoint,
    /// Hundred million yuan (kept as the source states it).
    HundredMillionYuan,
    /// Yuan.
    Yuan,
    /// The source declared no unit (never silently assumed to be one).
    Undeclared,
}

// ---------------------------------------------------------------------------
// Source codes
// ---------------------------------------------------------------------------

/// A source-side code or label.
///
/// Its value domain is decided by the source, so only legality is checked; the
/// length cap guards against abnormal input and is no source constraint.
#[derive(Debug, Clone, PartialEq, Eq, Hash)]
pub struct EastMoneyCode(String);

impl View for EastMoneyCode {
    type V = Seq<char>;

    closed spec fn view(&self) -> Seq<char> {
        self.0@
    }
}

/// How a candidate code is judged, in the order of the checks: a blank text,
/// a trimmed text of more than 64 characters, a control character or
/// surrounding whitespace is refused as `Invalid`; anything else is accepted.
pub open spec fn code_verdict(v: Seq<char>) -> Result<(), Fault> {
    let t = trim(v);
    if t.len() == 0 {
        Err((EastMoneyErrorKind::Invalid, "源侧码不得为空"@))
    } else if t.len() > 64 {
        Err((EastMoneyErrorKind::Invalid, "源侧码过长（上限 64）"@))
    } else if has_control(t) {
        Err((EastMoneyErrorKind::Invalid, "源侧码不得含控制字符"@))
    } else if t != v {
        Err((EastMoneyErrorKind::Invalid, "源侧码不得含前后空白（避免静默等值）"@))
    } else {
        Ok(())
    }
}

impl EastMoneyCode {
    /// Build and check a source code.
    ///
    /// A blank text, surrounding whitespace, a control character or more than
    /// 64 characters gives `Invalid`.
    pub fn new(value: &str) -> (r: EastMoneyResult<Self>)
        ensures
            r is Ok <==> code_verdict(value@) is Ok,
            r matches Ok(c) ==> c@ == value@,
            r matches Err(e) ==> code_verdict(value@) == Err::<(), _>(fault_of(e)),
    {
        let t = trimmed(value);
        if t.is_empty() {
            return Err(EastMoneyError::Invalid("源侧码不得为空".to_owned()));
        }
        if t.unicode_len() > 64 {
            return Err(EastMoneyError::Invalid("源侧码过长（上限 64）".to_owned()));
        }
        if any_control(t) {
            return Err(EastMoneyError::Invalid("源侧码不得含控制字符".to_owned()));
        }
        if !crate::text::same_text(t, value) {
            return Err(EastMoneyError::Invalid("源侧码不得含前后空白（避免静默等值）".to_owned()));
        }
        Ok(EastMoneyCode(t.to_owned()))
    }

    /// The code as a string slice.
    pub fn as_str(&self) -> (s: &str)
        ensures
            s@ == self@,
    {
        self.0.as_str()
    }
}

// ---------------------------------------------------------------------------
// Product scope guard
// ---------------------------------------------------------------------------

/// The kind of an entry. The current contract admits only observations.
#[non_exhaustive]
#[derive(Debug, Clone, Copy, PartialEq, Eq, Hash, Structural)]
pub enum EastMoneyKind {
    /// An observation (`kind=observation`).
    Observation,
}

/// The product class of the data.
///
/// Only [`EastMoneyProduct::Macro`] is admitted; quotes, forex, search and
/// calendar are refused and routed elsewhere.
#[non_exhaustive]
#[derive(Debug, Clone, Copy, PartialEq, Eq, Hash, Structural)]
pub enum EastMoneyProduct {
    /// Macro observations (`product=macro`, the only admitted product).
    Macro,
    /// Quotes (refused).
    Quote,
    /// Forex (refused).
    Forex,
    /// Search (refused).
    Search,
    /// Calendar (refused).
    Calendar,
}

/// Check that an entry kind and product fall inside the current contract.
///
/// Only `kind=observation` + `product=macro` passes; every other product gives
/// `RoutedElsewhere` (this domain does not own it).
pub fn validate_observation_scope(kind: EastMoneyKind, product: EastMoneyProduct) -> (r:
    EastMoneyResult<()>)
    ensures
        r is Ok <==> product == EastMoneyProduct::Macro,
        r matches Err(e) ==> e.class() == EastMoneyErrorKind::RoutedElsewhere && e.reason()
            == product_name(product) + " 不属于本域（当前合同仅脱敏宏观观测）"@,
{
    match (kind, product) {
        (EastMoneyKind::Observation, EastMoneyProduct::Macro) => Ok(()),
        (EastMoneyKind::Observation, other) => {
            let reason = product_label(other).to_owned().concat(" 不属于本域（当前合同仅脱敏宏观观测）");
            Err(EastMoneyError::RoutedElsewhere(reason))
        },
    }
}

/// The readable name of a product class (for messages, never for branching).
pub open spec fn product_name(product: EastMoneyProduct) -> Seq<char> {
    match product {
        EastMoneyProduct::Macro => "macro"@,
        EastMoneyProduct::Quote => "行情（quote）"@,
        EastMoneyProduct::Forex => "汇率（forex）"@,
        EastMoneyProduct::Search => "搜索（search）"@,
        EastMoneyProduct::Calendar => "日历（calendar）"@,
    }
}

/// The readable name of a product class.
fn product_label(product: EastMoneyProduct) -> (r: &'static str)
    ensures
        r@ == product_name(product),
{
    match product {
        EastMoneyProduct::Macro => "macro",
        EastMoneyProduct::Quote => "行情（quote）",
        EastMoneyProduct::Forex => "汇率（forex）",
        EastMoneyProduct::Search => "搜索（search）",
        EastMoneyProduct::Calendar => "日历（calendar）",
    }
}

} // verus!
