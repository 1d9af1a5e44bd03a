//! Points in time, as the names of runs and as text.
//!
//! A run is named by a stamp `yyyymmdd-hhmmss` in UTC. The civil date comes out of
//! a count of seconds by arithmetic alone; what it has to be is said by the
//! calendar itself: a valid date whose day number is the one counted.
use vstd::arithmetic::div_mod::*;
use vstd::prelude::*;
use vstd::slice::slice_subrange;
use vstd::string::*;
use crate::text::{
    dec, digit, digit_char, from_chars, is_digit, push_chars, push_dec, push_padded, to_chars,
    zero_padded,
};

verus! {

// ── The calendar ─────────────────────────────────────────────────────────

pub open spec fn is_leap(y: int) -> bool {
    y % 4 == 0 && (y % 100 != 0 || y % 400 == 0)
}

pub open spec fn days_in_month(y: int, m: int) -> int {
    if m == 2 {
        if is_leap(y) {
            29
        } else {
            28
        }
    } else if m == 4 || m == 6 || m == 9 || m == 11 {
        30
    } else {
        31
    }
}

/// The days of a year before its month `m`.
pub open spec fn days_before_month(y: int, m: int) -> int
    decreases m,
{
    if m <= 1 {
        0
    } else {
        days_before_month(y, m - 1) + days_in_month(y, m - 1)
    }
}

/// The days before the first of January of a year, counted from that of year 1.
pub open spec fn days_before_year(y: int) -> int {
    365 * (y - 1) + (y - 1) / 4 - (y - 1) / 100 + (y - 1) / 400
}

/// The days from the first of January 1970 to a date.
pub open spec fn day_number(y: int, m: int, d: int) -> int {
    days_before_year(y) + days_before_month(y, m) + (d - 1) - days_before_year(1970)
}

/// A date and a time of day.
#[derive(Clone, Copy, Debug, PartialEq, Eq)]
pub struct Civil {
    pub year: u64,
    pub month: u64,
    pub day: u64,
    pub hour: u64,
    pub minute: u64,
    pub second: u64,
}

impl Civil {
    /// A date of the calendar, from 1970 on, and a time of a day.
    pub open spec fn valid(self) -> bool {
        &&& 1970 <= self.year
        &&& 1 <= self.month <= 12
        &&& 1 <= self.day <= days_in_month(self.year as int, self.month as int)
        &&& self.hour < 24
        &&& self.minute < 60
        &&& self.second < 60
    }

    /// The seconds from the start of 1970 on.
    pub open spec fn seconds(self) -> int {
        86_400 * day_number(self.year as int, self.month as int, self.day as int) + 3600 * self.hour
            + 60 * self.minute + self.second
    }
}

/// In the four hundred years of an era, the day `doe` lies in the year `yoe` that
/// the closed formula gives, as its day `doy`, counted from the first of March.
proof fn lemma_year_of_era(doe: int)
    requires
        0 <= doe < 146_097,
    ensures
        ({
            let yoe = (doe - doe / 1460 + doe / 36_524 - doe / 146_096) / 365;
            let doy = doe - (365 * yoe + yoe / 4 - yoe / 100);
            &&& 0 <= yoe < 400
            &&& 0 <= doy < 366
            &&& doy == 365 ==> (yoe + 1) % 4 == 0 && ((yoe + 1) % 100 != 0 || (yoe + 1) % 400 == 0)
        }),
{
    let yoe = (doe - doe / 1460 + doe / 36_524 - doe / 146_096) / 365;
    let c = doe / 36_524;
    if doe == 146_096 {
        assert(yoe == 399);
    } else {
        assert(0 <= c < 4);
        let r = doe - c * 36_524;
        assert(0 <= r < 36_524);
        let q = r / 1461;
        let s = r - q * 1461;
        assert(0 <= q <= 24 && 0 <= s < 1461);
        assert(yoe == 100 * c + 4 * q + (if s == 1460 {
            3
        } else {
            s / 365
        })) by {
            assert(doe / 1460 == 25 * c + q + (24 * c + q + s) / 1460) by {
                assert(doe == 1460 * (25 * c + q) + (24 * c + q + s));
                lemma_div_multiples_vanish_fancy(25 * c + q, 0, 1460);
                assert((1460 * (25 * c + q) + (24 * c + q + s)) / 1460 == (25 * c + q) + (24 * c + q
                    + s) / 1460);
            }
        }
    }
}

/// The month that a day of a year from March on lies in, and its day of the month.
proof fn lemma_month_of_year(doy: int, y: int)
    requires
        0 <= doy < 366,
        doy == 365 ==> is_leap(y + 1),
    ensures
        ({
            let mp = (5 * doy + 2) / 153;
            let d = doy - (153 * mp + 2) / 5 + 1;
            let m = if mp < 10 {
                mp + 3
            } else {
                mp - 9
            };
            let year = if m <= 2 {
                y + 1
            } else {
                y
            };
            &&& 1 <= m <= 12
            &&& 1 <= d <= days_in_month(year, m)
            &&& days_before_month(year, m) + d - 1 == if m <= 2 {
                doy - 306
            } else {
                doy + 59 + if is_leap(y) {
                    1int
                } else {
                    0int
                }
            }
        }),
{
    let mp = (5 * doy + 2) / 153;
    assert(0 <= mp <= 11);
    let m = if mp < 10 {
        mp + 3
    } else {
        mp - 9
    };
    let year = if m <= 2 {
        y + 1
    } else {
        y
    };
    reveal_with_fuel(days_before_month, 13);
    assert(mp == 0 || mp == 1 || mp == 2 || mp == 3 || mp == 4 || mp == 5 || mp == 6 || mp == 7 || mp
        == 8 || mp == 9 || mp == 10 || mp == 11);
}

/// The days before the first of March of a year.
proof fn lemma_march(era: int, yoe: int)
    requires
        0 <= era,
        0 <= yoe < 400,
    ensures
        ({
            let y = yoe + era * 400;
            let start = 146_097 * era + 365 * yoe + yoe / 4 - yoe / 100 - 306;
            &&& days_before_year(y + 1) == start + 306
            &&& days_before_year(y) + 59 + (if is_leap(y) {
                1int
            } else {
                0int
            }) == start - 1 + 1
        }),
{
    let y = yoe + era * 400;
    assert(y / 4 == yoe / 4 + 100 * era);
    assert(y / 100 == yoe / 100 + 4 * era);
    assert(y / 400 == era);
    assert(y % 4 == yoe % 4);
    assert(y % 100 == yoe % 100);
    assert(y % 400 == yoe);
}

/// The date of a day, by its era, its year of the era and its day of the year.
proof fn lemma_date_of_day(days: int)
    requires
        0 <= days,
    ensures
        ({
            let z = days + 719_468;
            let era = z / 146_097;
            let doe = z % 146_097;
            let yoe = (doe - doe / 1460 + doe / 36_524 - doe / 146_096) / 365;
            let y = yoe + era * 400;
            let doy = doe - (365 * yoe + yoe / 4 - yoe / 100);
            let mp = (5 * doy + 2) / 153;
            let d = doy - (153 * mp + 2) / 5 + 1;
            let m = if mp < 10 {
                mp + 3
            } else {
                mp - 9
            };
            let year = if m <= 2 {
                y + 1
            } else {
                y
            };
            &&& 0 <= yoe < 400
            &&& 0 <= doy < 366
            &&& 0 <= mp <= 11
            &&& 1 <= m <= 12
            &&& 1 <= d <= days_in_month(year, m)
            &&& day_number(year, m, d) == days
            &&& 1970 <= year
        }),
{
    let z = days + 719_468;
    let era = z / 146_097;
    let doe = z % 146_097;
    lemma_fundamental_div_mod(z, 146_097);
    lemma_year_of_era(doe);
    let yoe = (doe - doe / 1460 + doe / 36_524 - doe / 146_096) / 365;
    let y = yoe + era * 400;
    let doy = doe - (365 * yoe + yoe / 4 - yoe / 100);
    assert(doy == 365 ==> is_leap(y + 1)) by {
        assert((y + 1) % 4 == (yoe + 1) % 4);
        assert((y + 1) % 100 == (yoe + 1) % 100);
        assert((y + 1) % 400 == (yoe + 1) % 400);
    }
    lemma_month_of_year(doy, y);
    lemma_march(era, yoe);
    let mp = (5 * doy + 2) / 153;
    let d = doy - (153 * mp + 2) / 5 + 1;
    let m = if mp < 10 {
        mp + 3
    } else {
        mp - 9
    };
    let year = if m <= 2 {
        y + 1
    } else {
        y
    };
    assert(day_number(year, m, d) == days) by {
        assert(z == 146_097 * era + doe);
    }
    if year < 1970 {
        lemma_day_number_orders(year, m, d, 1970, 1, 1);
        assert(days_before_month(1970, 1) == 0);
    }
}

proof fn lemma_days_before_month_grows(y: int, a: int, b: int)
    requires
        1 <= a < b <= 13,
    ensures
        days_before_month(y, a) + days_in_month(y, a) <= days_before_month(y, b),
        0 <= days_before_month(y, a),
    decreases b,
{
    reveal_with_fuel(days_before_month, 14);
}

proof fn lemma_year_step(y: int, k: int)
    requires
        y < k,
    ensures
        days_before_year(y) + 365 + (if is_leap(y) {
            1int
        } else {
            0int
        }) <= days_before_year(k),
    decreases k - y,
{
    let l = if is_leap(y) {
        1int
    } else {
        0int
    };
    assert(y / 4 - (y - 1) / 4 == if y % 4 == 0 {
        1int
    } else {
        0
    });
    assert(y / 100 - (y - 1) / 100 == if y % 100 == 0 {
        1int
    } else {
        0
    });
    assert(y / 400 - (y - 1) / 400 == if y % 400 == 0 {
        1int
    } else {
        0
    });
    assert(y % 400 == 0 ==> y % 100 == 0);
    assert(y % 100 == 0 ==> y % 4 == 0);
    assert(days_before_year(y + 1) == days_before_year(y) + 365 + l);
    if y + 1 < k {
        lemma_year_step(y + 1, k);
    }
}

/// A later date has a greater day number.
pub proof fn lemma_day_number_orders(y1: int, m1: int, d1: int, y2: int, m2: int, d2: int)
    requires
        1 <= m1 <= 12 && 1 <= d1 <= days_in_month(y1, m1),
        1 <= m2 <= 12 && 1 <= d2 <= days_in_month(y2, m2),
        y1 < y2 || (y1 == y2 && (m1 < m2 || (m1 == m2 && d1 < d2))),
    ensures
        day_number(y1, m1, d1) < day_number(y2, m2, d2),
{
    lemma_days_before_month_grows(y1, m1, 13);
    assert(days_before_month(y1, 13) == 365 + (if is_leap(y1) {
        1int
    } else {
        0int
    })) by {
        reveal_with_fuel(days_before_month, 14);
    }
    lemma_days_before_month_grows(y2, m2, 13);
    if y1 < y2 {
        lemma_year_step(y1, y2);
    } else if m1 < m2 {
        lemma_days_before_month_grows(y1, m1, m2);
    }
}

/// The date and time of a moment, counted in seconds from the start of 1970: the
/// one valid date that has that many seconds.
pub open spec fn civil_of(secs: u64) -> Civil {
    choose|c: Civil| #[trigger] c.valid() && c.seconds() == secs
}

/// The civil date and time of a moment.
pub fn civil(secs: u64) -> (r: Civil)
    ensures
        r.valid(),
        r.seconds() == secs,
        r == civil_of(secs),
{
    let days: u64 = secs / 86_400;
    let rem: u64 = secs % 86_400;
    proof {
        lemma_date_of_day(days as int);
    }
    let z: u64 = days + 719_468;
    let era: u64 = z / 146_097;
    let doe: u64 = z % 146_097;
    let yoe: u64 = (doe - doe / 1460 + doe / 36_524 - doe / 146_096) / 365;
    let y: u64 = yoe + era * 400;
    let doy: u64 = doe - (365 * yoe + yoe / 4 - yoe / 100);
    let mp: u64 = (5 * doy + 2) / 153;
    let d: u64 = doy - (153 * mp + 2) / 5 + 1;
    let m: u64 = if mp < 10 {
        mp + 3
    } else {
        mp - 9
    };
    let year: u64 = if m <= 2 {
        y + 1
    } else {
        y
    };
    let r = Civil {
        year,
        month: m,
        day: d,
        hour: rem / 3600,
        minute: (rem % 3600) / 60,
        second: rem % 60,
    };
    proof {
        assert(r.valid() && r.seconds() == secs);
        law_civil_is_unique(r, civil_of(secs));
    }
    r
}

/// Two valid dates and times of the same moment are the same.
pub proof fn law_civil_is_unique(a: Civil, b: Civil)
    requires
        a.valid(),
        b.valid(),
        a.seconds() == b.seconds(),
    ensures
        a == b,
{
    if earlier(a, b) {
        lemma_civil_orders(a, b);
    }
    if earlier(b, a) {
        lemma_civil_orders(b, a);
    }
}

/// The order of dates and times: the first field in which they differ decides.
pub open spec fn earlier(a: Civil, b: Civil) -> bool {
    ||| a.year < b.year
    ||| a.year == b.year && a.month < b.month
    ||| a.year == b.year && a.month == b.month && a.day < b.day
    ||| a.year == b.year && a.month == b.month && a.day == b.day && a.hour < b.hour
    ||| a.year == b.year && a.month == b.month && a.day == b.day && a.hour == b.hour && a.minute
        < b.minute
    ||| a.year == b.year && a.month == b.month && a.day == b.day && a.hour == b.hour && a.minute
        == b.minute && a.second < b.second
}

/// What is earlier on the calendar has fewer seconds.
pub proof fn lemma_civil_orders(a: Civil, b: Civil)
    requires
        a.valid(),
        b.valid(),
        earlier(a, b),
    ensures
        a.seconds() < b.seconds(),
{
    let (y1, m1, d1) = (a.year as int, a.month as int, a.day as int);
    let (y2, m2, d2) = (b.year as int, b.month as int, b.day as int);
    if y1 != y2 || m1 != m2 || d1 != d2 {
        lemma_day_number_orders(y1, m1, d1, y2, m2, d2);
    }
}

// ── Stamps ───────────────────────────────────────────────────────────────

/// A numeral of at least four digits.
pub open spec fn four(n: u64) -> Seq<char> {
    zero_padded(dec(n as nat), 4)
}

/// A numeral of at least two digits.
pub open spec fn two(n: u64) -> Seq<char> {
    zero_padded(dec(n as nat), 2)
}

/// The stamp of a date: `yyyymmdd-hhmmss`.
pub open spec fn stamp_of(c: Civil) -> Seq<char> {
    four(c.year) + two(c.month) + two(c.day) + "-"@ + two(c.hour) + two(c.minute) + two(c.second)
}

/// A date for a reader: `yyyy-mm-dd hh:mm:ss UTC`.
pub open spec fn human_of(c: Civil) -> Seq<char> {
    four(c.year) + "-"@ + two(c.month) + "-"@ + two(c.day) + " "@ + two(c.hour) + ":"@ + two(
        c.minute,
    ) + ":"@ + two(c.second) + " UTC"@
}

/// The stamp of a moment, in UTC.
pub fn stamp(secs: u64) -> (r: String)
    ensures
        r@ == stamp_of(civil_of(secs)),
{
    let c = civil(secs);
    let mut out: String = String::new();
    push_padded(&mut out, c.year, 4);
    push_padded(&mut out, c.month, 2);
    push_padded(&mut out, c.day, 2);
    out.append("-");
    push_padded(&mut out, c.hour, 2);
    push_padded(&mut out, c.minute, 2);
    push_padded(&mut out, c.second, 2);
    assert(out@ =~= stamp_of(c));
    out
}

/// A moment for a reader.
pub fn stamp_human(secs: u64) -> (r: String)
    ensures
        r@ == human_of(civil_of(secs)),
{
    let c = civil(secs);
    let mut out: String = String::new();
    push_padded(&mut out, c.year, 4);
    out.append("-");
    push_padded(&mut out, c.month, 2);
    out.append("-");
    push_padded(&mut out, c.day, 2);
    out.append(" ");
    push_padded(&mut out, c.hour, 2);
    out.append(":");
    push_padded(&mut out, c.minute, 2);
    out.append(":");
    push_padded(&mut out, c.second, 2);
    out.append(" UTC");
    assert(out@ =~= human_of(c));
    out
}

/// A text in the shape of a stamp.
pub open spec fn is_stamp(s: Seq<char>) -> bool {
    s.len() == 15 && s[8] == '-' && forall|i: int| 0 <= i < 15 && i != 8 ==> is_digit(#[trigger] s[i])
}

/// A stamp as a date for a reader; any other text as it is.
pub open spec fn label_of(s: Seq<char>) -> Seq<char> {
    if is_stamp(s) {
        s.subrange(0, 4) + "-"@ + s.subrange(4, 6) + "-"@ + s.subrange(6, 8) + " "@ + s.subrange(
            9,
            11,
        ) + ":"@ + s.subrange(11, 13) + ":"@ + s.subrange(13, 15) + " UTC"@
    } else {
        s
    }
}

fn stamp_shaped(c: &[char]) -> (r: bool)
    ensures
        r == is_stamp(c@),
{
    if c.len() != 15 || c[8] != '-' {
        return false;
    }
    let mut i: usize = 0;
    while i < 15
        invariant
            i <= 15,
            c@.len() == 15,
            forall|k: int| 0 <= k < i && k != 8 ==> is_digit(#[trigger] c@[k]),
        decreases 15 - i,
    {
        if i != 8 && !digit(c[i]) {
            assert(!is_digit(c@[i as int]));
            return false;
        }
        i += 1;
    }
    true
}

/// A stamp as a date for a reader. What is not in the shape of a stamp is handed
/// back as it is.
pub fn stamp_label(stamp: &str) -> (r: String)
    ensures
        r@ == label_of(stamp@),
{
    let c = to_chars(stamp);
    if !stamp_shaped(c.as_slice()) {
        return stamp.to_owned();
    }
    let s = c.as_slice();
    let mut out: String = from_chars(slice_subrange(s, 0, 4));
    out.append("-");
    push_chars(&mut out, slice_subrange(s, 4, 6));
    out.append("-");
    push_chars(&mut out, slice_subrange(s, 6, 8));
    out.append(" ");
    push_chars(&mut out, slice_subrange(s, 9, 11));
    out.append(":");
    push_chars(&mut out, slice_subrange(s, 11, 13));
    out.append(":");
    push_chars(&mut out, slice_subrange(s, 13, 15));
    out.append(" UTC");
    out
}

// ── Laws of stamps ───────────────────────────────────────────────────────

proof fn lemma_two(n: u64)
    requires
        n < 100,
    ensures
        two(n) == seq![digit_char(n as int / 10), digit_char(n as int % 10)],
{
    reveal_with_fuel(dec, 3);
    assert(two(n) =~= seq![digit_char(n as int / 10), digit_char(n as int % 10)]);
}

proof fn lemma_four(n: u64)
    requires
        1000 <= n < 10_000,
    ensures
        four(n) == seq![
            digit_char(n as int / 1000),
            digit_char(n as int / 100 % 10),
            digit_char(n as int / 10 % 10),
            digit_char(n as int % 10),
        ],
{
    reveal_with_fuel(dec, 5);
    assert(n as nat / 10 / 10 == n as nat / 100);
    assert(n as nat / 100 / 10 == n as nat / 1000);
    assert(four(n) =~= seq![
        digit_char(n as int / 1000),
        digit_char(n as int / 100 % 10),
        digit_char(n as int / 10 % 10),
        digit_char(n as int % 10),
    ]);
}

proof fn lemma_digit_char(d: int)
    requires
        0 <= d < 10,
    ensures
        is_digit(digit_char(d)),
        digit_char(d) as u32 == '0' as u32 + d,
{
}

/// Two digits, in the order of the number.
proof fn lemma_two_digits(n: u64)
    requires
        n < 100,
    ensures
        two(n).len() == 2,
        is_digit(two(n)[0]),
        is_digit(two(n)[1]),
{
    lemma_two(n);
    lemma_digit_char(n as int / 10);
    lemma_digit_char(n as int % 10);
}

proof fn lemma_four_digits(n: u64)
    requires
        1000 <= n < 10_000,
    ensures
        four(n).len() == 4,
        is_digit(four(n)[0]),
        is_digit(four(n)[1]),
        is_digit(four(n)[2]),
        is_digit(four(n)[3]),
{
    lemma_four(n);
    lemma_digit_char(n as int / 1000);
    lemma_digit_char(n as int / 100 % 10);
    lemma_digit_char(n as int / 10 % 10);
    lemma_digit_char(n as int % 10);
}

/// Where the parts of a stamp stand.
proof fn lemma_stamp_parts(c: Civil)
    requires
        c.valid(),
        c.year < 10_000,
    ensures
        ({
            let s = stamp_of(c);
            &&& s.len() == 15
            &&& s.subrange(0, 4) == four(c.year)
            &&& s.subrange(4, 6) == two(c.month)
            &&& s.subrange(6, 8) == two(c.day)
            &&& s[8] == '-'
            &&& s.subrange(9, 11) == two(c.hour)
            &&& s.subrange(11, 13) == two(c.minute)
            &&& s.subrange(13, 15) == two(c.second)
        }),
{
    reveal_strlit("-");
    lemma_four_digits(c.year);
    lemma_two_digits(c.month);
    lemma_two_digits(c.day);
    lemma_two_digits(c.hour);
    lemma_two_digits(c.minute);
    lemma_two_digits(c.second);
    let s = stamp_of(c);
    assert(s.subrange(0, 4) =~= four(c.year));
    assert(s.subrange(4, 6) =~= two(c.month));
    assert(s.subrange(6, 8) =~= two(c.day));
    assert(s.subrange(9, 11) =~= two(c.hour));
    assert(s.subrange(11, 13) =~= two(c.minute));
    assert(s.subrange(13, 15) =~= two(c.second));
}

/// A stamp, labelled, is the date that it was made of. Said of the years that have
/// four digits.
pub proof fn law_label_of_stamp(c: Civil)
    requires
        c.valid(),
        c.year < 10_000,
    ensures
        is_stamp(stamp_of(c)),
        label_of(stamp_of(c)) == human_of(c),
{
    lemma_stamp_parts(c);
    let s = stamp_of(c);
    assert(is_stamp(s)) by {
        lemma_four_digits(c.year);
        lemma_two_digits(c.month);
        lemma_two_digits(c.day);
        lemma_two_digits(c.hour);
        lemma_two_digits(c.minute);
        lemma_two_digits(c.second);
        assert forall|i: int| 0 <= i < 15 && i != 8 implies is_digit(#[trigger] s[i]) by {
            if i < 4 {
                assert(s[i] == s.subrange(0, 4)[i]);
            } else if i < 6 {
                assert(s[i] == s.subrange(4, 6)[i - 4]);
            } else if i < 8 {
                assert(s[i] == s.subrange(6, 8)[i - 6]);
            } else if i < 11 {
                assert(s[i] == s.subrange(9, 11)[i - 9]);
            } else if i < 13 {
                assert(s[i] == s.subrange(11, 13)[i - 11]);
            } else {
                assert(s[i] == s.subrange(13, 15)[i - 13]);
            }
        }
    }
}

/// The lexical order of texts of one length: the first character in which they
/// differ decides.
pub open spec fn lexically_before(a: Seq<char>, b: Seq<char>) -> bool {
    exists|k: int|
        0 <= k < a.len() && k < b.len() && #[trigger] a[k] < b[k] && forall|j: int|
            0 <= j < k ==> a[j] == b[j]
}

/// A part that decides the order inside of two texts that agree up to it.
proof fn lemma_part_decides(s: Seq<char>, t: Seq<char>, lo: int, hi: int)
    requires
        s.len() == t.len(),
        0 <= lo <= hi <= s.len(),
        s.take(lo) == t.take(lo),
        lexically_before(s.subrange(lo, hi), t.subrange(lo, hi)),
    ensures
        lexically_before(s, t),
{
    let (x, y) = (s.subrange(lo, hi), t.subrange(lo, hi));
    let k = choose|k: int|
        0 <= k < x.len() && k < y.len() && #[trigger] x[k] < y[k] && forall|j: int|
            0 <= j < k ==> x[j] == y[j];
    assert(s[lo + k] < t[lo + k]);
    assert forall|j: int| 0 <= j < lo + k implies s[j] == t[j] by {
        if j < lo {
            assert(s[j] == s.take(lo)[j]);
            assert(t[j] == t.take(lo)[j]);
        } else {
            assert(s[j] == x[j - lo]);
            assert(t[j] == y[j - lo]);
        }
    }
}

proof fn lemma_two_orders(a: u64, b: u64)
    requires
        a < b < 100,
    ensures
        lexically_before(two(a), two(b)),
{
    lemma_two(a);
    lemma_two(b);
    lemma_digit_char(a as int / 10);
    lemma_digit_char(a as int % 10);
    lemma_digit_char(b as int / 10);
    lemma_digit_char(b as int % 10);
    if a / 10 < b / 10 {
        assert(two(a)[0] < two(b)[0]);
    } else {
        assert(two(a)[1] < two(b)[1]);
    }
}

proof fn lemma_digits_split(n: int)
    requires
        0 <= n,
    ensures
        n / 100 == 10 * (n / 1000) + n / 100 % 10,
        n / 10 == 10 * (n / 100) + n / 10 % 10,
        n == 10 * (n / 10) + n % 10,
{
    assert(n / 100 / 10 == n / 1000);
    assert(n / 10 / 10 == n / 100);
}

proof fn lemma_four_orders(a: u64, b: u64)
    requires
        1000 <= a < b < 10_000,
    ensures
        lexically_before(four(a), four(b)),
{
    lemma_four(a);
    lemma_four(b);
    let (s, t) = (four(a), four(b));
    lemma_digits_split(a as int);
    lemma_digits_split(b as int);
    lemma_digit_char(a as int / 1000);
    lemma_digit_char(a as int / 100 % 10);
    lemma_digit_char(a as int / 10 % 10);
    lemma_digit_char(a as int % 10);
    lemma_digit_char(b as int / 1000);
    lemma_digit_char(b as int / 100 % 10);
    lemma_digit_char(b as int / 10 % 10);
    lemma_digit_char(b as int % 10);
    if a / 1000 < b / 1000 {
        assert(s[0] < t[0]);
    } else if a / 100 < b / 100 {
        assert(s[1] < t[1]);
    } else if a / 10 < b / 10 {
        assert(s[2] < t[2]);
    } else {
        assert(s[3] < t[3]);
    }
}

/// Stamps sort by time: of two moments the earlier one has the lexically smaller
/// stamp. Said of the years that have four digits.
pub proof fn law_stamps_sort_chronologically(a: Civil, b: Civil)
    requires
        a.valid(),
        b.valid(),
        a.year < 10_000,
        b.year < 10_000,
        a.seconds() < b.seconds(),
    ensures
        lexically_before(stamp_of(a), stamp_of(b)),
{
    if !earlier(a, b) {
        if earlier(b, a) {
            lemma_civil_orders(b, a);
        } else {
            assert(a == b);
        }
    }
    lemma_stamp_parts(a);
    lemma_stamp_parts(b);
    let (s, t) = (stamp_of(a), stamp_of(b));
    assert(s.take(0) =~= t.take(0));
    if a.year < b.year {
        lemma_four_orders(a.year, b.year);
        lemma_part_decides(s, t, 0, 4);
    } else {
        lemma_take_more(s, t, 0, 4);
        if a.month < b.month {
            lemma_two_orders(a.month, b.month);
            lemma_part_decides(s, t, 4, 6);
        } else {
            lemma_take_more(s, t, 4, 6);
            if a.day < b.day {
                lemma_two_orders(a.day, b.day);
                lemma_part_decides(s, t, 6, 8);
            } else {
                lemma_take_more(s, t, 6, 8);
                assert(s.subrange(8, 9) =~= t.subrange(8, 9));
                lemma_take_more(s, t, 8, 9);
                if a.hour < b.hour {
                    lemma_two_orders(a.hour, b.hour);
                    lemma_part_decides(s, t, 9, 11);
                } else {
                    lemma_take_more(s, t, 9, 11);
                    if a.minute < b.minute {
                        lemma_two_orders(a.minute, b.minute);
                        lemma_part_decides(s, t, 11, 13);
                    } else {
                        lemma_take_more(s, t, 11, 13);
                        lemma_two_orders(a.second, b.second);
                        lemma_part_decides(s, t, 13, 15);
                    }
                }
            }
        }
    }
}

/// Two texts that agree up to a part and in it agree behind it.
proof fn lemma_take_more(s: Seq<char>, t: Seq<char>, lo: int, hi: int)
    requires
        s.len() == t.len(),
        0 <= lo <= hi <= s.len(),
        s.take(lo) == t.take(lo),
        s.subrange(lo, hi) == t.subrange(lo, hi),
    ensures
        s.take(hi) == t.take(hi),
{
    assert(s.take(hi) =~= s.take(lo) + s.subrange(lo, hi));
    assert(t.take(hi) =~= t.take(lo) + t.subrange(lo, hi));
}

// ── Uptime ───────────────────────────────────────────────────────────────

/// How long a machine has been up: days and hours, hours and minutes, or minutes.
pub open spec fn uptime_text(secs: u64) -> Seq<char> {
    let d = secs as nat / 86_400;
    let h = (secs as nat % 86_400) / 3600;
    let m = (secs as nat % 3600) / 60;
    if d > 0 {
        "up "@ + dec(d) + " d "@ + dec(h) + " h"@
    } else if h > 0 {
        "up "@ + dec(h) + " h "@ + dec(m) + " m"@
    } else {
        "up "@ + dec(m) + " m"@
    }
}

/// `up 3 d 4 h`, `up 4 h 12 m`, `up 12 m`.
pub fn human_uptime(secs: u64) -> (r: String)
    ensures
        r@ == uptime_text(secs),
{
    let d: u64 = secs / 86_400;
    let h: u64 = (secs % 86_400) / 3600;
    let m: u64 = (secs % 3600) / 60;
    let mut out: String = "up ".to_owned();
    if d > 0 {
        push_dec(&mut out, d);
        out.append(" d ");
        push_dec(&mut out, h);
        out.append(" h");
    } else if h > 0 {
        push_dec(&mut out, h);
        out.append(" h ");
        push_dec(&mut out, m);
        out.append(" m");
    } else {
        push_dec(&mut out, m);
        out.append(" m");
    }
    out
}

/// The moment of the start of a machine that has been up for some time; a clock
/// that was set back cannot make it negative.
pub open spec fn boot_moment(now: u64, up: u64) -> u64 {
    if now >= up {
        (now - up) as u64
    } else {
        0
    }
}

/// The value of the row that says when the machine started.
pub fn booted_text(now_secs: u64, up: u64) -> (r: String)
    ensures
        r@ == human_of(civil_of(boot_moment(now_secs, up))) + " ("@ + uptime_text(up) + ")"@,
{
    let at: u64 = if now_secs >= up {
        now_secs - up
    } else {
        0
    };
    let mut out: String = stamp_human(at);
    out.append(" (");
    let u = human_uptime(up);
    out.append(u.as_str());
    out.append(")");
    out
}

} // verus!
