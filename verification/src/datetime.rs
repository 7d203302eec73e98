//! Civil UTC timestamps with millisecond precision.
//!
//! A timestamp is held as its calendar parts; the epoch arithmetic (days,
//! minutes, seconds and milliseconds since 1970-01-01T00:00:00Z, proleptic
//! Gregorian calendar) and the two textual forms (`YYYY-MM-DDTHH:MM:SS`,
//! with an optional `.mmm` fraction) are specified and proved here.

use vstd::prelude::*;

use crate::text::{
    digit_of, digit_val, four_digits, is_digit, push_four_digits, push_three_digits,
    push_two_digits, spec_digit_char, three_digits, two_digits,
};

verus! {

#[derive(Clone, Copy, Debug, PartialEq, Eq, Structural)]
pub struct DateTime {
    pub year: u16,
    pub month: u8,
    pub day: u8,
    pub hour: u8,
    pub minute: u8,
    pub second: u8,
    pub milli: u16,
}

pub open spec fn is_leap_year(y: int) -> bool {
    y % 4 == 0 && (y % 100 != 0 || y % 400 == 0)
}

pub open spec fn days_in_month(y: int, m: int) -> int {
    if m == 2 {
        if is_leap_year(y) {
            29
        } else {
            28
        }
    } else if m == 4 || m == 6 || m == 9 || m == 11 {
        30
    } else {
        31
    }
}

pub open spec fn days_before_month(y: int, m: int) -> int {
    let leap: int = if is_leap_year(y) {
        1
    } else {
        0
    };
    if m == 1 {
        0
    } else if m == 2 {
        31
    } else if m == 3 {
        59 + leap
    } else if m == 4 {
        90 + leap
    } else if m == 5 {
        120 + leap
    } else if m == 6 {
        151 + leap
    } else if m == 7 {
        181 + leap
    } else if m == 8 {
        212 + leap
    } else if m == 9 {
        243 + leap
    } else if m == 10 {
        273 + leap
    } else if m == 11 {
        304 + leap
    } else {
        334 + leap
    }
}

pub open spec fn leap_years_before(y: int) -> int {
    if y <= 0 {
        0
    } else {
        1 + (y - 1) / 4 - (y - 1) / 100 + (y - 1) / 400
    }
}

pub open spec fn days_before_year(y: int) -> int {
    365 * y + leap_years_before(y)
}

/// Days from 1970-01-01 to the given civil date (negative for earlier dates).
pub open spec fn spec_days_from_civil(y: int, m: int, d: int) -> int {
    days_before_year(y) + days_before_month(y, m) + (d - 1) - 719528
}

impl DateTime {
    pub open spec fn wf(self) -> bool {
        &&& self.year <= 9999
        &&& 1 <= self.month <= 12
        &&& 1 <= self.day <= days_in_month(self.year as int, self.month as int)
        &&& self.hour < 24
        &&& self.minute < 60
        &&& self.second < 60
        &&& self.milli < 1000
    }

    pub open spec fn spec_days(self) -> int {
        spec_days_from_civil(self.year as int, self.month as int, self.day as int)
    }

    pub open spec fn spec_minutes(self) -> int {
        self.spec_days() * 1440 + self.hour * 60 + self.minute
    }

    pub open spec fn spec_secs(self) -> int {
        self.spec_minutes() * 60 + self.second
    }

    pub open spec fn spec_millis(self) -> int {
        self.spec_secs() * 1000 + self.milli
    }
}

pub fn leap_year(y: u16) -> (r: bool)
    ensures
        r == is_leap_year(y as int),
{
    y % 4 == 0 && (y % 100 != 0 || y % 400 == 0)
}

pub fn month_days(y: u16, m: u8) -> (r: u8)
    requires
        1 <= m <= 12,
    ensures
        r == days_in_month(y as int, m as int),
{
    if m == 2 {
        if leap_year(y) {
            29
        } else {
            28
        }
    } else if m == 4 || m == 6 || m == 9 || m == 11 {
        30
    } else {
        31
    }
}

fn month_offset(y: u16, m: u8) -> (r: u16)
    requires
        1 <= m <= 12,
    ensures
        r == days_before_month(y as int, m as int),
{
    let leap: u16 = if leap_year(y) {
        1
    } else {
        0
    };
    if m == 1 {
        0
    } else if m == 2 {
        31
    } else if m == 3 {
        59 + leap
    } else if m == 4 {
        90 + leap
    } else if m == 5 {
        120 + leap
    } else if m == 6 {
        151 + leap
    } else if m == 7 {
        181 + leap
    } else if m == 8 {
        212 + leap
    } else if m == 9 {
        243 + leap
    } else if m == 10 {
        273 + leap
    } else if m == 11 {
        304 + leap
    } else {
        334 + leap
    }
}

fn year_offset(y: u16) -> (r: u32)
    requires
        y <= 9999,
    ensures
        r == days_before_year(y as int),
{
    let leaps: u32 = if y == 0 {
        0
    } else {
        let p = (y - 1) as u32;
        proof {
            vstd::arithmetic::div_mod::lemma_div_is_ordered_by_denominator(p as int, 4, 100);
        }
        1 + p / 4 - p / 100 + p / 400
    };
    365 * (y as u32) + leaps
}

impl DateTime {
    /// Days since the epoch.
    pub fn epoch_days(&self) -> (r: i64)
        requires
            self.wf(),
        ensures
            r == self.spec_days(),
    {
        let dby = year_offset(self.year);
        let dbm = month_offset(self.year, self.month);
        dby as i64 + dbm as i64 + (self.day as i64 - 1) - 719528
    }

    /// Minutes since the epoch.
    pub fn total_minutes(&self) -> (r: i64)
        requires
            self.wf(),
        ensures
            r == self.spec_minutes(),
    {
        self.epoch_days() * 1440 + self.hour as i64 * 60 + self.minute as i64
    }

    /// Seconds since the epoch.
    pub fn timestamp_secs(&self) -> (r: i64)
        requires
            self.wf(),
        ensures
            r == self.spec_secs(),
    {
        self.total_minutes() * 60 + self.second as i64
    }

    /// Milliseconds since the epoch.
    pub fn timestamp_millis(&self) -> (r: i64)
        requires
            self.wf(),
        ensures
            r == self.spec_millis(),
    {
        self.timestamp_secs() * 1000 + self.milli as i64
    }

    /// Strictly earlier in time.
    pub fn before(&self, other: &DateTime) -> (r: bool)
        requires
            self.wf(),
            other.wf(),
        ensures
            r == (self.spec_millis() < other.spec_millis()),
    {
        self.timestamp_millis() < other.timestamp_millis()
    }

    /// Not later in time.
    pub fn not_after(&self, other: &DateTime) -> (r: bool)
        requires
            self.wf(),
            other.wf(),
        ensures
            r == (self.spec_millis() <= other.spec_millis()),
    {
        self.timestamp_millis() <= other.timestamp_millis()
    }
}

proof fn lemma_div_step(n: int, d: int)
    requires
        n >= 1,
        d >= 1,
    ensures
        n / d == (n - 1) / d + if n % d == 0 {
            1int
        } else {
            0int
        },
{
    let q = (n - 1) / d;
    let r = (n - 1) % d;
    vstd::arithmetic::div_mod::lemma_fundamental_div_mod(n - 1, d);
    if r == d - 1 {
        assert(n == (q + 1) * d + 0) by (nonlinear_arith)
            requires
                n - 1 == q * d + d - 1,
        ;
        vstd::arithmetic::div_mod::lemma_fundamental_div_mod_converse(n, d, q + 1, 0);
    } else {
        vstd::arithmetic::div_mod::lemma_fundamental_div_mod_converse(n, d, q, r + 1);
    }
}

proof fn lemma_leap_count_step(y: int)
    requires
        0 <= y,
    ensures
        leap_years_before(y + 1) == leap_years_before(y) + if is_leap_year(y) {
            1int
        } else {
            0int
        },
{
    if y == 0 {
    } else {
        lemma_div_step(y, 4);
        lemma_div_step(y, 100);
        lemma_div_step(y, 400);
        assert(y % 100 == 0 ==> y % 4 == 0) by {
            vstd::arithmetic::div_mod::lemma_mod_mod(y, 4, 25);
        }
        assert(y % 400 == 0 ==> y % 100 == 0) by {
            vstd::arithmetic::div_mod::lemma_mod_mod(y, 100, 4);
        }
    }
}

proof fn lemma_year_step(y: int)
    requires
        0 <= y,
    ensures
        days_before_year(y + 1) == days_before_year(y) + 365 + if is_leap_year(y) {
            1int
        } else {
            0int
        },
{
    lemma_leap_count_step(y);
}

proof fn lemma_year_offset_le(a: int, b: int)
    requires
        0 <= a <= b,
    ensures
        days_before_year(a) <= days_before_year(b),
    decreases b - a,
{
    if a < b {
        lemma_year_step(a);
        lemma_year_offset_le(a + 1, b);
    }
}

impl DateTime {
    /// The latest timestamp the calendar model covers.
    pub open spec fn spec_last() -> DateTime {
        DateTime { year: 9999, month: 12, day: 31, hour: 23, minute: 59, second: 59, milli: 999 }
    }
}

/// Nothing well formed lies past the last minute of the model.
pub proof fn lemma_minutes_bound(dt: DateTime)
    requires
        dt.wf(),
    ensures
        dt.spec_minutes() <= DateTime::spec_last().spec_minutes(),
{
    let y = dt.year as int;
    let leap: int = if is_leap_year(y) {
        1
    } else {
        0
    };
    assert(days_before_month(y, dt.month as int) + (dt.day - 1) <= 364 + leap);
    if y < 9999 {
        lemma_year_step(y);
        lemma_year_offset_le(y + 1, 9999);
        assert(dt.spec_days() <= days_before_year(9999) - 719528 - 1);
    } else {
        assert(!is_leap_year(9999)) by {
            assert(9999int % 4 == 3);
        }
        assert(dt.spec_days() <= days_before_year(9999) + 364 - 719528);
    }
    assert(DateTime::spec_last().spec_days() == days_before_year(9999) + 364 - 719528);
}

/// The start of the next minute, by calendar fields.
#[verifier::opaque]
pub open spec fn spec_succ_minute(dt: DateTime) -> DateTime {
    if dt.minute < 59 {
        DateTime { minute: (dt.minute + 1) as u8, ..dt }
    } else if dt.hour < 23 {
        DateTime { hour: (dt.hour + 1) as u8, minute: 0, ..dt }
    } else if dt.day < days_in_month(dt.year as int, dt.month as int) {
        DateTime { day: (dt.day + 1) as u8, hour: 0, minute: 0, ..dt }
    } else if dt.month < 12 {
        DateTime { month: (dt.month + 1) as u8, day: 1, hour: 0, minute: 0, ..dt }
    } else {
        DateTime { year: (dt.year + 1) as u16, month: 1, day: 1, hour: 0, minute: 0, ..dt }
    }
}

impl DateTime {
    /// The start of the next minute; seconds and milliseconds ride along.
    pub fn succ_minute(&self) -> (r: DateTime)
        requires
            self.wf(),
            self.spec_minutes() < DateTime::spec_last().spec_minutes(),
        ensures
            r == spec_succ_minute(*self),
            r.wf(),
            r.spec_minutes() == self.spec_minutes() + 1,
            r.second == self.second,
            r.milli == self.milli,
    {
        proof {
            reveal(spec_succ_minute);
        }
        let mut r = *self;
        if self.minute < 59 {
            r.minute = self.minute + 1;
        } else {
            r.minute = 0;
            if self.hour < 23 {
                r.hour = self.hour + 1;
            } else {
                r.hour = 0;
                let dim = month_days(self.year, self.month);
                if self.day < dim {
                    r.day = self.day + 1;
                } else {
                    r.day = 1;
                    if self.month < 12 {
                        r.month = self.month + 1;
                        assert(days_before_month(self.year as int, self.month + 1) ==
                            days_before_month(self.year as int, self.month as int) + days_in_month(
                            self.year as int,
                            self.month as int,
                        ));
                    } else {
                        r.month = 1;
                        if self.year == 9999 {
                            proof {
                                lemma_minutes_bound(*self);
                                assert(!is_leap_year(9999)) by {
                                    assert(9999int % 4 == 3);
                                }
                                assert(self.spec_minutes()
                                    >= DateTime::spec_last().spec_minutes());
                                assert(false);
                            }
                        }
                        r.year = self.year + 1;
                        proof {
                            lemma_year_step(self.year as int);
                        }
                    }
                }
            }
        }
        r
    }
}

/// `YYYY-MM-DDTHH:MM:SS`, the second-precision form; the fraction is dropped.
pub open spec fn render_seconds(dt: DateTime) -> Seq<char> {
    let y = dt.year as int;
    let mo = dt.month as int;
    let d = dt.day as int;
    let h = dt.hour as int;
    let mi = dt.minute as int;
    let s = dt.second as int;
    seq![
        spec_digit_char(y / 1000),
        spec_digit_char(y / 100 % 10),
        spec_digit_char(y / 10 % 10),
        spec_digit_char(y % 10),
        '-',
        spec_digit_char(mo / 10),
        spec_digit_char(mo % 10),
        '-',
        spec_digit_char(d / 10),
        spec_digit_char(d % 10),
        'T',
        spec_digit_char(h / 10),
        spec_digit_char(h % 10),
        ':',
        spec_digit_char(mi / 10),
        spec_digit_char(mi % 10),
        ':',
        spec_digit_char(s / 10),
        spec_digit_char(s % 10),
    ]
}

/// `YYYY-MM-DDTHH:MM:SS.mmm`, the millisecond-precision form.
pub open spec fn render_millis(dt: DateTime) -> Seq<char> {
    render_seconds(dt) + seq![
        '.',
        spec_digit_char(dt.milli as int / 100),
        spec_digit_char(dt.milli as int / 10 % 10),
        spec_digit_char(dt.milli as int % 10),
    ]
}

/// The RFC 3339 form with milliseconds and a `Z` suffix.
pub open spec fn render_rfc3339(dt: DateTime) -> Seq<char> {
    render_millis(dt) + seq!['Z']
}

/// A string denotes `dt` in millisecond-or-second precision: either the bare
/// second form (then the fraction is zero) or the fractional form.
pub open spec fn is_millis_form(s: Seq<char>, dt: DateTime) -> bool {
    dt.wf() && ((s == render_seconds(dt) && dt.milli == 0) || s == render_millis(dt))
}

pub fn push_seconds(v: &mut Vec<char>, dt: &DateTime)
    requires
        dt.wf(),
    ensures
        final(v)@ == old(v)@ + render_seconds(*dt),
{
    push_four_digits(v, dt.year);
    v.push('-');
    push_two_digits(v, dt.month);
    v.push('-');
    push_two_digits(v, dt.day);
    v.push('T');
    push_two_digits(v, dt.hour);
    v.push(':');
    push_two_digits(v, dt.minute);
    v.push(':');
    push_two_digits(v, dt.second);
    assert(final(v)@ =~= old(v)@ + render_seconds(*dt));
}

pub fn push_millis(v: &mut Vec<char>, dt: &DateTime)
    requires
        dt.wf(),
    ensures
        final(v)@ == old(v)@ + render_millis(*dt),
{
    push_seconds(v, dt);
    v.push('.');
    push_three_digits(v, dt.milli);
    assert(final(v)@ =~= old(v)@ + render_millis(*dt));
}

pub fn push_rfc3339(v: &mut Vec<char>, dt: &DateTime)
    requires
        dt.wf(),
    ensures
        final(v)@ == old(v)@ + render_rfc3339(*dt),
{
    push_millis(v, dt);
    v.push('Z');
    assert(final(v)@ =~= old(v)@ + render_rfc3339(*dt));
}

fn read_two(v: &Vec<char>, i: usize) -> (r: Option<u8>)
    requires
        i + 2 <= v@.len(),
        i + 2 <= usize::MAX,
    ensures
        match r {
            Some(n) => {
                &&& n < 100
                &&& is_digit(v@[i as int]) && is_digit(v@[i + 1])
                &&& n == digit_val(v@[i as int]) * 10 + digit_val(v@[i + 1])
                &&& v@.subrange(i as int, i + 2) == two_digits(n as int)
            },
            None => !(is_digit(v@[i as int]) && is_digit(v@[i + 1])),
        },
{
    let d0 = match digit_of(v[i]) {
        Some(d) => d,
        None => {
            return None;
        },
    };
    let d1 = match digit_of(v[i + 1]) {
        Some(d) => d,
        None => {
            return None;
        },
    };
    let n = d0 * 10 + d1;
    proof {
        vstd::arithmetic::div_mod::lemma_fundamental_div_mod_converse(n as int, 10, d0 as int, d1 as int);
        crate::text::lemma_digit_char_roundtrip(v@[i as int]);
        crate::text::lemma_digit_char_roundtrip(v@[i + 1]);
        assert(v@.subrange(i as int, i + 2) =~= two_digits(n as int));
    }
    Some(n)
}

fn read_three(v: &Vec<char>, i: usize) -> (r: Option<u16>)
    requires
        i + 3 <= v@.len(),
        i + 3 <= usize::MAX,
    ensures
        match r {
            Some(n) => {
                &&& n < 1000
                &&& v@.subrange(i as int, i + 3) == three_digits(n as int)
            },
            None => !(is_digit(v@[i as int]) && is_digit(v@[i + 1]) && is_digit(v@[i + 2])),
        },
{
    let d0 = match digit_of(v[i]) {
        Some(d) => d,
        None => {
            return None;
        },
    };
    let d1 = match digit_of(v[i + 1]) {
        Some(d) => d,
        None => {
            return None;
        },
    };
    let d2 = match digit_of(v[i + 2]) {
        Some(d) => d,
        None => {
            return None;
        },
    };
    let n: u16 = d0 as u16 * 100 + d1 as u16 * 10 + d2 as u16;
    proof {
        vstd::arithmetic::div_mod::lemma_fundamental_div_mod_converse(
            n as int,
            100,
            d0 as int,
            d1 as int * 10 + d2,
        );
        vstd::arithmetic::div_mod::lemma_fundamental_div_mod_converse(
            n as int,
            10,
            d0 as int * 10 + d1,
            d2 as int,
        );
        vstd::arithmetic::div_mod::lemma_fundamental_div_mod_converse(
            d0 as int * 10 + d1,
            10,
            d0 as int,
            d1 as int,
        );
        crate::text::lemma_digit_char_roundtrip(v@[i as int]);
        crate::text::lemma_digit_char_roundtrip(v@[i + 1]);
        crate::text::lemma_digit_char_roundtrip(v@[i + 2]);
        assert(v@.subrange(i as int, i + 3) =~= three_digits(n as int));
    }
    Some(n)
}

fn read_four(v: &Vec<char>, i: usize) -> (r: Option<u16>)
    requires
        i + 4 <= v@.len(),
        i + 4 <= usize::MAX,
    ensures
        match r {
            Some(n) => {
                &&& n < 10000
                &&& v@.subrange(i as int, i + 4) == four_digits(n as int)
            },
            None => !(is_digit(v@[i as int]) && is_digit(v@[i + 1]) && is_digit(v@[i + 2])
                && is_digit(v@[i + 3])),
        },
{
    let d0 = match digit_of(v[i]) {
        Some(d) => d,
        None => {
            return None;
        },
    };
    let d1 = match digit_of(v[i + 1]) {
        Some(d) => d,
        None => {
            return None;
        },
    };
    let d2 = match digit_of(v[i + 2]) {
        Some(d) => d,
        None => {
            return None;
        },
    };
    let d3 = match digit_of(v[i + 3]) {
        Some(d) => d,
        None => {
            return None;
        },
    };
    let n: u16 = d0 as u16 * 1000 + d1 as u16 * 100 + d2 as u16 * 10 + d3 as u16;
    proof {
        vstd::arithmetic::div_mod::lemma_fundamental_div_mod_converse(
            n as int,
            1000,
            d0 as int,
            d1 as int * 100 + d2 as int * 10 + d3,
        );
        vstd::arithmetic::div_mod::lemma_fundamental_div_mod_converse(
            n as int,
            100,
            d0 as int * 10 + d1,
            d2 as int * 10 + d3,
        );
        vstd::arithmetic::div_mod::lemma_fundamental_div_mod_converse(
            d0 as int * 10 + d1,
            10,
            d0 as int,
            d1 as int,
        );
        vstd::arithmetic::div_mod::lemma_fundamental_div_mod_converse(
            n as int,
            10,
            d0 as int * 100 + d1 as int * 10 + d2,
            d3 as int,
        );
        crate::text::lemma_digit_char_roundtrip(v@[i as int]);
        crate::text::lemma_digit_char_roundtrip(v@[i + 1]);
        crate::text::lemma_digit_char_roundtrip(v@[i + 2]);
        crate::text::lemma_digit_char_roundtrip(v@[i + 3]);
        assert(v@.subrange(i as int, i + 4) =~= four_digits(n as int));
    }
    Some(n)
}

/// Character shape of the second-precision rendering.
proof fn lemma_render_seconds_chars(dt: DateTime, s: Seq<char>)
    requires
        s == render_seconds(dt),
    ensures
        s.len() == 19,
        is_digit(s[0]) && is_digit(s[1]) && is_digit(s[2]) && is_digit(s[3]),
        s[4] == '-',
        is_digit(s[5]) && is_digit(s[6]),
        s[7] == '-',
        is_digit(s[8]) && is_digit(s[9]),
        s[10] == 'T',
        is_digit(s[11]) && is_digit(s[12]),
        s[13] == ':',
        is_digit(s[14]) && is_digit(s[15]),
        s[16] == ':',
        is_digit(s[17]) && is_digit(s[18]),
{
}

/// A string with the right pieces is the second-precision rendering.
proof fn lemma_seconds_assemble(dt: DateTime, s: Seq<char>)
    requires
        s.len() == 19,
        s.subrange(0, 4) == four_digits(dt.year as int),
        s[4] == '-',
        s.subrange(5, 7) == two_digits(dt.month as int),
        s[7] == '-',
        s.subrange(8, 10) == two_digits(dt.day as int),
        s[10] == 'T',
        s.subrange(11, 13) == two_digits(dt.hour as int),
        s[13] == ':',
        s.subrange(14, 16) == two_digits(dt.minute as int),
        s[16] == ':',
        s.subrange(17, 19) == two_digits(dt.second as int),
    ensures
        s == render_seconds(dt),
{
    assert(s =~= render_seconds(dt));
}

/// Two timestamps with equal renderings have equal fields.
proof fn lemma_render_seconds_inj(a: DateTime, b: DateTime)
    requires
        render_seconds(a) == render_seconds(b),
        a.year <= 9999 && b.year <= 9999,
        a.month < 100 && b.month < 100,
        a.day < 100 && b.day < 100,
        a.hour < 100 && b.hour < 100,
        a.minute < 100 && b.minute < 100,
        a.second < 100 && b.second < 100,
    ensures
        a.year == b.year && a.month == b.month && a.day == b.day && a.hour == b.hour && a.minute
            == b.minute && a.second == b.second,
{
    let sa = render_seconds(a);
    let sb = render_seconds(b);
    assert(four_digits(a.year as int) =~= four_digits(b.year as int)) by {
        assert(sa[0] == sb[0] && sa[1] == sb[1] && sa[2] == sb[2] && sa[3] == sb[3]);
    }
    crate::text::lemma_four_digits_inj(a.year as int, b.year as int);
    assert(two_digits(a.month as int) =~= two_digits(b.month as int)) by {
        assert(sa[5] == sb[5] && sa[6] == sb[6]);
    }
    crate::text::lemma_two_digits_inj(a.month as int, b.month as int);
    assert(two_digits(a.day as int) =~= two_digits(b.day as int)) by {
        assert(sa[8] == sb[8] && sa[9] == sb[9]);
    }
    crate::text::lemma_two_digits_inj(a.day as int, b.day as int);
    assert(two_digits(a.hour as int) =~= two_digits(b.hour as int)) by {
        assert(sa[11] == sb[11] && sa[12] == sb[12]);
    }
    crate::text::lemma_two_digits_inj(a.hour as int, b.hour as int);
    assert(two_digits(a.minute as int) =~= two_digits(b.minute as int)) by {
        assert(sa[14] == sb[14] && sa[15] == sb[15]);
    }
    crate::text::lemma_two_digits_inj(a.minute as int, b.minute as int);
    assert(two_digits(a.second as int) =~= two_digits(b.second as int)) by {
        assert(sa[17] == sb[17] && sa[18] == sb[18]);
    }
    crate::text::lemma_two_digits_inj(a.second as int, b.second as int);
}

/// One string is the second-precision rendering of at most one timestamp
/// with no fraction.
pub proof fn lemma_render_seconds_unique(s: Seq<char>, a: DateTime, b: DateTime)
    requires
        a.wf() && a.milli == 0,
        b.wf() && b.milli == 0,
        s == render_seconds(a),
        s == render_seconds(b),
    ensures
        a == b,
{
    lemma_render_seconds_inj(a, b);
}

/// One string denotes at most one timestamp in millisecond-or-second form.
#[verifier::rlimit(100)]
#[verifier::spinoff_prover]
pub proof fn lemma_millis_form_unique(s: Seq<char>, a: DateTime, b: DateTime)
    requires
        is_millis_form(s, a),
        is_millis_form(s, b),
    ensures
        a == b,
{
    if s == render_seconds(a) && s == render_seconds(b) {
        lemma_render_seconds_inj(a, b);
    } else if s == render_millis(a) && s == render_millis(b) {
        assert(render_seconds(a) =~= render_seconds(b)) by {
            assert(forall|i: int|
                0 <= i < 19 ==> render_millis(a)[i] == #[trigger] render_seconds(a)[i]);
            assert(forall|i: int|
                0 <= i < 19 ==> render_millis(b)[i] == #[trigger] render_seconds(b)[i]);
        }
        lemma_render_seconds_inj(a, b);
        assert(three_digits(a.milli as int) =~= three_digits(b.milli as int)) by {
            assert(s[20] == three_digits(a.milli as int)[0]);
            assert(s[21] == three_digits(a.milli as int)[1]);
            assert(s[22] == three_digits(a.milli as int)[2]);
            assert(s[20] == three_digits(b.milli as int)[0]);
            assert(s[21] == three_digits(b.milli as int)[1]);
            assert(s[22] == three_digits(b.milli as int)[2]);
        }
        crate::text::lemma_three_digits_inj(a.milli as int, b.milli as int);
    } else {
        assert(render_seconds(a).len() == 19 && render_seconds(b).len() == 19);
        assert(render_millis(a).len() == 23 && render_millis(b).len() == 23);
        assert(false);
    }
}

/// One string is the RFC 3339 rendering of at most one timestamp.
pub proof fn lemma_render_rfc3339_unique(a: DateTime, b: DateTime)
    requires
        a.wf(),
        b.wf(),
        render_rfc3339(a) == render_rfc3339(b),
    ensures
        a == b,
{
    assert(render_millis(a) =~= render_millis(b)) by {
        assert(forall|i: int|
            0 <= i < 23 ==> render_rfc3339(a)[i] == #[trigger] render_millis(a)[i]);
        assert(forall|i: int|
            0 <= i < 23 ==> render_rfc3339(b)[i] == #[trigger] render_millis(b)[i]);
    }
    lemma_millis_form_unique(render_millis(a), a, b);
}

/// Reads the second-precision form from `v[start..end]`; fails exactly when
/// the region is not the rendering of a well-formed timestamp.
pub fn parse_seconds_region(v: &Vec<char>, start: usize, end: usize) -> (r: Option<DateTime>)
    requires
        start <= end <= v@.len(),
    ensures
        match r {
            Some(dt) => dt.wf() && dt.milli == 0 && v@.subrange(start as int, end as int)
                == render_seconds(dt),
            None => forall|dt: DateTime|
                dt.wf() ==> v@.subrange(start as int, end as int) != render_seconds(dt),
        },
{
    let ghost sub = v@.subrange(start as int, end as int);
    if end - start != 19 {
        proof {
            assert forall|dt: DateTime| dt.wf() implies sub != render_seconds(dt) by {
                if sub == render_seconds(dt) {
                    lemma_render_seconds_chars(dt, sub);
                }
            }
        }
        return None;
    }
    let y = match read_four(v, start) {
        Some(y) => y,
        None => {
            proof {
                assert forall|dt: DateTime| dt.wf() implies sub != render_seconds(dt) by {
                    if sub == render_seconds(dt) {
                        lemma_render_seconds_chars(dt, sub);
                        assert(v@[start as int] == sub[0]);
                        assert(v@[start + 1] == sub[1]);
                        assert(v@[start + 2] == sub[2]);
                        assert(v@[start + 3] == sub[3]);
                    }
                }
            }
            return None;
        },
    };
    if !(sep_at(v, start + 4, '-')) {
        proof {
            assert forall|dt: DateTime| dt.wf() implies sub != render_seconds(dt) by {
                if sub == render_seconds(dt) {
                    lemma_render_seconds_chars(dt, sub);
                    assert(v@[start + 4] == sub[4]);
                }
            }
        }
        return None;
    }
    let mo = match read_two(v, start + 5) {
        Some(mo) => mo,
        None => {
            proof {
                assert forall|dt: DateTime| dt.wf() implies sub != render_seconds(dt) by {
                    if sub == render_seconds(dt) {
                        lemma_render_seconds_chars(dt, sub);
                        assert(v@[start + 5] == sub[5]);
                        assert(v@[start + 6] == sub[6]);
                    }
                }
            }
            return None;
        },
    };
    if !(sep_at(v, start + 7, '-')) {
        proof {
            assert forall|dt: DateTime| dt.wf() implies sub != render_seconds(dt) by {
                if sub == render_seconds(dt) {
                    lemma_render_seconds_chars(dt, sub);
                    assert(v@[start + 7] == sub[7]);
                }
            }
        }
        return None;
    }
    let d = match read_two(v, start + 8) {
        Some(d) => d,
        None => {
            proof {
                assert forall|dt: DateTime| dt.wf() implies sub != render_seconds(dt) by {
                    if sub == render_seconds(dt) {
                        lemma_render_seconds_chars(dt, sub);
                        assert(v@[start + 8] == sub[8]);
                        assert(v@[start + 9] == sub[9]);
                    }
                }
            }
            return None;
        },
    };
    if !(sep_at(v, start + 10, 'T')) {
        proof {
            assert forall|dt: DateTime| dt.wf() implies sub != render_seconds(dt) by {
                if sub == render_seconds(dt) {
                    lemma_render_seconds_chars(dt, sub);
                    assert(v@[start + 10] == sub[10]);
                }
            }
        }
        return None;
    }
    let h = match read_two(v, start + 11) {
        Some(h) => h,
        None => {
            proof {
                assert forall|dt: DateTime| dt.wf() implies sub != render_seconds(dt) by {
                    if sub == render_seconds(dt) {
                        lemma_render_seconds_chars(dt, sub);
                        assert(v@[start + 11] == sub[11]);
                        assert(v@[start + 12] == sub[12]);
                    }
                }
            }
            return None;
        },
    };
    if !(sep_at(v, start + 13, ':')) {
        proof {
            assert forall|dt: DateTime| dt.wf() implies sub != render_seconds(dt) by {
                if sub == render_seconds(dt) {
                    lemma_render_seconds_chars(dt, sub);
                    assert(v@[start + 13] == sub[13]);
                }
            }
        }
        return None;
    }
    let mi = match read_two(v, start + 14) {
        Some(mi) => mi,
        None => {
            proof {
                assert forall|dt: DateTime| dt.wf() implies sub != render_seconds(dt) by {
                    if sub == render_seconds(dt) {
                        lemma_render_seconds_chars(dt, sub);
                        assert(v@[start + 14] == sub[14]);
                        assert(v@[start + 15] == sub[15]);
                    }
                }
            }
            return None;
        },
    };
    if !(sep_at(v, start + 16, ':')) {
        proof {
            assert forall|dt: DateTime| dt.wf() implies sub != render_seconds(dt) by {
                if sub == render_seconds(dt) {
                    lemma_render_seconds_chars(dt, sub);
                    assert(v@[start + 16] == sub[16]);
                }
            }
        }
        return None;
    }
    let s = match read_two(v, start + 17) {
        Some(s) => s,
        None => {
            proof {
                assert forall|dt: DateTime| dt.wf() implies sub != render_seconds(dt) by {
                    if sub == render_seconds(dt) {
                        lemma_render_seconds_chars(dt, sub);
                        assert(v@[start + 17] == sub[17]);
                        assert(v@[start + 18] == sub[18]);
                    }
                }
            }
            return None;
        },
    };
    let ghost cand = DateTime { year: y, month: mo, day: d, hour: h, minute: mi, second: s, milli: 0 };
    proof {
        assert(sub.subrange(0, 4) =~= v@.subrange(start as int, start + 4));
        assert(sub.subrange(5, 7) =~= v@.subrange(start + 5, start + 7));
        assert(sub.subrange(8, 10) =~= v@.subrange(start + 8, start + 10));
        assert(sub.subrange(11, 13) =~= v@.subrange(start + 11, start + 13));
        assert(sub.subrange(14, 16) =~= v@.subrange(start + 14, start + 16));
        assert(sub.subrange(17, 19) =~= v@.subrange(start + 17, start + 19));
        assert(sub[4] == v@[start + 4] && sub[7] == v@[start + 7] && sub[10] == v@[start + 10]
            && sub[13] == v@[start + 13] && sub[16] == v@[start + 16]);
        lemma_seconds_assemble(cand, sub);
    }
    if !(1 <= mo && mo <= 12) {
        proof {
            assert forall|dt: DateTime| dt.wf() implies sub != render_seconds(dt) by {
                if sub == render_seconds(dt) {
                    lemma_render_seconds_inj(dt, cand);
                }
            }
        }
        return None;
    }
    if !(1 <= d && d <= month_days(y, mo)) {
        proof {
            assert forall|dt: DateTime| dt.wf() implies sub != render_seconds(dt) by {
                if sub == render_seconds(dt) {
                    lemma_render_seconds_inj(dt, cand);
                }
            }
        }
        return None;
    }
    if !(h <= 23 && mi <= 59 && s <= 59) {
        proof {
            assert forall|dt: DateTime| dt.wf() implies sub != render_seconds(dt) by {
                if sub == render_seconds(dt) {
                    lemma_render_seconds_inj(dt, cand);
                }
            }
        }
        return None;
    }
    let dt = DateTime { year: y, month: mo, day: d, hour: h, minute: mi, second: s, milli: 0 };
    Some(dt)
}

/// Reads a whole string in the second-precision form.
pub fn parse_seconds_str(s: &str) -> (r: Option<DateTime>)
    ensures
        match r {
            Some(dt) => dt.wf() && dt.milli == 0 && s@ == render_seconds(dt),
            None => forall|dt: DateTime| dt.wf() ==> s@ != render_seconds(dt),
        },
{
    let v = crate::text::chars_of(s);
    let n = v.len();
    let r = parse_seconds_region(&v, 0, n);
    proof {
        assert(v@.subrange(0, n as int) =~= s@);
    }
    r
}

/// Reads a whole string in the millisecond-or-second form.
pub fn parse_millis_str(s: &str) -> (r: Option<DateTime>)
    ensures
        match r {
            Some(dt) => is_millis_form(s@, dt),
            None => forall|dt: DateTime| !is_millis_form(s@, dt),
        },
{
    let v = crate::text::chars_of(s);
    let n = v.len();
    let r = parse_millis_region(&v, 0, n);
    proof {
        assert(v@.subrange(0, n as int) =~= s@);
    }
    r
}

/// Reads a whole string in the RFC 3339 millisecond form.
pub fn parse_rfc3339_str(s: &str) -> (r: Option<DateTime>)
    ensures
        match r {
            Some(dt) => dt.wf() && s@ == render_rfc3339(dt),
            None => forall|dt: DateTime| dt.wf() ==> s@ != render_rfc3339(dt),
        },
{
    let v = crate::text::chars_of(s);
    let n = v.len();
    let r = parse_rfc3339_region(&v, 0, n);
    proof {
        assert(v@.subrange(0, n as int) =~= s@);
    }
    r
}

impl DateTime {
    /// The second-precision form, as a string.
    pub fn format_seconds(&self) -> (r: String)
        requires
            self.wf(),
        ensures
            r@ == render_seconds(*self),
    {
        let mut v: Vec<char> = Vec::new();
        push_seconds(&mut v, self);
        proof {
            assert(Seq::<char>::empty() + render_seconds(*self) =~= render_seconds(*self));
        }
        crate::text::string_from_chars(&v)
    }

    /// The RFC 3339 millisecond form, as a string.
    pub fn format_rfc3339(&self) -> (r: String)
        requires
            self.wf(),
        ensures
            r@ == render_rfc3339(*self),
    {
        let mut v: Vec<char> = Vec::new();
        push_rfc3339(&mut v, self);
        proof {
            assert(Seq::<char>::empty() + render_rfc3339(*self) =~= render_rfc3339(*self));
        }
        crate::text::string_from_chars(&v)
    }
}

fn sep_at(v: &Vec<char>, i: usize, c: char) -> (r: bool)
    requires
        i < v@.len(),
    ensures
        r == (v@[i as int] == c),
{
    v[i] == c
}

/// Reads the millisecond-or-second form from `v[start..end]`; fails exactly
/// when the region denotes no well-formed timestamp.
#[verifier::rlimit(100)]
#[verifier::spinoff_prover]
pub fn parse_millis_region(v: &Vec<char>, start: usize, end: usize) -> (r: Option<DateTime>)
    requires
        start <= end <= v@.len(),
    ensures
        match r {
            Some(dt) => is_millis_form(v@.subrange(start as int, end as int), dt),
            None => forall|dt: DateTime|
                !is_millis_form(v@.subrange(start as int, end as int), dt),
        },
{
    let ghost sub = v@.subrange(start as int, end as int);
    let n = end - start;
    if n == 19 {
        match parse_seconds_region(v, start, end) {
            Some(dt) => Some(dt),
            None => {
                assert(forall|dt: DateTime| render_millis(dt).len() == 23);
                None
            },
        }
    } else if n == 23 {
        let base = match parse_seconds_region(v, start, start + 19) {
            Some(dt) => dt,
            None => {
                proof {
                    assert forall|dt: DateTime| !is_millis_form(sub, dt) by {
                        if sub == render_millis(dt) {
                            assert(v@.subrange(start as int, start + 19) =~= render_seconds(dt));
                        }
                    }
                }
                return None;
            },
        };
        if !(sep_at(v, start + 19, '.')) {
            proof {
                assert forall|dt: DateTime| !is_millis_form(sub, dt) by {
                    if sub == render_millis(dt) {
                        assert(v@[start + 19] == sub[19]);
                        assert(sub[19] == '.');
                    }
                }
            }
            return None;
        }
        let ms = match read_three(v, start + 20) {
            Some(ms) => ms,
            None => {
                proof {
                    assert forall|dt: DateTime| !is_millis_form(sub, dt) by {
                        if sub == render_millis(dt) {
                            assert(v@[start + 20] == sub[20]);
                            assert(v@[start + 21] == sub[21]);
                            assert(v@[start + 22] == sub[22]);
                        }
                    }
                }
                return None;
            },
        };
        let dt = DateTime {
            year: base.year,
            month: base.month,
            day: base.day,
            hour: base.hour,
            minute: base.minute,
            second: base.second,
            milli: ms,
        };
        proof {
            assert(render_seconds(dt) == render_seconds(base));
            assert(sub =~= render_millis(dt));
        }
        Some(dt)
    } else {
        assert(forall|dt: DateTime| render_seconds(dt).len() == 19);
        assert(forall|dt: DateTime| render_millis(dt).len() == 23);
        None
    }
}

/// Reads the RFC 3339 millisecond form with a `Z` suffix from `v[start..end]`;
/// fails exactly when the region is not that rendering.
pub fn parse_rfc3339_region(v: &Vec<char>, start: usize, end: usize) -> (r: Option<DateTime>)
    requires
        start <= end <= v@.len(),
    ensures
        match r {
            Some(dt) => dt.wf() && v@.subrange(start as int, end as int) == render_rfc3339(dt),
            None => forall|dt: DateTime|
                dt.wf() ==> v@.subrange(start as int, end as int) != render_rfc3339(dt),
        },
{
    let ghost sub = v@.subrange(start as int, end as int);
    if end - start != 24 {
        assert(forall|dt: DateTime| render_rfc3339(dt).len() == 24);
        return None;
    }
    if !(sep_at(v, end - 1, 'Z')) {
        proof {
            assert forall|dt: DateTime| dt.wf() implies sub != render_rfc3339(dt) by {
                if sub == render_rfc3339(dt) {
                    assert(v@[end - 1] == sub[23]);
                    assert(sub[23] == 'Z');
                }
            }
        }
        return None;
    }
    match parse_millis_region(v, start, end - 1) {
        Some(dt) => {
            let ghost body = v@.subrange(start as int, end - 1);
            if dt.milli == 0 {
                // The bare second form never spans 23 characters.
                proof {
                    if body == render_seconds(dt) {
                        assert(body.len() == 23);
                        assert(render_seconds(dt).len() == 19);
                    }
                    assert(body == render_millis(dt));
                    assert(sub =~= render_rfc3339(dt));
                }
                Some(dt)
            } else {
                proof {
                    assert(body == render_millis(dt));
                    assert(sub =~= render_rfc3339(dt));
                }
                Some(dt)
            }
        },
        None => {
            proof {
                assert forall|dt: DateTime| dt.wf() implies sub != render_rfc3339(dt) by {
                    if sub == render_rfc3339(dt) {
                        assert(v@.subrange(start as int, end - 1) =~= render_millis(dt));
                        assert(is_millis_form(v@.subrange(start as int, end - 1), dt));
                    }
                }
            }
            None
        },
    }
}

} // verus!
