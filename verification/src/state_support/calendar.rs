//! The Gregorian calendar and RFC 3339 time stamps.

use vstd::prelude::*;
use crate::digits::{decimal, is_digit, lemma_decimal, padded, push_padded};
use crate::text::{ascii_bytes, ascii_string, ascii_text};

verus! {

/// A leap year.
pub open spec fn leap(y: int) -> bool {
    (y % 4 == 0 && y % 100 != 0) || y % 400 == 0
}

/// The number of days in a month.
pub open spec fn month_len(y: int, m: int) -> int {
    if m == 2 {
        if leap(y) {
            29
        } else {
            28
        }
    } else if m == 4 || m == 6 || m == 9 || m == 11 {
        30
    } else {
        31
    }
}

/// A date of the calendar.
pub open spec fn valid_date(y: int, m: int, d: int) -> bool {
    1 <= m <= 12 && 1 <= d <= month_len(y, m)
}

/// The number of leap days in the years up to `y`.
pub open spec fn leap_days(y: int) -> int {
    y / 4 - y / 100 + y / 400
}

/// The number of days in a year before a month.
pub open spec fn days_before_month(y: int, m: int) -> int
    decreases m,
{
    if m <= 1 {
        0
    } else {
        days_before_month(y, m - 1) + month_len(y, m - 1)
    }
}

/// The number of days from 1970-01-01 to a date.
pub open spec fn day_number(y: int, m: int, d: int) -> int {
    365 * (y - 1970) + leap_days(y - 1) - leap_days(1969) + days_before_month(y, m) + d - 1
}

/// The date after a date.
pub open spec fn next_date(y: int, m: int, d: int) -> (int, int, int) {
    if d < month_len(y, m) {
        (y, m, d + 1)
    } else if m < 12 {
        (y, m + 1, 1)
    } else {
        (y + 1, 1, 1)
    }
}

proof fn lemma_months(y: int)
    ensures
        days_before_month(y, 1) == 0,
        days_before_month(y, 2) == 31,
        days_before_month(y, 3) == 31 + month_len(y, 2),
        days_before_month(y, 4) == 62 + month_len(y, 2),
        days_before_month(y, 5) == 92 + month_len(y, 2),
        days_before_month(y, 6) == 123 + month_len(y, 2),
        days_before_month(y, 7) == 153 + month_len(y, 2),
        days_before_month(y, 8) == 184 + month_len(y, 2),
        days_before_month(y, 9) == 215 + month_len(y, 2),
        days_before_month(y, 10) == 245 + month_len(y, 2),
        days_before_month(y, 11) == 276 + month_len(y, 2),
        days_before_month(y, 12) == 306 + month_len(y, 2),
{
    reveal_with_fuel(days_before_month, 13);
}

proof fn lemma_year_len(y: int)
    ensures
        leap_days(y) - leap_days(y - 1) == if leap(y) {
            1int
        } else {
            0int
        },
{
}

/// The date after a date is a date, and its number is one more.
pub proof fn lemma_next_date(y: int, m: int, d: int)
    requires
        valid_date(y, m, d),
    ensures
        ({
            let (ny, nm, nd) = next_date(y, m, d);
            valid_date(ny, nm, nd) && day_number(ny, nm, nd) == day_number(y, m, d) + 1
        }),
{
    lemma_months(y);
    lemma_months(y + 1);
    lemma_year_len(y);
}

proof fn lemma_years_apart(a: int, b: int)
    requires
        a < b,
    ensures
        365 * a + leap_days(a) <= 365 * b + leap_days(b - 1),
    decreases b - a,
{
    if a + 1 < b {
        lemma_years_apart(a, b - 1);
        lemma_year_len(b - 1);
    }
}

proof fn lemma_month_within(y: int, m: int, d: int)
    requires
        valid_date(y, m, d),
    ensures
        0 <= days_before_month(y, m) + d - 1 < 365 + if leap(y) {
            1int
        } else {
            0int
        },
{
    lemma_months(y);
}

proof fn lemma_months_apart(y: int, m: int, n: int)
    requires
        1 <= m < n <= 12,
    ensures
        days_before_month(y, m) + month_len(y, m) <= days_before_month(y, n),
    decreases n - m,
{
    if m + 1 < n {
        lemma_months_apart(y, m, n - 1);
    }
}

/// Dates with the same number are the same date.
pub proof fn lemma_day_number_unique(y: int, m: int, d: int, y2: int, m2: int, d2: int)
    requires
        valid_date(y, m, d),
        valid_date(y2, m2, d2),
        day_number(y, m, d) == day_number(y2, m2, d2),
    ensures
        y == y2 && m == m2 && d == d2,
{
    lemma_month_within(y, m, d);
    lemma_month_within(y2, m2, d2);
    lemma_year_len(y);
    lemma_year_len(y2);
    if y < y2 {
        lemma_years_apart(y, y2);
    } else if y2 < y {
        lemma_years_apart(y2, y);
    } else if m < m2 {
        lemma_months_apart(y, m, m2);
    } else if m2 < m {
        lemma_months_apart(y, m2, m);
    }
}

/// The years of a century counted from March, 1461 days in four of them.
proof fn lemma_year_in_century(l: int, i: int)
    requires
        0 <= l < 36525,
        i == 4000 * (l + 1) / 1_461_001,
    ensures
        0 <= i <= 99,
        1461 * i / 4 <= l,
        l < 1461 * (i + 1) / 4,
{
    assert(1_461_001 * i <= 4000 * (l + 1) < 1_461_001 * (i + 1));
    assert(i <= 99);
    let k = i / 4;
    let r = i % 4;
    assert(i == 4 * k + r);
    assert(1461 * i / 4 == 1461 * k + 1461 * r / 4) by {
        assert(1461 * i == 4 * (1461 * k) + 1461 * r);
    }
    assert(1461 * (i + 1) / 4 == 1461 * k + 1461 * (r + 1) / 4) by {
        assert(1461 * (i + 1) == 4 * (1461 * k) + 1461 * (r + 1));
    }
    assert(r == 0 || r == 1 || r == 2 || r == 3);
}

/// The months of a year counted from March.
proof fn lemma_month_in_year(l: int, j: int)
    requires
        31 <= l <= 396,
        j == 80 * l / 2447,
    ensures
        1 <= j <= 12,
        2447 * j / 80 < l <= 2447 * (j + 1) / 80 || (j == 12 && 367 < l <= 396),
{
    assert(2447 * j <= 80 * l < 2447 * (j + 1));
    if j == 1 {
    } else if j == 2 {
    } else if j == 3 {
    } else if j == 4 {
    } else if j == 5 {
    } else if j == 6 {
    } else if j == 7 {
    } else if j == 8 {
    } else if j == 9 {
    } else if j == 10 {
    } else if j == 11 {
    } else {
        assert(j == 12);
    }
}

/// The century, counted from March, that a shifted day falls into.
proof fn lemma_century(l: int, n: int)
    requires
        l >= 0,
        n == 4 * l / 146_097,
    ensures
        n >= 0,
        (146_097 * n + 3) / 4 <= l,
        l - (146_097 * n + 3) / 4 < 36524 + if n % 4 == 0 {
            1int
        } else {
            0int
        },
{
    assert(146_097 * n <= 4 * l < 146_097 * (n + 1));
    let k = n / 4;
    let r = n % 4;
    assert(n == 4 * k + r);
    assert((146_097 * n + 3) / 4 == 146_097 * k + (146_097 * r + 3) / 4) by {
        assert(146_097 * n + 3 == 4 * (146_097 * k) + (146_097 * r + 3));
    }
    assert(r == 0 || r == 1 || r == 2 || r == 3);
}

/// The number of the first of March of the year `100 * c + i`.
proof fn lemma_march_first(c: int, i: int, n: int)
    requires
        0 <= i <= 99,
        n == c + 49,
        n >= 0,
    ensures
        day_number(100 * c + i, 3, 1) == (146_097 * n + 3) / 4 + 1461 * i / 4 - 68_569 - 2_440_588,
{
    let y = 100 * c + i;
    lemma_months(y);
    lemma_year_len(y);
    let k = n / 4;
    let r = n % 4;
    assert(n == 4 * k + r);
    assert((146_097 * n + 3) / 4 == 146_097 * k + (146_097 * r + 3) / 4) by {
        assert(146_097 * n + 3 == 4 * (146_097 * k) + (146_097 * r + 3));
    }
    let a = i / 4;
    let b = i % 4;
    assert(i == 4 * a + b);
    assert(1461 * i / 4 == 1461 * a + 1461 * b / 4) by {
        assert(1461 * i == 4 * (1461 * a) + 1461 * b);
    }
    assert(y / 100 == c);
    assert(y / 4 == 25 * c + a);
    assert(y / 400 == c / 4) by {
        assert(c == 4 * (c / 4) + c % 4);
        assert(y == 400 * (c / 4) + (100 * (c % 4) + i));
    }
    assert(c / 4 == k - 13 + (if r == 0 { 0int } else { 1int })) by {
        assert(c == 4 * (k - 13) + (r + 3));
    }
    assert(leap_days(1969) == 477);
    assert(r == 0 || r == 1 || r == 2 || r == 3);
    assert(b == 0 || b == 1 || b == 2 || b == 3);
}

/// The length of the year from the first of March of `100 * c + i` on.
proof fn lemma_march_year_len(c: int, i: int, n: int, l: int)
    requires
        0 <= i <= 99,
        n == c + 49,
        n >= 0,
        1461 * i / 4 <= l < 1461 * (i + 1) / 4,
        l < 36524 + if n % 4 == 0 {
            1int
        } else {
            0int
        },
    ensures
        l - 1461 * i / 4 <= 365,
        l - 1461 * i / 4 == 365 ==> leap(100 * c + i + 1),
{
    let a = i / 4;
    let b = i % 4;
    assert(i == 4 * a + b);
    assert(1461 * i / 4 == 1461 * a + 1461 * b / 4) by {
        assert(1461 * i == 4 * (1461 * a) + 1461 * b);
    }
    assert(1461 * (i + 1) / 4 == 1461 * a + 1461 * (b + 1) / 4) by {
        assert(1461 * (i + 1) == 4 * (1461 * a) + 1461 * (b + 1));
    }
    assert(b == 0 || b == 1 || b == 2 || b == 3);
    let y = 100 * c + i + 1;
    if l - 1461 * i / 4 == 365 {
        assert(b == 3);
        assert(y == 4 * (25 * c + a + 1));
        if i < 99 {
            assert(y % 100 == i + 1);
        } else {
            assert(n % 4 == 0);
            assert(y == 100 * (c + 1));
            assert(c + 1 == n - 48);
            assert(y == 400 * (n / 4 - 12));
        }
    }
}

/// The date at a number of days from 1970-01-01 (Fliegel and Van Flandern),
/// for every day with a Julian day number that is not negative: the one date
/// whose number that is.
pub fn civil_from_days(days: i64) -> (r: (i64, i64, i64))
    requires
        -2_440_588 <= days <= 2_305_843_009_000_000_000,
    ensures
        valid_date(r.0 as int, r.1 as int, r.2 as int),
        day_number(r.0 as int, r.1 as int, r.2 as int) == days,
{
    let jd: i64 = days + 2_440_588;
    let l: i64 = jd + 68_569;
    let n: i64 = 4 * l / 146_097;
    let ghost shifted = l as int;
    proof {
        lemma_century(l as int, n as int);
    }
    let l: i64 = l - (146_097 * n + 3) / 4;
    let i: i64 = 4000 * (l + 1) / 1_461_001;
    let ghost in_century = l as int;
    proof {
        lemma_year_in_century(l as int, i as int);
        lemma_march_first(n - 49, i as int, n as int);
        lemma_march_year_len(n - 49, i as int, n as int, l as int);
    }
    let l: i64 = l - 1461 * i / 4 + 31;
    let j: i64 = 80 * l / 2447;
    let ghost in_year = l as int;
    proof {
        lemma_month_in_year(l as int, j as int);
    }
    let d: i64 = l - 2447 * j / 80;
    let l: i64 = j / 11;
    let m: i64 = j + 2 - 12 * l;
    let y: i64 = 100 * (n - 49) + i + l;
    proof {
        let base = 100 * (n - 49) + i;
        lemma_months(base);
        lemma_months(base + 1);
        lemma_year_len(base);
        assert(day_number(base, 3, 1) + (in_year - 31) == days);
        lemma_march_date(base, in_year, j as int, days as int);
    }
    (y, m, d)
}

/// The date a number of days after the first of March.
proof fn lemma_march_date(base: int, l: int, j: int, days: int)
    requires
        31 <= l <= 396,
        l == 396 ==> leap(base + 1),
        j == 80 * l / 2447,
        1 <= j <= 12,
        2447 * j / 80 < l <= 2447 * (j + 1) / 80 || (j == 12 && 367 < l <= 396),
        day_number(base, 3, 1) + (l - 31) == days,
    ensures
        ({
            let d = l - 2447 * j / 80;
            let m = j + 2 - 12 * (j / 11);
            let y = base + j / 11;
            valid_date(y, m, d) && day_number(y, m, d) == days
        }),
{
    lemma_months(base);
    lemma_months(base + 1);
    lemma_year_len(base);
    if j == 1 {
    } else if j == 2 {
    } else if j == 3 {
    } else if j == 4 {
    } else if j == 5 {
    } else if j == 6 {
    } else if j == 7 {
    } else if j == 8 {
    } else if j == 9 {
    } else if j == 10 {
    } else if j == 11 {
    } else {
        assert(j == 12);
    }
}

/// The text of a date and a time of day, in milliseconds.
pub open spec fn stamp_text(y: int, m: int, d: int, secs: int, millis: int) -> Seq<u8> {
    padded(y, 4) + seq![45u8] + padded(m, 2) + seq![45u8] + padded(d, 2) + seq![84u8] + padded(secs / 3600, 2)
        + seq![58u8] + padded(secs % 3600 / 60, 2) + seq![58u8] + padded(secs % 60, 2) + seq![46u8] + padded(
        millis,
        3,
    ) + seq![90u8]
}

/// A text is the RFC 3339 time stamp of a point in time, in milliseconds.
pub open spec fn is_stamp(b: Seq<u8>, secs: int, millis: int) -> bool {
    exists|y: int, m: int, d: int| #[trigger] valid_date(y, m, d) && day_number(y, m, d) == secs / 86_400 && b
        == stamp_text(y, m, d, secs % 86_400, millis)
}

proof fn lemma_padded_digits(n: int, width: int)
    requires
        n >= 0,
        width >= 0,
    ensures
        forall|i: int| 0 <= i < padded(n, width).len() ==> is_digit(#[trigger] padded(n, width)[i]),
        padded(n, width).len() >= width,
{
    lemma_decimal(n);
    let p = padded(n, width);
    let z = width - decimal(n).len();
    assert forall|i: int| 0 <= i < p.len() implies is_digit(#[trigger] p[i]) by {
        if z > 0 && i >= z {
            assert(p[i] == decimal(n)[i - z]);
        } else if z <= 0 {
            assert(p[i] == decimal(n)[i]);
        }
    }
}

proof fn lemma_padded_len(n: int, width: int)
    requires
        0 <= n,
        width == 2 && n < 100 || width == 3 && n < 1000 || width == 4 && n < 10_000,
    ensures
        padded(n, width).len() == width,
{
    reveal_with_fuel(decimal, 5);
}

proof fn lemma_year_bound(y: int, m: int, d: int)
    requires
        valid_date(y, m, d),
        0 <= day_number(y, m, d) <= u64::MAX / 86_400,
    ensures
        1970 <= y <= u64::MAX,
{
    lemma_month_within(y, m, d);
    lemma_year_len(y);
    if y < 1970 {
        lemma_years_apart(y, 1970);
    } else if y > 1970 {
        lemma_years_apart(1970, y);
    }
}

/// RFC 3339 in UTC with millisecond precision, from the time since the Unix
/// epoch in whole seconds and milliseconds.
pub fn rfc3339(secs: u64, millis: u32) -> (r: String)
    requires
        millis < 1000,
    ensures
        exists|b: Seq<u8>| #[trigger] is_stamp(b, secs as int, millis as int) && ascii_bytes(b) && r@ == ascii_text(b),
{
    let rem: u64 = secs % 86_400;
    let (y, m, d) = civil_from_days((secs / 86_400) as i64);
    proof {
        lemma_year_bound(y as int, m as int, d as int);
    }
    let mut out: Vec<u8> = Vec::new();
    push_padded(&mut out, y as u64, 4);
    out.push(45);
    push_padded(&mut out, m as u64, 2);
    out.push(45);
    push_padded(&mut out, d as u64, 2);
    out.push(84);
    push_padded(&mut out, rem / 3600, 2);
    out.push(58);
    push_padded(&mut out, rem % 3600 / 60, 2);
    out.push(58);
    push_padded(&mut out, rem % 60, 2);
    out.push(46);
    push_padded(&mut out, millis as u64, 3);
    out.push(90);
    let ghost b = out@;
    proof {
        let t = stamp_text(y as int, m as int, d as int, rem as int, millis as int);
        assert(b =~= t);
        assert(valid_date(y as int, m as int, d as int));
        assert(is_stamp(b, secs as int, millis as int));
        lemma_stamp_ascii(y as int, m as int, d as int, rem as int, millis as int);
    }
    ascii_string(out)
}

proof fn lemma_ascii_parts(a: Seq<u8>, b: Seq<u8>)
    requires
        ascii_bytes(a),
        ascii_bytes(b),
    ensures
        ascii_bytes(a + b),
{
    assert forall|i: int| 0 <= i < (a + b).len() implies #[trigger] (a + b)[i] < 128 by {
        if i < a.len() {
            assert(a[i] < 128);
        } else {
            assert(b[i - a.len()] < 128);
        }
    }
}

proof fn lemma_padded_ascii(n: int, width: int)
    requires
        n >= 0,
        width >= 0,
    ensures
        ascii_bytes(padded(n, width)),
{
    lemma_padded_digits(n, width);
    assert forall|i: int| 0 <= i < padded(n, width).len() implies #[trigger] padded(n, width)[i] < 128 by {
        assert(is_digit(padded(n, width)[i]));
    }
}

proof fn lemma_stamp_ascii(y: int, m: int, d: int, secs: int, millis: int)
    requires
        y >= 0,
        m >= 0,
        d >= 0,
        secs >= 0,
        millis >= 0,
    ensures
        ascii_bytes(stamp_text(y, m, d, secs, millis)),
{
    lemma_padded_ascii(y, 4);
    lemma_padded_ascii(m, 2);
    lemma_padded_ascii(d, 2);
    lemma_padded_ascii(secs / 3600, 2);
    lemma_padded_ascii(secs % 3600 / 60, 2);
    lemma_padded_ascii(secs % 60, 2);
    lemma_padded_ascii(millis, 3);
    let s0 = padded(y, 4);
    let s1 = s0 + seq![45u8];
    lemma_ascii_parts(s0, seq![45u8]);
    let s2 = s1 + padded(m, 2);
    lemma_ascii_parts(s1, padded(m, 2));
    let s3 = s2 + seq![45u8];
    lemma_ascii_parts(s2, seq![45u8]);
    let s4 = s3 + padded(d, 2);
    lemma_ascii_parts(s3, padded(d, 2));
    let s5 = s4 + seq![84u8];
    lemma_ascii_parts(s4, seq![84u8]);
    let s6 = s5 + padded(secs / 3600, 2);
    lemma_ascii_parts(s5, padded(secs / 3600, 2));
    let s7 = s6 + seq![58u8];
    lemma_ascii_parts(s6, seq![58u8]);
    let s8 = s7 + padded(secs % 3600 / 60, 2);
    lemma_ascii_parts(s7, padded(secs % 3600 / 60, 2));
    let s9 = s8 + seq![58u8];
    lemma_ascii_parts(s8, seq![58u8]);
    let s10 = s9 + padded(secs % 60, 2);
    lemma_ascii_parts(s9, padded(secs % 60, 2));
    let s11 = s10 + seq![46u8];
    lemma_ascii_parts(s10, seq![46u8]);
    let s12 = s11 + padded(millis, 3);
    lemma_ascii_parts(s11, padded(millis, 3));
    lemma_ascii_parts(s12, seq![90u8]);
}

/// The shape `YYYY-MM-DDTHH:MM:SS.mmmZ`: a digit wherever the shape has a
/// letter of a field, and the separators as they stand.
pub open spec fn stamp_shape(b: Seq<u8>) -> bool {
    b.len() == 24 && forall|i: int| 0 <= i < 24 ==> shape_at(i, #[trigger] b[i])
}

/// What the shape of a time stamp has at a position.
pub open spec fn shape_at(i: int, c: u8) -> bool {
    if i == 4 || i == 7 {
        c == 45
    } else if i == 10 {
        c == 84
    } else if i == 13 || i == 16 {
        c == 58
    } else if i == 19 {
        c == 46
    } else if i == 23 {
        c == 90
    } else {
        is_digit(c)
    }
}

/// Whether a text has the shape of a time stamp.
pub fn looks_like_rfc3339(s: &str) -> (r: bool)
    ensures
        r == stamp_shape(crate::text::bytes_of(s)),
{
    let b = s.as_bytes();
    if b.len() != 24 {
        return false;
    }
    let mut i: usize = 0;
    while i < 24
        invariant
            i <= 24,
            b@.len() == 24,
            b@ == crate::text::bytes_of(s),
            forall|j: int| 0 <= j < i ==> shape_at(j, #[trigger] b@[j]),
        decreases 24 - i,
    {
        let c: u8 = b[i];
        let fits: bool = if i == 4 || i == 7 {
            c == 45
        } else if i == 10 {
            c == 84
        } else if i == 13 || i == 16 {
            c == 58
        } else if i == 19 {
            c == 46
        } else if i == 23 {
            c == 90
        } else {
            48 <= c && c <= 57
        };
        if !fits {
            proof {
                assert(!shape_at(i as int, b@[i as int]));
            }
            return false;
        }
        i = i + 1;
    }
    true
}

/// A time stamp has the shape up to the end of the year 9999, and no later
/// one has it.
pub proof fn lemma_stamp_shape(b: Seq<u8>, secs: int, millis: int)
    requires
        is_stamp(b, secs, millis),
        0 <= secs,
        0 <= millis < 1000,
    ensures
        stamp_shape(b) <==> secs < 253_402_300_800,
{
    if secs < 253_402_300_800 {
        lemma_stamp_fits(b, secs, millis);
    } else {
        lemma_stamp_long(b, secs, millis);
    }
}

proof fn lemma_stamp_long(b: Seq<u8>, secs: int, millis: int)
    requires
        is_stamp(b, secs, millis),
        253_402_300_800 <= secs,
        0 <= millis,
    ensures
        b.len() > 24,
{
    let (y, m, d) = choose|y: int, m: int, d: int| #[trigger] valid_date(y, m, d) && day_number(y, m, d) == secs
        / 86_400 && b == stamp_text(y, m, d, secs % 86_400, millis);
    let t = secs % 86_400;
    lemma_month_within(y, m, d);
    lemma_year_len(y);
    if y < 10_000 {
        lemma_years_apart(y, 10_000);
        assert(false);
    }
    assert(padded(y, 4).len() >= 5) by {
        reveal_with_fuel(decimal, 5);
    }
    lemma_padded_digits(m, 2);
    lemma_padded_digits(d, 2);
    lemma_padded_digits(t / 3600, 2);
    lemma_padded_digits(t % 3600 / 60, 2);
    lemma_padded_digits(t % 60, 2);
    lemma_padded_digits(millis, 3);
}

proof fn lemma_stamp_fits(b: Seq<u8>, secs: int, millis: int)
    requires
        is_stamp(b, secs, millis),
        0 <= secs < 253_402_300_800,
        0 <= millis < 1000,
    ensures
        stamp_shape(b),
{
    let (y, m, d) = choose|y: int, m: int, d: int| #[trigger] valid_date(y, m, d) && day_number(y, m, d) == secs
        / 86_400 && b == stamp_text(y, m, d, secs % 86_400, millis);
    let t = secs % 86_400;
    lemma_year_bound(y, m, d);
    lemma_month_within(y, m, d);
    if y > 9999 {
        lemma_years_apart(9999, y);
    }
    lemma_padded_len(y, 4);
    lemma_padded_len(m, 2);
    lemma_padded_len(d, 2);
    lemma_padded_len(t / 3600, 2);
    lemma_padded_len(t % 3600 / 60, 2);
    lemma_padded_len(t % 60, 2);
    lemma_padded_len(millis, 3);
    lemma_padded_digits(y, 4);
    lemma_padded_digits(m, 2);
    lemma_padded_digits(d, 2);
    lemma_padded_digits(t / 3600, 2);
    lemma_padded_digits(t % 3600 / 60, 2);
    lemma_padded_digits(t % 60, 2);
    lemma_padded_digits(millis, 3);
    assert forall|i: int| 0 <= i < 24 implies shape_at(i, #[trigger] b[i]) by {
        if i < 4 {
            assert(b[i] == padded(y, 4)[i]);
        } else if 5 <= i < 7 {
            assert(b[i] == padded(m, 2)[i - 5]);
        } else if 8 <= i < 10 {
            assert(b[i] == padded(d, 2)[i - 8]);
        } else if 11 <= i < 13 {
            assert(b[i] == padded(t / 3600, 2)[i - 11]);
        } else if 14 <= i < 16 {
            assert(b[i] == padded(t % 3600 / 60, 2)[i - 14]);
        } else if 17 <= i < 19 {
            assert(b[i] == padded(t % 60, 2)[i - 17]);
        } else if 20 <= i < 23 {
            assert(b[i] == padded(millis, 3)[i - 20]);
        }
    }
}

/// A point in time has one time stamp.
pub proof fn lemma_stamp_unique(a: Seq<u8>, b: Seq<u8>, secs: int, millis: int)
    requires
        is_stamp(a, secs, millis),
        is_stamp(b, secs, millis),
    ensures
        a == b,
{
    let (y, m, d) = choose|y: int, m: int, d: int| #[trigger] valid_date(y, m, d) && day_number(y, m, d) == secs
        / 86_400 && a == stamp_text(y, m, d, secs % 86_400, millis);
    let (y2, m2, d2) = choose|y: int, m: int, d: int| #[trigger] valid_date(y, m, d) && day_number(y, m, d) == secs
        / 86_400 && b == stamp_text(y, m, d, secs % 86_400, millis);
    lemma_day_number_unique(y, m, d, y2, m2, d2);
}

} // verus!
