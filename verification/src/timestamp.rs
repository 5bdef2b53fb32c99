//! Points in time as text that sorts like them.

use vstd::prelude::*;
use vstd::string::*;
use crate::text::{push_padded, push_padded_signed};

verus! {

/// A year with a 29th of February.
pub open spec fn is_leap(y: int) -> bool {
    y % 4 == 0 && (y % 100 != 0 || y % 400 == 0)
}

/// How many days a month has.
pub open spec fn days_in_month(y: int, m: int) -> int {
    if m == 2 {
        if is_leap(y) {
            29
        } else {
            28
        }
    } else if m == 4 || m == 6 || m == 9 || m == 11 {
        30
    } else {
        31
    }
}

/// There is such a day in the calendar.
pub open spec fn is_date(y: int, m: int, d: int) -> bool {
    1 <= m <= 12 && 1 <= d <= days_in_month(y, m)
}

/// How many days of the year come before the month.
pub open spec fn days_before_month(y: int, m: int) -> int {
    let leap: int = if is_leap(y) {
        1
    } else {
        0
    };
    if m <= 1 {
        0
    } else if m == 2 {
        31
    } else if m == 3 {
        59 + leap
    } else if m == 4 {
        90 + leap
    } else if m == 5 {
        120 + leap
    } else if m == 6 {
        151 + leap
    } else if m == 7 {
        181 + leap
    } else if m == 8 {
        212 + leap
    } else if m == 9 {
        243 + leap
    } else if m == 10 {
        273 + leap
    } else if m == 11 {
        304 + leap
    } else {
        334 + leap
    }
}

/// How many days lie between the start of 1970 and the start of the year.
pub open spec fn days_before_year(y: int) -> int {
    365 * (y - 1970) + (y - 1) / 4 - (y - 1) / 100 + (y - 1) / 400 - 477
}

/// How many days lie between the first of January 1970 and the day.
pub open spec fn day_number(y: int, m: int, d: int) -> int {
    days_before_year(y) + days_before_month(y, m) + d - 1
}

/// Each month ends where the next begins, and each year too.
pub proof fn months_are_contiguous(y: int, m: int)
    requires
        1 <= m <= 12,
    ensures
        m < 12 ==> days_before_month(y, m + 1) == days_before_month(y, m) + days_in_month(y, m),
        m == 12 ==> days_before_year(y + 1) == days_before_year(y) + days_before_month(y, m)
            + days_in_month(y, m),
{
    if m == 12 {
        lemma_year_length(y);
    }
}

proof fn lemma_year_length(y: int)
    ensures
        days_before_year(y + 1) == days_before_year(y) + 365 + if is_leap(y) {
            1int
        } else {
            0int
        },
{
    lemma_steps(y);
}

proof fn lemma_step_four(y: int)
    ensures
        y / 4 - (y - 1) / 4 == if y % 4 == 0 {
            1int
        } else {
            0int
        },
{
}

proof fn lemma_step_hundred(y: int)
    ensures
        y / 100 - (y - 1) / 100 == if y % 100 == 0 {
            1int
        } else {
            0int
        },
{
}

proof fn lemma_step_four_hundred(y: int)
    ensures
        y / 400 - (y - 1) / 400 == if y % 400 == 0 {
            1int
        } else {
            0int
        },
{
}

proof fn lemma_steps(y: int)
    ensures
        y / 4 - (y - 1) / 4 == (if y % 4 == 0 {
            1int
        } else {
            0int
        }),
        y / 100 - (y - 1) / 100 == (if y % 100 == 0 {
            1int
        } else {
            0int
        }),
        y / 400 - (y - 1) / 400 == (if y % 400 == 0 {
            1int
        } else {
            0int
        }),
        y % 400 == 0 ==> y % 100 == 0,
        y % 100 == 0 ==> y % 4 == 0,
{
    lemma_step_four(y);
    lemma_step_hundred(y);
    lemma_step_four_hundred(y);
    if y % 400 == 0 {
        assert(y == 100 * (4 * (y / 400)));
    }
    if y % 100 == 0 {
        assert(y == 4 * (25 * (y / 100)));
    }
}

proof fn lemma_years_rise(a: int, b: int)
    requires
        a < b,
    ensures
        days_before_year(a) + 365 <= days_before_year(b),
        days_before_year(a + 1) <= days_before_year(b),
    decreases b - a,
{
    lemma_year_length(a);
    if a + 1 < b {
        lemma_years_rise(a + 1, b);
    }
}

proof fn lemma_day_of_year(y: int, m: int, d: int)
    requires
        is_date(y, m, d),
    ensures
        0 <= days_before_month(y, m) + d - 1 < 365 + if is_leap(y) {
            1int
        } else {
            0int
        },
{
}

/// Later days have larger numbers.
pub proof fn day_numbers_rise(y: int, m: int, d: int, y2: int, m2: int, d2: int)
    requires
        is_date(y, m, d),
        is_date(y2, m2, d2),
        y < y2 || (y == y2 && (m < m2 || (m == m2 && d < d2))),
    ensures
        day_number(y, m, d) < day_number(y2, m2, d2),
{
    lemma_day_of_year(y, m, d);
    lemma_day_of_year(y2, m2, d2);
    if y < y2 {
        lemma_years_rise(y, y2);
        lemma_year_length(y);
    }
}

/// A number belongs to one day only.
pub proof fn day_number_is_unique(y: int, m: int, d: int, y2: int, m2: int, d2: int)
    requires
        is_date(y, m, d),
        is_date(y2, m2, d2),
        day_number(y, m, d) == day_number(y2, m2, d2),
    ensures
        y == y2,
        m == m2,
        d == d2,
{
    if y < y2 || (y == y2 && (m < m2 || (m == m2 && d < d2))) {
        day_numbers_rise(y, m, d, y2, m2, d2);
    } else if y2 < y || (y == y2 && (m2 < m || (m == m2 && d2 < d))) {
        day_numbers_rise(y2, m2, d2, y, m, d);
    }
}

/// The days of `years` years counted from the first of March of a year that four hundred divides.
spec fn march_days(years: int) -> int {
    365 * years + years / 4 - years / 100
}

proof fn lemma_march_days_rise(a: int, b: int)
    requires
        0 <= a < b,
    ensures
        march_days(a) + 365 <= march_days(b),
    decreases b - a,
{
    assert(march_days(b - 1) + 365 <= march_days(b)) by {
        let c = b - 1;
        assert(b / 4 >= c / 4);
        assert(b / 100 - c / 100 <= b / 4 - c / 4) by {
            if b % 100 == 0 {
                assert(b % 4 == 0);
            }
        }
    }
    if a < b - 1 {
        lemma_march_days_rise(a, b - 1);
    }
}

/// The year of the four hundred to which a day belongs.
proof fn lemma_year_of_era(doe: int, yoe: int)
    requires
        0 <= doe < 146097,
        yoe == (doe - doe / 1460 + doe / 36524 - doe / 146096) / 365,
    ensures
        0 <= yoe <= 399,
        march_days(yoe) <= doe,
        doe <= march_days(yoe) + 365,
        doe - march_days(yoe) == 365 ==> ((yoe + 1) % 4 == 0 && ((yoe + 1) % 100 != 0 || yoe + 1
            == 400)),
{
    let a = doe / 1460;
    let b = doe / 36524;
    let c = doe / 146096;
    let n = doe - a + b - c;
    assert(1460 * a <= doe < 1460 * a + 1460);
    assert(36524 * b <= doe < 36524 * b + 36524);
    assert(0 <= a <= 100);
    assert(0 <= b <= 4);
    assert(0 <= c <= 1);
    assert(c == 1 <==> doe == 146096);
    assert(365 * yoe <= n < 365 * yoe + 365);
    let q = yoe / 4;
    let h = yoe / 100;
    assert(4 * q <= yoe < 4 * q + 4);
    assert(100 * h <= yoe < 100 * h + 100);
    assert(0 <= yoe <= 399) by {
        assert(n <= 146096 - 100 + 4 - 1 || doe < 146096);
        assert(n < 146000);
    }
    lemma_year_bounds(doe, a, b, c, yoe, q, h);
}

proof fn lemma_year_bounds(doe: int, a: int, b: int, c: int, yoe: int, q: int, h: int)
    requires
        0 <= doe < 146097,
        0 <= yoe <= 399,
        1460 * a <= doe < 1460 * a + 1460,
        36524 * b <= doe < 36524 * b + 36524,
        0 <= a <= 100,
        0 <= b <= 4,
        c == (if doe == 146096 {
            1int
        } else {
            0int
        }),
        365 * yoe <= doe - a + b - c < 365 * yoe + 365,
        q == yoe / 4,
        h == yoe / 100,
        4 * q <= yoe < 4 * q + 4,
        100 * h <= yoe < 100 * h + 100,
    ensures
        march_days(yoe) <= doe,
        doe <= march_days(yoe) + 365,
        doe - march_days(yoe) == 365 ==> ((yoe + 1) % 4 == 0 && ((yoe + 1) % 100 != 0 || yoe + 1
            == 400)),
{
    let m = march_days(yoe);
    assert(m == 365 * yoe + q - h);
}

/// How many days lie between the first of March of the year zero and that of the year.
spec fn march_first(y: int) -> int {
    365 * y + y / 4 - y / 100 + y / 400
}

proof fn lemma_march_first(y: int)
    ensures
        days_before_year(y) + 59 + (if is_leap(y) {
            1int
        } else {
            0int
        }) == march_first(y) - 719468,
        days_before_year(y + 1) == march_first(y) - 719468 + 306,
{
    lemma_year_length(y);
    lemma_steps(y);
}

proof fn lemma_eras(yoe: int, era: int)
    requires
        0 <= yoe <= 399,
    ensures
        march_first(yoe + 400 * era) == march_days(yoe) + 146097 * era,
        is_leap(yoe + 1 + 400 * era) == is_leap(yoe + 1),
{
    let y = yoe + 400 * era;
    assert(y / 4 == yoe / 4 + 100 * era);
    assert(y / 100 == yoe / 100 + 4 * era);
    assert(y / 400 == era);
    let x = yoe + 1 + 400 * era;
    assert(x % 4 == (yoe + 1) % 4);
    assert(x % 100 == (yoe + 1) % 100);
    assert(x % 400 == (yoe + 1) % 400);
}

/// The month and the day of a day of the year that starts in March.
proof fn lemma_month_of_day(doy: int, mp: int, d: int)
    requires
        0 <= doy <= 365,
        mp == (5 * doy + 2) / 153,
        d == doy - (153 * mp + 2) / 5 + 1,
    ensures
        0 <= mp <= 11,
        1 <= d <= 31,
        mp == 11 ==> d <= 29 && (d == 29 ==> doy == 365),
        mp == 1 || mp == 3 || mp == 6 || mp == 8 ==> d <= 30,
        (153 * mp + 2) / 5 == (if mp == 0 {
            0int
        } else if mp == 1 {
            31
        } else if mp == 2 {
            61
        } else if mp == 3 {
            92
        } else if mp == 4 {
            122
        } else if mp == 5 {
            153
        } else if mp == 6 {
            184
        } else if mp == 7 {
            214
        } else if mp == 8 {
            245
        } else if mp == 9 {
            275
        } else if mp == 10 {
            306
        } else {
            337
        }),
{
}

proof fn lemma_civil(
    days: int,
    era: int,
    doe: int,
    yoe: int,
    doy: int,
    mp: int,
    d: int,
    m: int,
    y: int,
)
    requires
        days + 719468 == 146097 * era + doe,
        0 <= doe < 146097,
        yoe == (doe - doe / 1460 + doe / 36524 - doe / 146096) / 365,
        doy == doe - march_days(yoe),
        mp == (5 * doy + 2) / 153,
        d == doy - (153 * mp + 2) / 5 + 1,
        m == (if mp < 10 {
            mp + 3
        } else {
            mp - 9
        }),
        y == yoe + 400 * era + (if m <= 2 {
            1int
        } else {
            0int
        }),
    ensures
        is_date(y, m, d),
        day_number(y, m, d) == days,
{
    lemma_year_of_era(doe, yoe);
    lemma_month_of_day(doy, mp, d);
    let ym = yoe + 400 * era;
    lemma_eras(yoe, era);
    lemma_march_first(ym);
    assert(march_first(ym) + doy == days + 719468);
    if mp == 11 && d == 29 {
        assert(is_leap(yoe + 1));
        assert(y == yoe + 1 + 400 * era);
    }
}

/// `date` is the day with this number, in the year `y`, of which it holds the lowest 32 bits.
pub open spec fn names_day(y: i64, date: (i32, u32, u32), days: int) -> bool {
    &&& is_date(y as int, date.1 as int, date.2 as int)
    &&& day_number(y as int, date.1 as int, date.2 as int) == days
    &&& date.0 == y as i32
}

/// The date of a day, given how many days after the first of January 1970 it is. The year is cut
/// to its lowest 32 bits.
pub fn civil_from_days(days_since_epoch: i64) -> (r: (i32, u32, u32))
    requires
        days_since_epoch + 719468 <= i64::MAX,
    ensures
        exists|y: i64| #[trigger] names_day(y, r, days_since_epoch as int),
{
    let z: i64 = days_since_epoch + 719468;
    let era: i64 = if z >= 0 {
        ((z as u64) / 146097) as i64
    } else {
        -1 - (((-(z + 1)) as u64) / 146097) as i64
    };
    let doe: u64 = (z - era * 146097) as u64;
    assert(0 <= doe < 146097);
    assert(146097 * era + doe == z);
    let yoe: u64 = (doe - doe / 1460 + doe / 36524 - doe / 146096) / 365;
    proof {
        lemma_year_of_era(doe as int, yoe as int);
    }
    let ym: i64 = yoe as i64 + era * 400;
    let doy: u64 = doe - (365 * yoe + yoe / 4 - yoe / 100);
    let mp: u64 = (5 * doy + 2) / 153;
    proof {
        lemma_month_of_day(doy as int, mp as int, doy - (153 * mp + 2) / 5 + 1);
    }
    let d: u64 = doy - (153 * mp + 2) / 5 + 1;
    let m: u64 = if mp < 10 {
        mp + 3
    } else {
        mp - 9
    };
    let year: i64 = if m <= 2 {
        ym + 1
    } else {
        ym
    };
    proof {
        lemma_civil(
            days_since_epoch as int,
            era as int,
            doe as int,
            yoe as int,
            doy as int,
            mp as int,
            d as int,
            m as int,
            year as int,
        );
    }
    let short_year: i32 = #[verifier::truncate] (year as i32);
    let month: u32 = m as u32;
    let day: u32 = d as u32;
    let date: (i32, u32, u32) = (short_year, month, day);
    assert(names_day(year, date, days_since_epoch as int));
    date
}

/// The text of a date and a time of day.
pub open spec fn iso_text(y: i32, m: nat, d: nat, hour: nat, minute: nat, second: nat) -> Seq<char> {
    crate::text::padded_signed(y as int, 4) + seq!['-'] + crate::text::padded(m, 2) + seq!['-']
        + crate::text::padded(d, 2) + seq!['T'] + crate::text::padded(hour, 2) + seq![':']
        + crate::text::padded(minute, 2) + seq![':'] + crate::text::padded(second, 2) + seq!['Z']
}

/// `text` is the point in time that lies `seconds` after the start of 1970, in UTC: the year, the
/// month and the day of its date, and the hour, the minute and the second of its day.
pub open spec fn is_utc_text(text: Seq<char>, seconds: int) -> bool {
    let rest = seconds % 86400;
    exists|y: i64, m: nat, d: nat|
        #![trigger is_date(y as int, m as int, d as int)]
        is_date(y as int, m as int, d as int) && day_number(y as int, m as int, d as int) == seconds
            / 86400 && text == iso_text(
            y as i32,
            m,
            d,
            (rest / 3600) as nat,
            ((rest / 60) % 60) as nat,
            (rest % 60) as nat,
        )
}

/// The point in time that lies `seconds` after the start of 1970, as text in UTC.
pub fn format_utc_seconds(seconds: i64) -> (r: String)
    ensures
        is_utc_text(r@, seconds as int),
{
    let days: i64 = if seconds >= 0 {
        ((seconds as u64) / 86400) as i64
    } else {
        -1 - (((-(seconds + 1)) as u64) / 86400) as i64
    };
    assert(days == seconds as int / 86400);
    let rem: u64 = if seconds >= 0 {
        (seconds as u64) % 86400
    } else {
        86399 - ((-(seconds + 1)) as u64) % 86400
    };
    assert(rem == seconds as int % 86400);
    let date = civil_from_days(days);
    let (year, month, day) = date;
    let mut out = String::new();
    push_padded_signed(&mut out, year, 4);
    out.push('-');
    push_padded(&mut out, month as u64, 2);
    out.push('-');
    push_padded(&mut out, day as u64, 2);
    out.push('T');
    push_padded(&mut out, rem / 3600, 2);
    out.push(':');
    push_padded(&mut out, (rem / 60) % 60, 2);
    out.push(':');
    push_padded(&mut out, rem % 60, 2);
    out.push('Z');
    proof {
        let y = choose|y: i64| #[trigger] names_day(y, date, days as int);
        assert(out@ =~= iso_text(
            y as i32,
            month as nat,
            day as nat,
            (rem / 3600) as nat,
            ((rem / 60) % 60) as nat,
            (rem % 60) as nat,
        ));
        assert(is_date(y as int, (month as nat) as int, (day as nat) as int));
    }
    out
}

/// `SystemTime::now` and how far it lies behind the epoch, in whole seconds; nothing where the
/// clock stands before the epoch. The clock decides the answer, so nothing is said of it.
#[verifier::external_body]
fn seconds_since_epoch() -> (r: Option<u64>)
{
    std::time::SystemTime::now().duration_since(std::time::UNIX_EPOCH).map(|d| d.as_secs()).ok()
}

/// What a clock says, as text in UTC: the seconds since the start of 1970 as a signed number. A
/// clock that stands before it counts as standing there.
pub fn clock_text(seconds: Option<u64>) -> (r: String)
    ensures
        is_utc_text(
            r@,
            match seconds {
                Some(s) => (s as i64) as int,
                None => 0,
            },
        ),
{
    let signed: i64 = match seconds {
        Some(s) => #[verifier::truncate] (s as i64),
        None => 0,
    };
    format_utc_seconds(signed)
}

/// The present as text in UTC.
pub fn now_utc_iso8601() -> (r: String)
    ensures
        exists|seconds: i64| #[trigger] is_utc_text(r@, seconds as int),
{
    clock_text(seconds_since_epoch())
}

/// The twenty characters for a date and a time of day, digit by digit.
#[verifier::opaque]
spec fn twenty(y: int, m: int, d: int, hour: int, minute: int, second: int) -> Seq<char> {
    seq![
        crate::text::digit((y / 1000) as nat),
        crate::text::digit((y / 100 % 10) as nat),
        crate::text::digit((y / 10 % 10) as nat),
        crate::text::digit((y % 10) as nat),
        '-',
        crate::text::digit((m / 10) as nat),
        crate::text::digit((m % 10) as nat),
        '-',
        crate::text::digit((d / 10) as nat),
        crate::text::digit((d % 10) as nat),
        'T',
        crate::text::digit((hour / 10) as nat),
        crate::text::digit((hour % 10) as nat),
        ':',
        crate::text::digit((minute / 10) as nat),
        crate::text::digit((minute % 10) as nat),
        ':',
        crate::text::digit((second / 10) as nat),
        crate::text::digit((second % 10) as nat),
        'Z',
    ]
}

proof fn lemma_two_digits(n: int)
    requires
        0 <= n < 100,
    ensures
        crate::text::padded(n as nat, 2) == seq![
            crate::text::digit((n / 10) as nat),
            crate::text::digit((n % 10) as nat),
        ],
{
    let k = n as nat;
    let text = crate::text::padded(k, 2);
    reveal_with_fuel(crate::text::decimal, 2);
    if n < 10 {
        assert(crate::text::decimal(k) =~= seq![crate::text::digit(k)]);
        assert(crate::text::zeros(1) =~= seq!['0']);
        assert(crate::text::digit(0) == '0');
    } else {
        assert(crate::text::decimal(k) =~= seq![
            crate::text::digit(k / 10),
            crate::text::digit(k % 10),
        ]);
    }
    assert(text =~= seq![
        crate::text::digit((n / 10) as nat),
        crate::text::digit((n % 10) as nat),
    ]);
}

proof fn lemma_four_digits(n: int)
    requires
        0 <= n < 10000,
    ensures
        crate::text::padded(n as nat, 4) == seq![
            crate::text::digit((n / 1000) as nat),
            crate::text::digit((n / 100 % 10) as nat),
            crate::text::digit((n / 10 % 10) as nat),
            crate::text::digit((n % 10) as nat),
        ],
{
    let k = n as nat;
    let text = crate::text::padded(k, 4);
    reveal_with_fuel(crate::text::decimal, 4);
    assert(crate::text::digit(0) == '0');
    if n < 10 {
        assert(crate::text::decimal(k) =~= seq![crate::text::digit(k)]);
        assert(crate::text::zeros(3) =~= seq!['0', '0', '0']);
    } else if n < 100 {
        assert(crate::text::decimal(k) =~= seq![
            crate::text::digit(k / 10),
            crate::text::digit(k % 10),
        ]);
        assert(crate::text::zeros(2) =~= seq!['0', '0']);
    } else if n < 1000 {
        assert(k / 10 / 10 == k / 100);
        assert(crate::text::decimal(k) =~= seq![
            crate::text::digit(k / 100),
            crate::text::digit(k / 10 % 10),
            crate::text::digit(k % 10),
        ]);
        assert(crate::text::zeros(1) =~= seq!['0']);
    } else {
        assert(k / 10 / 10 == k / 100);
        assert(k / 10 / 10 / 10 == k / 1000);
        assert(crate::text::decimal(k) =~= seq![
            crate::text::digit(k / 1000),
            crate::text::digit(k / 100 % 10),
            crate::text::digit(k / 10 % 10),
            crate::text::digit(k % 10),
        ]);
    }
    assert(text =~= seq![
        crate::text::digit((n / 1000) as nat),
        crate::text::digit((n / 100 % 10) as nat),
        crate::text::digit((n / 10 % 10) as nat),
        crate::text::digit((n % 10) as nat),
    ]);
}

proof fn lemma_glue(
    y: Seq<char>,
    m: Seq<char>,
    d: Seq<char>,
    h: Seq<char>,
    n: Seq<char>,
    s: Seq<char>,
)
    requires
        y.len() == 4,
        m.len() == 2,
        d.len() == 2,
        h.len() == 2,
        n.len() == 2,
        s.len() == 2,
    ensures
        y + seq!['-'] + m + seq!['-'] + d + seq!['T'] + h + seq![':'] + n + seq![':'] + s + seq!['Z']
            == seq![
            y[0],
            y[1],
            y[2],
            y[3],
            '-',
            m[0],
            m[1],
            '-',
            d[0],
            d[1],
            'T',
            h[0],
            h[1],
            ':',
            n[0],
            n[1],
            ':',
            s[0],
            s[1],
            'Z',
        ],
{
    let date = y + seq!['-'] + m + seq!['-'] + d;
    assert(date =~= seq![y[0], y[1], y[2], y[3], '-', m[0], m[1], '-', d[0], d[1]]);
    let rest = date + seq!['T'] + h + seq![':'] + n + seq![':'] + s + seq!['Z'];
    assert(rest =~= date + seq!['T', h[0], h[1], ':', n[0], n[1], ':', s[0], s[1], 'Z']);
}

proof fn lemma_iso_is_twenty(y: i64, m: int, d: int, hour: int, minute: int, second: int)
    requires
        in_fields(y as int, m, d, hour, minute, second),
    ensures
        iso_text(y as i32, m as nat, d as nat, hour as nat, minute as nat, second as nat) == twenty(
            y as int,
            m,
            d,
            hour,
            minute,
            second,
        ),
{
    lemma_four_digits(y as int);
    lemma_two_digits(m);
    lemma_two_digits(d);
    lemma_two_digits(hour);
    lemma_two_digits(minute);
    lemma_two_digits(second);
    reveal(twenty);
    lemma_glue(
        crate::text::padded(y as nat, 4),
        crate::text::padded(m as nat, 2),
        crate::text::padded(d as nat, 2),
        crate::text::padded(hour as nat, 2),
        crate::text::padded(minute as nat, 2),
        crate::text::padded(second as nat, 2),
    );
}

/// Two ASCII texts that first differ at `i` are ordered by their characters there.
proof fn lemma_first_difference(a: Seq<char>, b: Seq<char>, i: int)
    requires
        vstd::utf8::is_ascii_chars(a),
        vstd::utf8::is_ascii_chars(b),
        0 <= i < a.len(),
        i < b.len(),
        forall|k: int| 0 <= k < i ==> a[k] == b[k],
        a[i] < b[i],
    ensures
        crate::text::text_before(a, b),
{
    vstd::utf8::is_ascii_chars_encode_utf8(a);
    vstd::utf8::is_ascii_chars_encode_utf8(b);
    let x = vstd::utf8::encode_utf8(a);
    let y = vstd::utf8::encode_utf8(b);
    assert forall|k: int| 0 <= k < i implies x[k] == y[k] by {
        assert(a[k] == b[k]);
    }
    assert(x[i] == a[i] as u8);
    assert(y[i] == b[i] as u8);
    assert((a[i] as u32) < 128);
    assert((b[i] as u32) < 128);
    crate::text::lemma_before_at(x, y, i);
    assert(x.skip(i)[0] == x[i]);
    assert(y.skip(i)[0] == y[i]);
}

spec fn in_fields(y: int, m: int, d: int, hour: int, minute: int, second: int) -> bool {
    &&& 0 <= y <= 9999
    &&& 0 <= m < 100
    &&& 0 <= d < 100
    &&& 0 <= hour < 100
    &&& 0 <= minute < 100
    &&& 0 <= second < 100
}

proof fn lemma_twenty_ascii(y: int, m: int, d: int, hour: int, minute: int, second: int)
    requires
        in_fields(y, m, d, hour, minute, second),
    ensures
        vstd::utf8::is_ascii_chars(twenty(y, m, d, hour, minute, second)),
{
    reveal(twenty);
    let s = twenty(y, m, d, hour, minute, second);
    assert forall|i: int| 0 <= i < s.len() implies '\0' <= #[trigger] s[i] <= '\u{7f}' by {}
}

/// The text of a date and a time of day before another is before that text.
proof fn lemma_twenty_sorts(
    y: int,
    m: int,
    d: int,
    h: int,
    n: int,
    s: int,
    y2: int,
    m2: int,
    d2: int,
    h2: int,
    n2: int,
    s2: int,
)
    requires
        in_fields(y, m, d, h, n, s),
        in_fields(y2, m2, d2, h2, n2, s2),
        y < y2 || (y == y2 && (m < m2 || (m == m2 && (d < d2 || (d == d2 && (h < h2 || (h == h2 && (
        n < n2 || (n == n2 && s < s2))))))))),
    ensures
        crate::text::text_before(twenty(y, m, d, h, n, s), twenty(y2, m2, d2, h2, n2, s2)),
{
    let a = twenty(y, m, d, h, n, s);
    let b = twenty(y2, m2, d2, h2, n2, s2);
    lemma_twenty_ascii(y, m, d, h, n, s);
    lemma_twenty_ascii(y2, m2, d2, h2, n2, s2);
    lemma_twenty_at(y, m, d, h, n, s);
    lemma_twenty_at(y2, m2, d2, h2, n2, s2);
    if y < y2 {
        lemma_year_digits(y, y2);
        if y / 1000 < y2 / 1000 {
            lemma_first_difference(a, b, 0);
        } else if y / 100 < y2 / 100 {
            lemma_first_difference(a, b, 1);
        } else if y / 10 < y2 / 10 {
            lemma_first_difference(a, b, 2);
        } else {
            lemma_first_difference(a, b, 3);
        }
    } else if m < m2 {
        lemma_pair(a, b, 5, m, m2);
    } else if d < d2 {
        lemma_pair(a, b, 8, d, d2);
    } else if h < h2 {
        lemma_pair(a, b, 11, h, h2);
    } else if n < n2 {
        lemma_pair(a, b, 14, n, n2);
    } else {
        lemma_pair(a, b, 17, s, s2);
    }
}

proof fn lemma_year_digits(y: int, y2: int)
    requires
        0 <= y < y2 <= 9999,
    ensures
        y / 1000 <= y2 / 1000,
        y / 1000 == y2 / 1000 ==> y / 100 <= y2 / 100 && (y / 100 < y2 / 100 ==> y / 100 % 10 < y2
            / 100 % 10),
        y / 100 == y2 / 100 ==> y / 10 <= y2 / 10 && y / 100 % 10 == y2 / 100 % 10 && (y / 10 < y2
            / 10 ==> y / 10 % 10 < y2 / 10 % 10),
        y / 10 == y2 / 10 ==> y / 10 % 10 == y2 / 10 % 10 && y % 10 < y2 % 10,
{
    assert(y / 100 == 10 * (y / 1000) + y / 100 % 10);
    assert(y2 / 100 == 10 * (y2 / 1000) + y2 / 100 % 10);
    assert(y / 10 == 10 * (y / 100) + y / 10 % 10);
    assert(y2 / 10 == 10 * (y2 / 100) + y2 / 10 % 10);
}

/// Two texts that are equal up to a number of two digits there are ordered by that number.
proof fn lemma_pair(a: Seq<char>, b: Seq<char>, i: int, n: int, n2: int)
    requires
        vstd::utf8::is_ascii_chars(a),
        vstd::utf8::is_ascii_chars(b),
        0 <= i,
        i + 1 < a.len(),
        i + 1 < b.len(),
        0 <= n < n2 < 100,
        forall|k: int| 0 <= k < i ==> a[k] == b[k],
        a[i] == crate::text::digit((n / 10) as nat),
        a[i + 1] == crate::text::digit((n % 10) as nat),
        b[i] == crate::text::digit((n2 / 10) as nat),
        b[i + 1] == crate::text::digit((n2 % 10) as nat),
    ensures
        crate::text::text_before(a, b),
{
    if n / 10 < n2 / 10 {
        lemma_first_difference(a, b, i);
    } else {
        lemma_first_difference(a, b, i + 1);
    }
}

proof fn lemma_twenty_at(y: int, m: int, d: int, h: int, n: int, s: int)
    ensures
        ({
            let t = twenty(y, m, d, h, n, s);
            &&& t.len() == 20
            &&& t[0] == crate::text::digit((y / 1000) as nat)
            &&& t[1] == crate::text::digit((y / 100 % 10) as nat)
            &&& t[2] == crate::text::digit((y / 10 % 10) as nat)
            &&& t[3] == crate::text::digit((y % 10) as nat)
            &&& t[4] == '-' && t[7] == '-' && t[10] == 'T' && t[13] == ':' && t[16] == ':'
            &&& t[5] == crate::text::digit((m / 10) as nat)
            &&& t[6] == crate::text::digit((m % 10) as nat)
            &&& t[8] == crate::text::digit((d / 10) as nat)
            &&& t[9] == crate::text::digit((d % 10) as nat)
            &&& t[11] == crate::text::digit((h / 10) as nat)
            &&& t[12] == crate::text::digit((h % 10) as nat)
            &&& t[14] == crate::text::digit((n / 10) as nat)
            &&& t[15] == crate::text::digit((n % 10) as nat)
            &&& t[17] == crate::text::digit((s / 10) as nat)
            &&& t[18] == crate::text::digit((s % 10) as nat)
            &&& t[19] == 'Z'
        }),
{
    reveal(twenty);
}

/// The fields of an earlier point in time come first.
proof fn lemma_fields_sort(s: int, y: int, m: int, d: int, t: int, y2: int, m2: int, d2: int)
    requires
        is_date(y, m, d),
        is_date(y2, m2, d2),
        day_number(y, m, d) == s / 86400,
        day_number(y2, m2, d2) == t / 86400,
        s < t,
    ensures
        ({
            let (r, q) = (s % 86400, t % 86400);
            let (h, n, x) = (r / 3600, (r / 60) % 60, r % 60);
            let (h2, n2, x2) = (q / 3600, (q / 60) % 60, q % 60);
            y < y2 || (y == y2 && (m < m2 || (m == m2 && (d < d2 || (d == d2 && (h < h2 || (h == h2
                && (n < n2 || (n == n2 && x < x2)))))))))
        }),
{
    if s / 86400 == t / 86400 {
        day_number_is_unique(y, m, d, y2, m2, d2);
        let (r, q) = (s % 86400, t % 86400);
        assert(r < q);
        assert(r == 3600 * (r / 3600) + 60 * ((r / 60) % 60) + r % 60);
        assert(q == 3600 * (q / 3600) + 60 * ((q / 60) % 60) + q % 60);
    } else if y2 < y || (y == y2 && (m2 < m || (m == m2 && d2 < d))) {
        day_numbers_rise(y2, m2, d2, y, m, d);
    }
}

/// The text has the twenty characters of a date and a time of day.
pub open spec fn has_iso_shape(text: Seq<char>) -> bool {
    &&& text.len() == 20
    &&& text[4] == '-' && text[7] == '-' && text[10] == 'T'
    &&& text[13] == ':' && text[16] == ':' && text[19] == 'Z'
    &&& forall|i: int|
        0 <= i < 19 && i != 4 && i != 7 && i != 10 && i != 13 && i != 16 ==> '0'
            <= #[trigger] text[i] <= '9'
}

proof fn lemma_twenty_shape(y: int, m: int, d: int, h: int, n: int, s: int)
    requires
        in_fields(y, m, d, h, n, s),
    ensures
        has_iso_shape(twenty(y, m, d, h, n, s)),
{
    let t = twenty(y, m, d, h, n, s);
    lemma_twenty_at(y, m, d, h, n, s);
    assert(0 <= y / 1000 < 10 && 0 <= m / 10 < 10 && 0 <= d / 10 < 10);
    assert(0 <= h / 10 < 10 && 0 <= n / 10 < 10 && 0 <= s / 10 < 10);
    assert('0' <= t[0] <= '9' && '0' <= t[1] <= '9' && '0' <= t[2] <= '9' && '0' <= t[3] <= '9');
    assert('0' <= t[5] <= '9' && '0' <= t[6] <= '9' && '0' <= t[8] <= '9' && '0' <= t[9] <= '9');
    assert('0' <= t[11] <= '9' && '0' <= t[12] <= '9' && '0' <= t[14] <= '9' && '0' <= t[15]
        <= '9');
    assert('0' <= t[17] <= '9' && '0' <= t[18] <= '9');
    assert forall|i: int|
        0 <= i < 19 && i != 4 && i != 7 && i != 10 && i != 13 && i != 16 implies '0'
        <= #[trigger] t[i] <= '9' by {
        assert(i <= 3 || i == 5 || i == 6 || i == 8 || i == 9 || i == 11 || i == 12 || i == 14 || i
            == 15 || i == 17 || i == 18);
    }
}

/// A point in time with a four-digit year is written in twenty characters, each at its place.
pub proof fn utc_text_has_iso_shape(text: Seq<char>, s: int)
    requires
        is_utc_text(text, s),
        -62167219200 <= s < 253402300800,
    ensures
        has_iso_shape(text),
{
    let r = s % 86400;
    let (h, n, x) = (r / 3600, (r / 60) % 60, r % 60);
    let (y, m, d) = choose|y: i64, m: nat, d: nat|
        #![trigger is_date(y as int, m as int, d as int)]
        is_date(y as int, m as int, d as int) && day_number(y as int, m as int, d as int) == s
            / 86400 && text == iso_text(y as i32, m, d, h as nat, n as nat, x as nat);
    lemma_four_digit_year(y as int, m as int, d as int, s);
    lemma_iso_is_twenty(y, m as int, d as int, h, n, x);
    lemma_twenty_shape(y as int, m as int, d as int, h, n, x);
}

/// Points in time with four-digit years sort as text like they follow each other: an earlier one
/// comes first.
pub proof fn utc_text_sorts(a: Seq<char>, s: int, b: Seq<char>, t: int)
    requires
        is_utc_text(a, s),
        is_utc_text(b, t),
        -62167219200 <= s < t < 253402300800,
    ensures
        crate::text::text_before(a, b),
{
    let (r, q) = (s % 86400, t % 86400);
    let (h, n, x) = (r / 3600, (r / 60) % 60, r % 60);
    let (h2, n2, x2) = (q / 3600, (q / 60) % 60, q % 60);
    let (y, m, d) = choose|y: i64, m: nat, d: nat|
        #![trigger is_date(y as int, m as int, d as int)]
        is_date(y as int, m as int, d as int) && day_number(y as int, m as int, d as int) == s
            / 86400 && a == iso_text(y as i32, m, d, h as nat, n as nat, x as nat);
    let (y2, m2, d2) = choose|y: i64, m: nat, d: nat|
        #![trigger is_date(y as int, m as int, d as int)]
        is_date(y as int, m as int, d as int) && day_number(y as int, m as int, d as int) == t
            / 86400 && b == iso_text(y as i32, m, d, h2 as nat, n2 as nat, x2 as nat);
    lemma_four_digit_year(y as int, m as int, d as int, s);
    lemma_four_digit_year(y2 as int, m2 as int, d2 as int, t);
    lemma_iso_is_twenty(y, m as int, d as int, h, n, x);
    lemma_iso_is_twenty(y2, m2 as int, d2 as int, h2, n2, x2);
    lemma_fields_sort(
        s,
        y as int,
        m as int,
        d as int,
        t,
        y2 as int,
        m2 as int,
        d2 as int,
    );
    lemma_twenty_sorts(
        y as int,
        m as int,
        d as int,
        h,
        n,
        x,
        y2 as int,
        m2 as int,
        d2 as int,
        h2,
        n2,
        x2,
    );
}

proof fn lemma_four_digit_year(y: int, m: int, d: int, s: int)
    requires
        is_date(y, m, d),
        day_number(y, m, d) == s / 86400,
        -62167219200 <= s < 253402300800,
    ensures
        0 <= y <= 9999,
{
    assert(day_number(0, 1, 1) == -719528);
    assert(day_number(10000, 1, 1) == 2932897);
    if y < 0 {
        day_numbers_rise(y, m, d, 0, 1, 1);
    }
    if y > 9999 {
        if !(y == 10000 && m == 1 && d == 1) {
            day_numbers_rise(10000, 1, 1, y, m, d);
        }
    }
}

/// Every fourth year is a leap year, except the last of a century, except the last of every fourth
/// century. A leap year is one day longer than another.
pub proof fn leap_years_are_longer(y: int)
    ensures
        y % 4 != 0 ==> !is_leap(y),
        y % 400 == 0 ==> is_leap(y),
        y % 100 == 0 && y % 400 != 0 ==> !is_leap(y),
        y % 4 == 0 && y % 100 != 0 ==> is_leap(y),
        day_number(y + 1, 1, 1) - day_number(y, 1, 1) == 366 <==> is_leap(y),
        day_number(y + 1, 1, 1) - day_number(y, 1, 1) == 365 <==> !is_leap(y),
        is_date(y, 2, 29) <==> is_leap(y),
        day_number(1970, 1, 1) == 0,
{
    lemma_year_length(y);
}

} // verus!
