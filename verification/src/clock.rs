//! Days and times of the UTC calendar.
use crate::json::opt_text;
use crate::order::{lemma_lex_at, lemma_lex_irreflexive, lemma_lex_transitive, lex_less, text_rank};
use crate::text::{digit_char, owned};
use vstd::prelude::*;
use vstd::utf8::{is_ascii_chars, is_ascii_chars_encode_utf8};

verus! {

/// The first millisecond of the year 10000.
pub const YEAR_10000_MS: i64 = 253_402_300_800_000;

/// Whether `y` is a leap year.
pub open spec fn leap(y: int) -> bool {
    (y % 4 == 0 && y % 100 != 0) || y % 400 == 0
}

/// The number of leap years from the year 1 to the one before `y`.
pub open spec fn leaps_before(y: int) -> int {
    (y - 1) / 4 - (y - 1) / 100 + (y - 1) / 400
}

/// The number of days of a year that lie in front of the month `m`.
pub open spec fn days_before_month(y: int, m: int) -> int {
    (if m == 1 {
        0
    } else if m == 2 {
        31
    } else if m == 3 {
        59
    } else if m == 4 {
        90
    } else if m == 5 {
        120
    } else if m == 6 {
        151
    } else if m == 7 {
        181
    } else if m == 8 {
        212
    } else if m == 9 {
        243
    } else if m == 10 {
        273
    } else if m == 11 {
        304
    } else if m == 12 {
        334
    } else {
        365int
    }) + (if m > 2 && leap(y) {
        1int
    } else {
        0
    })
}

/// A date from 1970 to 9999.
pub open spec fn is_date(y: int, m: int, d: int) -> bool {
    &&& 1970 <= y <= 9999
    &&& 1 <= m <= 12
    &&& 1 <= d <= days_before_month(y, m + 1) - days_before_month(y, m)
}

/// The number of days from 1970-01-01 to a date.
pub open spec fn day_number(y: int, m: int, d: int) -> int {
    365 * (y - 1970) + leaps_before(y) - leaps_before(1970) + days_before_month(y, m) + d - 1
}

/// The last two decimal digits of `n`.
pub open spec fn two_digits(n: int) -> Seq<char> {
    seq![digit_char((n / 10 % 10) as nat), digit_char((n % 10) as nat)]
}

/// A date as `YYYY-MM-DD`.
pub open spec fn date_text(y: int, m: int, d: int) -> Seq<char> {
    two_digits(y / 100) + two_digits(y) + seq!['-'] + two_digits(m) + seq!['-'] + two_digits(d)
}

/// A time of the day as `THH:MM:SS+00:00`, with the milliseconds behind the seconds where they are
/// not zero.
pub open spec fn time_text(ms: int) -> Seq<char> {
    seq!['T'] + two_digits(ms / 3_600_000) + seq![':'] + two_digits(ms / 60_000 % 60) + seq![':']
        + two_digits(ms / 1000 % 60) + (if ms % 1000 == 0 {
        Seq::empty()
    } else {
        seq!['.', digit_char((ms / 100 % 10) as nat)] + two_digits(ms)
    }) + seq!['+', '0', '0', ':', '0', '0']
}

/// `s` is the date of the day number `n`.
pub open spec fn dates(s: Seq<char>, n: int) -> bool {
    exists|y: int, m: int, d: int|
        is_date(y, m, d) && #[trigger] day_number(y, m, d) == n && s == date_text(y, m, d)
}

/// `s` is the date and the time of the millisecond `ms` after 1970-01-01.
pub open spec fn dates_with_time(s: Seq<char>, ms: int) -> bool {
    exists|y: int, m: int, d: int|
        is_date(y, m, d) && #[trigger] day_number(y, m, d) == ms / 86_400_000 && s == date_text(
            y,
            m,
            d,
        ) + time_text(ms % 86_400_000)
}

/// The UTC day of a millisecond, as `chrono` writes it.
pub uninterp spec fn utc_day_text(ms: i64) -> Option<Seq<char>>;

/// The UTC time of a millisecond, as `chrono` writes it.
pub uninterp spec fn utc_time_text(ms: i64) -> Option<Seq<char>>;

/// `chrono`'s `timestamp_millis_opt` for `Utc`, then `format` with the pattern of a date: the day
/// on which a millisecond after 1970-01-01 lies, or nothing where that day is out of the
/// calendar's range. From 1970 to 9999 it is the date of the Gregorian calendar.
#[verifier::external_body]
fn utc_day(ms: i64, pattern: &str) -> (r: Option<String>)
    requires
        pattern@ == "%Y-%m-%d"@,
    ensures
        opt_text(r) == utc_day_text(ms),
        0 <= ms < YEAR_10000_MS ==> r is Some && dates(r->0@, ms as int / 86_400_000),
{
    match chrono::TimeZone::timestamp_millis_opt(&chrono::Utc, ms).single() {
        Some(d) => Some(d.format(pattern).to_string()),
        None => None,
    }
}

/// `chrono`'s `timestamp_millis_opt` for `Utc`, then `to_rfc3339`: the date and the time of a
/// millisecond after 1970-01-01, or nothing where the day is out of the calendar's range. From
/// 1970 to 9999 it is the date of the Gregorian calendar with the time of that day.
#[verifier::external_body]
fn utc_time(ms: i64) -> (r: Option<String>)
    ensures
        opt_text(r) == utc_time_text(ms),
        0 <= ms < YEAR_10000_MS ==> r is Some && dates_with_time(r->0@, ms as int),
{
    match chrono::TimeZone::timestamp_millis_opt(&chrono::Utc, ms).single() {
        Some(d) => Some(d.to_rfc3339()),
        None => None,
    }
}

/// `found` where it is there, else `unknown`.
pub open spec fn or_unknown(found: Option<Seq<char>>) -> Seq<char> {
    match found {
        Some(s) => s,
        None => "unknown"@,
    }
}

/// `found` where it is there, else `unknown`.
pub fn known_or_unknown(found: Option<String>) -> (r: String)
    ensures
        r@ == or_unknown(opt_text(found)),
{
    match found {
        Some(s) => s,
        None => owned("unknown"),
    }
}

/// The date of the day number `n`.
pub open spec fn date_of(n: int) -> Seq<char> {
    choose|s: Seq<char>| #[trigger] dates(s, n)
}

/// The day of a time stamp: up to the year 9999 its date; `unknown` where there is no positive one.
pub open spec fn day_of(ts: Option<i64>) -> Seq<char> {
    match ts {
        Some(ms) => if ms <= 0 {
            "unknown"@
        } else if ms < YEAR_10000_MS {
            date_of(ms as int / 86_400_000)
        } else {
            or_unknown(utc_day_text(ms))
        },
        None => "unknown"@,
    }
}

/// The time of a time stamp: up to the year 9999 its date and the time of that day; `unknown` where
/// there is no positive one.
pub open spec fn time_of(ts: Option<i64>) -> Seq<char> {
    match ts {
        Some(ms) => if ms <= 0 {
            "unknown"@
        } else if ms < YEAR_10000_MS {
            date_of(ms as int / 86_400_000) + time_text(ms as int % 86_400_000)
        } else {
            or_unknown(utc_time_text(ms))
        },
        None => "unknown"@,
    }
}

/// The UTC day of a time stamp in milliseconds; `unknown` where there is no positive one, or where
/// it lies out of the calendar's range.
pub fn ms_to_day(ts: Option<i64>) -> (r: String)
    ensures
        r@ == day_of(ts),
        ts matches Some(ms) ==> (ms > 0 ==> r@ == or_unknown(utc_day_text(ms))),
        ts matches Some(ms) ==> 0 < ms < YEAR_10000_MS ==> dates(r@, ms as int / 86_400_000),
{
    match ts {
        Some(ms) if ms > 0 => {
            let r = known_or_unknown(utc_day(ms, "%Y-%m-%d"));
            proof {
                if ms < YEAR_10000_MS {
                    lemma_date_of(r@, ms as int / 86_400_000);
                }
            }
            r
        },
        _ => owned("unknown"),
    }
}

/// The UTC time of a time stamp in milliseconds, by RFC 3339; `unknown` where there is no positive
/// one, or where it lies out of the calendar's range.
pub fn ms_to_rfc3339(ts: Option<i64>) -> (r: String)
    ensures
        r@ == time_of(ts),
        ts matches Some(ms) ==> (ms > 0 ==> r@ == or_unknown(utc_time_text(ms))),
        ts matches Some(ms) ==> 0 < ms < YEAR_10000_MS ==> dates_with_time(r@, ms as int),
{
    match ts {
        Some(ms) if ms > 0 => {
            let r = known_or_unknown(utc_time(ms));
            proof {
                if ms < YEAR_10000_MS {
                    let n = ms as int / 86_400_000;
                    let (y, m, d) = choose|y: int, m: int, d: int|
                        is_date(y, m, d) && #[trigger] day_number(y, m, d) == n && r@
                            == date_text(y, m, d) + time_text(ms as int % 86_400_000);
                    assert(dates(date_text(y, m, d), n));
                    lemma_date_of(date_text(y, m, d), n);
                }
            }
            r
        },
        _ => owned("unknown"),
    }
}

proof fn lemma_date_of(s: Seq<char>, n: int)
    requires
        dates(s, n),
    ensures
        date_of(n) == s,
{
    law_dates_sort_by_time(s, n, date_of(n), n);
}

/// The date that follows on those before it.
proof fn lemma_date_exists(n: int) -> (r: (int, int, int))
    requires
        0 <= n < 2_932_897,
    ensures
        is_date(r.0, r.1, r.2),
        day_number(r.0, r.1, r.2) == n,
    decreases n,
{
    if n == 0 {
        (1970, 1, 1)
    } else {
        let (y, m, d) = lemma_date_exists(n - 1);
        if d < days_before_month(y, m + 1) - days_before_month(y, m) {
            (y, m, d + 1)
        } else if m < 12 {
            (y, m + 1, 1)
        } else {
            lemma_leaps(y);
            (y + 1, 1, 1)
        }
    }
}

/// The day of a time stamp from 1970 to 9999 is the calendar date of the day that the stamp lies
/// on, and its time is that date with the time of the day; no day and no time is known without a
/// positive stamp.
pub proof fn law_stamps_are_dated(ms: i64)
    ensures
        0 < ms < 253_402_300_800_000 ==> dates(day_of(Some(ms)), ms as int / 86_400_000),
        0 < ms < 253_402_300_800_000 ==> dates_with_time(time_of(Some(ms)), ms as int),
        ms <= 0 ==> day_of(Some(ms)) == "unknown"@ && time_of(Some(ms)) == "unknown"@,
        day_of(None) == "unknown"@,
        time_of(None) == "unknown"@,
{
    if 0 < ms < 253_402_300_800_000 {
        let n = ms as int / 86_400_000;
        let (y, m, d) = lemma_date_exists(n);
        assert(dates(date_text(y, m, d), n));
        lemma_date_of(date_text(y, m, d), n);
    }
}

/// A date is no `unknown`.
pub proof fn lemma_date_is_known(s: Seq<char>, n: int)
    requires
        dates(s, n),
    ensures
        s.len() == 10,
        s != "unknown"@,
{
    let (y, m, d) = choose|y: int, m: int, d: int|
        is_date(y, m, d) && #[trigger] day_number(y, m, d) == n && s == date_text(y, m, d);
    lemma_date_text(y, m, d);
    reveal_strlit("unknown");
    assert("unknown"@.len() == 7);
}

proof fn lemma_leaps(y: int)
    requires
        y >= 1970,
    ensures
        leaps_before(y + 1) == leaps_before(y) + (if leap(y) {
            1int
        } else {
            0
        }),
{
}

proof fn lemma_leaps_grow(a: int, b: int)
    requires
        1970 <= a <= b,
    ensures
        leaps_before(a) <= leaps_before(b),
    decreases b - a,
{
    if a < b {
        lemma_leaps_grow(a, b - 1);
        lemma_leaps(b - 1);
    }
}

/// A date comes in front of another: by the year, the month and the day.
pub open spec fn earlier(y1: int, m1: int, d1: int, y2: int, m2: int, d2: int) -> bool {
    y1 < y2 || (y1 == y2 && (m1 < m2 || (m1 == m2 && d1 < d2)))
}

proof fn lemma_months_grow(y: int, a: int, b: int)
    requires
        1 <= a <= b <= 13,
    ensures
        0 <= days_before_month(y, a) <= days_before_month(y, b) <= 365 + (if leap(y) {
            1int
        } else {
            0
        }),
{
}

proof fn lemma_earlier(y1: int, m1: int, d1: int, y2: int, m2: int, d2: int)
    requires
        is_date(y1, m1, d1),
        is_date(y2, m2, d2),
        earlier(y1, m1, d1, y2, m2, d2),
    ensures
        day_number(y1, m1, d1) < day_number(y2, m2, d2),
{
    lemma_months_grow(y1, m1, m1 + 1);
    lemma_months_grow(y1, m1 + 1, 13);
    lemma_months_grow(y2, 1, m2);
    if y1 < y2 {
        lemma_leaps(y1);
        lemma_leaps_grow(y1 + 1, y2);
    } else if m1 < m2 {
        lemma_months_grow(y1, m1 + 1, m2);
    }
}

/// The characters of a date.
pub proof fn lemma_date_text(y: int, m: int, d: int)
    requires
        is_date(y, m, d),
    ensures
        date_text(y, m, d).len() == 10,
        text_rank(date_text(y, m, d)) == seq![
            48 + y / 1000,
            48 + y / 100 % 10,
            48 + y / 10 % 10,
            48 + y % 10,
            45,
            48 + m / 10,
            48 + m % 10,
            45,
            48 + d / 10,
            48 + d % 10,
        ],
{
    let s = date_text(y, m, d);
    lemma_months_grow(y, m, m + 1);
    assert(d <= 31);
    assert(y / 100 / 10 % 10 == y / 1000);
    assert(is_ascii_chars(s));
    is_ascii_chars_encode_utf8(s);
    assert(text_rank(s) =~= seq![
        48 + y / 1000,
        48 + y / 100 % 10,
        48 + y / 10 % 10,
        48 + y % 10,
        45,
        48 + m / 10,
        48 + m % 10,
        45,
        48 + d / 10,
        48 + d % 10,
    ]);
}

/// Dates from 1970 to 9999 stand in the order of their texts.
pub proof fn law_dates_sort_by_time(s1: Seq<char>, n1: int, s2: Seq<char>, n2: int)
    requires
        dates(s1, n1),
        dates(s2, n2),
    ensures
        n1 < n2 <==> lex_less(text_rank(s1), text_rank(s2)),
        n1 == n2 <==> s1 == s2,
{
    let (y1, m1, d1) = choose|y: int, m: int, d: int|
        is_date(y, m, d) && #[trigger] day_number(y, m, d) == n1 && s1 == date_text(y, m, d);
    let (y2, m2, d2) = choose|y: int, m: int, d: int|
        is_date(y, m, d) && #[trigger] day_number(y, m, d) == n2 && s2 == date_text(y, m, d);
    if earlier(y1, m1, d1, y2, m2, d2) {
        lemma_earlier(y1, m1, d1, y2, m2, d2);
        lemma_earlier_text(y1, m1, d1, y2, m2, d2);
    } else if earlier(y2, m2, d2, y1, m1, d1) {
        lemma_earlier(y2, m2, d2, y1, m1, d1);
        lemma_earlier_text(y2, m2, d2, y1, m1, d1);
    } else {
        lemma_lex_irreflexive(text_rank(s1));
    }
}

/// The first digit by which two numbers of four digits differ tells which one is less.
proof fn lemma_four_digits(a: int, b: int)
    requires
        0 <= a < b <= 9999,
    ensures
        a / 1000 <= b / 1000,
        a / 1000 == b / 1000 ==> a / 100 % 10 <= b / 100 % 10,
        a / 1000 == b / 1000 && a / 100 % 10 == b / 100 % 10 ==> a / 10 % 10 <= b / 10 % 10,
        a / 1000 == b / 1000 && a / 100 % 10 == b / 100 % 10 && a / 10 % 10 == b / 10 % 10 ==> a
            % 10 < b % 10,
{
}

proof fn lemma_earlier_text(y1: int, m1: int, d1: int, y2: int, m2: int, d2: int)
    requires
        is_date(y1, m1, d1),
        is_date(y2, m2, d2),
        earlier(y1, m1, d1, y2, m2, d2),
    ensures
        lex_less(text_rank(date_text(y1, m1, d1)), text_rank(date_text(y2, m2, d2))),
        !lex_less(text_rank(date_text(y2, m2, d2)), text_rank(date_text(y1, m1, d1))),
        date_text(y1, m1, d1) != date_text(y2, m2, d2),
{
    let a = text_rank(date_text(y1, m1, d1));
    let b = text_rank(date_text(y2, m2, d2));
    lemma_date_text(y1, m1, d1);
    lemma_date_text(y2, m2, d2);
    let k: int = if y1 < y2 {
        lemma_four_digits(y1, y2);
        if y1 / 1000 < y2 / 1000 {
            0
        } else if y1 / 100 % 10 < y2 / 100 % 10 {
            1
        } else if y1 / 10 % 10 < y2 / 10 % 10 {
            2
        } else {
            3
        }
    } else if m1 < m2 {
        lemma_four_digits(m1, m2);
        if m1 / 10 < m2 / 10 {
            5
        } else {
            6
        }
    } else {
        lemma_four_digits(d1, d2);
        if d1 / 10 < d2 / 10 {
            8
        } else {
            9
        }
    };
    lemma_lex_at(a, b, k);
    if lex_less(b, a) {
        lemma_lex_transitive(a, b, a);
    }
    lemma_lex_irreflexive(a);
}

} // verus!
