//! What holds of the order of times.
use crate::clock::{
    date_text, dates, dates_with_time, day_number, is_date, law_dates_sort_by_time,
    lemma_date_text, time_text, two_digits,
};
use crate::order::{
    lemma_lex_at, lemma_lex_irreflexive, lemma_lex_transitive, lex_less, text_rank,
};
use crate::select::{law_latest_activity_first, lists_sessions, SortMode};
use crate::session::SessionStat;
use crate::text::digit_char;
use vstd::prelude::*;
use vstd::utf8::{is_ascii_chars, is_ascii_chars_encode_utf8};

verus! {

proof fn lemma_ascii_rank(s: Seq<char>)
    requires
        forall|i: int| 0 <= i < s.len() ==> '\0' <= #[trigger] s[i] <= '\u{7f}',
    ensures
        text_rank(s).len() == s.len(),
        forall|i: int| 0 <= i < s.len() ==> #[trigger] text_rank(s)[i] == s[i] as int,
{
    assert(is_ascii_chars(s));
    is_ascii_chars_encode_utf8(s);
}

/// The hour, the minute, the second and the millisecond of a time of the day.
spec fn hand(ms: int, k: int) -> int {
    if k == 0 {
        ms / 3_600_000
    } else if k == 1 {
        ms / 60_000 % 60
    } else if k == 2 {
        ms / 1000 % 60
    } else {
        ms % 1000
    }
}

proof fn lemma_hands(ms: int)
    requires
        0 <= ms < 86_400_000,
    ensures
        0 <= hand(ms, 0) < 24,
        0 <= hand(ms, 1) < 60,
        0 <= hand(ms, 2) < 60,
        0 <= hand(ms, 3) < 1000,
        ms == 3_600_000 * hand(ms, 0) + 60_000 * hand(ms, 1) + 1000 * hand(ms, 2) + hand(ms, 3),
        ms / 100 % 10 == hand(ms, 3) / 100,
        ms / 10 % 10 == hand(ms, 3) / 10 % 10,
        ms % 10 == hand(ms, 3) % 10,
{
    let q = ms / 1000;
    let f = ms % 1000;
    vstd::arithmetic::div_mod::lemma_div_denominator(ms, 1000, 60);
    vstd::arithmetic::div_mod::lemma_div_denominator(ms, 60_000, 60);
    assert(ms / 60_000 == q / 60);
    assert(ms / 3_600_000 == ms / 60_000 / 60);
    assert(ms == 1000 * q + f);
    lemma_low_digits(q, f);
}

proof fn lemma_low_digits(q: int, f: int)
    requires
        0 <= q,
        0 <= f < 1000,
    ensures
        (1000 * q + f) / 100 % 10 == f / 100,
        (1000 * q + f) / 10 % 10 == f / 10 % 10,
        (1000 * q + f) % 10 == f % 10,
{
    assert((1000 * q + f) / 100 == 10 * q + f / 100);
    assert((1000 * q + f) / 10 == 100 * q + f / 10);
}

/// The characters of a time of the day.
proof fn lemma_time_chars(ms: int)
    requires
        0 <= ms < 86_400_000,
    ensures
        ({
            let t = time_text(ms);
            &&& t.len() == (if hand(ms, 3) == 0 {
                15int
            } else {
                19int
            })
            &&& t[0] == 'T' && t[3] == ':' && t[6] == ':'
            &&& t[1] as int == 48 + hand(ms, 0) / 10 && t[2] as int == 48 + hand(ms, 0) % 10
            &&& t[4] as int == 48 + hand(ms, 1) / 10 && t[5] as int == 48 + hand(ms, 1) % 10
            &&& t[7] as int == 48 + hand(ms, 2) / 10 && t[8] as int == 48 + hand(ms, 2) % 10
            &&& hand(ms, 3) == 0 ==> t[9] == '+'
            &&& hand(ms, 3) != 0 ==> t[9] == '.' && t[10] as int == 48 + hand(ms, 3) / 100
                && t[11] as int == 48 + hand(ms, 3) / 10 % 10 && t[12] as int == 48 + hand(ms, 3)
                % 10
        }),
        forall|i: int|
            0 <= i < time_text(ms).len() ==> '\0' <= #[trigger] time_text(ms)[i] <= '\u{7f}',
{
    lemma_hands(ms);
    let t = time_text(ms);
    let (h, m, s, f) = (hand(ms, 0), hand(ms, 1), hand(ms, 2), hand(ms, 3));
    assert(h / 10 % 10 == h / 10);
    assert(m / 10 % 10 == m / 10);
    assert(s / 10 % 10 == s / 10);
    let tail = seq!['+', '0', '0', ':', '0', '0'];
    let front = seq!['T'] + two_digits(h) + seq![':'] + two_digits(m) + seq![':'] + two_digits(s);
    assert(front.len() == 9);
    let more = if f == 0 {
        Seq::empty()
    } else {
        seq!['.', digit_char((ms / 100 % 10) as nat)] + two_digits(ms)
    };
    assert(t == front + more + tail);
    assert(t[1] == front[1] && t[2] == front[2] && t[4] == front[4] && t[5] == front[5] && t[7]
        == front[7] && t[8] == front[8]);
    if f != 0 {
        assert(t[9] == more[0] && t[10] == more[1] && t[11] == more[2] && t[12] == more[3]);
    }
    assert forall|i: int| 0 <= i < t.len() implies '\0' <= #[trigger] t[i] <= '\u{7f}' by {
        if i < 9 {
            assert(t[i] == front[i]);
        } else if i < 9 + more.len() {
            assert(t[i] == more[i - 9]);
        } else {
            assert(t[i] == tail[i - 9 - more.len()]);
        }
    }
}

proof fn lemma_time_is_ascii(ms: int)
    requires
        0 <= ms < 86_400_000,
    ensures
        forall|i: int|
            0 <= i < time_text(ms).len() ==> '\0' <= #[trigger] time_text(ms)[i] <= '\u{7f}',
{
    lemma_time_chars(ms);
}

/// Of two numbers below a thousand the digits tell which one is less.
proof fn lemma_digits(a: int, b: int)
    requires
        0 <= a < b < 1000,
    ensures
        a / 100 < b / 100 || (a / 100 == b / 100 && (a / 10 % 10 < b / 10 % 10 || (a / 10 % 10 == b
            / 10 % 10 && a % 10 < b % 10))),
        b < 100 ==> a / 10 < b / 10 || (a / 10 == b / 10 && a % 10 < b % 10),
{
}

proof fn lemma_times_of_a_day(a: int, b: int)
    requires
        0 <= a < b < 86_400_000,
    ensures
        lex_less(text_rank(time_text(a)), text_rank(time_text(b))),
{
    lemma_hands(a);
    lemma_hands(b);
    lemma_time_chars(a);
    lemma_time_chars(b);
    let s = time_text(a);
    let t = time_text(b);
    lemma_ascii_rank(s);
    lemma_ascii_rank(t);
    let x = text_rank(s);
    let y = text_rank(t);
    let (h1, h2) = (hand(a, 0), hand(b, 0));
    let (m1, m2) = (hand(a, 1), hand(b, 1));
    let (s1, s2) = (hand(a, 2), hand(b, 2));
    let (f1, f2) = (hand(a, 3), hand(b, 3));
    lemma_first_difference(x, y, s, t, h1, h2, m1, m2, s1, s2, f1, f2);
}

proof fn lemma_first_difference(
    x: Seq<int>,
    y: Seq<int>,
    s: Seq<char>,
    t: Seq<char>,
    h1: int,
    h2: int,
    m1: int,
    m2: int,
    s1: int,
    s2: int,
    f1: int,
    f2: int,
)
    requires
        0 <= h1 < 24 && 0 <= h2 < 24,
        0 <= m1 < 60 && 0 <= m2 < 60,
        0 <= s1 < 60 && 0 <= s2 < 60,
        0 <= f1 < 1000 && 0 <= f2 < 1000,
        3_600_000 * h1 + 60_000 * m1 + 1000 * s1 + f1 < 3_600_000 * h2 + 60_000 * m2 + 1000 * s2
            + f2,
        x.len() == s.len() && y.len() == t.len(),
        forall|i: int| 0 <= i < s.len() ==> #[trigger] x[i] == s[i] as int,
        forall|i: int| 0 <= i < t.len() ==> #[trigger] y[i] == t[i] as int,
        s.len() == (if f1 == 0 {
            15int
        } else {
            19int
        }),
        t.len() == (if f2 == 0 {
            15int
        } else {
            19int
        }),
        s[0] == 'T' && s[3] == ':' && s[6] == ':',
        t[0] == 'T' && t[3] == ':' && t[6] == ':',
        s[1] as int == 48 + h1 / 10 && s[2] as int == 48 + h1 % 10,
        t[1] as int == 48 + h2 / 10 && t[2] as int == 48 + h2 % 10,
        s[4] as int == 48 + m1 / 10 && s[5] as int == 48 + m1 % 10,
        t[4] as int == 48 + m2 / 10 && t[5] as int == 48 + m2 % 10,
        s[7] as int == 48 + s1 / 10 && s[8] as int == 48 + s1 % 10,
        t[7] as int == 48 + s2 / 10 && t[8] as int == 48 + s2 % 10,
        f1 == 0 ==> s[9] == '+',
        f2 == 0 ==> t[9] == '+',
        f1 != 0 ==> s[9] == '.' && s[10] as int == 48 + f1 / 100 && s[11] as int == 48 + f1 / 10
            % 10 && s[12] as int == 48 + f1 % 10,
        f2 != 0 ==> t[9] == '.' && t[10] as int == 48 + f2 / 100 && t[11] as int == 48 + f2 / 10
            % 10 && t[12] as int == 48 + f2 % 10,
    ensures
        lex_less(x, y),
{
    assert(x[0] == y[0] && x[3] == y[3] && x[6] == y[6]);
    assert(x[1] == 48 + h1 / 10 && y[1] == 48 + h2 / 10);
    assert(x[2] == 48 + h1 % 10 && y[2] == 48 + h2 % 10);
    assert(x[4] == 48 + m1 / 10 && y[4] == 48 + m2 / 10);
    assert(x[5] == 48 + m1 % 10 && y[5] == 48 + m2 % 10);
    assert(x[7] == 48 + s1 / 10 && y[7] == 48 + s2 / 10);
    assert(x[8] == 48 + s1 % 10 && y[8] == 48 + s2 % 10);
    if h1 != h2 {
        lemma_digits(h1, h2);
        if h1 / 10 < h2 / 10 {
            lemma_lex_at(x, y, 1);
        } else {
            lemma_lex_at(x, y, 2);
        }
    } else if m1 != m2 {
        lemma_digits(m1, m2);
        if m1 / 10 < m2 / 10 {
            lemma_lex_at(x, y, 4);
        } else {
            lemma_lex_at(x, y, 5);
        }
    } else if s1 != s2 {
        lemma_digits(s1, s2);
        if s1 / 10 < s2 / 10 {
            lemma_lex_at(x, y, 7);
        } else {
            lemma_lex_at(x, y, 8);
        }
    } else {
        assert(y[9] == '.' as int);
        if f1 == 0 {
            assert(x[9] == '+' as int);
            lemma_lex_at(x, y, 9);
        } else {
            lemma_digits(f1, f2);
            assert(x[9] == y[9]);
            assert(x[10] == 48 + f1 / 100 && y[10] == 48 + f2 / 100);
            assert(x[11] == 48 + f1 / 10 % 10 && y[11] == 48 + f2 / 10 % 10);
            assert(x[12] == 48 + f1 % 10 && y[12] == 48 + f2 % 10);
            if f1 / 100 < f2 / 100 {
                lemma_lex_at(x, y, 10);
            } else if f1 / 10 % 10 < f2 / 10 % 10 {
                lemma_lex_at(x, y, 11);
            } else {
                lemma_lex_at(x, y, 12);
            }
        }
    }
}

proof fn lemma_rank_concat(d: Seq<char>, t: Seq<char>)
    requires
        forall|i: int| 0 <= i < d.len() ==> '\0' <= #[trigger] d[i] <= '\u{7f}',
        forall|i: int| 0 <= i < t.len() ==> '\0' <= #[trigger] t[i] <= '\u{7f}',
    ensures
        text_rank(d + t) == text_rank(d) + text_rank(t),
{
    let s = d + t;
    assert forall|i: int| 0 <= i < s.len() implies '\0' <= #[trigger] s[i] <= '\u{7f}' by {
        if i < d.len() {
            assert(s[i] == d[i]);
        } else {
            assert(s[i] == t[i - d.len()]);
        }
    }
    lemma_ascii_rank(s);
    lemma_ascii_rank(d);
    lemma_ascii_rank(t);
    assert(text_rank(s) =~= text_rank(d) + text_rank(t));
}

proof fn lemma_lex_first_part(a: Seq<int>, b: Seq<int>, u: Seq<int>, v: Seq<int>)
    requires
        a.len() == b.len(),
        lex_less(a, b),
    ensures
        lex_less(a + u, b + v),
    decreases a.len(),
{
    let x = a + u;
    let y = b + v;
    assert(x[0] == a[0] && y[0] == b[0]);
    if a[0] == b[0] {
        assert(x.skip(1) =~= a.skip(1) + u);
        assert(y.skip(1) =~= b.skip(1) + v);
        lemma_lex_first_part(a.skip(1), b.skip(1), u, v);
    }
}

proof fn lemma_lex_second_part(a: Seq<int>, u: Seq<int>, v: Seq<int>)
    requires
        lex_less(u, v),
    ensures
        lex_less(a + u, a + v),
    decreases a.len(),
{
    if a.len() == 0 {
        assert(a + u =~= u);
        assert(a + v =~= v);
    } else {
        assert((a + u).skip(1) =~= a.skip(1) + u);
        assert((a + v).skip(1) =~= a.skip(1) + v);
        lemma_lex_second_part(a.skip(1), u, v);
    }
}

proof fn lemma_date_is_ascii(y: int, m: int, d: int)
    requires
        is_date(y, m, d),
    ensures
        forall|i: int|
            0 <= i < date_text(y, m, d).len() ==> '\0' <= #[trigger] date_text(y, m, d)[i]
                <= '\u{7f}',
{
    lemma_date_text(y, m, d);
    let s = date_text(y, m, d);
    assert(y / 100 / 10 % 10 == y / 1000);
    assert forall|i: int| 0 <= i < s.len() implies '\0' <= #[trigger] s[i] <= '\u{7f}' by {}
}

/// A time is a date with a time of the day.
proof fn lemma_split_time(s: Seq<char>, ms: int) -> (p: Seq<char>)
    requires
        dates_with_time(s, ms),
    ensures
        dates(p, ms / 86_400_000),
        s == p + time_text(ms % 86_400_000),
{
    let n = ms / 86_400_000;
    let t = time_text(ms % 86_400_000);
    let (y, m, d) = choose|y: int, m: int, d: int|
        is_date(y, m, d) && #[trigger] day_number(y, m, d) == n && s == date_text(y, m, d) + t;
    let p = date_text(y, m, d);
    assert(dates(p, n)) by {
        assert(day_number(y, m, d) == n);
    }
    p
}

proof fn lemma_bytes_of_a_date(p: Seq<char>, n: int)
    requires
        dates(p, n),
    ensures
        text_rank(p).len() == 10,
        forall|i: int| 0 <= i < p.len() ==> '\0' <= #[trigger] p[i] <= '\u{7f}',
{
    let (y, m, d) = choose|y: int, m: int, d: int|
        is_date(y, m, d) && #[trigger] day_number(y, m, d) == n && p == date_text(y, m, d);
    lemma_date_is_ascii(y, m, d);
    lemma_date_text(y, m, d);
}

proof fn lemma_earlier_parts(
    p: Seq<char>,
    q: Seq<char>,
    n1: int,
    n2: int,
    a: int,
    b: int,
)
    requires
        dates(p, n1),
        dates(q, n2),
        n1 < n2 || (n1 == n2 && a < b),
        0 <= a < 86_400_000,
        0 <= b < 86_400_000,
    ensures
        lex_less(text_rank(p + time_text(a)), text_rank(q + time_text(b))),
{
    let (u, v) = (time_text(a), time_text(b));
    lemma_bytes_of_a_date(p, n1);
    lemma_bytes_of_a_date(q, n2);
    lemma_time_is_ascii(a);
    lemma_time_is_ascii(b);
    lemma_rank_concat(p, u);
    lemma_rank_concat(q, v);
    law_dates_sort_by_time(p, n1, q, n2);
    if n1 < n2 {
        lemma_lex_first_part(text_rank(p), text_rank(q), text_rank(u), text_rank(v));
    } else {
        lemma_times_of_a_day(a, b);
        lemma_lex_second_part(text_rank(p), text_rank(u), text_rank(v));
    }
}

proof fn lemma_earlier_time(s1: Seq<char>, a: int, s2: Seq<char>, b: int)
    requires
        dates_with_time(s1, a),
        dates_with_time(s2, b),
        0 <= a < b,
    ensures
        lex_less(text_rank(s1), text_rank(s2)),
{
    let p = lemma_split_time(s1, a);
    let q = lemma_split_time(s2, b);
    lemma_earlier_parts(
        p,
        q,
        a / 86_400_000,
        b / 86_400_000,
        a % 86_400_000,
        b % 86_400_000,
    );
}

/// Times from 1970 to 9999 stand in the order of their texts.
pub proof fn law_times_sort_by_text(s1: Seq<char>, a: int, s2: Seq<char>, b: int)
    requires
        dates_with_time(s1, a),
        dates_with_time(s2, b),
        0 <= a,
        0 <= b,
    ensures
        a < b <==> lex_less(text_rank(s1), text_rank(s2)),
{
    if a < b {
        lemma_earlier_time(s1, a, s2, b);
    } else if b < a {
        lemma_earlier_time(s2, b, s1, a);
        lemma_lex_irreflexive(text_rank(s1));
        if lex_less(text_rank(s1), text_rank(s2)) {
            lemma_lex_transitive(text_rank(s1), text_rank(s2), text_rank(s1));
        }
    } else {
        let p = lemma_split_time(s1, a);
        let q = lemma_split_time(s2, b);
        law_dates_sort_by_time(p, a / 86_400_000, q, a / 86_400_000);
        assert(s1 == s2);
        lemma_lex_irreflexive(text_rank(s1));
    }
}

/// Sessions that are sorted by their activity come in the order of time: where the last activities
/// of two of them lie at the milliseconds `a` and `b`, the one with the later comes first.
pub proof fn law_later_sessions_first(
    stats: Seq<SessionStat>,
    since: Option<Seq<char>>,
    usage_only: bool,
    r: Seq<usize>,
    i: int,
    j: int,
    a: int,
    b: int,
)
    requires
        lists_sessions(stats, since, usage_only, SortMode::Recent, r),
        0 <= i < j < r.len(),
        dates_with_time(stats[r[i] as int].last_activity@, a),
        dates_with_time(stats[r[j] as int].last_activity@, b),
        0 <= a,
        0 <= b,
    ensures
        a >= b,
{
    law_latest_activity_first(stats, since, usage_only, r);
    law_times_sort_by_text(
        stats[r[i] as int].last_activity@,
        a,
        stats[r[j] as int].last_activity@,
        b,
    );
}

} // verus!
