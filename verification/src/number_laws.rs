//! What holds of the numbers that are shown.
use crate::double::{
    distance, fixed, last_digits, law_nearest_is_near, lemma_round_even, nearest, nearest_whole,
    percent, pow10, round_even, scaled,
};
use crate::format::{short, tokens_text};
use crate::text::{decimal, digit_char, without_back};
use vstd::prelude::*;

verus! {

/// The number that decimal digits stand for.
pub open spec fn value(s: Seq<char>) -> nat
    decreases s.len(),
{
    if s.len() == 0 {
        0
    } else {
        (10 * value(s.drop_last()) + (s.last() as int - '0' as int)) as nat
    }
}

/// A number is shown by decimal digits that stand for it, without a zero in front.
pub proof fn law_decimal(n: nat)
    ensures
        value(decimal(n)) == n,
        decimal(n).len() > 0,
        forall|i: int| 0 <= i < decimal(n).len() ==> '0' <= #[trigger] decimal(n)[i] <= '9',
        n > 0 ==> decimal(n)[0] != '0',
    decreases n,
{
    let s = decimal(n);
    if n < 10 {
        assert(s.drop_last() =~= Seq::<char>::empty());
        assert(value(s.drop_last()) == 0);
    } else {
        law_decimal(n / 10);
        assert(s.drop_last() =~= decimal(n / 10));
        assert forall|i: int| 0 <= i < s.len() implies '0' <= #[trigger] s[i] <= '9' by {
            if i < s.len() - 1 {
                assert(s[i] == decimal(n / 10)[i]);
            }
        }
        assert(s[0] == decimal(n / 10)[0]);
    }
}

/// A fraction of whole numbers that a double holds, rounded as a double and then to `1 / p`.
proof fn lemma_near(n: nat, unit: nat, p: nat, step: nat, k: nat)
    requires
        unit > 0,
        p > 0,
        unit == p * step,
        n < 0x20_0000_0000_0000,
        k == round_even(nearest(n, unit).0 * p, nearest(n, unit).1),
    ensures
        2 * distance(step * k, n) <= step + 1,
{
    law_nearest_is_near(n, unit);
    let (num, den) = nearest(n, unit);
    lemma_round_even(num * p, den);
    let x: int = step * k - n;
    let y: int = k * den - num * p;
    let z: int = num * unit - n * den;
    assert(x * den == step * y + z) by (nonlinear_arith)
        requires
            x == step * k - n,
            y == k * den - num * p,
            z == num * unit - n * den,
            unit == p * step,
    ;
    assert(-(den as int) <= 2 * y <= den);
    let w: int = if z < 0 {
        -z
    } else {
        z
    };
    assert(0x20_0000_0000_0000 * w <= n * den);
    assert(w < den) by (nonlinear_arith)
        requires
            0x20_0000_0000_0000 * w <= n * den,
            n < 0x20_0000_0000_0000,
            den > 0,
            w >= 0,
            n >= 0,
    ;
    assert(2 * x * den < (step + 2) * den && 2 * x * den > -((step + 2) * den)) by (nonlinear_arith)
        requires
            x * den == step * y + z,
            -(den as int) <= 2 * y <= den,
            -(den as int) < z < den,
            den > 0,
            step >= 0,
    ;
    assert(2 * x < step + 2) by (nonlinear_arith)
        requires
            2 * x * den < (step + 2) * den,
            den > 0,
    ;
    assert(2 * x > -(step + 2)) by (nonlinear_arith)
        requires
            2 * x * den > -((step + 2) * den),
            den > 0,
    ;
}

proof fn lemma_whole(n: nat)
    requires
        n < 0x20_0000_0000_0000,
    ensures
        nearest_whole(n, 1) == n,
{
    assert(n / 1 == n && n % 1 == 0);
    assert(round_even(n, 1) == n);
}

/// The tenths `k` as they are shown: with a digit behind the point where it is not zero.
pub open spec fn tenths(k: nat) -> Seq<char> {
    if k % 10 == 0 {
        decimal(k / 10)
    } else {
        decimal(k / 10) + seq!['.', digit_char(k % 10)]
    }
}

/// The hundredths `k` as they are shown: with the digits behind the point up to the last that is
/// not zero.
pub open spec fn hundredths(k: nat) -> Seq<char> {
    if k % 10 == 0 {
        tenths(k / 10)
    } else {
        decimal(k / 100) + seq!['.', digit_char(k / 10 % 10), digit_char(k % 10)]
    }
}

proof fn lemma_short_tenths(q: nat, d: nat)
    requires
        d < 10,
    ensures
        d == 0 ==> short(decimal(q) + seq!['.', digit_char(d)]) == decimal(q),
        d != 0 ==> short(decimal(q) + seq!['.', digit_char(d)]) == decimal(q) + seq![
            '.',
            digit_char(d),
        ],
{
    let zero = |c: char| c == '0';
    let dot = |c: char| c == '.';
    let s = decimal(q) + seq!['.', digit_char(d)];
    law_decimal(q);
    assert(s.last() == digit_char(d));
    if d == 0 {
        let t = decimal(q) + seq!['.'];
        assert(s.drop_last() =~= t);
        assert(t.last() == '.');
        assert(without_back(s, zero) == without_back(t, zero));
        assert(without_back(t, zero) == t);
        assert(t.drop_last() =~= decimal(q));
        assert(without_back(t, dot) == without_back(decimal(q), dot));
        assert(without_back(decimal(q), dot) == decimal(q)) by {
            assert('0' <= decimal(q)[decimal(q).len() - 1] <= '9');
        }
    } else {
        assert(without_back(s, zero) == s);
        assert(without_back(s, dot) == s);
    }
}

proof fn lemma_short_hundredths(q: nat, a: nat, b: nat)
    requires
        a < 10,
        b < 10,
    ensures
        b == 0 ==> short(decimal(q) + seq!['.', digit_char(a), digit_char(b)]) == short(
            decimal(q) + seq!['.', digit_char(a)],
        ),
        b != 0 ==> short(decimal(q) + seq!['.', digit_char(a), digit_char(b)]) == decimal(q) + seq![
            '.',
            digit_char(a),
            digit_char(b),
        ],
{
    let zero = |c: char| c == '0';
    let dot = |c: char| c == '.';
    let s = decimal(q) + seq!['.', digit_char(a), digit_char(b)];
    assert(s.last() == digit_char(b));
    if b == 0 {
        assert(s.drop_last() =~= decimal(q) + seq!['.', digit_char(a)]);
        assert(without_back(s, zero) == without_back(s.drop_last(), zero));
    } else {
        assert(without_back(s, zero) == s);
        assert(without_back(s, dot) == s);
    }
}

proof fn lemma_scaled_tenths(n: nat, unit: nat, step: nat) -> (k: nat)
    requires
        n < 0x20_0000_0000_0000,
        unit == 10 * step,
        step > 0,
    ensures
        short(scaled(n, unit, 1)) == tenths(k),
        2 * distance(step * k, n) <= step + 1,
{
    lemma_whole(n);
    reveal_with_fuel(pow10, 2);
    reveal_with_fuel(last_digits, 2);
    let v = nearest(n, unit);
    let k = round_even(v.0 * 10, v.1);
    lemma_near(n, unit, 10, step, k);
    assert(pow10(1) == 10);
    assert(last_digits(k, 1) =~= seq![digit_char(k % 10)]);
    assert(fixed(v, 1) =~= decimal(k / 10) + seq!['.', digit_char(k % 10)]);
    lemma_short_tenths(k / 10, k % 10);
    k
}

proof fn lemma_scaled_hundredths(n: nat, unit: nat, step: nat) -> (k: nat)
    requires
        n < 0x20_0000_0000_0000,
        unit == 100 * step,
        step > 0,
    ensures
        short(scaled(n, unit, 2)) == hundredths(k),
        2 * distance(step * k, n) <= step + 1,
{
    lemma_whole(n);
    reveal_with_fuel(pow10, 3);
    reveal_with_fuel(last_digits, 3);
    let v = nearest(n, unit);
    let k = round_even(v.0 * 100, v.1);
    lemma_near(n, unit, 100, step, k);
    assert(pow10(2) == 100);
    assert(last_digits(k, 2) =~= seq![digit_char(k / 10 % 10), digit_char(k % 10)]);
    assert(fixed(v, 2) =~= decimal(k / 100) + seq![
        '.',
        digit_char(k / 10 % 10),
        digit_char(k % 10),
    ]);
    lemma_short_hundredths(k / 100, k / 10 % 10, k % 10);
    lemma_short_tenths(k / 100, k / 10 % 10);
    assert(k / 10 / 10 == k / 100);
    k
}

/// A number of tokens below a thousand is shown as it is. A greater one is shown in thousands with
/// one digit behind the point, in millions or in thousands of millions with two, and is off by no
/// more than half of the last digit's worth. Zeros at the end are left out.
pub proof fn law_tokens_shown(n: nat)
    requires
        n < 0x20_0000_0000_0000,
    ensures
        n < 1_000 ==> tokens_text(n) == decimal(n),
        1_000 <= n < 1_000_000 ==> exists|k: nat|
            tokens_text(n) == #[trigger] tenths(k) + "K"@ && 2 * distance(100 * k, n)
                <= 100,
        1_000_000 <= n < 1_000_000_000 ==> exists|k: nat|
            tokens_text(n) == #[trigger] hundredths(k) + "M"@
                && 2 * distance(10_000 * k, n) <= 10_000,
        1_000_000_000 <= n ==> exists|k: nat|
            tokens_text(n) == #[trigger] hundredths(k) + "B"@
                && 2 * distance(10_000_000 * k, n) <= 10_000_000,
{
    if n < 1_000 {
    } else if n < 1_000_000 {
        let k = lemma_scaled_tenths(n, 1_000, 100);
        assert(tokens_text(n) == tenths(k) + "K"@);
    } else if n < 1_000_000_000 {
        let k = lemma_scaled_hundredths(n, 1_000_000, 10_000);
        assert(tokens_text(n) == hundredths(k) + "M"@);
    } else {
        let k = lemma_scaled_hundredths(n, 1_000_000_000, 10_000_000);
        assert(tokens_text(n) == hundredths(k) + "B"@);
    }
}

/// The share of `part` in `all` is shown in whole hundredths, and is off by no more than half of
/// one. The share in nothing is zero.
pub proof fn law_percent_shown(part: nat, all: nat)
    requires
        100 * part < 0x20_0000_0000_0000,
        all < 0x20_0000_0000_0000,
    ensures
        all == 0 ==> percent(part, all) == seq!['0'],
        all > 0 ==> exists|k: nat|
            percent(part, all) == #[trigger] decimal(k)
                && 2 * distance(k * all, 100 * part) <= all + 1,
{
    if all > 0 {
        lemma_whole(part);
        lemma_whole(100 * part);
        lemma_whole(all);
        reveal_with_fuel(pow10, 1);
        let v = nearest(100 * part, all);
        let k = round_even(v.0 * 1, v.1);
        assert(v.0 * pow10(0) == v.0 * 1);
        lemma_near(100 * part, all, 1, all, k);
        assert(percent(part, all) == decimal(k));
        assert(all * k == k * all) by (nonlinear_arith);
    }
}

} // verus!
