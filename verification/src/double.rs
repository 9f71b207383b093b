//! Double-precision numbers, by integers: the double nearest to a fraction, and the decimal text of
//! a double.
use crate::text::{decimal, decimal_text, digit, digit_char};
use vstd::prelude::*;

verus! {

/// The integer nearest to `num / den`; of two that are equally near, the even one.
pub open spec fn round_even(num: nat, den: nat) -> nat {
    let low = num / den;
    let rest = num % den;
    if 2 * rest < den || (2 * rest == den && low % 2 == 0) {
        low
    } else {
        low + 1
    }
}

/// The double nearest to the integer `n`, by the multiples of `unit`, which is doubled until the
/// significand has no more than 53 bits.
pub open spec fn nearest_whole(n: nat, unit: nat) -> nat
    decreases n + 1 - unit,
{
    if unit == 0 {
        0
    } else if n < 0x20_0000_0000_0000 * unit {
        round_even(n, unit) * unit
    } else {
        nearest_whole(n, 2 * unit)
    }
}

/// The double nearest to `num / den`, as a fraction: scaled by a power of two to a significand of
/// 53 bits, and rounded.
pub open spec fn nearest(num: nat, den: nat) -> (nat, nat)
    decreases
            (if 0x10_0000_0000_0000 * den <= num < 0x20_0000_0000_0000 * den {
                0int
            } else {
                1
            }),
            (if num < 0x10_0000_0000_0000 * den {
                0x10_0000_0000_0000 * den - num
            } else {
                num - 0x10_0000_0000_0000 * den
            }),
{
    if num == 0 || den == 0 {
        (0, 1)
    } else if num < 0x10_0000_0000_0000 * den {
        let r = nearest(2 * num, den);
        (r.0, 2 * r.1)
    } else if num >= 0x20_0000_0000_0000 * den {
        let r = nearest(num, 2 * den);
        (2 * r.0, r.1)
    } else {
        (round_even(num, den), 1)
    }
}

/// The integer nearest to `num / den`; of two that are equally near, the even one.
fn round_to_even(num: u128, den: u128) -> (r: u128)
    requires
        den > 0,
        num < u128::MAX / 2,
        den < u128::MAX / 2,
    ensures
        r == round_even(num as nat, den as nat),
        r <= num / den + 1,
{
    let low: u128 = num / den;
    let rest: u128 = num % den;
    if 2 * rest < den || (2 * rest == den && low % 2 == 0) {
        low
    } else {
        low + 1
    }
}

/// The double nearest to `n`, by the multiples of `unit`.
fn whole(n: u128, unit: u128) -> (r: u128)
    requires
        0 < unit <= 0x1_0000_0000_0000,
        n <= 0x8_00_0000_0000_0000_0000,
        unit <= 1 || n >= 0x10_0000_0000_0000 * unit,
    ensures
        r == nearest_whole(n as nat, unit as nat),
        r <= 2 * n,
        n > 0 ==> r > 0,
    decreases n + 1 - unit,
{
    if n < 0x20_0000_0000_0000 * unit {
        let k: u128 = round_to_even(n, unit);
        proof {
            let q = n as int / unit as int;
            let rest = n as int % unit as int;
            assert(n as int == unit as int * q + rest) by {
                vstd::arithmetic::div_mod::lemma_fundamental_div_mod(n as int, unit as int);
            }
            if unit == 1 {
                assert(k == n) by {
                    assert(n as int % 1 == 0);
                }
                assert(k * unit == n) by (nonlinear_arith)
                    requires
                        k == n,
                        unit == 1,
                ;
            } else {
                assert(q >= 1) by (nonlinear_arith)
                    requires
                        n as int == unit as int * q + rest,
                        n >= unit,
                        rest < unit,
                        unit > 0,
                ;
                assert(k * unit <= 2 * n) by (nonlinear_arith)
                    requires
                        k <= q + 1,
                        q >= 1,
                        n as int == unit as int * q + rest,
                        rest >= 0,
                        unit > 0,
                ;
                assert(k * unit > 0) by (nonlinear_arith)
                    requires
                        k >= 1,
                        unit > 0,
                ;
            }
        }
        k * unit
    } else {
        whole(n, 2 * unit)
    }
}

/// The double nearest to `num / den`, as a fraction.
fn quotient(num: u128, den: u128) -> (r: (u128, u128))
    requires
        num <= 0x40_0000_0000_0000_0000_0000_0000_0000,
        0 < den <= 0x2_0000_0000_0000_0000,
        num < 0x20_0000_0000_0000 * den || num <= 0x1000_0000_0000_0000_0000,
    ensures
        (r.0 as nat, r.1 as nat) == nearest(num as nat, den as nat),
        r.1 > 0,
        num < 0x20_0000_0000_0000 * den ==> r.0 <= 0x20_0000_0000_0000 && r.1 * num
            <= 0x20_0000_0000_0000 * den,
        num >= 0x10_0000_0000_0000 * den ==> r.1 == 1 && r.0 * den <= 2 * num,
    decreases
            (if 0x10_0000_0000_0000 * den <= num < 0x20_0000_0000_0000 * den {
                0int
            } else {
                1
            }),
            (if num < 0x10_0000_0000_0000 * den {
                0x10_0000_0000_0000 * den - num
            } else {
                num - 0x10_0000_0000_0000 * den
            }),
{
    if num == 0 {
        (0, 1)
    } else if num < 0x10_0000_0000_0000 * den {
        let r = quotient(2 * num, den);
        proof {
            assert(r.1 * (2 * num) == (2 * r.1) * num) by (nonlinear_arith);
            assert(2 * r.1 <= (2 * r.1) * num) by (nonlinear_arith)
                requires
                    num >= 1,
                    r.1 >= 0,
            ;
        }
        (r.0, 2 * r.1)
    } else if num >= 0x20_0000_0000_0000 * den {
        let r = quotient(num, 2 * den);
        proof {
            assert(r.0 * (2 * den) == (2 * r.0) * den) by (nonlinear_arith);
            assert(2 * r.0 <= (2 * r.0) * den) by (nonlinear_arith)
                requires
                    den >= 1,
                    r.0 >= 0,
            ;
        }
        (2 * r.0, r.1)
    } else {
        let k: u128 = round_to_even(num, den);
        proof {
            let q = num as int / den as int;
            vstd::arithmetic::div_mod::lemma_fundamental_div_mod(num as int, den as int);
            assert(q < 0x20_0000_0000_0000) by (nonlinear_arith)
                requires
                    den * q <= num,
                    num < 0x20_0000_0000_0000 * den,
                    den > 0,
            ;
            assert(k * den <= 2 * num) by (nonlinear_arith)
                requires
                    k <= q + 1,
                    den * q <= num,
                    den <= num,
                    den > 0,
            ;
        }
        (k, 1)
    }
}

/// Ten to the power `n`.
pub open spec fn pow10(n: nat) -> nat
    decreases n,
{
    if n == 0 {
        1
    } else {
        10 * pow10((n - 1) as nat)
    }
}

/// The last `n` decimal digits of `k`.
pub open spec fn last_digits(k: nat, n: nat) -> Seq<char>
    decreases n,
{
    if n == 0 {
        Seq::empty()
    } else {
        last_digits(k / 10, (n - 1) as nat).push(digit_char(k % 10))
    }
}

/// The decimal text of a fraction with `places` digits behind the point, rounded half to even.
pub open spec fn fixed(value: (nat, nat), places: nat) -> Seq<char> {
    let k = round_even(value.0 * pow10(places), value.1);
    if places == 0 {
        decimal(k)
    } else {
        decimal(k / pow10(places)) + seq!['.'] + last_digits(k, places)
    }
}

/// The text of the double `n / unit` with `places` digits behind the point, where `n` is first
/// made a double.
pub open spec fn scaled(n: nat, unit: nat, places: nat) -> Seq<char> {
    fixed(nearest(nearest_whole(n, 1), unit), places)
}

/// The text of the double `n / unit` with one or two digits behind the point, where `n` is first
/// made a double.
pub fn scaled_text(n: u64, unit: u64, two_places: bool) -> (r: String)
    requires
        1000 <= unit <= 1_000_000_000,
    ensures
        r@ == scaled(
            n as nat,
            unit as nat,
            if two_places {
                2
            } else {
                1
            },
        ),
{
    let w: u128 = whole(n as u128, 1);
    let (num, den) = quotient(w, unit as u128);
    proof {
        if w > 0 {
            assert(den <= den * w) by (nonlinear_arith)
                requires
                    w >= 1,
                    den >= 0,
            ;
        }
        assert(num <= num * unit) by (nonlinear_arith)
            requires
                unit >= 1,
                num >= 0,
        ;
        reveal_with_fuel(pow10, 3);
        reveal_with_fuel(last_digits, 3);
    }
    let places: u128 = if two_places {
        100
    } else {
        10
    };
    let shifted: u128 = if two_places {
        100 * num
    } else {
        10 * num
    };
    proof {
        assert(pow10(2) == 100 && pow10(1) == 10);
        assert(num as nat * pow10(2) == 100 * num && num as nat * pow10(1) == 10 * num)
            by (nonlinear_arith)
            requires
                pow10(2) == 100,
                pow10(1) == 10,
        ;
    }
    let k: u128 = round_to_even(shifted, den);
    let mut out = decimal_text(k / places);
    out.push('.');
    if two_places {
        out.push(digit((k / 10 % 10) as u8));
    }
    out.push(digit((k % 10) as u8));
    assert(out@ =~= scaled(
        n as nat,
        unit as nat,
        if two_places {
            2
        } else {
            1
        },
    ));
    out
}

/// The text of the double `100 * part / all` without digits behind the point, where each number is
/// first made a double; zero where `all` is.
pub open spec fn percent(part: nat, all: nat) -> Seq<char> {
    if all == 0 {
        seq!['0']
    } else {
        fixed(
            nearest(nearest_whole(100 * nearest_whole(part, 1), 1), nearest_whole(all, 1)),
            0,
        )
    }
}

/// The text of the double `100 * part / all` without digits behind the point; zero where `all` is.
pub fn percent_text(part: u64, all: u64) -> (r: String)
    ensures
        r@ == percent(part as nat, all as nat),
{
    let mut out = String::new();
    if all == 0 {
        out.push('0');
        assert(out@ =~= seq!['0']);
        return out;
    }
    let times: u128 = whole(100 * whole(part as u128, 1), 1);
    let by: u128 = whole(all as u128, 1);
    let (num, den) = quotient(times, by);
    proof {
        if times > 0 {
            assert(den <= den * times) by (nonlinear_arith)
                requires
                    times >= 1,
                    den >= 0,
            ;
        }
        assert(num <= num * by) by (nonlinear_arith)
            requires
                by >= 1,
                num >= 0,
        ;
        assert(pow10(0) == 1);
        assert(num as nat * pow10(0) == num) by (nonlinear_arith)
            requires
                pow10(0) == 1,
        ;
    }
    decimal_text(round_to_even(num, den))
}

/// The distance of two numbers.
pub open spec fn distance(a: nat, b: nat) -> int {
    if a < b {
        b - a
    } else {
        a - b
    }
}

/// What is rounded to an integer is off by no more than half of one.
pub proof fn lemma_round_even(num: nat, den: nat)
    requires
        den > 0,
    ensures
        2 * distance(round_even(num, den) * den, num) <= den,
{
    let low = num / den;
    let rest = num % den;
    vstd::arithmetic::div_mod::lemma_fundamental_div_mod(num as int, den as int);
    assert(den * low == low * den) by (nonlinear_arith);
    assert((low + 1) * den == low * den + den) by (nonlinear_arith);
}

/// The double nearest to a fraction is off by no more than the 53rd power of two allows: half a
/// unit in the last place.
pub proof fn law_nearest_is_near(num: nat, den: nat)
    requires
        den > 0,
    ensures
        nearest(num, den).1 > 0,
        0x20_0000_0000_0000 * distance(nearest(num, den).0 * den, num * nearest(num, den).1)
            <= num * nearest(num, den).1,
    decreases
            (if 0x10_0000_0000_0000 * den <= num < 0x20_0000_0000_0000 * den {
                0int
            } else {
                1
            }),
            (if num < 0x10_0000_0000_0000 * den {
                0x10_0000_0000_0000 * den - num
            } else {
                num - 0x10_0000_0000_0000 * den
            }),
{
    let r = nearest(num, den);
    if num == 0 {
        assert(r.0 * den == 0) by (nonlinear_arith)
            requires
                r.0 == 0,
        ;
    } else if num < 0x10_0000_0000_0000 * den {
        law_nearest_is_near(2 * num, den);
        let h = nearest(2 * num, den);
        assert((2 * num) * h.1 == num * (2 * h.1)) by (nonlinear_arith);
    } else if num >= 0x20_0000_0000_0000 * den {
        law_nearest_is_near(num, 2 * den);
        let h = nearest(num, 2 * den);
        assert(h.0 * (2 * den) == (2 * h.0) * den) by (nonlinear_arith);
    } else {
        lemma_round_even(num, den);
        assert(num * r.1 == num) by (nonlinear_arith)
            requires
                r.1 == 1,
        ;
    }
}

} // verus!
