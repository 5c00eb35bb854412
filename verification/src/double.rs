//! Decimals as doubles write them.
//!
//! The digits of a decimal are those of the double nearest to it: the number with a mantissa of 53
//! bits. Where no tie is rounded that makes no difference to a decimal of ordinary size.

use vstd::prelude::*;
use vstd::string::*;
use vstd::arithmetic::div_mod::{
    lemma_div_pos_is_pos, lemma_fundamental_div_mod, lemma_fundamental_div_mod_converse,
    lemma_mod_bound,
};
use crate::decimal::{
    abs, all_digits, before_first, decimal_value, digits_value, fraction, in_range, is_digit,
    law_rounding_is_to_the_nearest, lemma_all_digits_part, lemma_digits_bound, lemma_digits_concat,
    lemma_divides_negated, lemma_nat_chars, lemma_no_exponent, lemma_padded, lemma_point,
    lemma_pow10_monotone, lemma_pow10_split, lemma_pow10_values, lemma_zeros, mantissa, padded,
    pow10, round_half_even, scaled, unsigned, zeros, LIMIT, SCALE,
};
use crate::text::{digit, digit_char, nat_chars, nat_text};

verus! {

/// `2^n`.
pub open spec fn pow2(n: nat) -> nat
    decreases n,
{
    if n == 0 {
        1
    } else {
        2 * pow2((n - 1) as nat)
    }
}

/// The least mantissa of a double.
pub const MANTISSA_MIN: u128 = 0x10_0000_0000_0000;

/// Whether `m` units times `2^k` have a mantissa of 53 bits before the point.
pub open spec fn in_binade(m: nat, k: int) -> bool {
    if k >= 0 {
        MANTISSA_MIN * SCALE <= m * pow2(k as nat) < 2 * MANTISSA_MIN * SCALE
    } else {
        MANTISSA_MIN * SCALE * pow2((-k) as nat) <= m < 2 * MANTISSA_MIN * SCALE * pow2((-k) as nat)
    }
}

/// The power of two that the mantissa of the double nearest to `m` units is divided by.
pub open spec fn binade(m: nat) -> int {
    choose|k: int| in_binade(m, k)
}

/// The mantissa of the double nearest to `m` units, where `k` is its binade.
pub open spec fn mantissa_bits(m: nat, k: int) -> nat {
    if k >= 0 {
        round_half_even(m * pow2(k as nat), SCALE as nat)
    } else {
        round_half_even(m, SCALE as nat * pow2((-k) as nat))
    }
}

/// The double nearest to `m` units, in units of `10^-prec`, rounded to the nearest integer, ties to
/// the even one.
pub open spec fn written(m: nat, prec: nat) -> nat {
    let k = binade(m);
    let q = mantissa_bits(m, k);
    if m == 0 {
        0
    } else if k >= 0 {
        round_half_even(q * pow10(prec), pow2(k as nat))
    } else {
        q * pow2((-k) as nat) * pow10(prec)
    }
}

/// A number of units of `10^-prec` with its point.
pub open spec fn pointed(n: nat, prec: nat) -> Seq<char> {
    if prec == 0 {
        nat_chars(n)
    } else {
        nat_chars(n / pow10(prec)).push('.') + padded(n % pow10(prec), prec)
    }
}

/// `x` units written with `prec` fraction digits, as the double nearest to them is.
pub open spec fn fixed_chars(x: int, prec: nat) -> Seq<char> {
    let sign = if x < 0 {
        seq!['-']
    } else {
        Seq::empty()
    };
    sign + pointed(written(abs(x) as nat, prec), prec)
}

/// Powers of two grow.
proof fn lemma_pow2_monotone(a: nat, b: nat)
    requires
        a <= b,
    ensures
        0 < pow2(a) <= pow2(b),
        a < b ==> 2 * pow2(a) <= pow2(b),
    decreases b,
{
    if b > 0 {
        if a == b {
            lemma_pow2_monotone((a - 1) as nat, (b - 1) as nat);
        } else {
            lemma_pow2_monotone(a, (b - 1) as nat);
        }
    }
}

/// There is one binade at most.
proof fn lemma_binade_unique(m: nat, a: int, b: int)
    requires
        in_binade(m, a),
        in_binade(m, b),
    ensures
        a == b,
{
    if a < b {
        lemma_binade_order(m, a, b);
    } else if b < a {
        lemma_binade_order(m, b, a);
    }
}

/// A smaller power leaves less.
proof fn lemma_binade_order(m: nat, a: int, b: int)
    requires
        in_binade(m, a),
        a < b,
    ensures
        !in_binade(m, b),
{
    let unit = MANTISSA_MIN * SCALE;
    if a >= 0 {
        lemma_pow2_monotone(a as nat, b as nat);
        let x = pow2(a as nat) as int;
        let y = pow2(b as nat) as int;
        assert(m * y >= 2 * (m * x)) by (nonlinear_arith)
            requires
                y >= 2 * x,
                m >= 0,
        ;
    } else if b >= 0 {
        lemma_pow2_monotone(0, (-a) as nat);
        lemma_pow2_monotone(0, b as nat);
        let x = pow2((-a) as nat) as int;
        let y = pow2(b as nat) as int;
        assert(x >= 2) by {
            lemma_pow2_monotone(0, (-a) as nat);
        }
        assert(unit * x >= 2 * unit) by (nonlinear_arith)
            requires
                x >= 2,
                unit >= 0,
        ;
        assert(m * y >= m) by (nonlinear_arith)
            requires
                y >= 1,
                m >= 0,
        ;
    } else {
        lemma_pow2_monotone((-b) as nat, (-a) as nat);
        let x = pow2((-a) as nat) as int;
        let y = pow2((-b) as nat) as int;
        assert(unit * x >= 2 * unit * y) by (nonlinear_arith)
            requires
                x >= 2 * y,
                unit >= 0,
        ;
    }
}

/// The double nearest to `m` units: its mantissa, the power of two that it is divided by where `up`
/// is true and else multiplied with, and the exponent of that power.
struct Parts {
    mantissa: u128,
    up: bool,
    power: u128,
    exp: Ghost<nat>,
}

impl Parts {
    /// The binade.
    spec fn binade(self) -> int {
        if self.up {
            self.exp@ as int
        } else {
            -(self.exp@ as int)
        }
    }

    /// Whether these are the parts of the double nearest to `m` units.
    spec fn of(self, m: nat) -> bool {
        &&& self.power == pow2(self.exp@)
        &&& self.power >= 1
        &&& !self.up ==> self.exp@ > 0
        &&& in_binade(m, self.binade())
        &&& self.mantissa == mantissa_bits(m, self.binade())
        &&& self.mantissa <= 2 * MANTISSA_MIN
        &&& self.up ==> self.power <= 2 * MANTISSA_MIN * SCALE
        &&& !self.up ==> self.power * 2 * MANTISSA_MIN * SCALE <= u128::MAX
    }
}

/// A quotient rounded to the nearest integer.
fn rounded(a: u128, b: u128) -> (q: u128)
    requires
        b > 0,
        2 * b <= u128::MAX,
        a < u128::MAX,
    ensures
        q == round_half_even(a as nat, b as nat),
{
    let q0: u128 = a / b;
    let r0: u128 = a % b;
    proof {
        lemma_mod_bound(a as int, b as int);
        vstd::arithmetic::div_mod::lemma_div_is_ordered_by_denominator(a as int, 1, b as int);
    }
    if 2 * r0 > b || (2 * r0 == b && q0 % 2 == 1) {
        q0 + 1
    } else {
        q0
    }
}

/// A quotient below a bound is not rounded beyond it.
proof fn lemma_rounded_bound(a: nat, b: nat, c: nat)
    requires
        b > 0,
        a < c * b,
    ensures
        round_half_even(a, b) <= c,
{
    lemma_fundamental_div_mod(a as int, b as int);
    lemma_mod_bound(a as int, b as int);
    let q = a as int / b as int;
    assert(q < c) by (nonlinear_arith)
        requires
            a == b * q + a as int % b as int,
            0 <= a as int % (b as int),
            a < c * b,
            b > 0,
    ;
}

/// The double nearest to `m` units.
fn double_of(m: u128) -> (d: Parts)
    requires
        0 < m <= i128::MAX,
    ensures
        d.of(m as nat),
{
    let unit: u128 = MANTISSA_MIN * SCALE as u128;
    if m >= 2 * unit {
        let mut bound: u128 = 2 * unit;
        let mut power: u128 = 1;
        let mut exp: Ghost<nat> = Ghost(0);
        while m >= bound
            invariant
                unit == MANTISSA_MIN * SCALE,
                m <= i128::MAX,
                m >= 2 * unit,
                bound == 2 * unit * power,
                power == pow2(exp@),
                power >= 1,
                exp@ > 0 ==> m >= unit * power,
                bound <= 2 * m || exp@ == 0,
            decreases 2 * m - bound,
        {
            proof {
                assert(2 * unit * power >= power) by (nonlinear_arith)
                    requires
                        unit >= 1,
                        power >= 0,
                ;
                assert(2 * unit * (2 * power) == 2 * (2 * unit * power)) by (nonlinear_arith);
                assert(unit * (2 * power) == 2 * unit * power) by (nonlinear_arith);
            }
            bound = bound * 2;
            power = power * 2;
            exp = Ghost((exp@ + 1) as nat);
        }
        let den: u128 = (SCALE as u128) * power;
        let q = rounded(m, den);
        proof {
            let k = exp@;
            assert(SCALE * power <= 2 * unit * power) by (nonlinear_arith)
                requires
                    unit == MANTISSA_MIN * SCALE,
                    power >= 0,
                    MANTISSA_MIN >= 1,
                    SCALE >= 1,
            ;
            assert(MANTISSA_MIN * SCALE * power == unit * power) by (nonlinear_arith)
                requires
                    unit == MANTISSA_MIN * SCALE,
            ;
            assert(2 * MANTISSA_MIN * SCALE * power == 2 * unit * power) by (nonlinear_arith)
                requires
                    unit == MANTISSA_MIN * SCALE,
            ;
            assert(in_binade(m as nat, -(k as int)));
            assert((2 * MANTISSA_MIN) * (SCALE * power) == 2 * unit * power) by (nonlinear_arith)
                requires
                    unit == MANTISSA_MIN * SCALE,
            ;
            lemma_rounded_bound(m as nat, den as nat, (2 * MANTISSA_MIN) as nat);
            assert(power * 2 * MANTISSA_MIN * SCALE == 2 * unit * power) by (nonlinear_arith)
                requires
                    unit == MANTISSA_MIN * SCALE,
            ;
        }
        Parts { mantissa: q, up: false, power, exp }
    } else {
        let mut n: u128 = m;
        let mut power: u128 = 1;
        let mut exp: Ghost<nat> = Ghost(0);
        assert(m * pow2(0) == m) by {
            let one = pow2(0) as int;
            assert(m * one == m) by (nonlinear_arith)
                requires
                    one == 1,
            ;
        }
        while n < unit
            invariant
                unit == MANTISSA_MIN * SCALE,
                0 < m,
                n == m * pow2(exp@),
                power == pow2(exp@),
                1 <= power <= n,
                n < 2 * unit,
            decreases 2 * unit - n,
        {
            proof {
                let p = pow2(exp@) as int;
                let p2 = pow2((exp@ + 1) as nat) as int;
                assert(m * p2 == 2 * (m * p)) by (nonlinear_arith)
                    requires
                        p2 == 2 * p,
                ;
            }
            n = n * 2;
            power = power * 2;
            exp = Ghost((exp@ + 1) as nat);
        }
        let q = rounded(n, SCALE as u128);
        proof {
            assert(in_binade(m as nat, exp@ as int));
            lemma_rounded_bound(n as nat, SCALE as nat, (2 * MANTISSA_MIN) as nat);
        }
        Parts { mantissa: q, up: true, power, exp }
    }
}

/// Nines are one less than a power of ten.
proof fn lemma_nines(s: Seq<char>)
    requires
        forall|i: int| 0 <= i < s.len() ==> #[trigger] s[i] == '9',
    ensures
        all_digits(s),
        digits_value(s) + 1 == pow10(s.len()),
    decreases s.len(),
{
    if s.len() > 0 {
        assert(s.last() == s[s.len() - 1]);
        assert forall|i: int| 0 <= i < s.drop_last().len() implies #[trigger] s.drop_last()[i]
            == '9' by {
            assert(s.drop_last()[i] == s[i]);
        }
        lemma_nines(s.drop_last());
    }
}

/// Digits are the digits of what they denote.
proof fn lemma_padded_digits(s: Seq<char>)
    requires
        all_digits(s),
    ensures
        padded(digits_value(s), s.len()) == s,
    decreases s.len(),
{
    if s.len() == 0 {
        assert(padded(digits_value(s), 0) =~= s);
    } else {
        lemma_all_digits_part(s, 0, s.len() - 1);
        assert(s.drop_last() =~= s.subrange(0, s.len() - 1));
        lemma_padded_digits(s.drop_last());
        assert(is_digit(s[s.len() - 1]));
        let d = s.last() as int - 48;
        assert(0 <= d <= 9);
        assert(digits_value(s) / 10 == digits_value(s.drop_last()));
        assert(digits_value(s) % 10 == d);
        assert(digit_char(d) == s.last());
        assert(s.drop_last().push(s.last()) =~= s);
    }
}

/// Adds one to digits; true where that leaves zeros and one beyond them.
fn increment(digits: &mut Vec<char>) -> (carry: bool)
    requires
        all_digits(old(digits)@),
    ensures
        all_digits(final(digits)@),
        final(digits)@.len() == old(digits)@.len(),
        if carry {
            &&& digits_value(final(digits)@) == 0
            &&& digits_value(old(digits)@) + 1 == pow10(old(digits)@.len())
        } else {
            digits_value(final(digits)@) == digits_value(old(digits)@) + 1
        },
{
    let ghost before = digits@;
    let ghost n = before.len() as int;
    let mut i: usize = digits.len();
    while i > 0
        invariant
            i <= n,
            before == old(digits)@,
            n == before.len(),
            digits@.len() == n,
            all_digits(before),
            forall|k: int| i <= k < n ==> #[trigger] before[k] == '9',
            forall|k: int| i <= k < n ==> #[trigger] digits@[k] == '0',
            forall|k: int| 0 <= k < i ==> #[trigger] digits@[k] == before[k],
        decreases i,
    {
        let c = digits[i - 1];
        assert(is_digit(before[i - 1]));
        if c != '9' {
            let d: u8 = (c as u32 - 48) as u8 + 1;
            let up = digit(d);
            digits.set(i - 1, up);
            proof {
                let head = before.subrange(0, i - 1);
                let tail = before.subrange(i as int, n);
                lemma_all_digits_part(before, 0, i - 1);
                lemma_all_digits_part(before, i as int, n);
                lemma_nines(tail);
                assert(digits@.subrange(i as int, n) =~= zeros((n - i) as nat));
                lemma_zeros((n - i) as nat);
                lemma_last(before, i - 1);
                lemma_last(digits@, i - 1);
                assert(digits@.subrange(0, i - 1) =~= head);
                assert(all_digits(digits@)) by {
                    assert forall|k: int| 0 <= k < n implies is_digit(#[trigger] digits@[k]) by {
                        if k < i - 1 {
                            assert(is_digit(before[k]));
                        }
                    }
                }
                lemma_split(before, i - 1);
                lemma_split(digits@, i - 1);
                let p = pow10((n - i) as nat) as int;
                let a = digits_value(head) as int;
                let dc = c as int - 48;
                assert((a * 10 + dc + 1) * p == (a * 10 + dc) * p + p) by (nonlinear_arith);
            }
            return false;
        }
        digits.set(i - 1, '0');
        i -= 1;
    }
    proof {
        lemma_nines(before);
        assert(digits@ =~= zeros(n as nat));
        lemma_zeros(n as nat);
    }
    true
}

/// The value of digits up to one, and of that one.
proof fn lemma_last(s: Seq<char>, i: int)
    requires
        0 <= i < s.len(),
    ensures
        digits_value(s.subrange(0, i + 1)) == (digits_value(s.subrange(0, i)) * 10 + (s[i] as int
            - 48)) as nat,
{
    assert(s.subrange(0, i + 1).drop_last() =~= s.subrange(0, i));
    assert(s.subrange(0, i + 1).last() == s[i]);
}

/// The value of digits up to one, and after it.
proof fn lemma_split(s: Seq<char>, i: int)
    requires
        0 <= i < s.len(),
        all_digits(s),
    ensures
        digits_value(s) == digits_value(s.subrange(0, i + 1)) * pow10((s.len() - i - 1) as nat)
            + digits_value(s.subrange(i + 1, s.len() as int)),
{
    lemma_all_digits_part(s, i + 1, s.len() as int);
    assert(s =~= s.subrange(0, i + 1) + s.subrange(i + 1, s.len() as int));
    lemma_digits_concat(s.subrange(0, i + 1), s.subrange(i + 1, s.len() as int));
}

/// A number in units of `10^-prec` is its whole part, a point and its digits.
proof fn lemma_pointed(n: nat, whole: nat, digits: Seq<char>)
    requires
        all_digits(digits),
        n == whole * pow10(digits.len()) + digits_value(digits),
    ensures
        pointed(n, digits.len()) == if digits.len() == 0 {
            nat_chars(whole)
        } else {
            nat_chars(whole).push('.') + digits
        },
{
    let base = pow10(digits.len()) as int;
    lemma_pow10_monotone(0, digits.len());
    lemma_digits_bound(digits);
    lemma_fundamental_div_mod_converse(
        n as int,
        base,
        whole as int,
        digits_value(digits) as int,
    );
    lemma_padded_digits(digits);
    if digits.len() == 0 {
        let one = pow10(0) as int;
        assert(whole * one == whole) by (nonlinear_arith)
            requires
                one == 1,
        ;
    }
}

/// Whether the value of digits after a whole part is odd.
proof fn lemma_parity(whole: nat, digits: Seq<char>)
    requires
        all_digits(digits),
    ensures
        (whole * pow10(digits.len()) + digits_value(digits)) % 2 == (if digits.len() == 0 {
            whole % 2
        } else {
            ((digits.last() as int - 48) % 2) as nat
        }),
{
    if digits.len() == 0 {
        let one = pow10(0) as int;
        assert(whole * one == whole) by (nonlinear_arith)
            requires
                one == 1,
        ;
    } else {
        assert(is_digit(digits[digits.len() - 1]));
        let p = pow10((digits.len() - 1) as nat) as int;
        let v = digits_value(digits.drop_last()) as int;
        let d = digits.last() as int - 48;
        assert(whole * (10 * p) == 2 * (5 * (whole * p))) by (nonlinear_arith);
        assert(digits_value(digits) == v * 10 + d);
    }
}

/// Writes the text of digits.
fn push_digits(s: &mut String, digits: &Vec<char>)
    ensures
        final(s)@ == old(s)@ + digits@,
{
    let ghost before = s@;
    let mut i: usize = 0;
    assert(s@ =~= before + digits@.take(0));
    while i < digits.len()
        invariant
            i <= digits@.len(),
            s@ == before + digits@.take(i as int),
        decreases digits.len() - i,
    {
        s.push(digits[i]);
        i += 1;
        assert(s@ =~= before + digits@.take(i as int));
    }
    assert(digits@.take(i as int) =~= digits@);
}

/// Writes `x` units with `prec` fraction digits, as the double nearest to them is.
pub fn fixed_text(x: i128, prec: usize) -> (s: String)
    requires
        x > i128::MIN,
    ensures
        s@ == fixed_chars(x as int, prec as nat),
{
    let mut s = String::new();
    let m: u128 = if x < 0 {
        s.push('-');
        (-x) as u128
    } else {
        x as u128
    };
    let ghost sign = s@;
    let mut digits: Vec<char> = Vec::new();
    let mut whole: u128 = 0;
    if m == 0 {
        push_zeros(&mut digits, prec);
        proof {
            lemma_zeros(prec as nat);
            assert(0 * pow10(prec as nat) == 0) by (nonlinear_arith);
        }
    } else {
        let d = double_of(m);
        proof {
            lemma_binade_unique(m as nat, binade(m as nat), d.binade());
        }
        if d.up {
            whole = d.mantissa / d.power;
            let mut r: u128 = d.mantissa % d.power;
            proof {
                lemma_mod_bound(d.mantissa as int, d.power as int);
                lemma_fundamental_div_mod(d.mantissa as int, d.power as int);
                lemma_div_pos_is_pos(d.mantissa as int, d.power as int);
                vstd::arithmetic::div_mod::lemma_div_is_ordered_by_denominator(
                    d.mantissa as int,
                    1,
                    d.power as int,
                );
                let one = pow10(0) as int;
                let q = d.mantissa as int;
                let w = whole as int;
                let p = d.power as int;
                assert(q * one == (w * one + 0) * p + r) by (nonlinear_arith)
                    requires
                        one == 1,
                        q == p * w + r,
                ;
            }
            let mut i: usize = 0;
            while i < prec
                invariant
                    i <= prec,
                    d.of(m as nat),
                    d.up,
                    whole <= d.mantissa,
                    r < d.power,
                    all_digits(digits@),
                    digits@.len() == i,
                    d.mantissa * pow10(i as nat) == (whole * pow10(i as nat) + digits_value(
                        digits@,
                    )) * d.power + r,
                decreases prec - i,
            {
                let ghost before = digits@;
                let ghost r0 = r;
                let c: u128 = (r * 10) / d.power;
                let rest: u128 = (r * 10) % d.power;
                proof {
                    lemma_fundamental_div_mod(r * 10, d.power as int);
                    lemma_mod_bound(r * 10, d.power as int);
                    assert(c <= 9) by (nonlinear_arith)
                        requires
                            r * 10 == d.power * c + rest,
                            0 <= rest,
                            r < d.power,
                    ;
                }
                digits.push(digit(c as u8));
                r = rest;
                proof {
                    assert(digits@.drop_last() =~= before);
                    assert(digits@.last() == digit_char(c as int));
                    assert forall|k: int| 0 <= k < digits@.len() implies is_digit(
                        #[trigger] digits@[k],
                    ) by {
                        if k < before.len() {
                            assert(digits@[k] == before[k]);
                        }
                    }
                    let p10 = pow10(i as nat) as int;
                    let v = digits_value(before) as int;
                    let q = d.mantissa as int;
                    let w = whole as int;
                    let p = d.power as int;
                    assert(pow10((i + 1) as nat) == 10 * p10);
                    assert(digits_value(digits@) == v * 10 + c);
                    assert(q * (10 * p10) == (w * (10 * p10) + (v * 10 + c)) * p + rest)
                        by (nonlinear_arith)
                        requires
                            q * p10 == (w * p10 + v) * p + r0,
                            r0 * 10 == p * c + rest,
                    ;
                }
                i += 1;
            }
            let odd = if digits.len() == 0 {
                whole % 2 == 1
            } else {
                (digits[digits.len() - 1] as u32 - 48) % 2 == 1
            };
            let ghost floor = (whole * pow10(prec as nat) + digits_value(digits@)) as nat;
            let ghost was = digits@;
            proof {
                assert(digits@.len() > 0 ==> is_digit(digits@[digits@.len() - 1]));
                lemma_parity(whole as nat, digits@);
                lemma_fundamental_div_mod_converse(
                    d.mantissa * pow10(prec as nat),
                    d.power as int,
                    floor as int,
                    r as int,
                );
            }
            if 2 * r > d.power || (2 * r == d.power && odd) {
                if increment(&mut digits) {
                    let ghost w = whole as int;
                    whole = whole + 1;
                    proof {
                        let p = pow10(prec as nat) as int;
                        assert((w + 1) * p == w * p + p) by (nonlinear_arith);
                    }
                }
                assert(whole * pow10(prec as nat) + digits_value(digits@) == floor + 1);
            }
            assert(written(m as nat, prec as nat) == whole * pow10(prec as nat) + digits_value(
                digits@,
            ));
        } else {
            proof {
                let p = d.power as int;
                assert(d.mantissa * p <= p * 2 * MANTISSA_MIN * SCALE) by (nonlinear_arith)
                    requires
                        0 <= d.mantissa <= 2 * MANTISSA_MIN,
                        p >= 0,
                        SCALE >= 1,
                ;
            }
            whole = d.mantissa * d.power;
            push_zeros(&mut digits, prec);
            proof {
                lemma_zeros(prec as nat);
            }
        }
    }
    proof {
        lemma_pointed(written(abs(x as int) as nat, prec as nat), whole as nat, digits@);
    }
    s.append(nat_text(whole).as_str());
    if prec > 0 {
        s.push('.');
        push_digits(&mut s, &digits);
    }
    assert(s@ =~= fixed_chars(x as int, prec as nat));
    s
}

/// Appends zeros.
fn push_zeros(digits: &mut Vec<char>, n: usize)
    requires
        old(digits)@.len() == 0,
    ensures
        final(digits)@ == zeros(n as nat),
{
    let mut i: usize = 0;
    assert(digits@ =~= zeros(0));
    while i < n
        invariant
            i <= n,
            digits@ == zeros(i as nat),
        decreases n - i,
    {
        digits.push('0');
        i += 1;
        assert(digits@ =~= zeros(i as nat));
    }
}

/// A quotient that is nearer than a half to an integer is rounded to it.
proof fn lemma_rounded_near(a: nat, b: nat, n: nat)
    requires
        b > 0,
        2 * a < 2 * (n * b) + b,
        2 * (n * b) < 2 * a + b,
    ensures
        round_half_even(a, b) == n,
{
    if a >= n * b {
        let r = a - n * b;
        assert(a == n * b + r);
        lemma_fundamental_div_mod_converse(a as int, b as int, n as int, r as int);
    } else {
        let r = a - n * b + b;
        assert(a == (n - 1) * b + r) by (nonlinear_arith)
            requires
                r == a - n * b + b,
        ;
        lemma_fundamental_div_mod_converse(a as int, b as int, n - 1, r as int);
    }
}

/// A quotient and its rounding are no farther apart than a half.
proof fn lemma_rounded_half(a: nat, b: nat)
    requires
        b > 0,
    ensures
        2 * (round_half_even(a, b) * b) <= 2 * a + b,
        2 * a <= 2 * (round_half_even(a, b) * b) + b,
{
    lemma_fundamental_div_mod(a as int, b as int);
    lemma_mod_bound(a as int, b as int);
    let q = a as int / b as int;
    let r = a as int % b as int;
    let n = round_half_even(a, b) as int;
    assert((q + 1) * b == q * b + b) by (nonlinear_arith);
    assert(b * q == q * b) by (nonlinear_arith);
}

/// Whether a number of units has a binade.
proof fn lemma_binade_exists(m: nat)
    requires
        0 < m <= LIMIT,
    ensures
        in_binade(m, binade(m)),
{
    lemma_binade_from(m, 0);
}

/// The binade is found by doubling.
proof fn lemma_binade_from(m: nat, k: nat)
    requires
        0 < m <= LIMIT,
        m * pow2(k) < 2 * MANTISSA_MIN * SCALE || k == 0,
    ensures
        exists|b: int| in_binade(m, b),
    decreases 2 * MANTISSA_MIN * SCALE - m * pow2(k),
{
    let unit = MANTISSA_MIN * SCALE;
    lemma_pow2_monotone(0, k);
    if m * pow2(k) >= 2 * unit {
        assert(k == 0);
        assert(m * pow2(0) == m) by {
            let one = pow2(0) as int;
            assert(m * one == m) by (nonlinear_arith)
                requires
                    one == 1,
            ;
        }
        assert(pow2(1) == 2) by {
            reveal_with_fuel(pow2, 2);
        }
        lemma_binade_down(m, 1);
    } else if m * pow2(k) >= unit {
        assert(in_binade(m, k as int));
    } else {
        let p = pow2(k) as int;
        assert(pow2((k + 1) as nat) == 2 * p);
        assert(m * (2 * p) == 2 * (m * p)) by (nonlinear_arith);
        assert(m * p > 0) by (nonlinear_arith)
            requires
                m > 0,
                p > 0,
        ;
        lemma_binade_from(m, (k + 1) as nat);
    }
}

/// The binade of a large number is found by halving.
proof fn lemma_binade_down(m: nat, k: nat)
    requires
        0 < m,
        k > 0,
        m >= MANTISSA_MIN * SCALE * pow2(k),
    ensures
        exists|b: int| in_binade(m, b),
    decreases m - pow2(k),
{
    let unit = MANTISSA_MIN * SCALE;
    let p = pow2(k) as int;
    lemma_pow2_monotone(0, k);
    if m < 2 * unit * p {
        assert(in_binade(m, -(k as int)));
    } else {
        assert(pow2((k + 1) as nat) == 2 * p);
        assert(unit * (2 * p) == 2 * unit * p) by (nonlinear_arith);
        assert(2 * unit * p >= 2 * p) by (nonlinear_arith)
            requires
                unit >= 1,
                p >= 0,
        ;
        lemma_binade_down(m, (k + 1) as nat);
    }
}

/// Where a decimal needs no more digits than a double holds, the double nearest to it is written
/// with those digits.
proof fn lemma_written_exactly(n: nat, prec: nat)
    requires
        prec <= 12,
        n < MANTISSA_MIN,
    ensures
        written(n * pow10((12 - prec) as nat), prec) == n,
{
    let u = pow10((12 - prec) as nat) as int;
    let t = pow10(prec) as int;
    let m = (n * u) as nat;
    lemma_pow10_monotone(0, (12 - prec) as nat);
    lemma_pow10_monotone(0, prec);
    lemma_pow10_split((12 - prec) as nat, prec);
    lemma_pow10_values();
    assert(u * t == SCALE);
    if n == 0 {
        assert(m == 0) by (nonlinear_arith)
            requires
                n == 0,
                m == n * u,
        ;
    } else {
        assert(0 < m < MANTISSA_MIN * SCALE) by (nonlinear_arith)
            requires
                0 < n < MANTISSA_MIN,
                m == n * u,
                u * t == SCALE,
                u >= 1,
                t >= 1,
        ;
        lemma_binade_exists(m);
        let k = binade(m);
        if k < 0 {
            lemma_pow2_monotone(0, (-k) as nat);
            let p = pow2((-k) as nat) as int;
            assert(MANTISSA_MIN * SCALE * p >= MANTISSA_MIN * SCALE) by (nonlinear_arith)
                requires
                    p >= 1,
            ;
            assert(false);
        }
        let p = pow2(k as nat) as int;
        lemma_pow2_monotone(0, k as nat);
        let q = mantissa_bits(m, k) as int;
        let a = m * p;
        lemma_rounded_half((m * p) as nat, SCALE as nat);
        // In units of 10^-prec: twice the distance is no more than 10^prec.
        let lhs = 2 * (q * t);
        let rhs = 2 * (n * p);
        assert(lhs <= rhs + t && rhs <= lhs + t) by (nonlinear_arith)
            requires
                2 * (q * SCALE) <= 2 * (m * p) + SCALE,
                2 * (m * p) <= 2 * (q * SCALE) + SCALE,
                m == n * u,
                u * t == SCALE,
                u >= 1,
                lhs == 2 * (q * t),
                rhs == 2 * (n * p),
        ;
        assert(t < p) by (nonlinear_arith)
            requires
                MANTISSA_MIN * SCALE <= m * p,
                m == n * u,
                u * t == SCALE,
                u >= 1,
                n < MANTISSA_MIN,
                n > 0,
                p > 0,
                t > 0,
        ;
        lemma_rounded_near((q * t) as nat, p as nat, n);
    }
}

/// What is written with enough digits is read back: where no digit is lost to rounding, and a double
/// holds them all, the text of a decimal denotes it.
pub proof fn law_decimals_read_back(x: int, prec: nat)
    requires
        in_range(x),
        prec <= 12,
        x % (pow10((12 - prec) as nat) as int) == 0,
        abs(x) < MANTISSA_MIN * pow10((12 - prec) as nat),
    ensures
        decimal_value(fixed_chars(x, prec)) == Some(x),
{
    let m = abs(x) as nat;
    let unit = pow10((12 - prec) as nat) as int;
    lemma_pow10_monotone(0, (12 - prec) as nat);
    lemma_pow10_monotone(0, prec);
    lemma_divides_negated(x, unit);
    lemma_fundamental_div_mod(m as int, unit);
    let n = (m as int / unit) as nat;
    lemma_div_pos_is_pos(m as int, unit);
    assert(m == n * unit) by (nonlinear_arith)
        requires
            m == unit * n + m as int % unit,
            m as int % unit == 0,
    ;
    assert(n < MANTISSA_MIN) by (nonlinear_arith)
        requires
            m == n * unit,
            m < MANTISSA_MIN * unit,
            unit > 0,
    ;
    lemma_written_exactly(n, prec);
    let base = pow10(prec) as int;
    let head = n as int / base;
    let tail = n as int % base;
    lemma_fundamental_div_mod(n as int, base);
    lemma_mod_bound(n as int, base);
    lemma_div_pos_is_pos(n as int, base);
    lemma_nat_chars(head as nat);
    lemma_nat_chars(n);
    lemma_padded(tail as nat, prec);
    let body = pointed(n, prec);
    let a = if prec == 0 {
        nat_chars(n)
    } else {
        nat_chars(head as nat)
    };
    let b = if prec == 0 {
        Seq::empty()
    } else {
        padded(tail as nat, prec)
    };
    assert(all_digits(a));
    assert(all_digits(b));
    if prec == 0 {
        assert(body =~= a);
    } else {
        assert(body =~= a.push('.') + b);
    }
    lemma_point(a, b);
    assert forall|i: int| 0 <= i < body.len() implies is_digit(#[trigger] body[i]) || body[i]
        == '.' by {
        if i < a.len() {
            assert(body[i] == a[i]);
        } else if i > a.len() {
            assert(body[i] == b[i - a.len() - 1]);
        }
    }
    lemma_no_exponent(body);
    let s = fixed_chars(x, prec);
    assert(body[0] == a[0]);
    assert(is_digit(a[0]));
    if x < 0 {
        assert(s =~= seq!['-'] + body);
        assert(s.skip(1) =~= body);
    } else {
        assert(s =~= body);
    }
    assert(unsigned(s) == body);
    lemma_digits_concat(a, b);
    assert(digits_value(a + b) == n) by {
        if prec == 0 {
            let one = pow10(0) as int;
            assert(n * one == n) by (nonlinear_arith)
                requires
                    one == 1,
            ;
        } else {
            assert(n == head * base + tail) by (nonlinear_arith)
                requires
                    n == base * head + tail,
            ;
        }
    }
    assert(mantissa(body) == body);
    assert(before_first(body, '.') == a && fraction(body) == b);
    assert(scaled(n, 12 - prec) == m);
}

/// What is written of a decimal is the double nearest to it, and of that the nearest number with so
/// many fraction digits: the mantissa of the double has 53 bits, no other mantissa of its binade is
/// nearer to the decimal, and no other number of units of the last digit is nearer to the double.
pub proof fn law_doubles_are_nearest(m: nat, prec: nat, mantissa: nat, n: nat)
    requires
        0 < m <= LIMIT,
    ensures
        ({
            let k = binade(m);
            let q = mantissa_bits(m, k);
            &&& k >= 0 ==> {
                &&& 4_503_599_627_370_496 * 1_000_000_000_000 <= m * pow2(k as nat)
                &&& m * pow2(k as nat) < 9_007_199_254_740_992 * 1_000_000_000_000
                &&& abs(m * pow2(k as nat) - q * 1_000_000_000_000) <= abs(
                    m * pow2(k as nat) - mantissa * 1_000_000_000_000,
                )
                &&& abs(q * pow10(prec) - written(m, prec) * pow2(k as nat)) <= abs(
                    q * pow10(prec) - n * pow2(k as nat),
                )
            }
            &&& k < 0 ==> {
                &&& abs(m - q * (1_000_000_000_000 * pow2((-k) as nat))) <= abs(
                    m - mantissa * (1_000_000_000_000 * pow2((-k) as nat)),
                )
                &&& written(m, prec) == q * pow2((-k) as nat) * pow10(prec)
            }
        }),
{
    let k = binade(m);
    let q = mantissa_bits(m, k);
    lemma_binade_exists(m);
    assert(in_binade(m, k));
    if k >= 0 {
        let p = pow2(k as nat);
        lemma_pow2_monotone(0, k as nat);
        law_rounding_is_to_the_nearest(m * p, SCALE as nat, mantissa);
        law_rounding_is_to_the_nearest(q * pow10(prec), p, n);
    } else {
        let p = pow2((-k) as nat);
        lemma_pow2_monotone(0, (-k) as nat);
        assert(SCALE as nat * p > 0) by (nonlinear_arith)
            requires
                p > 0,
        ;
        law_rounding_is_to_the_nearest(m, SCALE as nat * p, mantissa);
    }
}

/// A decimal is written with a minus sign just where it is negative, and otherwise as its magnitude;
/// after the point stand as many digits as asked for, and no point stands where none are.
pub proof fn law_decimals_are_written_with_their_digits(x: int, prec: nat)
    ensures
        x > 0 ==> fixed_chars(-x, prec) == seq!['-'] + fixed_chars(x, prec),
        x >= 0 && prec > 0 ==> {
            let s = fixed_chars(x, prec);
            &&& s.len() >= prec + 2
            &&& s[s.len() - prec - 1] == '.'
            &&& all_digits(s.take(s.len() - prec - 1))
            &&& all_digits(s.skip(s.len() - prec))
            &&& digits_value(s.take(s.len() - prec - 1)) * pow10(prec) + digits_value(
                s.skip(s.len() - prec),
            ) == written(x as nat, prec)
        },
        x >= 0 && prec == 0 ==> all_digits(fixed_chars(x, prec)) && digits_value(
            fixed_chars(x, prec),
        ) == written(x as nat, prec),
{
    if x > 0 {
        assert(Seq::<char>::empty() + pointed(written(x as nat, prec), prec) =~= pointed(
            written(x as nat, prec),
            prec,
        ));
    }
    if x >= 0 {
        let n = written(x as nat, prec);
        let s = fixed_chars(x, prec);
        assert(s =~= pointed(n, prec));
        if prec == 0 {
            lemma_nat_chars(n);
        } else {
            let base = pow10(prec) as int;
            lemma_pow10_monotone(0, prec);
            lemma_fundamental_div_mod(n as int, base);
            lemma_mod_bound(n as int, base);
            lemma_div_pos_is_pos(n as int, base);
            let head = nat_chars((n as int / base) as nat);
            let tail = padded((n as int % base) as nat, prec);
            lemma_nat_chars((n as int / base) as nat);
            lemma_padded((n as int % base) as nat, prec);
            assert(s == head.push('.') + tail);
            assert(s.take(s.len() - prec - 1) =~= head);
            assert(s.skip(s.len() - prec) =~= tail);
            assert((n as int / base) * base + n as int % base == n) by (nonlinear_arith)
                requires
                    n == base * (n as int / base) + n as int % base,
            ;
        }
    }
}

} // verus!
