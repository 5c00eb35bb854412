//! Exact decimal quantities.
//!
//! A price, a quantity or a balance is held as an integer count of units of `10^-12`, which holds
//! without rounding every value that the exchange writes in its decimal strings.

use vstd::prelude::*;
use vstd::string::*;
use crate::text::{after_first, chars_of, digit_char, int_chars, nat_chars};

verus! {

/// Units in one whole.
pub const SCALE: i128 = 1_000_000_000_000;

/// The largest magnitude, in units, that a decimal read from text or handed to the library has.
pub const LIMIT: i128 = 1_000_000_000_000_000_000_000_000_000_000_000;

/// `10^n`.
pub open spec fn pow10(n: nat) -> nat
    decreases n,
{
    if n == 0 {
        1
    } else {
        10 * pow10((n - 1) as nat)
    }
}

/// Whether `x` units are within the limit.
pub open spec fn in_range(x: int) -> bool {
    -LIMIT <= x <= LIMIT
}

/// Whether `x` units are within the limit.
pub fn is_in_range(x: i128) -> (r: bool)
    ensures
        r == in_range(x as int),
{
    -LIMIT <= x && x <= LIMIT
}

/// Whether `c` is an ASCII digit.
pub open spec fn is_digit(c: char) -> bool {
    '0' <= c && c <= '9'
}

/// Whether `s` holds digits only.
pub open spec fn all_digits(s: Seq<char>) -> bool {
    forall|i: int| 0 <= i < s.len() ==> is_digit(#[trigger] s[i])
}

/// The number that the digits `s` denote.
pub open spec fn digits_value(s: Seq<char>) -> nat
    decreases s.len(),
{
    if s.len() == 0 {
        0
    } else {
        (digits_value(s.drop_last()) * 10 + (s.last() as int - 48)) as nat
    }
}

/// What precedes the first `c` in `s`; all of `s` where there is none.
pub open spec fn before_first(s: Seq<char>, c: char) -> Seq<char>
    decreases s.len(),
{
    if s.len() == 0 || s[0] == c {
        Seq::empty()
    } else {
        seq![s[0]] + before_first(s.skip(1), c)
    }
}

/// The fraction digits of an unsigned decimal without an exponent.
pub open spec fn fraction(s: Seq<char>) -> Seq<char> {
    match after_first(s, '.') {
        Some(f) => f,
        None => Seq::empty(),
    }
}

/// Whether `c` begins an exponent.
pub open spec fn is_exp(c: char) -> bool {
    c == 'e' || c == 'E'
}

/// What precedes the exponent of an unsigned decimal.
pub open spec fn mantissa(s: Seq<char>) -> Seq<char>
    decreases s.len(),
{
    if s.len() == 0 || is_exp(s[0]) {
        Seq::empty()
    } else {
        seq![s[0]] + mantissa(s.skip(1))
    }
}

/// What follows the first `e` of an unsigned decimal, where there is one.
pub open spec fn exponent_text(s: Seq<char>) -> Option<Seq<char>>
    decreases s.len(),
{
    if s.len() == 0 {
        None
    } else if is_exp(s[0]) {
        Some(s.skip(1))
    } else {
        exponent_text(s.skip(1))
    }
}

/// The power of ten that an unsigned decimal is multiplied by: zero where it has no exponent, and
/// none where its exponent is no integer.
pub open spec fn exponent(s: Seq<char>) -> Option<int> {
    match exponent_text(s) {
        Some(t) => if unsigned(t).len() > 0 && all_digits(unsigned(t)) {
            Some(
                if t[0] == '-' {
                    -digits_value(unsigned(t))
                } else {
                    digits_value(unsigned(t)) as int
                },
            )
        } else {
            None
        },
        None => Some(0),
    }
}

/// Whether `s` is digits, a point and digits, where the point and either group of digits may be
/// absent, but not both groups.
pub open spec fn is_mantissa(s: Seq<char>) -> bool {
    &&& all_digits(before_first(s, '.'))
    &&& all_digits(fraction(s))
    &&& before_first(s, '.').len() + fraction(s).len() > 0
}

/// `s` without its leading sign.
pub open spec fn unsigned(s: Seq<char>) -> Seq<char> {
    if s.len() > 0 && (s[0] == '-' || s[0] == '+') {
        s.skip(1)
    } else {
        s
    }
}

/// `d * 10^scale` rounded to the nearest integer, ties to the even one.
pub open spec fn scaled(d: nat, scale: int) -> nat {
    if scale >= 0 {
        d * pow10(scale as nat)
    } else {
        round_half_even(d, pow10((-scale) as nat))
    }
}

/// The magnitude, in units, of an unsigned decimal: its digits, all of them, times a power of ten.
pub open spec fn magnitude(s: Seq<char>) -> Option<nat> {
    let m = mantissa(s);
    match exponent(s) {
        Some(e) => if is_mantissa(m) {
            Some(
                scaled(
                    digits_value(before_first(m, '.') + fraction(m)),
                    12 + e - fraction(m).len(),
                ),
            )
        } else {
            None
        },
        None => None,
    }
}

/// The value, in units, of the decimal text `s`, rounded to the nearest unit; none where `s` is no
/// decimal or is beyond the limit.
pub open spec fn decimal_value(s: Seq<char>) -> Option<int> {
    match magnitude(unsigned(s)) {
        Some(m) => if m > LIMIT {
            None
        } else if s.len() > 0 && s[0] == '-' {
            Some(-m)
        } else {
            Some(m as int)
        },
        None => None,
    }
}

/// `a / b` rounded to the nearest integer, ties to the even one.
pub open spec fn round_half_even(a: nat, b: nat) -> nat {
    if 2 * (a % b) > b || (2 * (a % b) == b && (a / b) % 2 == 1) {
        a / b + 1
    } else {
        a / b
    }
}

/// The `w` lowest decimal digits of `n`.
pub open spec fn padded(n: nat, w: nat) -> Seq<char>
    decreases w,
{
    if w == 0 {
        Seq::empty()
    } else {
        padded(n / 10, (w - 1) as nat).push(digit_char((n % 10) as int))
    }
}

/// `n` zeros.
pub open spec fn zeros(n: nat) -> Seq<char> {
    Seq::new(n, |i: int| '0')
}

/// The fewest fraction digits that write `x` exactly.
pub open spec fn precision_from(x: int, p: nat) -> nat
    decreases 12 - p,
{
    if p >= 12 || x % (pow10((12 - p) as nat) as int) == 0 {
        p
    } else {
        precision_from(x, p + 1)
    }
}

/// The fewest fraction digits that write `x` exactly.
pub open spec fn precision(x: int) -> nat {
    precision_from(x, 0)
}

/// The magnitude of `x`.
pub open spec fn abs(x: int) -> int {
    if x < 0 {
        -x
    } else {
        x
    }
}

/// `p / t` rounded to the nearest integer, ties away from zero, for `t` other than zero.
pub open spec fn rounded_ratio(p: int, t: int) -> int {
    let q = (2 * abs(p) + abs(t)) / (2 * abs(t));
    if (p < 0) != (t < 0) {
        -q
    } else {
        q
    }
}

/// `i` held to the range of `i64`.
pub open spec fn clamp_i64(i: int) -> int {
    if i > i64::MAX {
        i64::MAX as int
    } else if i < i64::MIN {
        i64::MIN as int
    } else {
        i
    }
}

/// The number of ticks of size `t` nearest to the price `p`, held to the range of `i64`. A tick of
/// size zero puts every price other than zero beyond that range.
pub open spec fn ticks(p: int, t: int) -> int {
    if t == 0 {
        if p == 0 {
            0
        } else if p > 0 {
            i64::MAX as int
        } else {
            i64::MIN as int
        }
    } else {
        clamp_i64(rounded_ratio(p, t))
    }
}

/// Powers of ten grow.
pub proof fn lemma_pow10_monotone(a: nat, b: nat)
    requires
        a <= b,
    ensures
        0 < pow10(a) <= pow10(b),
    decreases b,
{
    if b == 0 {
    } else if a == b {
        lemma_pow10_monotone((a - 1) as nat, (b - 1) as nat);
    } else {
        lemma_pow10_monotone(a, (b - 1) as nat);
    }
}

/// `w` digits denote less than `10^w`.
pub proof fn lemma_digits_bound(s: Seq<char>)
    requires
        all_digits(s),
    ensures
        digits_value(s) < pow10(s.len()),
    decreases s.len(),
{
    if s.len() > 0 {
        assert(all_digits(s.drop_last())) by {
            assert forall|i: int| 0 <= i < s.drop_last().len() implies is_digit(
                #[trigger] s.drop_last()[i],
            ) by {
                assert(s.drop_last()[i] == s[i]);
            }
        }
        assert(is_digit(s[s.len() - 1]));
        lemma_digits_bound(s.drop_last());
    }
}

/// The named powers of ten that bound the computations here.
pub proof fn lemma_pow10_values()
    ensures
        pow10(12) == SCALE,
        pow10(0) == 1,
{
    reveal_with_fuel(pow10, 13);
}

/// `10^n`.
fn pow10_exec(n: usize) -> (r: u128)
    requires
        n <= 12,
    ensures
        r == pow10(n as nat),
        0 < r <= SCALE,
{
    proof {
        lemma_pow10_values();
    }
    let mut r: u128 = 1;
    let mut i: usize = 0;
    while i < n
        invariant
            i <= n <= 12,
            r == pow10(i as nat),
            pow10(12) == SCALE,
        decreases n - i,
    {
        proof {
            lemma_pow10_monotone((i + 1) as nat, 12);
        }
        i += 1;
        r = r * 10;
    }
    proof {
        lemma_pow10_monotone(n as nat, 12);
    }
    r
}

/// The characters of a vector from one place to another.
fn slice(chars: &Vec<char>, from: usize, to: usize) -> (r: Vec<char>)
    requires
        from <= to <= chars@.len(),
    ensures
        r@ == chars@.subrange(from as int, to as int),
{
    let mut out: Vec<char> = Vec::new();
    let mut i: usize = from;
    while i < to
        invariant
            from <= i <= to <= chars@.len(),
            out@ == chars@.subrange(from as int, i as int),
        decreases to - i,
    {
        out.push(chars[i]);
        i += 1;
        assert(out@ =~= chars@.subrange(from as int, i as int));
    }
    out
}

/// Where the exponent of an unsigned decimal begins; its end where there is none.
fn exp_in(chars: &Vec<char>) -> (r: usize)
    ensures
        r <= chars@.len(),
        mantissa(chars@) == chars@.take(r as int),
        exponent_text(chars@) == if r < chars@.len() {
            Some(chars@.skip(r + 1))
        } else {
            None
        },
{
    let mut i: usize = 0;
    assert(chars@.skip(0) =~= chars@);
    assert(chars@.take(0) + mantissa(chars@) =~= mantissa(chars@));
    while i < chars.len() && chars[i] != 'e' && chars[i] != 'E'
        invariant
            i <= chars@.len(),
            mantissa(chars@) == chars@.take(i as int) + mantissa(chars@.skip(i as int)),
            exponent_text(chars@) == exponent_text(chars@.skip(i as int)),
        decreases chars.len() - i,
    {
        proof {
            let rest = chars@.skip(i as int);
            assert(rest.skip(1) =~= chars@.skip(i + 1));
            assert(chars@.take(i + 1) =~= chars@.take(i as int) + seq![rest[0]]);
            assert(chars@.take(i + 1) + mantissa(rest.skip(1)) =~= chars@.take(i as int) + (
            seq![rest[0]] + mantissa(rest.skip(1))));
        }
        i += 1;
    }
    proof {
        let rest = chars@.skip(i as int);
        assert(mantissa(rest) =~= Seq::empty());
        assert(chars@.take(i as int) + Seq::<char>::empty() =~= chars@.take(i as int));
        if i < chars@.len() {
            assert(rest[0] == chars@[i as int]);
            assert(rest.skip(1) =~= chars@.skip(i + 1));
        }
    }
    i
}

/// Where the point of a mantissa stands; its end where there is none.
fn point_in(chars: &Vec<char>) -> (r: usize)
    ensures
        r <= chars@.len(),
        before_first(chars@, '.') == chars@.take(r as int),
        fraction(chars@) == if r < chars@.len() {
            chars@.skip(r + 1)
        } else {
            Seq::empty()
        },
{
    let mut i: usize = 0;
    assert(chars@.skip(0) =~= chars@);
    assert(chars@.take(0) + before_first(chars@, '.') =~= before_first(chars@, '.'));
    while i < chars.len() && chars[i] != '.'
        invariant
            i <= chars@.len(),
            before_first(chars@, '.') == chars@.take(i as int) + before_first(
                chars@.skip(i as int),
                '.',
            ),
            after_first(chars@, '.') == after_first(chars@.skip(i as int), '.'),
        decreases chars.len() - i,
    {
        proof {
            let rest = chars@.skip(i as int);
            assert(rest.skip(1) =~= chars@.skip(i + 1));
            assert(chars@.take(i + 1) =~= chars@.take(i as int) + seq![rest[0]]);
            assert(chars@.take(i + 1) + before_first(rest.skip(1), '.') =~= chars@.take(i as int)
                + (seq![rest[0]] + before_first(rest.skip(1), '.')));
        }
        i += 1;
    }
    proof {
        let rest = chars@.skip(i as int);
        assert(before_first(rest, '.') =~= Seq::empty());
        assert(chars@.take(i as int) + Seq::<char>::empty() =~= chars@.take(i as int));
        if i < chars@.len() {
            assert(rest[0] == chars@[i as int]);
            assert(rest.skip(1) =~= chars@.skip(i + 1));
        }
    }
    i
}

/// Whether all characters are digits.
fn only_digits(chars: &Vec<char>) -> (r: bool)
    ensures
        r == all_digits(chars@),
{
    let mut i: usize = 0;
    while i < chars.len()
        invariant
            i <= chars@.len(),
            forall|k: int| 0 <= k < i ==> is_digit(#[trigger] chars@[k]),
        decreases chars.len() - i,
    {
        if chars[i] < '0' || chars[i] > '9' {
            assert(!is_digit(chars@[i as int]));
            return false;
        }
        i += 1;
    }
    true
}

/// Digits of digits are digits.
pub proof fn lemma_all_digits_part(s: Seq<char>, from: int, to: int)
    requires
        all_digits(s),
        0 <= from <= to <= s.len(),
    ensures
        all_digits(s.subrange(from, to)),
{
    assert forall|i: int| 0 <= i < to - from implies is_digit(
        #[trigger] s.subrange(from, to)[i],
    ) by {
        assert(is_digit(s[from + i]));
    }
}

/// The value of digits in two parts.
pub proof fn lemma_digits_concat(a: Seq<char>, b: Seq<char>)
    requires
        all_digits(b),
    ensures
        digits_value(a + b) == digits_value(a) * pow10(b.len()) + digits_value(b),
    decreases b.len(),
{
    if b.len() == 0 {
        assert(a + b =~= a);
        let v = digits_value(a) as int;
        let one = pow10(0) as int;
        assert(v * one == v) by (nonlinear_arith)
            requires
                one == 1,
        ;
    } else {
        let c = b.drop_last();
        lemma_all_digits_part(b, 0, b.len() - 1);
        assert(c =~= b.subrange(0, b.len() - 1));
        lemma_digits_concat(a, c);
        assert((a + b).drop_last() =~= a + c);
        assert((a + b).last() == b.last());
        assert(is_digit(b[b.len() - 1]));
        let v = digits_value(a) as int;
        let p = pow10(c.len()) as int;
        assert(v * (10 * p) == 10 * (v * p)) by (nonlinear_arith);
        assert(pow10(b.len()) == 10 * pow10(c.len()));
    }
}

/// The value of the digits, held to `cap`: a value beyond it reads as one more.
fn read_digits(chars: &Vec<char>, from: usize, to: usize, cap: u128) -> (r: u128)
    requires
        from <= to <= chars@.len(),
        cap <= LIMIT,
        all_digits(chars@),
    ensures
        r == digits_value(chars@.subrange(from as int, to as int)) || (r == cap + 1
            && digits_value(chars@.subrange(from as int, to as int)) > cap),
        r <= cap + 1,
{
    let mut v: u128 = 0;
    let mut i: usize = from;
    while i < to
        invariant
            from <= i <= to <= chars@.len(),
            cap <= LIMIT,
            all_digits(chars@),
            v <= cap + 1,
            v == digits_value(chars@.subrange(from as int, i as int)) || (v == cap + 1
                && digits_value(chars@.subrange(from as int, i as int)) > cap),
        decreases to - i,
    {
        let ghost next = chars@.subrange(from as int, i + 1);
        assert(next.drop_last() =~= chars@.subrange(from as int, i as int));
        assert(is_digit(chars@[i as int]));
        let d: u128 = (chars[i] as u32 - 48) as u128;
        let w: u128 = v * 10 + d;
        v = if v > cap || w > cap {
            cap + 1
        } else {
            w
        };
        i += 1;
    }
    v
}

/// Whether a digit other than zero is among the characters.
fn any_nonzero(chars: &Vec<char>, from: usize, to: usize) -> (r: bool)
    requires
        from <= to <= chars@.len(),
        all_digits(chars@),
    ensures
        r == (digits_value(chars@.subrange(from as int, to as int)) > 0),
{
    let mut i: usize = from;
    let mut found = false;
    while i < to
        invariant
            from <= i <= to <= chars@.len(),
            all_digits(chars@),
            found == (digits_value(chars@.subrange(from as int, i as int)) > 0),
        decreases to - i,
    {
        let ghost next = chars@.subrange(from as int, i + 1);
        assert(next.drop_last() =~= chars@.subrange(from as int, i as int));
        assert(is_digit(chars@[i as int]));
        if chars[i] != '0' {
            found = true;
        }
        i += 1;
    }
    found
}

/// The exponents that are told apart: beyond these a decimal is zero or beyond the limit.
const EXPONENT_CAP: u128 = 1_000_000_000_000_000_000_000_000;

/// The power of ten of an unsigned decimal, held to one beyond [`EXPONENT_CAP`]; none where the
/// exponent is no integer.
fn read_exponent(chars: &Vec<char>, at: usize) -> (r: Option<i128>)
    requires
        at <= chars@.len(),
        exponent_text(chars@) == if at < chars@.len() {
            Some(chars@.skip(at + 1))
        } else {
            None
        },
    ensures
        match r {
            Some(e) => {
                &&& exponent(chars@) is Some
                &&& -EXPONENT_CAP - 1 <= e <= EXPONENT_CAP + 1
                &&& {
                    ||| e == exponent(chars@)->0
                    ||| e == EXPONENT_CAP + 1 && exponent(chars@)->0 > EXPONENT_CAP
                    ||| e == -EXPONENT_CAP - 1 && exponent(chars@)->0 < -EXPONENT_CAP
                }
            },
            None => exponent(chars@) is None,
        },
{
    if at == chars.len() {
        return Some(0);
    }
    let text = slice(chars, at + 1, chars.len());
    let ghost t = chars@.skip(at + 1);
    assert(text@ =~= t);
    let signed = text.len() > 0 && (text[0] == '-' || text[0] == '+');
    let from: usize = if signed {
        1
    } else {
        0
    };
    let digits = slice(&text, from, text.len());
    assert(digits@ =~= unsigned(t));
    if digits.len() == 0 || !only_digits(&digits) {
        return None;
    }
    let e: u128 = read_digits(&digits, 0, digits.len(), EXPONENT_CAP);
    assert(digits@.subrange(0, digits@.len() as int) =~= digits@);
    if text[0] == '-' {
        Some(-(e as i128))
    } else {
        Some(e as i128)
    }
}

/// A power of ten that no multiple within the limit has.
proof fn lemma_pow10_beyond(n: nat)
    requires
        n >= 34,
    ensures
        pow10(n) > LIMIT,
{
    reveal_with_fuel(pow10, 35);
    lemma_pow10_monotone(34, n);
}

/// Multiplies by a power of ten; none where the product is beyond the limit.
fn scale_up(d: u128, scale: i128) -> (r: Option<u128>)
    requires
        d <= LIMIT,
        scale >= 0,
    ensures
        match r {
            Some(v) => v == d * pow10(scale as nat) && v <= LIMIT,
            None => d * pow10(scale as nat) > LIMIT,
        },
{
    if d == 0 {
        assert(0 * pow10(scale as nat) == 0) by (nonlinear_arith);
        return Some(0);
    }
    if scale > 33 {
        proof {
            lemma_pow10_beyond(scale as nat);
            let p = pow10(scale as nat) as int;
            assert(d * p >= p) by (nonlinear_arith)
                requires
                    d >= 1,
                    p >= 0,
            ;
        }
        return None;
    }
    let mut v: u128 = d;
    let mut i: i128 = 0;
    proof {
        let one = pow10(0) as int;
        assert(d * one == d) by (nonlinear_arith)
            requires
                one == 1,
        ;
    }
    while i < scale
        invariant
            0 <= i <= scale,
            v == d * pow10(i as nat),
            v <= LIMIT,
        decreases scale - i,
    {
        proof {
            let p = pow10(i as nat) as int;
            let q = pow10((i + 1) as nat) as int;
            assert(q == 10 * p);
            assert(d * q == 10 * (d * p)) by (nonlinear_arith)
                requires
                    q == 10 * p,
            ;
        }
        let w: u128 = v * 10;
        if w > LIMIT as u128 {
            proof {
                lemma_pow10_monotone((i + 1) as nat, scale as nat);
                let q = pow10((i + 1) as nat) as int;
                let all = pow10(scale as nat) as int;
                assert(d * all >= d * q) by (nonlinear_arith)
                    requires
                        d >= 0,
                        all >= q,
                ;
            }
            return None;
        }
        v = w;
        i += 1;
    }
    Some(v)
}

/// What is dropped of digits is compared with a half by its first digit and the rest.
proof fn lemma_half(first: int, rest: int, p: int)
    requires
        0 <= first <= 9,
        0 <= rest < p,
    ensures
        2 * (first * p + rest) > 10 * p <==> first > 5 || (first == 5 && rest > 0),
        2 * (first * p + rest) == 10 * p <==> first == 5 && rest == 0,
{
    if first <= 4 {
        assert(first * p <= 4 * p) by (nonlinear_arith)
            requires
                first <= 4,
                p > 0,
        ;
    } else if first >= 6 {
        assert(first * p >= 6 * p) by (nonlinear_arith)
            requires
                first >= 6,
                p > 0,
        ;
    }
}

/// Divides the value of digits by `10^k`, rounded to the nearest integer, ties to the even one; none
/// where the quotient is beyond the limit.
fn scale_down(digits: &Vec<char>, k: i128) -> (r: Option<u128>)
    requires
        all_digits(digits@),
        k > 0,
    ensures
        match r {
            Some(v) => v == round_half_even(digits_value(digits@), pow10(k as nat)) && v <= LIMIT,
            None => round_half_even(digits_value(digits@), pow10(k as nat)) > LIMIT,
        },
{
    let n = digits.len();
    let ghost d = digits_value(digits@);
    let ghost b = pow10(k as nat) as int;
    if k > n as i128 {
        proof {
            lemma_digits_bound(digits@);
            lemma_pow10_monotone(digits@.len(), (k - 1) as nat);
            assert(b == 10 * pow10((k - 1) as nat));
            vstd::arithmetic::div_mod::lemma_fundamental_div_mod_converse(d as int, b, 0, d as int);
        }
        return Some(0);
    }
    let at: usize = n - k as usize;
    let q: u128 = read_digits(digits, 0, at, LIMIT as u128);
    let first: u128 = (digits[at] as u32 - 48) as u128;
    let more = any_nonzero(digits, at + 1, n);
    proof {
        let kept = digits@.subrange(0, at as int);
        let dropped = digits@.subrange(at as int, n as int);
        let tail = digits@.subrange(at + 1, n as int);
        lemma_all_digits_part(digits@, 0, at as int);
        lemma_all_digits_part(digits@, at as int, n as int);
        lemma_all_digits_part(digits@, at + 1, n as int);
        assert(kept + dropped =~= digits@);
        lemma_digits_concat(kept, dropped);
        let one = seq![digits@[at as int]];
        assert(one + tail =~= dropped);
        lemma_digits_concat(one, tail);
        assert(is_digit(digits@[at as int]));
        assert(one.drop_last() =~= Seq::empty());
        assert(digits_value(one.drop_last()) == 0);
        assert(one.last() == digits@[at as int]);
        assert(digits_value(one) == digits_value(one.drop_last()) * 10 + (one.last() as int - 48));
        assert(digits_value(one) == first);
        lemma_digits_bound(dropped);
        lemma_digits_bound(tail);
        let p = pow10(tail.len()) as int;
        lemma_pow10_monotone(0, tail.len());
        assert(b == 10 * p);
        let r = digits_value(dropped) as int;
        lemma_half(first as int, digits_value(tail) as int, p);
        assert(dropped.len() == k);
        vstd::arithmetic::div_mod::lemma_fundamental_div_mod_converse(
            d as int,
            b,
            digits_value(kept) as int,
            r,
        );
        assert(d as int / b == digits_value(kept));
        assert(d as int % b == r);
    }
    if q > LIMIT as u128 {
        return None;
    }
    let v: u128 = if first > 5 || (first == 5 && (more || q % 2 == 1)) {
        q + 1
    } else {
        q
    };
    if v > LIMIT as u128 {
        None
    } else {
        Some(v)
    }
}

/// A power of ten that is told apart, and one that is held, scale alike.
proof fn lemma_exponent_held(d: nat, len: nat, e: int, held: int, f: nat)
    requires
        d < pow10(len),
        len <= usize::MAX,
        f <= len,
        ({
            ||| held == e
            ||| held == EXPONENT_CAP + 1 && e > EXPONENT_CAP
            ||| held == -EXPONENT_CAP - 1 && e < -EXPONENT_CAP
        }),
    ensures
        scaled(d, 12 + e - f) == scaled(d, 12 + held - f) || (scaled(d, 12 + e - f) > LIMIT
            && scaled(d, 12 + held - f) > LIMIT),
{
    if held != e {
        let a = 12 + e - f;
        let b = 12 + held - f;
        if e > 0 {
            lemma_pow10_beyond(a as nat);
            lemma_pow10_beyond(b as nat);
            let x = pow10(a as nat) as int;
            let y = pow10(b as nat) as int;
            if d == 0 {
                assert(d * x == 0 && d * y == 0) by (nonlinear_arith)
                    requires
                        d == 0,
                ;
            } else {
                assert(d * x >= x && d * y >= y) by (nonlinear_arith)
                    requires
                        d >= 1,
                        x >= 0,
                        y >= 0,
                ;
            }
        } else {
            lemma_scaled_to_zero(d, len, (-a) as nat);
            lemma_scaled_to_zero(d, len, (-b) as nat);
        }
    }
}

/// Fewer digits than are dropped leave nothing.
proof fn lemma_scaled_to_zero(d: nat, len: nat, k: nat)
    requires
        d < pow10(len),
        k > len,
    ensures
        round_half_even(d, pow10(k)) == 0,
{
    let b = pow10(k) as int;
    lemma_pow10_monotone(len, (k - 1) as nat);
    assert(b == 10 * pow10((k - 1) as nat));
    vstd::arithmetic::div_mod::lemma_fundamental_div_mod_converse(d as int, b, 0, d as int);
}

/// Reads an unsigned decimal.
fn parse_unsigned(chars: &Vec<char>) -> (r: Option<u128>)
    ensures
        match r {
            Some(v) => magnitude(chars@) == Some(v as nat) && v <= LIMIT,
            None => magnitude(chars@) is None || magnitude(chars@)->0 > LIMIT,
        },
{
    let at = exp_in(chars);
    let e: i128 = match read_exponent(chars, at) {
        Some(e) => e,
        None => {
            return None;
        },
    };
    let m = slice(chars, 0, at);
    assert(m@ =~= mantissa(chars@));
    let point = point_in(&m);
    let mut digits = slice(&m, 0, point);
    assert(digits@ =~= before_first(m@, '.'));
    let start: usize = if point < m.len() {
        point + 1
    } else {
        point
    };
    let tail = slice(&m, start, m.len());
    assert(tail@ =~= fraction(m@));
    let f: usize = tail.len();
    if !only_digits(&digits) || !only_digits(&tail) || digits.len() + f == 0 {
        return None;
    }
    let ghost whole = digits@;
    let mut i: usize = 0;
    while i < tail.len()
        invariant
            i <= tail@.len(),
            digits@ == whole + tail@.take(i as int),
        decreases tail.len() - i,
    {
        digits.push(tail[i]);
        i += 1;
        assert(digits@ =~= whole + tail@.take(i as int));
    }
    proof {
        assert(digits@ =~= whole + fraction(m@));
        assert forall|k: int| 0 <= k < digits@.len() implies is_digit(#[trigger] digits@[k]) by {
            if k < whole.len() {
                assert(digits@[k] == whole[k]);
            } else {
                assert(digits@[k] == tail@[k - whole.len()]);
            }
        }
        lemma_digits_bound(digits@);
        lemma_exponent_held(
            digits_value(digits@),
            digits@.len(),
            exponent(chars@)->0,
            e as int,
            f as nat,
        );
    }
    let scale: i128 = 12 + e - f as i128;
    if scale >= 0 {
        let d: u128 = read_digits(&digits, 0, digits.len(), LIMIT as u128);
        assert(digits@.subrange(0, digits@.len() as int) =~= digits@);
        if d > LIMIT as u128 {
            proof {
                let p = pow10(scale as nat) as int;
                let v = digits_value(digits@) as int;
                lemma_pow10_monotone(0, scale as nat);
                assert(v * p >= v) by (nonlinear_arith)
                    requires
                        v >= 0,
                        p >= 1,
                ;
            }
            return None;
        }
        scale_up(d, scale)
    } else {
        scale_down(&digits, -scale)
    }
}

/// Reads the decimal text `s`, in units.
pub fn parse_decimal(s: &str) -> (r: Option<i128>)
    ensures
        match r {
            Some(x) => decimal_value(s@) == Some(x as int) && in_range(x as int),
            None => decimal_value(s@) is None,
        },
{
    let chars = chars_of(s);
    let negative = chars.len() > 0 && chars[0] == '-';
    let from: usize = if chars.len() > 0 && (chars[0] == '-' || chars[0] == '+') {
        1
    } else {
        0
    };
    let rest = slice(&chars, from, chars.len());
    assert(rest@ =~= unsigned(s@));
    match parse_unsigned(&rest) {
        Some(m) => if negative {
            Some(-(m as i128))
        } else {
            Some(m as i128)
        },
        None => None,
    }
}

/// Powers of ten multiply by adding exponents.
pub proof fn lemma_pow10_split(a: nat, b: nat)
    ensures
        pow10(a) * pow10(b) == pow10(a + b),
    decreases a,
{
    let x = pow10(a) as int;
    let q = pow10(b) as int;
    if a == 0 {
        assert(x * q == q) by (nonlinear_arith)
            requires
                x == 1,
        ;
    } else {
        let p = pow10((a - 1) as nat) as int;
        lemma_pow10_split((a - 1) as nat, b);
        assert(x * q == 10 * (p * q)) by (nonlinear_arith)
            requires
                x == 10 * p,
        ;
        assert((a - 1) as nat + b == (a + b - 1) as nat);
    }
}

/// The fewest fraction digits that write `x` exactly.
pub fn get_precision(x: i128) -> (p: usize)
    requires
        in_range(x as int),
    ensures
        p == precision(x as int),
        p <= 12,
{
    let m: u128 = if x < 0 {
        (-x) as u128
    } else {
        x as u128
    };
    let mut p: usize = 0;
    while p < 12
        invariant
            p <= 12,
            in_range(x as int),
            m == abs(x as int),
            precision(x as int) == precision_from(x as int, p as nat),
        decreases 12 - p,
    {
        let unit = pow10_exec(12 - p);
        proof {
            lemma_divides_negated(x as int, unit as int);
        }
        if m % unit == 0 {
            return p;
        }
        p += 1;
    }
    p
}

/// A divisor divides a number exactly when it divides its negation.
pub proof fn lemma_divides_negated(x: int, d: int)
    requires
        d > 0,
    ensures
        (x % d == 0) == ((-x) % d == 0),
        (x % d == 0) == (abs(x) % d == 0),
{
    vstd::arithmetic::div_mod::lemma_fundamental_div_mod(x, d);
    vstd::arithmetic::div_mod::lemma_fundamental_div_mod(-x, d);
    if x % d == 0 {
        let k = x / d;
        assert(-x == (-k) * d) by (nonlinear_arith)
            requires
                x == d * k,
        ;
        vstd::arithmetic::div_mod::lemma_fundamental_div_mod_converse(-x, d, -k, 0);
    }
    if (-x) % d == 0 {
        let k = (-x) / d;
        assert(x == (-k) * d) by (nonlinear_arith)
            requires
                -x == d * k,
        ;
        vstd::arithmetic::div_mod::lemma_fundamental_div_mod_converse(x, d, -k, 0);
    }
}

/// The number of ticks of size `tick` nearest to `price`, held to the range of `i64`.
pub fn nearest_ticks(price: i128, tick: i128) -> (r: i64)
    requires
        in_range(price as int),
        in_range(tick as int),
    ensures
        r == ticks(price as int, tick as int),
{
    if tick == 0 {
        return if price == 0 {
            0
        } else if price > 0 {
            i64::MAX
        } else {
            i64::MIN
        };
    }
    let p: i128 = if price < 0 {
        -price
    } else {
        price
    };
    let t: i128 = if tick < 0 {
        -tick
    } else {
        tick
    };
    let q: i128 = (2 * p + t) / (2 * t);
    proof {
        vstd::arithmetic::div_mod::lemma_div_pos_is_pos(2 * p + t, 2 * t);
        vstd::arithmetic::div_mod::lemma_div_is_ordered_by_denominator(2 * p + t, 1, 2 * t);
        assert(0 <= q <= 2 * p + t);
    }
    let v: i128 = if (price < 0) != (tick < 0) {
        -q
    } else {
        q
    };
    if v > i64::MAX as i128 {
        i64::MAX
    } else if v < i64::MIN as i128 {
        i64::MIN
    } else {
        v as i64
    }
}

/// The digits of a number denote it.
pub proof fn lemma_nat_chars(n: nat)
    ensures
        nat_chars(n).len() > 0,
        all_digits(nat_chars(n)),
        digits_value(nat_chars(n)) == n,
    decreases n,
{
    let s = nat_chars(n);
    if n < 10 {
        assert(s.drop_last() =~= Seq::empty());
        assert(digits_value(s.drop_last()) == 0);
        assert(s.last() == digit_char(n as int));
    } else {
        lemma_nat_chars(n / 10);
        let head = nat_chars(n / 10);
        assert(s.drop_last() =~= head);
        assert(s.last() == digit_char((n % 10) as int));
        assert forall|i: int| 0 <= i < s.len() implies is_digit(#[trigger] s[i]) by {
            if i < head.len() {
                assert(s[i] == head[i]);
            }
        }
    }
}

/// The lowest digits of a number denote what is left of it.
pub proof fn lemma_padded(n: nat, w: nat)
    ensures
        padded(n, w).len() == w,
        all_digits(padded(n, w)),
        n < pow10(w) ==> digits_value(padded(n, w)) == n,
    decreases w,
{
    if w > 0 {
        let head = padded(n / 10, (w - 1) as nat);
        lemma_padded(n / 10, (w - 1) as nat);
        let s = padded(n, w);
        assert(s.drop_last() =~= head);
        assert(s.last() == digit_char((n % 10) as int));
        assert forall|i: int| 0 <= i < s.len() implies is_digit(#[trigger] s[i]) by {
            if i < head.len() {
                assert(s[i] == head[i]);
            }
        }
    }
}

/// Zeros denote nothing.
pub proof fn lemma_zeros(n: nat)
    ensures
        zeros(n).len() == n,
        all_digits(zeros(n)),
        digits_value(zeros(n)) == 0,
    decreases n,
{
    if n > 0 {
        lemma_zeros((n - 1) as nat);
        assert(zeros(n).drop_last() =~= zeros((n - 1) as nat));
    }
}

/// Digits and points are a mantissa without an exponent.
pub proof fn lemma_no_exponent(s: Seq<char>)
    requires
        forall|i: int| 0 <= i < s.len() ==> is_digit(#[trigger] s[i]) || s[i] == '.',
    ensures
        mantissa(s) == s,
        exponent_text(s) is None,
    decreases s.len(),
{
    if s.len() > 0 {
        assert(is_digit(s[0]) || s[0] == '.');
        assert forall|i: int| 0 <= i < s.skip(1).len() implies is_digit(#[trigger] s.skip(1)[i])
            || s.skip(1)[i] == '.' by {
            assert(is_digit(s[i + 1]) || s[i + 1] == '.');
        }
        lemma_no_exponent(s.skip(1));
        assert(seq![s[0]] + s.skip(1) =~= s);
    } else {
        assert(mantissa(s) =~= s);
    }
}

/// Digits, a point and digits fall apart at the point.
pub proof fn lemma_point(a: Seq<char>, b: Seq<char>)
    requires
        all_digits(a),
    ensures
        before_first(a.push('.') + b, '.') == a,
        fraction(a.push('.') + b) == b,
        before_first(a, '.') == a,
        fraction(a) == Seq::<char>::empty(),
    decreases a.len(),
{
    let s = a.push('.') + b;
    if a.len() == 0 {
        assert(s[0] == '.');
        assert(s.skip(1) =~= b);
        assert(before_first(s, '.') =~= a);
        assert(before_first(a, '.') =~= a);
    } else {
        assert(is_digit(a[0]));
        let rest = a.skip(1);
        assert forall|i: int| 0 <= i < rest.len() implies is_digit(#[trigger] rest[i]) by {
            assert(is_digit(a[i + 1]));
        }
        lemma_point(rest, b);
        assert(s.skip(1) =~= rest.push('.') + b);
        assert(s[0] == a[0]);
        assert(seq![a[0]] + rest =~= a);
    }
}

/// A whole number of ticks is the nearest number of ticks to its price.
pub proof fn law_ticks_of_a_price_are_its_ticks(n: i64, tick: int)
    requires
        tick != 0,
    ensures
        ticks(n * tick, tick) == n,
{
    let p = abs(n * tick);
    let t = abs(tick);
    let c = abs(n as int);
    assert(p == c * t) by (nonlinear_arith)
        requires
            p == abs(n * tick),
            t == abs(tick),
            c == abs(n as int),
    ;
    assert(2 * p + t == c * (2 * t) + t) by (nonlinear_arith)
        requires
            p == c * t,
    ;
    vstd::arithmetic::div_mod::lemma_fundamental_div_mod_converse(2 * p + t, 2 * t, c, t);
    assert((n * tick < 0) != (tick < 0) ==> n <= 0) by (nonlinear_arith)
        requires
            tick != 0,
    ;
    assert((n * tick < 0) == (tick < 0) ==> n >= 0) by (nonlinear_arith)
        requires
            tick != 0,
    ;
}

/// The fewest digits that write a decimal exactly also write its multiples exactly.
pub proof fn law_precision_is_enough(x: int, n: int)
    ensures
        precision(x) <= 12,
        precision(x) < 12 ==> (n * x) % (pow10((12 - precision(x)) as nat) as int) == 0,
{
    lemma_precision_from(x, 0);
    if precision(x) < 12 {
        let d = pow10((12 - precision(x)) as nat) as int;
        lemma_pow10_monotone(0, (12 - precision(x)) as nat);
        vstd::arithmetic::div_mod::lemma_fundamental_div_mod(x, d);
        let k = x / d;
        assert(n * x == (n * k) * d) by (nonlinear_arith)
            requires
                x == d * k,
        ;
        vstd::arithmetic::div_mod::lemma_fundamental_div_mod_converse(n * x, d, n * k, 0);
    }
}

/// What the search for the fewest digits finds.
proof fn lemma_precision_from(x: int, p: nat)
    requires
        p <= 12,
    ensures
        p <= precision_from(x, p) <= 12,
        precision_from(x, p) < 12 ==> x % (pow10((12 - precision_from(x, p)) as nat) as int) == 0,
    decreases 12 - p,
{
    if p < 12 && x % (pow10((12 - p) as nat) as int) != 0 {
        lemma_precision_from(x, p + 1);
    }
}

/// No whole number of ticks is nearer to a price than the one it is rounded to, and of two that are
/// as near it is rounded to the one further from zero. Where the nearest does not fit 64 bits, the
/// price is held to the nearest number that does.
pub proof fn law_ticks_are_nearest(p: int, t: int, n: int)
    requires
        t != 0,
        i64::MIN <= n <= i64::MAX,
    ensures
        i64::MIN <= ticks(p, t) <= i64::MAX,
        abs(p - ticks(p, t) * t) <= abs(p - n * t),
        abs(p - ticks(p, t) * t) == abs(p - n * t) ==> abs(n) <= abs(ticks(p, t)),
{
    let a = abs(p);
    let b = abs(t);
    let q = (2 * a + b) / (2 * b);
    let rem = (2 * a + b) % (2 * b);
    vstd::arithmetic::div_mod::lemma_fundamental_div_mod(2 * a + b, 2 * b);
    vstd::arithmetic::div_mod::lemma_mod_bound(2 * a + b, 2 * b);
    assert(q >= 0) by {
        vstd::arithmetic::div_mod::lemma_div_pos_is_pos(2 * a + b, 2 * b);
    }
    let flip = (p < 0) != (t < 0);
    let m = if flip {
        -n
    } else {
        n
    };
    let k = if flip {
        -ticks(p, t)
    } else {
        ticks(p, t)
    };
    assert(abs(p - n * t) == abs(a - m * b)) by (nonlinear_arith)
        requires
            a == abs(p),
            b == abs(t),
            flip == ((p < 0) != (t < 0)),
            m == if flip {
                -n
            } else {
                n
            },
    ;
    assert(abs(p - ticks(p, t) * t) == abs(a - k * b)) by (nonlinear_arith)
        requires
            a == abs(p),
            b == abs(t),
            flip == ((p < 0) != (t < 0)),
            k == if flip {
                -ticks(p, t)
            } else {
                ticks(p, t)
            },
    ;
    assert(0 <= k <= q);
    assert(k < q ==> m <= k);
    lemma_nearest(a, b, q, rem, k, m);
    assert(abs(n) == abs(m));
    assert(abs(ticks(p, t)) == k);
}

/// Of the multiples of `b`, the one that `q` gives is nearest to `a`, and one that falls short of it
/// is nearest of those that do not go further.
proof fn lemma_nearest(a: int, b: int, q: int, rem: int, k: int, m: int)
    requires
        a >= 0,
        b > 0,
        2 * a + b == 2 * b * q + rem,
        0 <= rem < 2 * b,
        0 <= k <= q,
        k < q ==> m <= k,
    ensures
        abs(a - k * b) <= abs(a - m * b),
        abs(a - k * b) == abs(a - m * b) ==> abs(m) <= k,
{
    if k == q {
        if m < k {
            assert(m * b <= k * b - b) by (nonlinear_arith)
                requires
                    m <= k - 1,
                    b > 0,
            ;
        } else if m > k {
            assert(m * b >= k * b + b) by (nonlinear_arith)
                requires
                    m >= k + 1,
                    b > 0,
            ;
        }
        assert(2 * b * q == 2 * (k * b)) by (nonlinear_arith)
            requires
                k == q,
        ;
        if m < -k {
            assert(m * b <= -(k * b) - b) by (nonlinear_arith)
                requires
                    m <= -k - 1,
                    b > 0,
            ;
            assert(k * b >= 0) by (nonlinear_arith)
                requires
                    k >= 0,
                    b > 0,
            ;
        }
    } else {
        assert(k * b + b <= q * b) by (nonlinear_arith)
            requires
                k <= q - 1,
                b > 0,
        ;
        assert(2 * b * q == 2 * (q * b)) by (nonlinear_arith);
        assert(m * b <= k * b) by (nonlinear_arith)
            requires
                m <= k,
                b > 0,
        ;
        if m < k {
            assert(m * b <= k * b - b) by (nonlinear_arith)
                requires
                    m <= k - 1,
                    b > 0,
            ;
        }
    }
}

/// An integer is written in digits that denote it, after a minus sign where it is negative: no two
/// integers are written alike, and none is written with a space.
pub proof fn law_integers_read_back(i: int, j: int)
    ensures
        i >= 0 ==> all_digits(int_chars(i)) && digits_value(int_chars(i)) == i,
        i < 0 ==> int_chars(i)[0] == '-' && all_digits(int_chars(i).skip(1)) && digits_value(
            int_chars(i).skip(1),
        ) == -i,
        int_chars(i).len() > 0,
        int_chars(i) == int_chars(j) <==> i == j,
        forall|k: int| 0 <= k < int_chars(i).len() ==> #[trigger] int_chars(i)[k] != ' ',
{
    lemma_int_chars(i);
    lemma_int_chars(j);
    if int_chars(i) == int_chars(j) {
        if i >= 0 && j < 0 {
            assert(is_digit(int_chars(i)[0]));
        } else if i < 0 && j >= 0 {
            assert(is_digit(int_chars(j)[0]));
        }
    }
    assert forall|k: int| 0 <= k < int_chars(i).len() implies #[trigger] int_chars(i)[k] != ' ' by {
        if i >= 0 {
            assert(is_digit(int_chars(i)[k]));
        } else if k > 0 {
            assert(is_digit(int_chars(i).skip(1)[k - 1]));
        }
    }
}

/// What an integer is written with.
proof fn lemma_int_chars(i: int)
    ensures
        i >= 0 ==> all_digits(int_chars(i)) && digits_value(int_chars(i)) == i,
        i < 0 ==> int_chars(i)[0] == '-' && all_digits(int_chars(i).skip(1)) && digits_value(
            int_chars(i).skip(1),
        ) == -i,
        int_chars(i).len() > 0,
{
    if i >= 0 {
        lemma_nat_chars(i as nat);
    } else {
        lemma_nat_chars((-i) as nat);
        assert(int_chars(i).skip(1) =~= nat_chars((-i) as nat));
    }
}

/// Digits denote a number in base ten: a digit behind them counts once and they ten times as much,
/// and zeros before them count nothing.
pub proof fn law_digits_count_by_tens(s: Seq<char>, c: char)
    requires
        is_digit(c),
    ensures
        digits_value(s.push(c)) == digits_value(s) * 10 + (c as int - '0' as int),
        digits_value(seq!['0'] + s) == digits_value(s),
        digits_value(seq![]) == 0,
    decreases s.len(),
{
    assert(s.push(c).drop_last() =~= s);
    let zero = seq!['0'];
    assert(zero.drop_last() =~= seq![]);
    assert(digits_value(zero) == 0) by {
        reveal_with_fuel(digits_value, 2);
    }
    if s.len() > 0 {
        law_digits_count_by_tens(s.drop_last(), c);
        assert((zero + s).drop_last() =~= zero + s.drop_last());
        assert((zero + s).last() == s.last());
    } else {
        assert(zero + s =~= zero);
    }
}

/// A decimal without an exponent is its digits before and after the point, in units of the last
/// place that is held: where there are no more than twelve digits after the point the value is exact.
/// A minus sign in front negates it, and a plus sign changes nothing.
pub proof fn law_decimals_are_read_exactly(whole: Seq<char>, part: Seq<char>)
    requires
        all_digits(whole),
        all_digits(part),
        whole.len() + part.len() > 0,
        part.len() <= 12,
        digits_value(whole + part) * pow10((12 - part.len()) as nat) <= LIMIT,
    ensures
        ({
            let s = whole.push('.') + part;
            let n = digits_value(whole + part) * pow10((12 - part.len()) as nat);
            &&& decimal_value(s) == Some(n as int)
            &&& decimal_value(seq!['-'] + s) == Some(-(n as int))
            &&& decimal_value(seq!['+'] + s) == Some(n as int)
        }),
{
    let s = whole.push('.') + part;
    lemma_unsigned_decimal(whole, part);
    assert(unsigned(s) =~= s) by {
        if whole.len() > 0 {
            assert(is_digit(whole[0]));
            assert(s[0] == whole[0]);
        } else {
            assert(s[0] == '.');
        }
    }
    let minus = seq!['-'] + s;
    let plus = seq!['+'] + s;
    assert(minus[0] == '-');
    assert(plus[0] == '+');
    assert(minus.skip(1) =~= s);
    assert(plus.skip(1) =~= s);
}

/// The magnitude of digits, a point and digits.
proof fn lemma_unsigned_decimal(whole: Seq<char>, part: Seq<char>)
    requires
        all_digits(whole),
        all_digits(part),
        whole.len() + part.len() > 0,
        part.len() <= 12,
    ensures
        magnitude(whole.push('.') + part) == Some(
            digits_value(whole + part) * pow10((12 - part.len()) as nat),
        ),
        whole.len() > 0 ==> magnitude(whole) == Some(digits_value(whole) * pow10(12)),
{
    let s = whole.push('.') + part;
    lemma_point(whole, part);
    assert forall|i: int| 0 <= i < s.len() implies is_digit(#[trigger] s[i]) || s[i] == '.' by {
        if i < whole.len() {
            assert(is_digit(whole[i]));
        } else if i > whole.len() {
            assert(is_digit(part[i - whole.len() - 1]));
        }
    }
    lemma_no_exponent(s);
    if whole.len() > 0 {
                lemma_no_exponent(whole);
        assert(whole + Seq::<char>::empty() =~= whole);
    }
}

/// A whole number is read as itself.
pub proof fn law_whole_numbers_are_read_exactly(whole: Seq<char>)
    requires
        all_digits(whole),
        whole.len() > 0,
        digits_value(whole) * 1_000_000_000_000 <= LIMIT,
    ensures
        decimal_value(whole) == Some((digits_value(whole) * 1_000_000_000_000) as int),
{
    lemma_unsigned_decimal(whole, seq![]);
    assert(pow10(12) == 1_000_000_000_000) by {
        lemma_pow10_values();
    }
    assert(is_digit(whole[0]));
    assert(unsigned(whole) =~= whole);
}

/// Rounding to a whole number is to a nearest one, and to the even one of two that are as near.
pub proof fn law_rounding_is_to_the_nearest(a: nat, b: nat, n: nat)
    requires
        b > 0,
    ensures
        abs(a - round_half_even(a, b) * b) <= abs(a - n * b),
        abs(a - round_half_even(a, b) * b) == abs(a - n * b) && n != round_half_even(a, b)
            ==> round_half_even(a, b) % 2 == 0,
{
    let q = (a / b) as int;
    let r = (a % b) as int;
    vstd::arithmetic::div_mod::lemma_fundamental_div_mod(a as int, b as int);
    vstd::arithmetic::div_mod::lemma_mod_bound(a as int, b as int);
    assert(a == q * b + r) by (nonlinear_arith)
        requires
            a == b * q + r,
    ;
    let k = round_half_even(a, b);
    assert((q + 1) * b == q * b + b) by (nonlinear_arith);
    if n <= q - 1 {
        assert(n * b <= q * b - b) by (nonlinear_arith)
            requires
                n <= q - 1,
                b > 0,
        ;
    } else if n >= q + 2 {
        assert(n * b >= q * b + 2 * b) by (nonlinear_arith)
            requires
                n >= q + 2,
                b > 0,
        ;
    }
    assert(k == q || k == q + 1);
    assert(n <= q - 1 || n == q || n == q + 1 || n >= q + 2);
    if n == q {
        assert(n * b == q * b);
    } else if n == q + 1 {
        assert(n * b == q * b + b) by (nonlinear_arith)
            requires
                n == q + 1,
        ;
    }
    if k == q {
        assert(k * b == q * b);
    } else {
        assert(k * b == q * b + b) by (nonlinear_arith)
            requires
                k == q + 1,
        ;
    }
}

/// No fewer digits than the precision write a decimal exactly.
pub proof fn law_fewer_digits_are_not_enough(x: int, p: nat)
    requires
        p < precision(x),
    ensures
        x % (pow10((12 - p) as nat) as int) != 0,
        precision(x) <= 12,
{
    lemma_precision_from(x, 0);
    lemma_precision_least(x, 0, p);
}

/// What the search for the fewest digits leaves out.
proof fn lemma_precision_least(x: int, from: nat, p: nat)
    requires
        from <= p < precision_from(x, from),
        from <= 12,
    ensures
        x % (pow10((12 - p) as nat) as int) != 0,
    decreases p - from,
{
    if from < p {
        lemma_precision_least(x, from + 1, p);
    }
}

/// An exponent moves the point: digits, a point and digits before an `e` or an `E` and an integer
/// are read as what stands before it, times that power of ten. Where the point moves so far to the
/// left that digits are lost, the value is a nearest one.
pub proof fn law_exponents_move_the_point(
    whole: Seq<char>,
    part: Seq<char>,
    e: char,
    places: Seq<char>,
    n: nat,
)
    requires
        all_digits(whole),
        all_digits(part),
        whole.len() + part.len() > 0,
        e == 'e' || e == 'E',
        all_digits(places),
        places.len() > 0,
    ensures
        ({
            let d = digits_value(whole + part);
            let up = 12 + digits_value(places) - part.len();
            let s = whole.push('.') + part + seq![e] + places;
            up >= 0 && d * pow10(up as nat) <= LIMIT ==> decimal_value(s) == Some(
                (d * pow10(up as nat)) as int,
            )
        }),
        ({
            let d = digits_value(whole + part);
            let down = digits_value(places) + part.len() - 12;
            let s = whole.push('.') + part + seq![e] + seq!['-'] + places;
            down > 0 && decimal_value(s) is Some ==> {
                &&& decimal_value(s)->0 >= 0
                &&& abs(d - decimal_value(s)->0 * pow10(down as nat)) <= abs(
                    d - n * pow10(down as nat),
                )
            }
        }),
{
    let m = whole.push('.') + part;
    let d = digits_value(whole + part);
    lemma_point(whole, part);
    assert forall|i: int| 0 <= i < m.len() implies is_digit(#[trigger] m[i]) || m[i] == '.' by {
        if i < whole.len() {
            assert(is_digit(whole[i]));
        } else if i > whole.len() {
            assert(is_digit(part[i - whole.len() - 1]));
        }
    }
    let up = m + seq![e] + places;
    let down = m + seq![e] + seq!['-'] + places;
    lemma_exponent_parts(m, e, places);
    lemma_exponent_parts(m, e, seq!['-'] + places);
    assert(m + seq![e] + (seq!['-'] + places) =~= down);
    assert(is_digit(places[0]));
    assert(unsigned(places) =~= places);
    assert((seq!['-'] + places)[0] == '-');
    assert(unsigned(seq!['-'] + places) =~= places);
    assert(up[0] == m[0] && down[0] == m[0]);
    assert(is_digit(m[0]) || m[0] == '.');
    assert(unsigned(up) =~= up);
    assert(unsigned(down) =~= down);
    let k = digits_value(places) + part.len() - 12;
    if k > 0 {
        lemma_pow10_monotone(0, k as nat);
        law_rounding_is_to_the_nearest(d, pow10(k as nat), n);
    }
}

/// What stands before an exponent, and the exponent.
proof fn lemma_exponent_parts(m: Seq<char>, e: char, t: Seq<char>)
    requires
        forall|i: int| 0 <= i < m.len() ==> is_digit(#[trigger] m[i]) || m[i] == '.',
        is_exp(e),
    ensures
        mantissa(m + seq![e] + t) == m,
        exponent_text(m + seq![e] + t) == Some(t),
    decreases m.len(),
{
    let s = m + seq![e] + t;
    if m.len() == 0 {
        assert(s[0] == e);
        assert(s.skip(1) =~= t);
        assert(mantissa(s) =~= m);
    } else {
        let rest = m.skip(1);
        assert(is_digit(m[0]) || m[0] == '.');
        assert(s[0] == m[0]);
        assert forall|i: int| 0 <= i < rest.len() implies is_digit(#[trigger] rest[i]) || rest[i]
            == '.' by {
            assert(is_digit(m[i + 1]) || m[i + 1] == '.');
        }
        lemma_exponent_parts(rest, e, t);
        assert(s.skip(1) =~= rest + seq![e] + t);
        assert(seq![m[0]] + rest =~= m);
    }
}

} // verus!
