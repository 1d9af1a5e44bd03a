//! Decimal rounding of ratios, to the nearest value and to the even neighbour on
//! a tie: the way a binary floating-point quotient of the same two numbers prints
//! with a fixed number of decimals.
use vstd::arithmetic::div_mod::*;
use vstd::prelude::*;
use vstd::string::*;
use crate::text::{dec, push_dec};

verus! {

/// The integer nearest to `num / den`; of two equally near, the even one.
pub open spec fn round_half_even(num: nat, den: nat) -> nat
    recommends
        den > 0,
{
    let q = num / den;
    let r = num % den;
    if 2 * r > den || (2 * r == den && q % 2 == 1) {
        q + 1
    } else {
        q
    }
}

/// Rounding goes to the nearest whole number, and between two to the even one.
pub proof fn law_rounds_to_nearest(num: nat, den: nat)
    requires
        den > 0,
    ensures
        ({
            let r = round_half_even(num, den);
            &&& -den <= 2 * (r * den - num) <= den
            &&& 2 * (r * den - num) == den || 2 * (r * den - num) == -den ==> r % 2 == 0
        }),
{
    let q = num / den;
    lemma_fundamental_div_mod(num as int, den as int);
    let m = num % den;
    let r = round_half_even(num, den);
    assert(den * q == q * den) by (nonlinear_arith);
    assert((q + 1) * den == q * den + den) by (nonlinear_arith);
}

pub fn rounded(num: u128, den: u128) -> (r: u128)
    requires
        0 < den,
        den < u128::MAX / 2,
        num < u128::MAX / 2,
    ensures
        r == round_half_even(num as nat, den as nat),
        r <= num / den + 1,
        r <= num + 1,
{
    let q: u128 = num / den;
    let m: u128 = num % den;
    proof {
        lemma_div_is_ordered_by_denominator(num as int, 1, den as int);
    }
    if 2 * m > den || (2 * m == den && q % 2 == 1) {
        q + 1
    } else {
        q
    }
}

/// The distance between neighbouring doubles at `n`: one up to 2^53, twice as
/// much with each further doubling.
pub open spec fn double_step(n: nat) -> nat
    decreases n,
{
    if n < 0x20_0000_0000_0000 {
        1
    } else {
        2 * double_step(n / 2)
    }
}

/// The double nearest to an unsigned integer (ties to the even mantissa).
pub open spec fn nearest_double(n: nat) -> nat {
    round_half_even(n, double_step(n)) * double_step(n)
}

proof fn lemma_double_step_bound(n: nat)
    ensures
        1 <= double_step(n),
        0 < n ==> double_step(n) <= n,
    decreases n,
{
    if n >= 0x20_0000_0000_0000 {
        lemma_double_step_bound(n / 2);
    }
}

fn step_of(n: u128) -> (r: u128)
    requires
        n < u128::MAX / 2,
    ensures
        r == double_step(n as nat),
        1 <= r <= n + 1,
    decreases n,
{
    proof {
        lemma_double_step_bound(n as nat);
    }
    if n < 0x20_0000_0000_0000 {
        1
    } else {
        2 * step_of(n / 2)
    }
}

pub fn as_double(n: u128) -> (r: u128)
    requires
        n < u128::MAX / 4,
    ensures
        r == nearest_double(n as nat),
        r <= 2 * n + 1,
        n > 0 ==> r > 0,
{
    let step: u128 = step_of(n);
    let q: u128 = rounded(n, step);
    assert(q * step <= n + step) by (nonlinear_arith)
        requires
            q <= n / step + 1,
            step > 0,
    ;
    proof {
        if n > 0 {
            lemma_double_is_positive(n as nat);
        }
    }
    q * step
}

proof fn lemma_double_is_positive(n: nat)
    requires
        0 < n,
    ensures
        0 < nearest_double(n),
{
    lemma_double_step_bound(n);
    let step = double_step(n);
    assert(n / step >= 1) by (nonlinear_arith)
        requires
            step <= n,
            step > 0,
    ;
    assert(round_half_even(n, step) * step > 0) by (nonlinear_arith)
        requires
            round_half_even(n, step) >= 1,
            step > 0,
    ;
}

/// How many doubles there are in a unit at `num / den`: one from 2^52 on, twice
/// as many with each further halving.
pub open spec fn doubles_per_unit(num: nat, den: nat) -> nat
    decreases
            if num < 0x10_0000_0000_0000 * den {
                0x10_0000_0000_0000 * den - num
            } else {
                0
            },
{
    if num == 0 || num >= 0x10_0000_0000_0000 * den {
        1
    } else {
        2 * doubles_per_unit(2 * num, den)
    }
}

/// What the double nearest to `num / den` prints as without decimals. At most one
/// of the two scales is more than one.
pub open spec fn quotient_whole(num: nat, den: nat) -> nat {
    let per_unit = doubles_per_unit(num, den);
    let step = double_step(num / den);
    round_half_even(round_half_even(num * per_unit, den * step) * step, per_unit)
}

/// [`quotient_whole`], computed.
pub fn whole_quotient(num: u128, den: u128) -> (r: u128)
    requires
        0 < den <= 0x1_0000_0000_0000_0000,
        num <= 0x100_0000_0000_0000_0000,
    ensures
        r == quotient_whole(num as nat, den as nat),
{
    let step: u128 = step_of(num / den);
    let ghost per_unit = doubles_per_unit(num as nat, den as nat);
    if step > 1 {
        assert(num >= 0x20_0000_0000_0000 * den) by (nonlinear_arith)
            requires
                num / den >= 0x20_0000_0000_0000,
                den > 0,
        ;
        assert(per_unit == 1);
        assert(num * per_unit == num);
        assert(den * step <= num + den) by (nonlinear_arith)
            requires
                step <= num / den + 1,
                den > 0,
        ;
        let wide: u128 = den * step;
        assert(wide >= step) by (nonlinear_arith)
            requires
                wide == den * step,
                den >= 1,
                step >= 1,
        ;
        let x: u128 = rounded(num, wide);
        assert(x * step <= num + step) by (nonlinear_arith)
            requires
                x <= num / wide + 1,
                wide >= step,
                step > 0,
        ;
        return x * step;
    }
    if num == 0 {
        assert(num * per_unit == 0);
        let x: u128 = rounded(0, den);
        return rounded(x, 1);
    }
    let mut s: u128 = num;
    let mut f: u128 = 1;
    while s < 0x10_0000_0000_0000 * den
        invariant
            0 < num <= 0x100_0000_0000_0000_0000,
            0 < den <= 0x1_0000_0000_0000_0000,
            0 < f <= s,
            s == num * f,
            s < 0x20_0000_0000_0000 * den || s == num,
            f * doubles_per_unit(s as nat, den as nat) == doubles_per_unit(num as nat, den as nat),
        decreases 0x20_0000_0000_0000 * den - s,
    {
        let ghost now = doubles_per_unit(s as nat, den as nat);
        let ghost next = doubles_per_unit((2 * s) as nat, den as nat);
        assert(now == 2 * next);
        assert((2 * f) * next == f * now) by (nonlinear_arith)
            requires
                now == 2 * next,
        ;
        assert(2 * s == num * (2 * f)) by (nonlinear_arith)
            requires
                s == num * f,
        ;
        s = 2 * s;
        f = 2 * f;
    }
    assert(f == per_unit) by {
        assert(doubles_per_unit(s as nat, den as nat) == 1);
        assert(f * 1 == f);
    }
    assert(step == 1);
    assert(den * 1 == den);
    let x: u128 = rounded(s, den);
    assert(x * 1 == x);
    rounded(x, f)
}

/// A number of tenths as a numeral with one decimal.
pub open spec fn tenths_text(t: nat) -> Seq<char> {
    dec(t / 10) + "."@ + dec(t % 10)
}

/// `n / den` with one decimal, `n` taken as a double first.
pub open spec fn one_decimal(n: nat, den: nat) -> Seq<char> {
    tenths_text(round_half_even(10 * nearest_double(n), den))
}

pub fn push_one_decimal(out: &mut String, n: u64, den: u64)
    requires
        1024 <= den,
    ensures
        final(out)@ == old(out)@ + one_decimal(n as nat, den as nat),
{
    let d: u128 = as_double(n as u128);
    let num: u128 = 10 * d;
    let q: u128 = num / (den as u128);
    assert(num / den as u128 <= 0x1_0000_0000_0000_0000 * 21) by (nonlinear_arith)
        requires
            num <= 0x1_0000_0000_0000_0000 * 20,
            den >= 1024,
    ;
    let t: u128 = rounded(num, den as u128);
    let whole: u128 = t / 10;
    assert(whole <= 0x1_0000_0000_0000_0000 * 3);
    let ghost start = out@;
    push_wide(out, whole);
    out.append(".");
    push_dec(out, (t % 10) as u64);
    assert(out@ =~= start + one_decimal(n as nat, den as nat));
}

/// A number of hundredths as a numeral with two decimals.
pub open spec fn hundredths_text(t: nat) -> Seq<char> {
    dec(t / 100) + "."@ + dec(t % 100 / 10) + dec(t % 10)
}

/// `n / den` with two decimals, `n` taken as a double first.
pub open spec fn two_decimals(n: nat, den: nat) -> Seq<char> {
    hundredths_text(round_half_even(100 * nearest_double(n), den))
}

pub fn push_two_decimals(out: &mut String, n: u64, den: u64)
    requires
        0 < den,
    ensures
        final(out)@ == old(out)@ + two_decimals(n as nat, den as nat),
{
    let d: u128 = as_double(n as u128);
    let t: u128 = rounded(100 * d, den as u128);
    let ghost start = out@;
    push_wide(out, t / 100);
    out.append(".");
    push_dec(out, (t % 100 / 10) as u64);
    push_dec(out, (t % 10) as u64);
    assert(out@ =~= start + two_decimals(n as nat, den as nat));
}

/// Appends the numeral of a wide number.
pub fn push_wide(out: &mut String, n: u128)
    ensures
        final(out)@ == old(out)@ + dec(n as nat),
    decreases n,
{
    if n >= 10 {
        push_wide(out, n / 10);
    }
    let d: u8 = (n % 10) as u8;
    out.push(('0' as u8 + d) as char);
    assert(out@ =~= old(out)@ + dec(n as nat));
}

// ── Laws ─────────────────────────────────────────────────────────────────

/// Tenths and hundredths stand behind the point.
pub proof fn law_decimals(w: nat, a: nat, b: nat)
    requires
        a < 10,
        b < 10,
    ensures
        tenths_text(10 * w + a) == dec(w) + "."@ + dec(a),
        hundredths_text(100 * w + 10 * a + b) == dec(w) + "."@ + dec(a) + dec(b),
{
    let t = 10 * w + a;
    assert(t / 10 == w && t % 10 == a);
    let h = 100 * w + 10 * a + b;
    assert(h / 100 == w && h % 100 == 10 * a + b && h % 10 == b);
    assert((10 * a + b) / 10 == a);
}

/// A whole number of at most 53 bits is a double.
pub proof fn law_small_numbers_are_doubles(n: nat)
    requires
        n < 0x20_0000_0000_0000,
    ensures
        nearest_double(n) == n,
        double_step(n) == 1,
{
    assert(round_half_even(n, 1) == n);
    assert(n * 1 == n);
}

/// A quotient with decimals is the nearest one that has so many.
pub proof fn law_quotients_are_nearest(n: nat, den: nat)
    requires
        n < 0x20_0000_0000_0000,
        den > 0,
    ensures
        exists|t: nat|
            one_decimal(n, den) == #[trigger] tenths_text(t) && -den <= 2 * (t * den - 10 * n) <= den,
        exists|t: nat|
            two_decimals(n, den) == #[trigger] hundredths_text(t) && -den <= 2 * (t * den - 100 * n)
                <= den,
{
    law_small_numbers_are_doubles(n);
    law_rounds_to_nearest(10 * n, den);
    law_rounds_to_nearest(100 * n, den);
    let t = round_half_even(10 * n, den);
    let h = round_half_even(100 * n, den);
    assert(one_decimal(n, den) == tenths_text(t));
    assert(two_decimals(n, den) == hundredths_text(h));
}

proof fn lemma_exact(x: nat, den: nat)
    requires
        den > 0,
    ensures
        round_half_even(x * den, den) == x,
{
    lemma_fundamental_div_mod_converse((x * den) as int, den as int, x as int, 0);
    assert(x * den == den * x) by (nonlinear_arith);
}

proof fn lemma_per_unit(num: nat, den: nat)
    ensures
        doubles_per_unit(num, den) >= 1,
    decreases
            if num < 0x10_0000_0000_0000 * den {
                0x10_0000_0000_0000 * den - num
            } else {
                0
            },
{
    if !(num == 0 || num >= 0x10_0000_0000_0000 * den) {
        lemma_per_unit(2 * num, den);
    }
}

/// A quotient that is a whole number prints as that number.
pub proof fn law_whole_quotients(q: nat, den: nat)
    requires
        q < 0x10_0000_0000_0000,
        den > 0,
    ensures
        quotient_whole(q * den, den) == q,
{
    let num = q * den;
    let u = doubles_per_unit(num, den);
    lemma_per_unit(num, den);
    lemma_fundamental_div_mod_converse(num as int, den as int, q as int, 0);
    assert(q * den == den * q) by (nonlinear_arith);
    law_small_numbers_are_doubles(q);
    assert(num * u == (q * u) * den) by (nonlinear_arith)
        requires
            num == q * den,
    ;
    assert(den * 1 == den);
    lemma_exact(q * u, den);
    assert((q * u) * 1 == q * u);
    lemma_exact(q, u);
}

} // verus!
