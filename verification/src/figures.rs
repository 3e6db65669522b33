//! Short renderings of token counts: `668`, `198k`, `61.75M`, `1.20B`.
//!
//! The figure of a scaled count is that of a binary64 quotient, printed with a fixed number of
//! decimal places. Both roundings, to 53 significant bits and to the last printed place, go to
//! the nearest value and to the even one when two are equally near. All of it is done on
//! integers.

use vstd::prelude::*;
use vstd::string::*;
use crate::text::{decimal, digit, number};

verus! {

/// Two to the power of `n`.
pub open spec fn two_to(n: nat) -> nat
    decreases n,
{
    if n == 0 {
        1
    } else {
        2 * two_to((n - 1) as nat)
    }
}

/// The integer nearest to `num / den`; of two equally near ones, the even one.
pub open spec fn nearest(num: nat, den: nat) -> nat {
    let below = num / den;
    let rest = num % den;
    if 2 * rest < den {
        below
    } else if 2 * rest > den {
        below + 1
    } else {
        below + below % 2
    }
}

/// The exponent of `num / den`: the largest `e` with `2^e <= num / den`, for a value of at
/// least one.
pub open spec fn exponent(num: nat, den: nat) -> nat
    decreases num - den,
{
    if den == 0 || num < 2 * den {
        0
    } else {
        1 + exponent(num, 2 * den)
    }
}

/// The bits a binary64 value keeps after the binary point when its exponent is `e`.
pub open spec fn fraction_bits(e: nat) -> nat {
    (52 - e) as nat
}

/// `num / den` as a binary64 quotient, times `scale`, rounded to an integer.
pub open spec fn scaled_quotient(num: nat, den: nat, scale: nat) -> nat {
    let unit = two_to(fraction_bits(exponent(num, den)));
    nearest(nearest(num * unit, den) * scale, unit)
}

/// The binary64 value nearest to a count: counts of more than 53 bits lose their last ones.
pub open spec fn as_binary64(count: nat) -> nat {
    if count < two_to(53) {
        count
    } else {
        let unit = two_to((exponent(count, 1) - 52) as nat);
        nearest(count, unit) * unit
    }
}

/// `hundredths / 100` with two decimal places.
pub open spec fn two_places(hundredths: nat) -> Seq<char> {
    decimal(hundredths / 100) + seq!['.', digit(hundredths / 10 % 10), digit(hundredths % 10)]
}

/// `hundredths / 100` with at most two decimal places: trailing zeros are dropped.
pub open spec fn up_to_two_places(hundredths: nat) -> Seq<char> {
    if hundredths % 100 == 0 {
        decimal(hundredths / 100)
    } else if hundredths % 10 == 0 {
        decimal(hundredths / 100) + seq!['.', digit(hundredths / 10 % 10)]
    } else {
        two_places(hundredths)
    }
}

/// The short rendering of a token count.
pub open spec fn short_figure(tokens: nat) -> Seq<char> {
    if tokens >= 1_000_000_000 {
        two_places(scaled_quotient(as_binary64(tokens), 1_000_000_000, 100)).push('B')
    } else if tokens >= 1_000_000 {
        up_to_two_places(scaled_quotient(tokens, 1_000_000, 100)).push('M')
    } else if tokens >= 1_000 {
        decimal(scaled_quotient(tokens, 1_000, 1)).push('k')
    } else {
        decimal(tokens)
    }
}

proof fn lemma_two_to_values()
    ensures
        two_to(0) == 1,
        two_to(35) == 0x8_0000_0000,
        two_to(52) == 0x10_0000_0000_0000,
        two_to(53) == 0x20_0000_0000_0000,
        two_to(64) == 0x1_0000_0000_0000_0000,
{
    reveal_with_fuel(two_to, 36);
    assert(two_to(35) == 0x8_0000_0000);
    assert(two_to(52) == 0x10_0000_0000_0000);
    assert(two_to(64) == 0x1_0000_0000_0000_0000);
}

proof fn lemma_two_to_positive(n: nat)
    ensures
        two_to(n) >= 1,
    decreases n,
{
    if n > 0 {
        lemma_two_to_positive((n - 1) as nat);
    }
}

proof fn lemma_two_to_monotone(a: nat, b: nat)
    requires
        a <= b,
    ensures
        two_to(a) <= two_to(b),
    decreases b,
{
    if a < b {
        lemma_two_to_monotone(a, (b - 1) as nat);
        lemma_two_to_positive((b - 1) as nat);
    }
}

proof fn lemma_two_to_sum(a: nat, b: nat)
    ensures
        two_to(a) * two_to(b) == two_to(a + b),
    decreases a,
{
    if a == 0 {
        assert(two_to(0) == 1);
        assert(1 * two_to(b) == two_to(b));
    } else {
        lemma_two_to_sum((a - 1) as nat, b);
        let x = two_to((a - 1) as nat);
        let y = two_to(b);
        assert((2 * x) * y == 2 * (x * y)) by (nonlinear_arith);
    }
}

/// The exponent brackets the value between two neighbouring powers of two.
proof fn lemma_exponent(num: nat, den: nat)
    requires
        1 <= den <= num,
    ensures
        den * two_to(exponent(num, den)) <= num,
        num < den * two_to(exponent(num, den) + 1),
    decreases num - den,
{
    reveal_with_fuel(two_to, 2);
    if num < 2 * den {
        assert(den * two_to(0) == den) by (nonlinear_arith)
            requires
                two_to(0) == 1,
        ;
        assert(den * two_to(1) == 2 * den) by (nonlinear_arith)
            requires
                two_to(1) == 2,
        ;
    } else {
        lemma_exponent(num, 2 * den);
        let e = exponent(num, 2 * den);
        let p = two_to(e);
        assert((2 * den) * p == den * (2 * p)) by (nonlinear_arith);
        assert((2 * den) * (2 * p) == den * (2 * (2 * p))) by (nonlinear_arith);
        assert(two_to(e + 1) == 2 * p);
        assert(two_to(e + 2) == 2 * two_to(e + 1));
    }
}

fn nearest_int(num: u128, den: u128) -> (out: u128)
    requires
        den > 0,
        num < 0x8000_0000_0000_0000_0000_0000_0000_0000,
    ensures
        out == nearest(num as nat, den as nat),
{
    let below: u128 = num / den;
    let rest: u128 = num % den;
    proof {
        vstd::arithmetic::div_mod::lemma_fundamental_div_mod(num as int, den as int);
        assert(below <= num) by (nonlinear_arith)
            requires
                below == num / den,
                den > 0,
        ;
    }
    // `rest` against `den - rest` compares twice the rest with the divisor.
    if rest < den - rest {
        below
    } else if rest > den - rest {
        below + 1
    } else {
        below + below % 2
    }
}

fn exponent_of(num: u128, den: u128) -> (out: (u32, u128))
    requires
        1 <= den <= num,
        num <= 0x1_0000_0000_0000_0000,
    ensures
        out.0 == exponent(num as nat, den as nat),
        out.1 == two_to(out.0 as nat),
        out.0 <= 64,
{
    let mut e: u32 = 0;
    let mut power: u128 = 1;
    let mut scaled: u128 = den;
    proof {
        lemma_two_to_values();
        lemma_exponent(num as nat, den as nat);
        let n = exponent(num as nat, den as nat);
        assert(n <= 64) by {
            if n > 64 {
                lemma_two_to_monotone(65, n);
                lemma_two_to_sum(1, 64);
                assert(two_to(1) == 2 * two_to(0));
                assert(den * two_to(n) >= two_to(n)) by (nonlinear_arith)
                    requires
                        den >= 1,
                        two_to(n) >= 0,
                ;
            }
        }
    }
    while num >= 2 * scaled
        invariant
            1 <= scaled <= num <= 0x1_0000_0000_0000_0000,
            power <= scaled,
            power == two_to(e as nat),
            exponent(num as nat, den as nat) == e + exponent(num as nat, scaled as nat),
            exponent(num as nat, den as nat) <= 64,
        decreases num - scaled,
    {
        scaled = 2 * scaled;
        power = 2 * power;
        e = e + 1;
    }
    (e, power)
}

fn power_of_two(n: u32) -> (out: u128)
    requires
        n <= 64,
    ensures
        out == two_to(n as nat),
{
    let mut i: u32 = 0;
    let mut out: u128 = 1;
    while i < n
        invariant
            i <= n <= 64,
            out == two_to(i as nat),
        decreases n - i,
    {
        proof {
            lemma_two_to_values();
            lemma_two_to_monotone(i as nat, 64);
        }
        out = 2 * out;
        i = i + 1;
    }
    out
}

fn quotient(num: u128, den: u128, scale: u128) -> (out: u128)
    requires
        1 <= den <= 1_000_000_000,
        den <= num <= 0x1_0000_0000_0000_0000,
        num < den * two_to(35),
        1 <= scale <= 100,
    ensures
        out == scaled_quotient(num as nat, den as nat, scale as nat),
        out <= 0x1000_0000_0000_0000,
{
    let found: (u32, u128) = exponent_of(num, den);
    let e: u32 = found.0;
    let power: u128 = found.1;
    proof {
        lemma_exponent(num as nat, den as nat);
        lemma_two_to_values();
        if e >= 35 {
            lemma_two_to_monotone(35, e as nat);
            assert(den * two_to(35) <= den * two_to(e as nat)) by (nonlinear_arith)
                requires
                    two_to(35) <= two_to(e as nat),
            ;
        }
    }
    let bits: u32 = 52 - e;
    let unit: u128 = power_of_two(bits);
    let ghost top = den * two_to(53);
    proof {
        lemma_two_to_positive(bits as nat);
        lemma_two_to_monotone(bits as nat, 52);
        lemma_two_to_sum((e + 1) as nat, bits as nat);
        let p = two_to((e + 1) as nat);
        assert(num * unit <= (den * p) * unit) by (nonlinear_arith)
            requires
                num < den * p,
                unit >= 0,
        ;
        assert((den * p) * unit == den * (p * unit)) by (nonlinear_arith);
        assert(num * unit <= top);
        assert(top <= 1_000_000_000 * 0x20_0000_0000_0000) by (nonlinear_arith)
            requires
                top == den * 0x20_0000_0000_0000,
                den <= 1_000_000_000,
        ;
        assert(num * unit >= 0) by (nonlinear_arith);
    }
    let widened: u128 = num * unit;
    let mantissa: u128 = nearest_int(widened, den);
    proof {
        assert(mantissa <= 0x20_0000_0000_0001) by {
            assert(widened / den <= 0x20_0000_0000_0000) by (nonlinear_arith)
                requires
                    widened <= den * 0x20_0000_0000_0000,
                    den >= 1,
            ;
        }
        assert(mantissa * scale <= 0x20_0000_0000_0001 * 100) by (nonlinear_arith)
            requires
                mantissa <= 0x20_0000_0000_0001,
                scale <= 100,
        ;
        assert(mantissa * scale >= 0) by (nonlinear_arith);
    }
    let figure: u128 = mantissa * scale;
    let out: u128 = nearest_int(figure, unit);
    proof {
        assert(figure / unit <= figure) by (nonlinear_arith)
            requires
                unit >= 1,
                figure >= 0,
        ;
    }
    out
}

fn binary64_of(count: u64) -> (out: u128)
    ensures
        out == as_binary64(count as nat),
        out <= 0x1_0000_0000_0000_0000,
        count >= 1_000_000_000 ==> out >= 1_000_000_000,
{
    let wide: u128 = count as u128;
    proof {
        lemma_two_to_values();
    }
    if wide < 0x20_0000_0000_0000 {
        return wide;
    }
    let found: (u32, u128) = exponent_of(wide, 1);
    let e: u32 = found.0;
    proof {
        lemma_exponent(wide as nat, 1);
        if e < 53 {
            lemma_two_to_monotone((e + 1) as nat, 53);
        }
        if e >= 64 {
            lemma_two_to_monotone(64, e as nat);
        }
    }
    let unit: u128 = power_of_two(e - 52);
    proof {
        lemma_two_to_positive((e - 52) as nat);
        lemma_two_to_sum((e - 52) as nat, 53);
        lemma_two_to_sum((e - 52) as nat, 52);
        lemma_two_to_monotone((e + 1) as nat, 64);
    }
    let kept: u128 = nearest_int(wide, unit);
    proof {
        let u = unit as int;
        let w = wide as int;
        // w < 2^53 * unit, so the quotient is below 2^53 and rounds to at most 2^53.
        assert(w < u * 0x20_0000_0000_0000);
        assert(w / u < 0x20_0000_0000_0000) by (nonlinear_arith)
            requires
                w < u * 0x20_0000_0000_0000,
                u >= 1,
                w >= 0,
        ;
        assert(w / u >= 0x10_0000_0000_0000) by (nonlinear_arith)
            requires
                w >= u * 0x10_0000_0000_0000,
                u >= 1,
        ;
        let k = kept as int;
        assert(k * u <= 0x20_0000_0000_0000 * u) by (nonlinear_arith)
            requires
                k <= 0x20_0000_0000_0000,
                u >= 1,
        ;
        assert(k * u >= 0x10_0000_0000_0000 * u) by (nonlinear_arith)
            requires
                k >= 0x10_0000_0000_0000,
                u >= 1,
        ;
    }
    kept * unit
}

fn two_places_text(hundredths: u64) -> (out: String)
    ensures
        out@ == two_places(hundredths as nat),
{
    let mut out = number(hundredths / 100);
    out.push('.');
    let tens = number(hundredths / 10 % 10);
    let ones = number(hundredths % 10);
    out.append(tens.as_str());
    out.append(ones.as_str());
    assert(out@ =~= two_places(hundredths as nat));
    out
}

fn up_to_two_places_text(hundredths: u64) -> (out: String)
    ensures
        out@ == up_to_two_places(hundredths as nat),
{
    if hundredths % 100 == 0 {
        number(hundredths / 100)
    } else if hundredths % 10 == 0 {
        let mut out = number(hundredths / 100);
        out.push('.');
        let tens = number(hundredths / 10 % 10);
        out.append(tens.as_str());
        assert(out@ =~= up_to_two_places(hundredths as nat));
        out
    } else {
        two_places_text(hundredths)
    }
}

/// The short rendering of a token count: plain below a thousand, then in thousands without
/// decimals, in millions with up to two decimals, and in billions with two.
pub fn short_tokens(tokens: u64) -> (out: String)
    ensures
        out@ == short_figure(tokens as nat),
{
    proof {
        lemma_two_to_values();
    }
    if tokens >= 1_000_000_000 {
        let value: u128 = binary64_of(tokens);
        let mut out = two_places_text(quotient(value, 1_000_000_000, 100) as u64);
        out.push('B');
        out
    } else if tokens >= 1_000_000 {
        let mut out = up_to_two_places_text(quotient(tokens as u128, 1_000_000, 100) as u64);
        out.push('M');
        out
    } else if tokens >= 1_000 {
        let mut out = number(quotient(tokens as u128, 1_000, 1) as u64);
        out.push('k');
        out
    } else {
        number(tokens)
    }
}

proof fn lemma_nearest(num: nat, den: nat)
    requires
        den > 0,
    ensures
        2 * (nearest(num, den) * den) <= 2 * num + den,
        2 * num <= 2 * (nearest(num, den) * den) + den,
{
    let below = num / den;
    let rest = num % den;
    vstd::arithmetic::div_mod::lemma_fundamental_div_mod(num as int, den as int);
    assert(den * below == below * den) by (nonlinear_arith);
    assert((below + 1) * den == below * den + den) by (nonlinear_arith);
}

proof fn lemma_exchange(x: nat, y: nat, z: nat)
    ensures
        (x * y) * z == (x * z) * y,
{
    assert((x * y) * z == (x * z) * y) by (nonlinear_arith);
}

proof fn lemma_spread(x: nat, y: nat, z: nat)
    ensures
        (2 * x + y) * z == 2 * (x * z) + y * z,
{
    assert((2 * x + y) * z == 2 * (x * z) + y * z) by (nonlinear_arith);
}

proof fn lemma_times(x: nat, y: nat, z: nat)
    requires
        x <= y,
    ensures
        x * z <= y * z,
{
    assert(x * z <= y * z) by (nonlinear_arith)
        requires
            x <= y,
    ;
}

/// A quotient in hundredths or in units is off by half of one, and by `k` halves more of the
/// dividend's unit.
proof fn lemma_quotient_is_near(num: nat, den: nat, scale: nat, k: nat)
    requires
        den > 0,
        scale * den < (k + 1) * two_to(fraction_bits(exponent(num, den))),
    ensures
        2 * (scaled_quotient(num, den, scale) * den) <= 2 * (num * scale) + den + k,
        2 * (num * scale) <= 2 * (scaled_quotient(num, den, scale) * den) + den + k,
{
    let unit = two_to(fraction_bits(exponent(num, den)));
    lemma_two_to_positive(fraction_bits(exponent(num, den)));
    let q = nearest(num * unit, den);
    let r = nearest(q * scale, unit);
    lemma_nearest(num * unit, den);
    lemma_nearest(q * scale, unit);
    let a = 2 * (r * den);
    let b = 2 * (num * scale) + den;
    let c = 2 * (num * scale);
    let d = a + den;
    // Both bounds, multiplied out by the unit.
    lemma_exchange(r, unit, den);
    lemma_exchange(q, scale, den);
    lemma_exchange(num, unit, scale);
    lemma_exchange(1, unit, den);
    lemma_exchange(1, scale, den);
    lemma_spread(r * unit, 0, den);
    lemma_spread(r * unit, unit, den);
    lemma_spread(q * scale, 0, den);
    lemma_spread(q * scale, unit, den);
    lemma_spread(q * den, 0, scale);
    lemma_spread(q * den, den, scale);
    lemma_spread(num * unit, 0, scale);
    lemma_spread(num * unit, den, scale);
    lemma_spread(r * den, 0, unit);
    lemma_spread(r * den, den, unit);
    lemma_spread(num * scale, 0, unit);
    lemma_spread(num * scale, den, unit);
    lemma_times(2 * (r * unit), 2 * (q * scale) + unit, den);
    lemma_times(2 * (q * scale), 2 * (r * unit) + unit, den);
    lemma_times(2 * (q * den), 2 * (num * unit) + den, scale);
    lemma_times(2 * (num * unit), 2 * (q * den) + den, scale);
    assert(a * unit <= b * unit + scale * den);
    assert(c * unit <= d * unit + scale * den);
    assert(a <= b + k) by (nonlinear_arith)
        requires
            a * unit <= b * unit + scale * den,
            scale * den < (k + 1) * unit,
            unit >= 1,
    ;
    assert(c <= d + k) by (nonlinear_arith)
        requires
            c * unit <= d * unit + scale * den,
            scale * den < (k + 1) * unit,
            unit >= 1,
    ;
}

/// A value below a power of two has a smaller exponent.
proof fn lemma_exponent_below(num: nat, den: nat, bits: nat)
    requires
        1 <= den <= num,
        num < den * two_to(bits),
    ensures
        exponent(num, den) < bits,
{
    let e = exponent(num, den);
    lemma_exponent(num, den);
    if e >= bits {
        lemma_two_to_monotone(bits, e);
        assert(den * two_to(bits) <= den * two_to(e)) by (nonlinear_arith)
            requires
                two_to(bits) <= two_to(e),
        ;
    }
}

proof fn lemma_smaller_powers()
    ensures
        two_to(10) == 1024,
        two_to(18) == 0x4_0000,
        two_to(43) == 0x800_0000_0000,
        two_to(11) == 2048,
{
    reveal_with_fuel(two_to, 23);
    assert(two_to(22) == 0x40_0000);
    assert(two_to(43) == 0x800_0000_0000);
}

proof fn lemma_binary64_is_near(count: nat)
    requires
        count < 0x1_0000_0000_0000_0000,
    ensures
        as_binary64(count) <= count + 1024,
        count <= as_binary64(count) + 1024,
{
    lemma_two_to_values();
    lemma_smaller_powers();
    if count >= two_to(53) {
        let e = exponent(count, 1);
        assert(count < 1 * two_to(64));
        lemma_exponent_below(count, 1, 64);
        lemma_exponent(count, 1);
        let unit = two_to((e - 52) as nat);
        if e < 52 {
            lemma_two_to_monotone(e + 1, 53);
        }
        lemma_two_to_positive((e - 52) as nat);
        lemma_two_to_monotone((e - 52) as nat, 11);
        lemma_nearest(count, unit);
    }
}

/// A short figure is near to its count. Below a thousand it is the count itself; thousands are
/// rounded to the nearest, millions to the nearest hundredth, and billions to a hundredth, by at
/// most a little more than half of one.
pub proof fn short_figures_are_near(tokens: u64)
    ensures
        tokens < 1_000 ==> short_figure(tokens as nat) == decimal(tokens as nat),
        1_000 <= tokens < 1_000_000 ==> exists|n: nat| #[trigger]
            decimal(n).push('k') == short_figure(tokens as nat) && 2 * (1_000 * n) <= 2 * tokens
                + 1_000 && 2 * tokens <= 2 * (1_000 * n) + 1_000,
        1_000_000 <= tokens < 1_000_000_000 ==> exists|h: nat| #[trigger]
            up_to_two_places(h).push('M') == short_figure(tokens as nat) && 2 * (1_000_000 * h)
                <= 200 * tokens + 1_000_000 && 200 * tokens <= 2 * (1_000_000 * h) + 1_000_000,
        1_000_000_000 <= tokens ==> exists|h: nat| #[trigger]
            two_places(h).push('B') == short_figure(tokens as nat) && 2 * (1_000_000_000 * h)
                <= 200 * tokens + 1_001_000_000 && 200 * tokens <= 2 * (1_000_000_000 * h)
                + 1_001_000_000,
{
    let t = tokens as nat;
    lemma_two_to_values();
    lemma_smaller_powers();
    if 1_000 <= t < 1_000_000 {
        lemma_exponent_below(t, 1_000, 10);
        lemma_two_to_monotone(43, fraction_bits(exponent(t, 1_000)));
        lemma_quotient_is_near(t, 1_000, 1, 0);
        let n = scaled_quotient(t, 1_000, 1);
        assert(decimal(n).push('k') == short_figure(t));
    } else if 1_000_000 <= t < 1_000_000_000 {
        lemma_exponent_below(t, 1_000_000, 10);
        lemma_two_to_monotone(43, fraction_bits(exponent(t, 1_000_000)));
        let unit = two_to(fraction_bits(exponent(t, 1_000_000)));
        assert(two_to(43) <= unit);
        assert((0 + 1) * unit == unit) by (nonlinear_arith);
        lemma_quotient_is_near(t, 1_000_000, 100, 0);
        let h = scaled_quotient(t, 1_000_000, 100);
        assert(up_to_two_places(h).push('M') == short_figure(t));
    } else if 1_000_000_000 <= t {
        let v = as_binary64(t);
        lemma_binary64_is_near(t);
        assert(v >= 1_000_000_000) by {
            if t >= two_to(53) {
                assert(v + 1024 >= t);
            }
        }
        lemma_exponent_below(v, 1_000_000_000, 35);
        let unit = two_to(fraction_bits(exponent(v, 1_000_000_000)));
        lemma_two_to_monotone(18, fraction_bits(exponent(v, 1_000_000_000)));
        assert(100 * 1_000_000_000 < 381_470 * unit);
        lemma_quotient_is_near(v, 1_000_000_000, 100, 381_469);
        let h = scaled_quotient(v, 1_000_000_000, 100);
        assert(two_places(h).push('B') == short_figure(t));
    }
}

/// Figures with two decimal places and figures without trailing zeros write the same number: one
/// is the other, or the other with what was dropped behind it.
pub proof fn dropped_zeros_come_back(hundredths: nat)
    ensures
        hundredths % 10 != 0 ==> two_places(hundredths) == up_to_two_places(hundredths),
        hundredths % 10 == 0 && hundredths % 100 != 0 ==> two_places(hundredths)
            == up_to_two_places(hundredths).push('0'),
        hundredths % 100 == 0 ==> two_places(hundredths) == up_to_two_places(hundredths) + seq![
            '.',
            '0',
            '0',
        ],
{
    assert(digit(0) == '0');
    if hundredths % 100 == 0 {
        assert(hundredths % 10 == 0 && hundredths / 10 % 10 == 0);
        assert(two_places(hundredths) =~= up_to_two_places(hundredths) + seq!['.', '0', '0']);
    } else if hundredths % 10 == 0 {
        assert(two_places(hundredths) =~= up_to_two_places(hundredths).push('0'));
    }
}

} // verus!
