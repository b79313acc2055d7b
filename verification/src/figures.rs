//! Numbers, amounts, spans of time and names, as the panels write them.

use vstd::prelude::*;

use crate::outside::{moment, moment_of};
use crate::text::{
    a_number_reads_back, after_prefix, begins, cat, chars_of, count, dec, decimal, digit, marks_before_are_not_read,
    only_digits_are_read, reading, repeat, same, string_between, times,
};

verus! {

/// The largest number written with a unit.
pub const MOST: u128 = 0x3ff_ffff_ffff_ffff_ffff;

/// A sum, as far as it is shown.
pub open spec fn capped(n: int) -> u128 {
    if n > MOST {
        MOST
    } else {
        n as u128
    }
}

/// A sum and what comes on top of it, as far as it is shown.
pub fn capped_sum(sum: u128, more: u128) -> (r: u128)
    requires
        sum <= MOST,
        more <= MOST,
    ensures
        r == capped(sum + more),
{
    if sum + more > MOST {
        MOST
    } else {
        sum + more
    }
}

/// The last `places` digits of `n`, zeros included.
pub open spec fn digits(n: nat, places: nat) -> Seq<char>
    decreases places,
{
    if places == 0 {
        Seq::empty()
    } else {
        digits(n / 10, (places - 1) as nat).push(digit((n % 10) as int))
    }
}

/// The last `places` digits of `n`, zeros included.
pub fn last_digits(n: u128, places: u8) -> (r: String)
    ensures
        r@ == digits(n as nat, places as nat),
    decreases places,
{
    if places == 0 {
        let s = String::new();
        assert(s@ =~= digits(n as nat, 0));
        s
    } else {
        let mut s = last_digits(n / 10, places - 1);
        s.push(one_digit(n % 10));
        s
    }
}

fn one_digit(d: u128) -> (r: char)
    requires
        d < 10,
    ensures
        r == digit(d as int),
{
    if d == 0 { '0' } else if d == 1 { '1' } else if d == 2 { '2' } else if d == 3 { '3' } else if d == 4 { '4' } else if d
        == 5 { '5' } else if d == 6 { '6' } else if d == 7 { '7' } else if d == 8 { '8' } else { '9' }
}

/// `n` over `d` to the nearest whole, a half going to the even one.
pub open spec fn half_to_even(n: nat, d: nat) -> nat {
    let (q, r) = (n / d, n % d);
    if 2 * r < d || (2 * r == d && q % 2 == 0) {
        q
    } else {
        q + 1
    }
}

/// `n` over `d` to the nearest whole, a half going up.
pub open spec fn half_up(n: nat, d: nat) -> nat {
    if 2 * (n % d) < d {
        n / d
    } else {
        n / d + 1
    }
}

/// `n` over `d`, under two to the power of 53, to 53 binary digits, as a fraction.
pub open spec fn finer(n: nat, d: nat) -> (nat, nat)
    decreases (if n < 0x10_0000_0000_0000 * d { 0x10_0000_0000_0000 * d - n } else { 0 }),
{
    if n == 0 || n >= 0x10_0000_0000_0000 * d {
        (half_to_even(n, d), 1)
    } else {
        let (a, b) = finer(2 * n, d);
        (a, 2 * b)
    }
}

/// `n` over `d` to 53 binary digits, a half going to the even one: a fraction
/// that is what a double-precision division gives.
pub open spec fn double(n: nat, d: nat) -> (nat, nat)
    decreases (if n > 0x20_0000_0000_0000 * d { n - 0x20_0000_0000_0000 * d + 1 } else { 0 }),
{
    if d > 0 && n > 0x20_0000_0000_0000 * d {
        let (a, b) = double(n, 2 * d);
        (2 * a, b)
    } else {
        finer(n, d)
    }
}

fn to_even(q: u128, r: u128, d: u128) -> (a: u128)
    requires
        r < d,
        q < u128::MAX,
    ensures
        forall|n: nat| n / (d as nat) == q && n % (d as nat) == r ==> #[trigger] half_to_even(n, d as nat) == a,
{
    if r < d - r || (r == d - r && q % 2 == 0) {
        q
    } else {
        q + 1
    }
}

proof fn division_is_one(n: nat, d: nat, q: nat, r: nat)
    requires
        n == q * d + r,
        r < d,
    ensures
        n / d == q,
        n % d == r,
{
    vstd::arithmetic::div_mod::lemma_fundamental_div_mod_converse(n as int, d as int, q as int, r as int);
}

/// A fraction of 53 binary digits or fewer.
fn double_of(n: u128, d: u128) -> (r: (u128, u128))
    requires
        d > 0,
        n <= u128::MAX / 4,
        n > 0 ==> 0x20_0000_0000_0000 * d <= u128::MAX * n,
    ensures
        (r.0 as nat, r.1 as nat) == double(n as nat, d as nat),
        r.1 >= 1,
        r.0 <= 2 * n || r.0 <= 0x20_0000_0000_0000,
        r.1 == 1 || (r.1 * n < 0x20_0000_0000_0000 * d && r.0 >= 0x10_0000_0000_0000),
{
    if n == 0 {
        assert(0nat / (d as nat) == 0 && 0nat % (d as nat) == 0) by {
            division_is_one(0, d as nat, 0, 0);
        }
        return (0, 1);
    }
    let top: u128 = n / (0x20_0000_0000_0000);
    proof {
        vstd::arithmetic::div_mod::lemma_fundamental_div_mod(n as int, 0x20_0000_0000_0000);
    }
    if d <= top && (d < top || n % (0x20_0000_0000_0000) > 0) {
        return coarse(n, d);
    }
    assert(n <= 0x20_0000_0000_0000 * d) by (nonlinear_arith)
        requires
            n == 0x20_0000_0000_0000 * top + n % (0x20_0000_0000_0000),
            0 <= n % (0x20_0000_0000_0000) < 0x20_0000_0000_0000,
            d > top || (d == top && n % (0x20_0000_0000_0000) == 0),
    ;
    let mut q: u128 = n / d;
    let mut r: u128 = n % d;
    let mut b: u128 = 1;
    let ghost mut now: nat = n as nat;
    proof {
        vstd::arithmetic::div_mod::lemma_fundamental_div_mod(n as int, d as int);
        assert(q * d == d * q) by (nonlinear_arith);
        assert(q < 0x20_0000_0000_0000 || (q == 0x20_0000_0000_0000 && r == 0)) by (nonlinear_arith)
            requires
                q * d + r <= 0x20_0000_0000_0000 * d,
                r >= 0,
                d > 0,
        ;
        assert(b as nat * finer(now, d as nat).1 == finer(now, d as nat).1) by (nonlinear_arith)
            requires
                b == 1,
        ;
        assert(n * 1 == n) by (nonlinear_arith);
    }
    while q < 0x10_0000_0000_0000
        invariant
            d > 0,
            n > 0,
            b >= 1,
            r < d,
            q < 0x20_0000_0000_0000 || (q == 0x20_0000_0000_0000 && r == 0),
            now == q * d + r,
            now == n * b,
            now > 0,
            0x20_0000_0000_0000 * d <= u128::MAX * n,
            finer(n as nat, d as nat) == (finer(now, d as nat).0, b as nat * finer(now, d as nat).1),
            b == 1 || b * n < 0x20_0000_0000_0000 * d,
        decreases (if now < 0x10_0000_0000_0000 * d { 0x10_0000_0000_0000 * d - now } else { 0 }),
    {
        proof {
            assert(now < 0x10_0000_0000_0000 * d) by (nonlinear_arith)
                requires
                    now == q * d + r,
                    r < d,
                    q < 0x10_0000_0000_0000,
            ;
            assert(2 * b * n < 0x20_0000_0000_0000 * d) by (nonlinear_arith)
                requires
                    n * b < 0x10_0000_0000_0000 * d,
            ;
            assert(2 * b <= u128::MAX) by (nonlinear_arith)
                requires
                    2 * b * n < 0x20_0000_0000_0000 * d,
                    0x20_0000_0000_0000 * d <= u128::MAX * n,
                    n > 0,
            ;
            let f = finer(2 * now, d as nat).1;
            assert(b as nat * (2 * f) == (2 * b) as nat * f) by (nonlinear_arith);
            assert(2 * (n * b) == n * (2 * b)) by (nonlinear_arith);
            assert(2 * (q * d + r) == (2 * q) * d + 2 * r) by (nonlinear_arith);
            assert((2 * q + 1) * d == (2 * q) * d + d) by (nonlinear_arith);
        }
        if r < d - r {
            q = 2 * q;
            r = 2 * r;
        } else {
            q = 2 * q + 1;
            r = r - (d - r);
        }
        b = 2 * b;
        proof {
            now = 2 * now;
        }
    }
    proof {
        division_is_one(now, d as nat, q as nat, r as nat);
        assert(now >= 0x10_0000_0000_0000 * d) by (nonlinear_arith)
            requires
                now == q * d + r,
                q >= 0x10_0000_0000_0000,
                r >= 0,
        ;
        assert(b as nat * 1 == b as nat) by (nonlinear_arith);
    }
    let a: u128 = to_even(q, r, d);
    proof {
        assert(half_to_even(now, d as nat) == a);
    }
    (a, b)
}

fn coarse(n: u128, d: u128) -> (r: (u128, u128))
    requires
        d > 0,
        n > 0x20_0000_0000_0000 * d,
        n <= u128::MAX / 4,
    ensures
        (r.0 as nat, r.1 as nat) == double(n as nat, d as nat),
        r.1 == 1,
        r.0 <= 2 * n,
{
    let mut e: u128 = d;
    let mut k: u128 = 1;
    assert(1 * double(n as nat, d as nat).0 == double(n as nat, d as nat).0) by (nonlinear_arith);
    assert(1 * d == d) by (nonlinear_arith);
    while n > 0x20_0000_0000_0000 * e
        invariant
            d > 0,
            e > 0,
            k >= 1,
            n > 0x20_0000_0000_0000 * d,
            n <= u128::MAX / 4,
            e == k * d,
            0x10_0000_0000_0000 * e <= n,
            k == 1 || 0x10_0000_0000_0000 * e < n,
            k <= e,
            double(n as nat, d as nat) == (k as nat * double(n as nat, e as nat).0, double(n as nat, e as nat).1),
        decreases n - 0x10_0000_0000_0000 * e,
    {
        proof {
            let f = double(n as nat, (2 * e) as nat).0;
            assert(k as nat * (2 * f) == (2 * k) as nat * f) by (nonlinear_arith);
            assert(2 * (k * d) == (2 * k) * d) by (nonlinear_arith);
        }
        e = 2 * e;
        k = 2 * k;
    }
    let q: u128 = n / e;
    let r: u128 = n % e;
    proof {
        vstd::arithmetic::div_mod::lemma_fundamental_div_mod(n as int, e as int);
        assert(e * q == q * e) by (nonlinear_arith);
        assert(q < 0x20_0000_0000_0000 || (q == 0x20_0000_0000_0000 && r == 0)) by (nonlinear_arith)
            requires
                q * e + r <= 0x20_0000_0000_0000 * e,
                r >= 0,
                e > 0,
        ;
        if k == 1 {
            assert(k * d == d) by (nonlinear_arith)
                requires
                    k == 1,
            ;
        }
    }
    let a: u128 = to_even(q, r, e);
    assert(half_to_even(n as nat, e as nat) == a);
    assert(k * a <= e * 0x20_0000_0000_0000) by (nonlinear_arith)
        requires
            0 <= k <= e,
            0 <= a <= 0x20_0000_0000_0000,
    ;
    (k * a, 1)
}

/// `n` over `unit` times `scale` to the nearest whole, a half going up, the
/// quotient and the product being taken to double precision.
pub open spec fn nearest(n: nat, unit: nat, scale: nat) -> nat {
    let (a, b) = double(n, unit);
    let (c, d) = double(a * scale, b);
    half_up(c, d)
}

/// `n` over `unit` times `scale` to the nearest whole, a half going to the even
/// one, the quotient and the product being taken to double precision.
pub open spec fn nearest_even(n: nat, unit: nat, scale: nat) -> nat {
    let (a, b) = double(n, unit);
    let (c, d) = double(a * scale, b);
    half_to_even(c, d)
}

fn product_of(n: u128, unit: u128, scale: u128) -> (r: (u128, u128))
    requires
        n <= MOST,
        0 < unit <= MOST,
        scale <= 1_000_000,
    ensures
        ({
            let (a, b) = double(n as nat, unit as nat);
            (r.0 as nat, r.1 as nat) == double(a * scale as nat, b)
        }),
        r.1 >= 1,
        r.0 < u128::MAX,
{
    let (a, b) = ratio_of(n, unit);
    assert(a * scale <= 0x800_0000_0000_0000_0000 * 1_000_000) by (nonlinear_arith)
        requires
            0 <= a <= 0x800_0000_0000_0000_0000,
            0 <= scale <= 1_000_000,
    ;
    if a > 0 && scale > 0 {
        assert(a * scale >= a) by (nonlinear_arith)
            requires
                a > 0,
                scale > 0,
        ;
    }
    let m: u128 = a * scale;
    if m > 0 && b > 1 {
        assert(u128::MAX * m >= u128::MAX * 0x10_0000_0000_0000) by (nonlinear_arith)
            requires
                m >= 0x10_0000_0000_0000,
        ;
    }
    double_of(m, b)
}

fn ratio_of(n: u128, unit: u128) -> (r: (u128, u128))
    requires
        n <= MOST,
        0 < unit <= MOST,
    ensures
        (r.0 as nat, r.1 as nat) == double(n as nat, unit as nat),
        r.0 <= 0x800_0000_0000_0000_0000,
        1 <= r.1 <= 0x7fff_ffff_ffff_ffff_ffff_ffff_ffff_ffff,
        r.1 == 1 || r.0 >= 0x10_0000_0000_0000,
{
    if n > 0 {
        assert(u128::MAX * n >= u128::MAX) by (nonlinear_arith)
            requires
                n > 0,
        ;
    }
    let r = double_of(n, unit);
    proof {
        if r.1 != 1 {
            if n == 0 {
                division_is_one(0, unit as nat, 0, 0);
            }
            assert(r.1 <= r.1 * n) by (nonlinear_arith)
                requires
                    n > 0,
                    r.1 >= 0,
            ;
        }
    }
    r
}

/// `n` over `unit` times `scale` to the nearest whole, a half going up.
pub fn to_nearest(n: u128, unit: u128, scale: u128) -> (r: u128)
    requires
        n <= MOST,
        0 < unit <= MOST,
        scale <= 1_000_000,
    ensures
        r == nearest(n as nat, unit as nat, scale as nat),
{
    let (c, d) = product_of(n, unit, scale);
    let r: u128 = c % d;
    if r < d - r {
        c / d
    } else {
        assert(c / d <= c) by {
            vstd::arithmetic::div_mod::lemma_div_is_ordered_by_denominator(c as int, 1, d as int);
        }
        c / d + 1
    }
}

/// `n` over `unit` times `scale` to the nearest whole, a half going to the even
/// one.
pub fn to_nearest_even(n: u128, unit: u128, scale: u128) -> (r: u128)
    requires
        n <= MOST,
        0 < unit <= MOST,
        scale <= 1_000_000,
    ensures
        r == nearest_even(n as nat, unit as nat, scale as nat),
{
    let (c, d) = product_of(n, unit, scale);
    assert(c / d <= c) by {
        vstd::arithmetic::div_mod::lemma_div_is_ordered_by_denominator(c as int, 1, d as int);
    }
    to_even(c / d, c % d, d)
}

/// `n` over `unit` to double precision, in the places that `scale` counts, a half
/// going to the even one.
pub open spec fn placed(n: nat, unit: nat, scale: nat) -> nat {
    let (a, b) = double(n, unit);
    half_to_even(a * scale, b)
}

/// `n` over `unit` with `places` decimal places, `scale` being ten to the power
/// of those: the quotient is taken to double precision, and of that the decimals,
/// a half going to the even one.
pub open spec fn fixed(n: nat, unit: nat, scale: nat, places: nat) -> Seq<char> {
    let q = placed(n, unit, scale);
    dec(q / scale) + "."@ + digits(q % scale, places)
}

/// `n` over `unit` with `places` decimal places.
pub fn with_places(n: u128, unit: u128, scale: u128, places: u8) -> (r: String)
    requires
        n <= MOST,
        0 < unit <= MOST,
        0 < scale <= 1_000_000,
    ensures
        r@ == fixed(n as nat, unit as nat, scale as nat, places as nat),
{
    let (a, b) = ratio_of(n, unit);
    assert(a * scale <= 0x800_0000_0000_0000_0000 * 1_000_000) by (nonlinear_arith)
        requires
            0 <= a <= 0x800_0000_0000_0000_0000,
            0 <= scale <= 1_000_000,
    ;
    let m: u128 = a * scale;
    assert(m / b <= m) by {
        vstd::arithmetic::div_mod::lemma_div_is_ordered_by_denominator(m as int, 1, b as int);
    }
    let q: u128 = to_even(m / b, m % b, b);
    let mut s = cat(decimal(q / scale).as_str(), ".");
    s.append(last_digits(q % scale, places).as_str());
    s
}

proof fn rounding_is_close(n: nat, d: nat)
    requires
        d > 0,
    ensures
        2 * (half_to_even(n, d) * d - n) <= d,
        2 * (n - half_to_even(n, d) * d) <= d,
        2 * (half_up(n, d) * d - n) <= d,
        2 * (n - half_up(n, d) * d) <= d,
{
    vstd::arithmetic::div_mod::lemma_fundamental_div_mod(n as int, d as int);
    let (q, r) = ((n / d) as int, (n % d) as int);
    assert(d * q == q * d) by (nonlinear_arith);
    assert((q + 1) * d == q * d + d) by (nonlinear_arith);
}

proof fn finer_is_close(n: nat, d: nat)
    requires
        d > 0,
        n > 0,
    ensures
        ({
            let (a, b) = finer(n, d);
            &&& b >= 1
            &&& 0x20_0000_0000_0000 * (a * d - n * b) <= n * b
            &&& 0x20_0000_0000_0000 * (n * b - a * d) <= n * b
        }),
    decreases (if n < 0x10_0000_0000_0000 * d { 0x10_0000_0000_0000 * d - n } else { 0 }),
{
    if n >= 0x10_0000_0000_0000 * d {
        rounding_is_close(n, d);
        assert(n * 1 == n) by (nonlinear_arith);
    } else {
        finer_is_close(2 * n, d);
        let (a, b) = finer(2 * n, d);
        assert(n * (2 * b) == (2 * n) * b) by (nonlinear_arith);
    }
}

/// A fraction taken to double precision is off by no more than one part in two to
/// the power of 53.
pub proof fn a_double_is_close(n: nat, d: nat)
    requires
        d > 0,
    ensures
        ({
            let (a, b) = double(n, d);
            &&& b >= 1
            &&& 0x20_0000_0000_0000 * (a * d - n * b) <= n * b
            &&& 0x20_0000_0000_0000 * (n * b - a * d) <= n * b
        }),
    decreases (if n > 0x20_0000_0000_0000 * d { n - 0x20_0000_0000_0000 * d + 1 } else { 0 }),
{
    if n > 0x20_0000_0000_0000 * d {
        a_double_is_close(n, 2 * d);
        let (a, b) = double(n, 2 * d);
        assert((2 * a) * d == a * (2 * d)) by (nonlinear_arith);
    } else if n == 0 {
        division_is_one(0, d, 0, 0);
        assert(0 * d == 0) by (nonlinear_arith);
    } else {
        finer_is_close(n, d);
    }
}

proof fn two_steps_are_close(n: int, unit: int, scale: int, a: int, b: int, q: int, f: int, g: int)
    requires
        b > 0,
        unit > 0,
        n >= 0,
        scale >= 0,
        0x20_0000_0000_0000 * (a * unit - n * b) <= n * b,
        0x20_0000_0000_0000 * (n * b - a * unit) <= n * b,
        2 * (q * b - a * scale) <= f,
        2 * (a * scale - q * b) <= f,
        f * unit <= g * b,
    ensures
        0x40_0000_0000_0000 * (q * unit - n * scale) <= 0x20_0000_0000_0000 * g + 2 * n * scale,
        0x40_0000_0000_0000 * (n * scale - q * unit) <= 0x20_0000_0000_0000 * g + 2 * n * scale,
{
    let x = q * b - a * scale;
    let y = a * unit - n * b;
    let z = q * unit - n * scale;
    assert(b * z == unit * x + scale * y) by (nonlinear_arith)
        requires
            x == q * b - a * scale,
            y == a * unit - n * b,
            z == q * unit - n * scale,
    ;
    assert(2 * (unit * x) <= f * unit && -2 * (unit * x) <= f * unit) by (nonlinear_arith)
        requires
            2 * x <= f,
            -2 * x <= f,
            unit > 0,
    ;
    let w = n * b;
    assert(0x20_0000_0000_0000 * (scale * y) <= scale * w && -0x20_0000_0000_0000 * (scale * y) <= scale * w)
        by (nonlinear_arith)
        requires
            0x20_0000_0000_0000 * y <= w,
            -0x20_0000_0000_0000 * y <= w,
            scale >= 0,
    ;
    assert(scale * w == b * (n * scale)) by (nonlinear_arith)
        requires
            w == n * b,
    ;
    let k = n * scale;
    assert(0x40_0000_0000_0000 * (b * z) <= 0x20_0000_0000_0000 * (g * b) + 2 * (b * k));
    assert(-0x40_0000_0000_0000 * (b * z) <= 0x20_0000_0000_0000 * (g * b) + 2 * (b * k));
    assert(0x40_0000_0000_0000 * z <= 0x20_0000_0000_0000 * g + 2 * k && -0x40_0000_0000_0000 * z <= 0x20_0000_0000_0000 * g
        + 2 * k) by (nonlinear_arith)
        requires
            b > 0,
            0x40_0000_0000_0000 * (b * z) <= 0x20_0000_0000_0000 * (g * b) + 2 * (b * k),
            -0x40_0000_0000_0000 * (b * z) <= 0x20_0000_0000_0000 * (g * b) + 2 * (b * k),
    ;
    assert(2 * n * scale == 2 * k) by (nonlinear_arith)
        requires
            k == n * scale,
    ;
}

/// A quotient in decimal places is the nearest there is, but for what double
/// precision loses of it.
pub proof fn a_quotient_is_near(n: nat, unit: nat, scale: nat)
    requires
        unit > 0,
    ensures
        0x40_0000_0000_0000 * (placed(n, unit, scale) * unit - n * scale) <= 0x20_0000_0000_0000 * unit + 2 * n * scale,
        0x40_0000_0000_0000 * (n * scale - placed(n, unit, scale) * unit) <= 0x20_0000_0000_0000 * unit + 2 * n * scale,
{
    let (a, b) = double(n, unit);
    a_double_is_close(n, unit);
    rounding_is_close(a * scale, b);
    assert(b * unit == unit * b) by (nonlinear_arith);
    two_steps_are_close(
        n as int,
        unit as int,
        scale as int,
        a as int,
        b as int,
        placed(n, unit, scale) as int,
        b as int,
        unit as int,
    );
}

/// A share, and a percentage among them, is the nearest whole there is, but for
/// what double precision loses of it.
pub proof fn a_share_is_near(n: nat, unit: nat, scale: nat)
    requires
        unit > 0,
    ensures
        0x40_0000_0000_0000 * (nearest(n, unit, scale) * unit - n * scale) <= 0x20_0000_0000_0000 * unit + 6 * n * scale,
        0x40_0000_0000_0000 * (n * scale - nearest(n, unit, scale) * unit) <= 0x20_0000_0000_0000 * unit + 6 * n * scale,
        0x40_0000_0000_0000 * (nearest_even(n, unit, scale) * unit - n * scale) <= 0x20_0000_0000_0000 * unit + 6 * n
            * scale,
        0x40_0000_0000_0000 * (n * scale - nearest_even(n, unit, scale) * unit) <= 0x20_0000_0000_0000 * unit + 6 * n
            * scale,
{
    let (a, b) = double(n, unit);
    a_double_is_close(n, unit);
    let m = a * scale;
    let (c, d) = double(m, b);
    a_double_is_close(m, b);
    rounding_is_close(c, d);
    share_within(n, unit, scale, a, b, c, d, nearest(n, unit, scale));
    share_within(n, unit, scale, a, b, c, d, nearest_even(n, unit, scale));
}

proof fn share_within(n: nat, unit: nat, scale: nat, a: nat, b: nat, c: nat, d: nat, q: nat)
    requires
        unit > 0,
        b >= 1,
        d >= 1,
        0x20_0000_0000_0000 * (a * unit - n * b) <= n * b,
        0x20_0000_0000_0000 * (n * b - a * unit) <= n * b,
        0x20_0000_0000_0000 * (c * b - (a * scale) * d) <= (a * scale) * d,
        0x20_0000_0000_0000 * ((a * scale) * d - c * b) <= (a * scale) * d,
        2 * (q * d - c) <= d,
        2 * (c - q * d) <= d,
    ensures
        0x40_0000_0000_0000 * (q * unit - n * scale) <= 0x20_0000_0000_0000 * unit + 6 * n * scale,
        0x40_0000_0000_0000 * (n * scale - q * unit) <= 0x20_0000_0000_0000 * unit + 6 * n * scale,
{
    let m = (a * scale) as int;
    assert(c * 1 == c) by (nonlinear_arith);
    assert(d * b == b * d) by (nonlinear_arith);
    two_steps_are_close(m, b as int, 1, c as int, d as int, q as int, d as int, b as int);
    assert(2 * m * 1 == 2 * m && m * 1 == m) by (nonlinear_arith);
    let x = q * b - m;
    let y = a * unit - n * b;
    let z = q * unit - n * scale;
    let k = n * scale;
    assert(b * z == unit * x + scale * y) by (nonlinear_arith)
        requires
            x == q * b - m,
            m == a * scale,
            y == a * unit - n * b,
            z == q * unit - n * scale,
    ;
    assert(0x40_0000_0000_0000 * (unit * x) <= 0x20_0000_0000_0000 * (unit * b) + 2 * (unit * m) && -0x40_0000_0000_0000 * (
    unit * x) <= 0x20_0000_0000_0000 * (unit * b) + 2 * (unit * m)) by (nonlinear_arith)
        requires
            0x40_0000_0000_0000 * x <= 0x20_0000_0000_0000 * b + 2 * m,
            -0x40_0000_0000_0000 * x <= 0x20_0000_0000_0000 * b + 2 * m,
            unit > 0,
    ;
    let w = (n * b) as int;
    assert(a * unit <= 2 * w) by {
        assert(w >= 0) by (nonlinear_arith)
            requires
                w == n * b,
                n >= 0,
                b >= 0,
        ;
    }
    let v = a * unit;
    assert(unit * m == scale * v) by (nonlinear_arith)
        requires
            m == a * scale,
            v == a * unit,
    ;
    assert(scale * v <= 2 * (scale * w)) by (nonlinear_arith)
        requires
            v <= 2 * w,
            scale >= 0,
    ;
    assert(0x20_0000_0000_0000 * (scale * y) <= scale * w && -0x20_0000_0000_0000 * (scale * y) <= scale * w)
        by (nonlinear_arith)
        requires
            0x20_0000_0000_0000 * y <= w,
            -0x20_0000_0000_0000 * y <= w,
            scale >= 0,
    ;
    assert(scale * w == b * k) by (nonlinear_arith)
        requires
            w == n * b,
            k == n * scale,
    ;
    assert(unit * b == b * unit) by (nonlinear_arith);
    assert(0x40_0000_0000_0000 * z <= 0x20_0000_0000_0000 * unit + 6 * k && -0x40_0000_0000_0000 * z
        <= 0x20_0000_0000_0000 * unit + 6 * k) by (nonlinear_arith)
        requires
            b > 0,
            0x40_0000_0000_0000 * (b * z) <= 0x20_0000_0000_0000 * (b * unit) + 6 * (b * k),
            -0x40_0000_0000_0000 * (b * z) <= 0x20_0000_0000_0000 * (b * unit) + 6 * (b * k),
    ;
    assert(6 * n * scale == 6 * k) by (nonlinear_arith)
        requires
            k == n * scale,
    ;
}

/// Ten to the power of `places`.
pub open spec fn tens(places: nat) -> nat
    decreases places,
{
    if places == 0 {
        1
    } else {
        10 * tens((places - 1) as nat)
    }
}

proof fn digits_read_on(s: Seq<char>, n: nat, places: nat)
    ensures
        reading(s + digits(n, places)) == reading(s) * tens(places) + n % tens(places),
        digits(n, places).len() == places,
        tens(places) > 0,
    decreases places,
{
    if places == 0 {
        assert(s + digits(n, 0) =~= s);
        assert(n % 1 == 0);
        assert(reading(s) * 1 == reading(s)) by (nonlinear_arith);
    } else {
        let p = (places - 1) as nat;
        let t = tens(p);
        digits_read_on(s, n / 10, p);
        let all = s + digits(n, places);
        assert(all.drop_last() =~= s + digits(n / 10, p));
        assert(all.last() == digit((n % 10) as int));
        vstd::arithmetic::div_mod::lemma_mod_breakdown(n as int, 10, t as int);
        let (v, u) = (reading(s), ((n / 10) % t) as int);
        assert((v * t + u) * 10 == v * (10 * t) + 10 * u) by (nonlinear_arith);
    }
}

/// A figure with decimal places reads as the nearest there is in those places, but
/// for what double precision loses of it.
pub proof fn a_figure_reads_near(n: nat, unit: nat, places: nat)
    requires
        unit > 0,
    ensures
        ({
            let shown = reading(fixed(n, unit, tens(places), places));
            &&& 0x40_0000_0000_0000 * (shown * unit - n * tens(places)) <= 0x20_0000_0000_0000 * unit + 2 * n * tens(places)
            &&& 0x40_0000_0000_0000 * (n * tens(places) - shown * unit) <= 0x20_0000_0000_0000 * unit + 2 * n * tens(places)
        }),
        ({
            let text = fixed(n, unit, tens(places), places);
            text.len() > places && text[text.len() - places - 1] == '.'
        }),
{
    let scale = tens(places);
    digits_read_on(Seq::empty(), 0, places);
    let q = placed(n, unit, scale);
    a_quotient_is_near(n, unit, scale);
    a_number_reads_back(q / scale);
    reveal_strlit(".");
    let head = dec(q / scale) + "."@;
    only_digits_are_read(dec(q / scale), "."@);
    digits_read_on(head, q % scale, places);
    vstd::arithmetic::div_mod::lemma_mod_twice(q as int, scale as int);
    vstd::arithmetic::div_mod::lemma_fundamental_div_mod(q as int, scale as int);
    assert((q / scale) * scale == scale * (q / scale)) by (nonlinear_arith);
    assert(reading(head + digits(q % scale, places)) == q);
    let text = head + digits(q % scale, places);
    assert(text[text.len() - places - 1] == head[head.len() - 1]);
}

/// A count of tokens says its unit, and reads as the nearest tenth of it; below a
/// thousand as the count itself.
pub proof fn a_count_reads_near(n: nat)
    ensures
        ({
            let text = tokens_text(n);
            let shown = reading(text);
            &&& n < 1000 ==> shown == n && '0' <= text.last() <= '9'
            &&& 1000 <= n < 1_000_000 ==> text.last() == 'K' && -50 <= shown * 100 - n <= 50
            &&& n >= 1_000_000 ==> text.last() == 'M' && 0x40_0000_0000_0000 * (shown * 100_000 - n)
                <= 0x40_0000_0000_0000 * 50_000 + 2 * n && 0x40_0000_0000_0000 * (n - shown * 100_000)
                <= 0x40_0000_0000_0000 * 50_000 + 2 * n
        }),
{
    reveal_with_fuel(tens, 2);
    assert(tens(1) == 10);
    reveal_strlit("K");
    reveal_strlit("M");
    a_number_reads_back(n);
    if n >= 1000 {
        let unit: nat = if n < 1_000_000 {
            1000
        } else {
            1_000_000
        };
        a_figure_reads_near(n, unit, 1);
        let t = fixed(n, unit, 10, 1);
        only_digits_are_read(t, "K"@);
        only_digits_are_read(t, "M"@);
    }
}

/// An amount of money reads as the nearest cent, and one under a cent as the
/// nearest hundredth of one, but for what double precision loses of it.
pub proof fn an_amount_reads_near(amount: nat)
    ensures
        ({
            let shown = reading(usd_text(amount));
            &&& usd_text(amount)[0] == '$'
            &&& 0x40_0000_0000_0000 * (shown * 10_000_000 - amount) <= 0x40_0000_0000_0000 * 5_000_000 + 2 * amount
            &&& 0x40_0000_0000_0000 * (amount - shown * 10_000_000) <= 0x40_0000_0000_0000 * 5_000_000 + 2 * amount
        }),
        amount == 0 || amount >= 10_000_000 ==> fine_usd_text(amount) == usd_text(amount),
        0 < amount < 10_000_000 ==> {
            let shown = reading(fine_usd_text(amount));
            fine_usd_text(amount)[0] == '$' && -50_000 <= shown * 100_000 - amount <= 50_000
        },
{
    reveal_with_fuel(tens, 5);
    assert(tens(2) == 100 && tens(4) == 10_000);
    reveal_strlit("$");
    a_figure_reads_near(amount, 1_000_000_000, 2);
    a_figure_reads_near(amount, 1_000_000_000, 4);
    marks_before_are_not_read("$"@, fixed(amount, 1_000_000_000, 100, 2));
    marks_before_are_not_read("$"@, fixed(amount, 1_000_000_000, 10_000, 4));
}

/// A percentage is the nearest whole one, of all but enormous figures.
pub proof fn a_percentage_is_near(part: nat, whole: nat)
    requires
        whole > 0,
        part < 0x400_0000_0000,
    ensures
        2 * (percent(part, whole) * whole - 100 * part) <= whole,
        2 * (100 * part - percent(part, whole) * whole) <= whole,
{
    a_share_is_near(part, whole, 100);
}

/// `n`, its digits in groups of three.
pub open spec fn grouped(n: nat) -> Seq<char>
    decreases n,
{
    if n < 1000 {
        dec(n)
    } else {
        grouped(n / 1000) + ","@ + digits(n % 1000, 3)
    }
}

/// `n`, its digits in groups of three.
pub fn with_commas(n: u64) -> (r: String)
    ensures
        r@ == grouped(n as nat),
    decreases n,
{
    if n < 1000 {
        decimal(n as u128)
    } else {
        let mut s = with_commas(n / 1000);
        s.append(",");
        s.append(last_digits((n % 1000) as u128, 3).as_str());
        s
    }
}

/// A count of tokens, short.
pub open spec fn tokens_text(n: nat) -> Seq<char> {
    if n < 1000 {
        dec(n)
    } else if n < 1_000_000 {
        fixed(n, 1000, 10, 1) + "K"@
    } else {
        fixed(n, 1_000_000, 10, 1) + "M"@
    }
}

/// A count of tokens, short.
pub fn compact_tokens(n: u128) -> (r: String)
    requires
        n <= MOST,
    ensures
        r@ == tokens_text(n as nat),
{
    if n < 1000 {
        decimal(n)
    } else if n < 1_000_000 {
        let mut s = with_places(n, 1000, 10, 1);
        s.append("K");
        s
    } else {
        let mut s = with_places(n, 1_000_000, 10, 1);
        s.append("M");
        s
    }
}

/// An amount of money, in billionths of a dollar, to the cent.
pub open spec fn usd_text(amount: nat) -> Seq<char> {
    "$"@ + fixed(amount, 1_000_000_000, 100, 2)
}

/// An amount of money to the cent.
pub fn compact_usd(amount: u128) -> (r: String)
    requires
        amount <= MOST,
    ensures
        r@ == usd_text(amount as nat),
{
    cat("$", with_places(amount, 1_000_000_000, 100, 2).as_str())
}

/// An amount of money, with two places more where it is under a cent.
pub open spec fn fine_usd_text(amount: nat) -> Seq<char> {
    if 0 < amount < 10_000_000 {
        "$"@ + fixed(amount, 1_000_000_000, 10_000, 4)
    } else {
        usd_text(amount)
    }
}

/// An amount of money, with two places more where it is under a cent.
pub fn adaptive_usd(amount: u128) -> (r: String)
    requires
        amount <= MOST,
    ensures
        r@ == fine_usd_text(amount as nat),
{
    if 0 < amount && amount < 10_000_000 {
        cat("$", with_places(amount, 1_000_000_000, 10_000, 4).as_str())
    } else {
        compact_usd(amount)
    }
}

/// A size in bytes, short.
pub open spec fn bytes_text(n: nat) -> Seq<char> {
    if n < 1024 {
        dec(n) + "B"@
    } else if n < 1_048_576 {
        fixed(n, 1024, 10, 1) + "KB"@
    } else if n < 1_073_741_824 {
        fixed(n, 1_048_576, 10, 1) + "MB"@
    } else {
        fixed(n, 1_073_741_824, 10, 1) + "GB"@
    }
}

/// A size in bytes, short.
pub fn compact_bytes(n: u64) -> (r: String)
    ensures
        r@ == bytes_text(n as nat),
{
    let w: u128 = n as u128;
    if n < 1024 {
        cat(decimal(w).as_str(), "B")
    } else if n < 1_048_576 {
        cat(with_places(w, 1024, 10, 1).as_str(), "KB")
    } else if n < 1_073_741_824 {
        cat(with_places(w, 1_048_576, 10, 1).as_str(), "MB")
    } else {
        cat(with_places(w, 1_073_741_824, 10, 1).as_str(), "GB")
    }
}

/// A span of time in milliseconds, in its two largest units.
pub open spec fn span_text(ms: nat) -> Seq<char> {
    let s = ms / 1000;
    let m = s / 60;
    let h = m / 60;
    if s < 60 {
        dec(s) + "s"@
    } else if m < 60 {
        dec(m) + "m"@
    } else if h < 24 {
        dec(h) + "h "@ + dec(m % 60) + "m"@
    } else {
        dec(h / 24) + "d "@ + dec(h % 24) + "h"@
    }
}

/// A span of time in milliseconds, in its two largest units.
pub fn compact_duration(ms: u128) -> (r: String)
    ensures
        r@ == span_text(ms as nat),
{
    let s: u128 = ms / 1000;
    let m: u128 = s / 60;
    let h: u128 = m / 60;
    if s < 60 {
        cat(decimal(s).as_str(), "s")
    } else if m < 60 {
        cat(decimal(m).as_str(), "m")
    } else if h < 24 {
        let mut t = cat(decimal(h).as_str(), "h ");
        t.append(decimal(m % 60).as_str());
        t.append("m");
        t
    } else {
        let mut t = cat(decimal(h / 24).as_str(), "d ");
        t.append(decimal(h % 24).as_str());
        t.append("h");
        t
    }
}

/// A span of time in milliseconds, to the second.
pub open spec fn long_span_text(ms: nat) -> Seq<char> {
    let s = ms / 1000;
    let m = s / 60;
    let h = m / 60;
    let seconds = dec(s % 60) + "s"@;
    if m == 0 {
        seconds
    } else if h == 0 {
        dec(m) + "m "@ + seconds
    } else {
        dec(h) + "h "@ + dec(m % 60) + "m "@ + seconds
    }
}

/// A span of time in milliseconds, to the second.
pub fn long_duration(ms: u128) -> (r: String)
    ensures
        r@ == long_span_text(ms as nat),
{
    let s: u128 = ms / 1000;
    let m: u128 = s / 60;
    let h: u128 = m / 60;
    let seconds = cat(decimal(s % 60).as_str(), "s");
    if m == 0 {
        seconds
    } else if h == 0 {
        let mut t = cat(decimal(m).as_str(), "m ");
        t.append(seconds.as_str());
        t
    } else {
        let mut t = cat(decimal(h).as_str(), "h ");
        t.append(decimal(m % 60).as_str());
        t.append("m ");
        t.append(seconds.as_str());
        t
    }
}

/// A moment in milliseconds since 1970, where the timestamp can be read.
pub open spec fn ms_of(ts: Seq<char>) -> Option<int> {
    match moment(ts) {
        Some(m) => Some(m.0 * 1000 + m.1 as int / 1_000_000),
        None => None,
    }
}

/// A moment in milliseconds since 1970, where the timestamp can be read.
pub fn millis_of(ts: &str) -> (r: Option<i128>)
    ensures
        match (r, ms_of(ts@)) {
            (Some(a), Some(b)) => a == b && -0x1_0000_0000_0000_0000_0000 < b < 0x1_0000_0000_0000_0000_0000,
            (None, None) => true,
            _ => false,
        },
{
    match moment_of(ts) {
        Some(m) => Some(m.0 as i128 * 1000 + (m.1 / 1_000_000) as i128),
        None => None,
    }
}

/// How long it is from `from` to `to`, and nothing where that is backwards.
pub open spec fn since(from: int, to: int) -> nat {
    if to > from {
        (to - from) as nat
    } else {
        0
    }
}

/// How long ago a moment was, in its largest unit.
pub open spec fn age_text(ts: Seq<char>, now: int) -> Seq<char> {
    match ms_of(ts) {
        None => "—"@,
        Some(then) => {
            let s = since(then, now) / 1000;
            let m = s / 60;
            let h = m / 60;
            if s < 60 {
                dec(s) + "s"@
            } else if m < 60 {
                dec(m) + "m"@
            } else if h < 24 {
                dec(h) + "h"@
            } else {
                dec(h / 24) + "d"@
            }
        },
    }
}

/// How long ago a moment was, in its largest unit.
pub fn relative_age(ts: &str, now: i64) -> (r: String)
    ensures
        r@ == age_text(ts@, now as int),
{
    match millis_of(ts) {
        None => "—".to_owned(),
        Some(then) => {
            let now: i128 = now as i128;
            let past: u128 = if now > then {
                (now - then) as u128
            } else {
                0
            };
            let s: u128 = past / 1000;
            let m: u128 = s / 60;
            let h: u128 = m / 60;
            if s < 60 {
                cat(decimal(s).as_str(), "s")
            } else if m < 60 {
                cat(decimal(m).as_str(), "m")
            } else if h < 24 {
                cat(decimal(h).as_str(), "h")
            } else {
                cat(decimal(h / 24).as_str(), "d")
            }
        },
    }
}

/// What `part` is of `whole` in percent, to the nearest, a half going up; nothing
/// of nothing.
pub open spec fn percent(part: nat, whole: nat) -> nat {
    if whole == 0 {
        0
    } else {
        nearest(part, whole, 100)
    }
}

/// What `part` is of `whole` in percent, to the nearest.
pub fn percent_of(part: u128, whole: u128) -> (r: u128)
    requires
        part <= MOST,
        whole <= MOST,
    ensures
        r == percent(part as nat, whole as nat),
{
    if whole == 0 {
        0
    } else {
        to_nearest(part, whole, 100)
    }
}

/// `path` with the home directory written short.
pub open spec fn short_path(path: Seq<char>, home: Seq<char>) -> Seq<char> {
    if home.len() == 0 {
        path
    } else if path == home {
        "~"@
    } else if begins(path, home + "/"@) {
        "~/"@ + path.skip((home + "/"@).len() as int)
    } else {
        path
    }
}

/// `path` with the home directory written short.
pub fn tildify(path: &str, home: &str) -> (r: String)
    ensures
        r@ == short_path(path@, home@),
{
    if count(home) == 0 {
        return path.to_owned();
    }
    if same(path, home) {
        return "~".to_owned();
    }
    let under = cat(home, "/");
    match after_prefix(path, under.as_str()) {
        Some(rest) => cat("~/", rest.as_str()),
        None => path.to_owned(),
    }
}

/// Whether `s` ends in a hyphen and eight digits.
pub open spec fn dated(s: Seq<char>) -> bool {
    s.len() >= 9 && s[s.len() - 9] == '-' && forall|i: int|
        s.len() - 8 <= i < s.len() ==> '0' <= #[trigger] s[i] <= '9'
}

/// A model's name without its maker and its date.
pub open spec fn model_text(model: Seq<char>, maker: Seq<char>) -> Seq<char> {
    let s = if begins(model, maker + "-"@) {
        model.skip((maker + "-"@).len() as int)
    } else {
        model
    };
    if dated(s) {
        s.take(s.len() - 9)
    } else {
        s
    }
}

/// A model's name without its maker and its date.
pub fn short_model(model: &str, maker: &str) -> (r: String)
    ensures
        r@ == model_text(model@, maker@),
{
    let s = match after_prefix(model, cat(maker, "-").as_str()) {
        Some(rest) => rest,
        None => model.to_owned(),
    };
    let v = chars_of(s.as_str());
    let n: usize = v.len();
    if n < 9 || v[n - 9] != '-' {
        return s;
    }
    let mut i: usize = n - 8;
    while i < n
        invariant
            n == v@.len(),
            n >= 9,
            n - 8 <= i <= n,
            v@ == s@,
            v@[n - 9] == '-',
            model_text(model@, maker@) == (if dated(s@) {
                s@.take(s@.len() - 9)
            } else {
                s@
            }),
            forall|j: int| n - 8 <= j < i ==> '0' <= #[trigger] v@[j] <= '9',
        decreases n - i,
    {
        let c = v[i];
        if !('0' <= c && c <= '9') {
            return s;
        }
        i += 1;
    }
    let t = string_between(&v, 0, n - 9);
    assert(t@ =~= s@.take(n - 9));
    t
}

/// Where the two underscores stand that part a server from its tool, `s.len()`
/// where there are none.
pub open spec fn parting(s: Seq<char>) -> int
    decreases s.len(),
{
    if s.len() < 2 {
        s.len() as int
    } else if s[0] == '_' && s[1] == '_' {
        0
    } else {
        1 + parting(s.skip(1))
    }
}

/// A tool's name: one of a server as the server's and its own.
pub open spec fn tool_text(tool: Seq<char>) -> Seq<char> {
    if begins(tool, "mcp__"@) {
        let s = tool.skip("mcp__"@.len() as int);
        let at = parting(s);
        if at < s.len() {
            s.take(at) + ":"@ + s.skip(at + 2)
        } else {
            s
        }
    } else {
        tool
    }
}

proof fn parting_bounds(s: Seq<char>)
    ensures
        0 <= parting(s) <= s.len(),
        parting(s) < s.len() ==> parting(s) + 2 <= s.len(),
    decreases s.len(),
{
    if s.len() >= 2 && !(s[0] == '_' && s[1] == '_') {
        parting_bounds(s.skip(1));
    }
}

/// A tool's name: one of a server as the server's and its own.
pub fn pretty_mcp_name(tool: &str) -> (r: String)
    ensures
        r@ == tool_text(tool@),
{
    let s = match after_prefix(tool, "mcp__") {
        Some(rest) => rest,
        None => {
            return tool.to_owned();
        },
    };
    let v = chars_of(s.as_str());
    let mut i: usize = 0;
    assert(v@.skip(0) =~= v@);
    proof {
        parting_bounds(v@);
    }
    while i < v.len()
        invariant
            i <= v@.len(),
            v@ == s@,
            s@ == tool@.skip("mcp__"@.len() as int),
            begins(tool@, "mcp__"@),
            parting(v@) == i + parting(v@.skip(i as int)),
            0 <= parting(v@) <= v@.len(),
        decreases v@.len() - i,
    {
        proof {
            parting_bounds(v@.skip(i as int));
        }
        if v.len() - i < 2 {
            return s;
        }
        if v[i] == '_' && v[i + 1] == '_' {
            let mut r = string_between(&v, 0, i);
            r.append(":");
            r.append(string_between(&v, i + 2, v.len()).as_str());
            assert(v@.subrange(0, i as int) =~= v@.take(i as int));
            assert(v@.subrange(i + 2, v@.len() as int) =~= v@.skip(i + 2));
            return r;
        }
        assert(v@.skip(i as int).skip(1) =~= v@.skip(i + 1));
        i += 1;
    }
    s
}

/// How many of `width` cells a meter fills at `part` of `whole`.
pub open spec fn filled(part: nat, whole: nat, width: nat) -> nat {
    if whole == 0 {
        0
    } else if part >= whole {
        width
    } else {
        nearest(part, whole, width)
    }
}

proof fn at_most(n: nat, d: nat, m: nat)
    requires
        d > 0,
        n <= m * d,
    ensures
        half_to_even(n, d) <= m,
        half_up(n, d) <= m,
{
    vstd::arithmetic::div_mod::lemma_fundamental_div_mod(n as int, d as int);
    let (q, r) = (n / d, n % d);
    assert(q < m || (q == m && r == 0)) by (nonlinear_arith)
        requires
            n == d * q + r,
            n <= m * d,
            r >= 0,
            d > 0,
    ;
}

proof fn finer_is_at_most(n: nat, d: nat, m: nat)
    requires
        d > 0,
        n <= m * d,
    ensures
        finer(n, d).0 <= m * finer(n, d).1,
        finer(n, d).1 >= 1,
    decreases (if n < 0x10_0000_0000_0000 * d { 0x10_0000_0000_0000 * d - n } else { 0 }),
{
    if n == 0 || n >= 0x10_0000_0000_0000 * d {
        at_most(n, d, m);
        assert(m * 1 == m) by (nonlinear_arith);
    } else {
        assert(2 * n <= (2 * m) * d) by (nonlinear_arith)
            requires
                n <= m * d,
        ;
        finer_is_at_most(2 * n, d, 2 * m);
        let b = finer(2 * n, d).1;
        assert((2 * m) * b == m * (2 * b)) by (nonlinear_arith);
    }
}

/// Taking a fraction to double precision does not bring it above a whole number
/// of 53 binary digits that it was not above.
pub proof fn a_double_stays_below(n: nat, d: nat, m: nat)
    requires
        d > 0,
        n <= m * d,
        m <= 0x20_0000_0000_0000,
    ensures
        double(n, d).0 <= m * double(n, d).1,
        double(n, d).1 >= 1,
{
    assert(n <= 0x20_0000_0000_0000 * d) by (nonlinear_arith)
        requires
            n <= m * d,
            m <= 0x20_0000_0000_0000,
    ;
    finer_is_at_most(n, d, m);
}

/// A meter never fills more cells than it has.
pub proof fn a_meter_fits(part: nat, whole: nat, width: nat)
    requires
        width <= 0x20_0000_0000_0000,
    ensures
        filled(part, whole, width) <= width,
{
    if whole > 0 && part < whole {
        a_double_stays_below(part, whole, 1);
        let (a, b) = double(part, whole);
        assert(a * width <= width * b) by (nonlinear_arith)
            requires
                a <= b,
        ;
        a_double_stays_below(a * width, b, width);
        let (c, d) = double(a * width, b);
        at_most(c, d, width);
    }
}

/// A meter: the filled cells, then the others.
pub open spec fn meter_text(part: nat, whole: nat, width: nat) -> Seq<char> {
    times('━', filled(part, whole, width) as int) + times('─', width - filled(part, whole, width))
}

/// A meter of `width` cells at `part` of `whole`.
pub fn meter(part: u128, whole: u128, width: usize) -> (r: String)
    requires
        part <= MOST,
        whole <= MOST,
        width <= 1_000_000,
    ensures
        r@ == meter_text(part as nat, whole as nat, width as nat),
        r@.len() == width,
{
    proof {
        a_meter_fits(part as nat, whole as nat, width as nat);
    }
    let full: usize = if whole == 0 {
        0
    } else if part >= whole {
        width
    } else {
        to_nearest(part, whole, width as u128) as usize
    };
    let mut s = repeat('━', full);
    s.append(repeat('─', width - full).as_str());
    s
}

/// A span is told in its two largest units, and to the second in all of them: so many
/// days, hours, minutes and seconds are the ones it was made of.
pub proof fn a_span_is_what_it_is_made_of(d: nat, h: nat, m: nat, s: nat, rest: nat)
    requires
        h < 24,
        m < 60,
        s < 60,
        rest < 1000,
    ensures
        ({
            let ms = (((d * 24 + h) * 60 + m) * 60 + s) * 1000 + rest;
            &&& d > 0 ==> span_text(ms) == dec(d) + "d "@ + dec(h) + "h"@
            &&& d == 0 && h > 0 ==> span_text(ms) == dec(h) + "h "@ + dec(m) + "m"@
            &&& d == 0 && h == 0 && m > 0 ==> span_text(ms) == dec(m) + "m"@
            &&& d == 0 && h == 0 && m == 0 ==> span_text(ms) == dec(s) + "s"@
            &&& d * 24 + h > 0 ==> long_span_text(ms) == dec(d * 24 + h) + "h "@ + dec(m) + "m "@ + dec(s) + "s"@
            &&& d * 24 + h == 0 && m > 0 ==> long_span_text(ms) == dec(m) + "m "@ + dec(s) + "s"@
            &&& d * 24 + h == 0 && m == 0 ==> long_span_text(ms) == dec(s) + "s"@
        }),
{
    let ms = (((d * 24 + h) * 60 + m) * 60 + s) * 1000 + rest;
    assert(ms / 1000 == ((d * 24 + h) * 60 + m) * 60 + s);
    assert(ms / 1000 / 60 == (d * 24 + h) * 60 + m);
    assert(ms / 1000 / 60 / 60 == d * 24 + h);
    assert((ms / 1000) % 60 == s);
    assert((ms / 1000 / 60) % 60 == m);
    assert((d * 24 + h) / 24 == d);
    assert((d * 24 + h) % 24 == h);
    assert(long_span_text(ms) =~= if d * 24 + h > 0 {
        dec(d * 24 + h) + "h "@ + dec(m) + "m "@ + dec(s) + "s"@
    } else if m > 0 {
        dec(m) + "m "@ + dec(s) + "s"@
    } else {
        dec(s) + "s"@
    });
}

/// An age is told in its largest unit: what happened so many days, hours, minutes and
/// seconds before now is that old, and what has not happened yet is no age at all.
pub proof fn an_age_is_the_time_gone_by(ts: Seq<char>, now: int, d: nat, h: nat, m: nat, s: nat, rest: nat)
    requires
        h < 24,
        m < 60,
        s < 60,
        rest < 1000,
    ensures
        ms_of(ts) is None ==> age_text(ts, now) == "—"@,
        ms_of(ts) matches Some(then) ==> {
            &&& now <= then ==> age_text(ts, now) == dec(0) + "s"@
            &&& now == then + (((d * 24 + h) * 60 + m) * 60 + s) * 1000 + rest ==> {
                &&& d > 0 ==> age_text(ts, now) == dec(d) + "d"@
                &&& d == 0 && h > 0 ==> age_text(ts, now) == dec(h) + "h"@
                &&& d == 0 && h == 0 && m > 0 ==> age_text(ts, now) == dec(m) + "m"@
                &&& d == 0 && h == 0 && m == 0 ==> age_text(ts, now) == dec(s) + "s"@
            }
        },
{
    let ms = (((d * 24 + h) * 60 + m) * 60 + s) * 1000 + rest;
    assert(ms / 1000 == ((d * 24 + h) * 60 + m) * 60 + s);
    assert(ms / 1000 / 60 == (d * 24 + h) * 60 + m);
    assert(ms / 1000 / 60 / 60 == d * 24 + h);
    assert((d * 24 + h) / 24 == d);
}

/// A number in groups of three reads as that number, and every fourth character from
/// its end is a comma and no other.
pub proof fn a_grouped_number_reads_back(n: nat)
    ensures
        reading(grouped(n)) == n,
        forall|k: int|
            1 <= k <= grouped(n).len() ==> (#[trigger] grouped(n)[grouped(n).len() - k] == ',' <==> k % 4 == 0),
        grouped(n)[0] != ',',
        grouped(n).len() >= 1,
    decreases n,
{
    a_number_reads_back(n);
    if n < 1000 {
        if n < 10 {
            assert(dec(n).len() == 1);
        } else if n < 100 {
            assert(dec(n / 10).len() == 1);
            assert(dec(n).len() == 2);
        } else {
            assert(dec(n / 10 / 10).len() == 1);
            assert(dec(n / 10).len() == 2);
            assert(dec(n).len() == 3);
        }
    } else {
        a_grouped_number_reads_back(n / 1000);
        let head = grouped(n / 1000);
        reveal_strlit(",");
        only_digits_are_read(head, ","@);
        reveal_with_fuel(tens, 4);
        assert(tens(3) == 1000);
        digits_read_on(head + ","@, n % 1000, 3);
        let all = grouped(n);
        let tail = digits(n % 1000, 3);
        assert(all == head + ","@ + tail);
        reveal_with_fuel(digits, 4);
        assert(all.len() == head.len() + 4);
        assert(forall|i: int| 0 <= i < 3 ==> '0' <= #[trigger] tail[i] <= '9');
        assert forall|k: int| 1 <= k <= all.len() implies (#[trigger] all[all.len() - k] == ',' <==> k % 4 == 0) by {
            if k > 4 {
                assert(all[all.len() - k] == head[head.len() - (k - 4)]);
                assert((k - 4) % 4 == k % 4);
            } else if k == 4 {
                assert(all[all.len() - 4] == ',');
            } else {
                assert(all[all.len() - k] == tail[3 - k]);
            }
        }
    }
}

/// A size says its unit, and reads as the nearest tenth of it; below a kilobyte as the
/// size itself.
pub proof fn a_size_reads_near(n: nat)
    requires
        n <= u64::MAX,
    ensures
        ({
            let text = bytes_text(n);
            let shown = reading(text);
            &&& text.last() == 'B'
            &&& n < 1024 ==> shown == n
            &&& 1024 <= n < 1_048_576 ==> text[text.len() - 2] == 'K' && -512 <= shown * 1024 - n * 10 <= 512
            &&& 1_048_576 <= n < 1_073_741_824 ==> text[text.len() - 2] == 'M' && -524_288 <= shown * 1_048_576 - n * 10
                <= 524_288
            &&& n >= 1_073_741_824 ==> text[text.len() - 2] == 'G' && -536_900_000 <= shown * 1_073_741_824 - n * 10
                <= 536_900_000
        }),
{
    reveal_with_fuel(tens, 2);
    assert(tens(1) == 10);
    reveal_strlit("B");
    reveal_strlit("KB");
    reveal_strlit("MB");
    reveal_strlit("GB");
    a_number_reads_back(n);
    only_digits_are_read(dec(n), "B"@);
    if n >= 1024 {
        let unit: nat = if n < 1_048_576 {
            1024
        } else if n < 1_073_741_824 {
            1_048_576
        } else {
            1_073_741_824
        };
        a_figure_reads_near(n, unit, 1);
        let t = fixed(n, unit, 10, 1);
        only_digits_are_read(t, "KB"@);
        only_digits_are_read(t, "MB"@);
        only_digits_are_read(t, "GB"@);
    }
}

/// A meter fills the share of its cells that the part is of the whole, to the nearest
/// cell: all of them where the part is the whole, and none of nothing.
pub proof fn a_meter_shows_the_share(part: nat, whole: nat, width: nat)
    requires
        whole > 0,
        part < whole,
        part * width < 0x400_0000_0000,
    ensures
        2 * (filled(part, whole, width) * whole - part * width) <= whole,
        2 * (part * width - filled(part, whole, width) * whole) <= whole,
        filled(whole, whole, width) == width,
        part == 0 ==> filled(part, whole, width) == 0,
{
    a_share_is_near(part, whole, width);
    let q = filled(part, whole, width);
    let (k, z) = (part * width, q * whole - part * width);
    assert(6 * part * width == 6 * k) by (nonlinear_arith)
        requires
            k == part * width,
    ;
    if part == 0 {
        assert(0 * width == 0) by (nonlinear_arith);
        assert(q == 0) by (nonlinear_arith)
            requires
                2 * (q * whole - 0) <= whole,
                whole > 0,
                q >= 0,
        ;
    }
}

/// A path under the home directory is that path behind a tilde, and any other is left
/// as it is.
pub proof fn home_is_a_tilde(home: Seq<char>, rest: Seq<char>, other: Seq<char>)
    requires
        home.len() > 0,
    ensures
        short_path(home, home) == "~"@,
        short_path(home + "/"@ + rest, home) == "~/"@ + rest,
        !begins(other, home) ==> short_path(other, home) == other,
        short_path(other, ""@) == other,
{
    reveal_strlit("");
    reveal_strlit("/");
    let under = home + "/"@;
    let path = under + rest;
    assert(path.len() > home.len());
    assert(path.take(under.len() as int) =~= under);
    assert(path.skip(under.len() as int) =~= rest);
    assert(home.take(home.len() as int) =~= home);
    if begins(other, under) {
        assert(other.take(home.len() as int) =~= home);
    }
}

/// A model is told by its name alone: the maker before it and the date behind it are
/// left out, and a name that has neither is left as it is.
pub proof fn a_model_is_told_by_its_name(name: Seq<char>, maker: Seq<char>, date: Seq<char>)
    requires
        !dated(name),
        date.len() == 8,
        forall|i: int| 0 <= i < 8 ==> '0' <= #[trigger] date[i] <= '9',
        !begins(name, maker + "-"@),
        !begins(name + "-"@ + date, maker + "-"@),
    ensures
        model_text(name, maker) == name,
        model_text(maker + "-"@ + name, maker) == name,
        model_text(name + "-"@ + date, maker) == name,
        model_text(maker + "-"@ + name + "-"@ + date, maker) == name,
{
    reveal_strlit("-");
    let first = maker + "-"@;
    let long = name + "-"@ + date;
    assert(long.len() == name.len() + 9);
    assert(long[long.len() - 9] == '-');
    assert forall|i: int| long.len() - 8 <= i < long.len() implies '0' <= #[trigger] long[i] <= '9' by {
        assert(long[i] == date[i - (long.len() - 8)]);
    }
    assert(long.take(long.len() - 9) =~= name);
    assert((first + name).take(first.len() as int) =~= first);
    assert((first + name).skip(first.len() as int) =~= name);
    let both = maker + "-"@ + name + "-"@ + date;
    assert(both =~= first + long);
    assert(both.take(first.len() as int) =~= first);
    assert(both.skip(first.len() as int) =~= long);
}

proof fn parted_where_it_is(server: Seq<char>, tool: Seq<char>)
    requires
        forall|i: int| 0 <= i < server.len() - 1 ==> !(#[trigger] server[i] == '_' && server[i + 1] == '_'),
        server.len() > 0 ==> server.last() != '_',
    ensures
        parting(server + "__"@ + tool) == server.len(),
    decreases server.len(),
{
    reveal_strlit("__");
    let all = server + "__"@ + tool;
    assert(all.len() >= 2);
    if server.len() > 0 {
        let rest = server.skip(1);
        assert(all.skip(1) =~= rest + "__"@ + tool);
        assert(all[0] == server[0]);
        if server.len() > 1 {
            assert(all[1] == server[1]);
        }
        assert forall|i: int| 0 <= i < rest.len() - 1 implies !(#[trigger] rest[i] == '_' && rest[i + 1] == '_') by {
            assert(rest[i] == server[i + 1]);
            assert(rest[i + 1] == server[i + 2]);
        }
        assert(!(all[0] == '_' && all[1] == '_')) by {
            if server.len() > 1 {
                assert(!(server[0] == '_' && server[1] == '_'));
            }
        }
        parted_where_it_is(rest, tool);
    }
}

/// A tool of a server is named by its server and by itself, and a tool of no server by
/// itself.
pub proof fn a_tool_is_named_with_its_server(server: Seq<char>, tool: Seq<char>)
    requires
        forall|i: int| 0 <= i < server.len() - 1 ==> !(#[trigger] server[i] == '_' && server[i + 1] == '_'),
        server.len() > 0 ==> server.last() != '_',
    ensures
        tool_text("mcp__"@ + server + "__"@ + tool) == server + ":"@ + tool,
        !begins(tool, "mcp__"@) ==> tool_text(tool) == tool,
{
    let all = "mcp__"@ + server + "__"@ + tool;
    let s = server + "__"@ + tool;
    assert(all =~= "mcp__"@ + s);
    assert(all.take("mcp__"@.len() as int) =~= "mcp__"@);
    assert(all.skip("mcp__"@.len() as int) =~= s);
    parted_where_it_is(server, tool);
    reveal_strlit("__");
    assert(s.take(server.len() as int) =~= server);
    assert(s.skip(server.len() as int + 2) =~= tool);
}

} // verus!
