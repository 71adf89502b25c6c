//! Integer facts behind the timecode and rate arithmetic.
use vstd::prelude::*;

use vstd::arithmetic::div_mod::{
    lemma_div_denominator, lemma_fundamental_div_mod, lemma_fundamental_div_mod_converse,
    lemma_truncate_middle,
};

verus! {

/// Division rounded toward zero, as Rust's `/` computes it for a positive divisor.
pub open spec fn trunc_div(a: int, b: int) -> int {
    if a >= 0 {
        a / b
    } else {
        -((-a) / b)
    }
}

/// Remainder matching `trunc_div`, as Rust's `%` computes it for a positive divisor.
pub open spec fn trunc_rem(a: int, b: int) -> int {
    a - b * trunc_div(a, b)
}

/// Absolute value.
pub open spec fn abs(a: int) -> int {
    if a < 0 {
        -a
    } else {
        a
    }
}

/// Greatest common divisor by Euclid's algorithm.
pub open spec fn gcd(a: nat, b: nat) -> nat
    decreases b,
{
    if b == 0 {
        a
    } else {
        gcd(b, a % b)
    }
}

/// Splitting a dividend into quotient and remainder, then scaling the remainder, loses
/// nothing: `q * m + trunc(r * m / b)` is the truncated quotient of `a * m` by `b`.
pub proof fn lemma_trunc_div_scaled(a: int, b: int, m: int)
    requires
        b > 0,
        m > 0,
    ensures
        trunc_div(a, b) * m + trunc_div(trunc_rem(a, b) * m, b) == trunc_div(a * m, b),
{
    if a >= 0 {
        let q = a / b;
        let r = a % b;
        lemma_fundamental_div_mod(a, b);
        assert(trunc_rem(a, b) == r);
        assert(r * m >= 0) by (nonlinear_arith)
            requires
                r >= 0,
                m > 0,
        ;
        let q2 = (r * m) / b;
        let r2 = (r * m) % b;
        lemma_fundamental_div_mod(r * m, b);
        assert(a * m == (q * m + q2) * b + r2) by (nonlinear_arith)
            requires
                a == b * q + r,
                r * m == b * q2 + r2,
        ;
        lemma_fundamental_div_mod_converse(a * m, b, q * m + q2, r2);
        assert(a * m >= 0) by (nonlinear_arith)
            requires
                a >= 0,
                m > 0,
        ;
    } else {
        let na = -a;
        let q = na / b;
        let r = na % b;
        lemma_fundamental_div_mod(na, b);
        assert(b * (-q) == -(b * q)) by (nonlinear_arith);
        assert(trunc_rem(a, b) == -r);
        assert(r * m >= 0) by (nonlinear_arith)
            requires
                r >= 0,
                m > 0,
        ;
        let q2 = (r * m) / b;
        let r2 = (r * m) % b;
        lemma_fundamental_div_mod(r * m, b);
        assert((-r) * m == -(r * m)) by (nonlinear_arith);
        assert(na * m == (q * m + q2) * b + r2) by (nonlinear_arith)
            requires
                na == b * q + r,
                r * m == b * q2 + r2,
        ;
        lemma_fundamental_div_mod_converse(na * m, b, q * m + q2, r2);
        assert(a * m == -(na * m)) by (nonlinear_arith)
            requires
                na == -a,
        ;
        assert(a * m < 0) by (nonlinear_arith)
            requires
                a < 0,
                m > 0,
        ;
        assert((-q) * m == -(q * m)) by (nonlinear_arith);
        assert(trunc_div(a, b) * m == -(q * m));
        assert(trunc_div(a * m, b) == -(q * m + q2));
        if r == 0 {
            assert(r * m == 0);
            assert(q2 == 0);
            assert(trunc_div(trunc_rem(a, b) * m, b) == 0);
        } else {
            assert(-(r * m) < 0) by (nonlinear_arith)
                requires
                    r > 0,
                    m > 0,
            ;
            assert(trunc_div(trunc_rem(a, b) * m, b) == -q2);
        }
    }
}

/// Euclid's algorithm computes a positive common divisor.
pub proof fn lemma_gcd_divides(a: nat, b: nat)
    requires
        a > 0 || b > 0,
    ensures
        gcd(a, b) > 0,
        a % gcd(a, b) == 0,
        b % gcd(a, b) == 0,
    decreases b,
{
    if b == 0 {
        lemma_fundamental_div_mod_converse(a as int, a as int, 1, 0);
        lemma_fundamental_div_mod_converse(0, a as int, 0, 0);
    } else {
        lemma_gcd_divides(b, a % b);
        let g = gcd(b, a % b) as int;
        let r = (a % b) as int;
        lemma_fundamental_div_mod(b as int, g);
        lemma_fundamental_div_mod(r, g);
        lemma_fundamental_div_mod(a as int, b as int);
        let q = (a / b) as int;
        let kb = b as int / g;
        let kr = r / g;
        assert(a as int == g * (kb * q + kr)) by (nonlinear_arith)
            requires
                a as int == b * q + r,
                b as int == g * kb,
                r == g * kr,
        ;
        lemma_fundamental_div_mod_converse(a as int, g, kb * q + kr, 0);
    }
}

/// Common factors scale the greatest common divisor.
pub proof fn lemma_gcd_scale(k: nat, x: nat, y: nat)
    requires
        k > 0,
    ensures
        gcd(k * x, k * y) == k * gcd(x, y),
    decreases y,
{
    if y == 0 {
        assert(k * y == 0) by (nonlinear_arith)
            requires
                y == 0,
        ;
    } else {
        assert(k * y > 0) by (nonlinear_arith)
            requires
                k > 0,
                y > 0,
        ;
        lemma_truncate_middle(x as int, k as int, y as int);
        assert((k * x) % (k * y) == k * (x % y));
        lemma_gcd_scale(k, y, x % y);
    }
}

/// Dividing both arguments by their greatest common divisor leaves coprime values.
pub proof fn lemma_gcd_reduced(a: nat, b: nat)
    requires
        b > 0,
    ensures
        gcd(a, b) > 0,
        gcd((a / gcd(a, b)) as nat, (b / gcd(a, b)) as nat) == 1,
        a % gcd(a, b) == 0,
        b % gcd(a, b) == 0,
{
    lemma_gcd_divides(a, b);
    let g = gcd(a, b) as int;
    lemma_fundamental_div_mod(a as int, g);
    lemma_fundamental_div_mod(b as int, g);
    let ka = a as int / g;
    let kb = b as int / g;
    assert(ka >= 0 && kb >= 0);
    lemma_gcd_scale(g as nat, ka as nat, kb as nat);
    assert(g * gcd(ka as nat, kb as nat) == g * 1);
    assert(gcd(ka as nat, kb as nat) == 1) by (nonlinear_arith)
        requires
            g * gcd(ka as nat, kb as nat) == g * 1,
            g > 0,
    ;
}

/// Splitting a nonnegative count into hours, minutes, seconds and units of `n`.
pub proof fn lemma_clock_decompose(n: int, e: int)
    requires
        n >= 1,
        0 <= e < 86400 * n,
    ensures
        e / (3600 * n) < 24,
        e / (60 * n) == 60 * (e / (3600 * n)) + (e / (60 * n)) % 60,
        e % (60 * n) == ((e / n) % 60) * n + e % n,
        e == (e / (60 * n)) * (60 * n) + e % (60 * n),
        e == (((e / (3600 * n)) * 60 + (e / (60 * n)) % 60) * 60 + (e / n) % 60) * n + e % n,
        0 <= (e / (60 * n)) % 60 < 60,
        0 <= (e / n) % 60 < 60,
        0 <= e % n < n,
{
    lemma_fundamental_div_mod(e, n);
    let k = e / n;
    let fr = e % n;
    assert(k >= 0) by (nonlinear_arith)
        requires
            e >= 0,
            n >= 1,
            k == e / n,
    ;
    lemma_div_denominator(e, n, 60);
    assert(n * 60 == 60 * n);
    let k1 = k / 60;
    let s = k % 60;
    lemma_fundamental_div_mod(k, 60);
    lemma_div_denominator(k1, 60, 1);
    lemma_div_denominator(e, 60 * n, 60);
    assert((60 * n) * 60 == 3600 * n) by (nonlinear_arith);
    let h = k1 / 60;
    let m = k1 % 60;
    lemma_fundamental_div_mod(k1, 60);
    assert(e / (60 * n) == k1);
    assert(e / (3600 * n) == h);
    assert(e == ((h * 60 + m) * 60 + s) * n + fr) by (nonlinear_arith)
        requires
            e == n * k + fr,
            k == 60 * k1 + s,
            k1 == 60 * h + m,
    ;
    assert(h < 24) by (nonlinear_arith)
        requires
            e == ((h * 60 + m) * 60 + s) * n + fr,
            e < 86400 * n,
            0 <= m,
            0 <= s,
            0 <= fr,
            n >= 1,
    ;
    lemma_fundamental_div_mod(e, 60 * n);
    assert(e == k1 * (60 * n) + (s * n + fr)) by (nonlinear_arith)
        requires
            e == n * k + fr,
            k == 60 * k1 + s,
    ;
    assert(0 <= s * n + fr < 60 * n) by (nonlinear_arith)
        requires
            0 <= s < 60,
            0 <= fr < n,
    ;
    lemma_fundamental_div_mod_converse(e, 60 * n, k1, s * n + fr);
}

/// Counting dropped labels: a frame count `f` within one day maps to a label count `e`
/// whose minute and second structure skips `d` labels at the start of every minute
/// that is not a multiple of ten.
pub open spec fn expand_frame(n: int, d: int, f: int) -> int {
    let ten = 600 * n - 9 * d;
    let rem = f % ten;
    f + 9 * d * (f / ten) + if rem >= d {
        d * ((rem - d) / (60 * n - d))
    } else {
        0
    }
}

/// Minute count within the ten-minute block that `expand_frame` assigns.
pub open spec fn expand_minute(n: int, d: int, f: int) -> int {
    let ten = 600 * n - 9 * d;
    let rem = f % ten;
    if rem >= d {
        (rem - d) / (60 * n - d)
    } else {
        0
    }
}

pub proof fn lemma_expand(n: int, d: int, f: int)
    requires
        n >= 1,
        0 <= d,
        60 * n > 10 * d,
        0 <= f < 144 * (600 * n - 9 * d),
    ensures
        ({
            let ten = 600 * n - 9 * d;
            let q = f / ten;
            let k = expand_minute(n, d, f);
            let e = expand_frame(n, d, f);
            &&& 0 <= q < 144
            &&& 0 <= k <= 9
            &&& e == f + d * (9 * q + k)
            &&& e / (60 * n) == 10 * q + k
            &&& k >= 1 ==> e % (60 * n) >= d
            &&& 0 <= e < 86400 * n
        }),
{
    let ten = 600 * n - 9 * d;
    let q = f / ten;
    let rem = f % ten;
    let k = expand_minute(n, d, f);
    let e = expand_frame(n, d, f);
    lemma_fundamental_div_mod(f, ten);
    assert(0 <= q < 144) by (nonlinear_arith)
        requires
            f == ten * q + rem,
            0 <= rem < ten,
            0 <= f < 144 * ten,
            ten > 0,
    ;
    assert(9 * d * q == d * (9 * q)) by (nonlinear_arith);
    let t;
    if rem >= d {
        let r = rem - d;
        lemma_fundamental_div_mod(r, 60 * n - d);
        let tt = r % (60 * n - d);
        assert(k == r / (60 * n - d));
        assert(r < 10 * (60 * n - d));
        assert(0 <= tt < 60 * n - d);
        if k < 0 {
            assert((60 * n - d) * k < 0) by (nonlinear_arith)
                requires
                    k < 0,
                    60 * n - d > 0,
            ;
        }
        if k >= 10 {
            assert((60 * n - d) * k >= (60 * n - d) * 10) by (nonlinear_arith)
                requires
                    k >= 10,
                    60 * n - d > 0,
            ;
        }
        assert(0 <= k <= 9);
        t = tt + d;
        assert(e == f + d * (9 * q + k)) by (nonlinear_arith)
            requires
                e == f + 9 * d * q + d * k,
        ;
        assert(e == (10 * q + k) * (60 * n) + t) by (nonlinear_arith)
            requires
                e == f + d * (9 * q + k),
                f == ten * q + rem,
                ten == 600 * n - 9 * d,
                rem == d + (60 * n - d) * k + tt,
                t == tt + d,
        ;
        assert(0 <= t < 60 * n);
        assert(t >= d);
    } else {
        assert(k == 0);
        t = rem;
        assert(e == f + d * (9 * q + k)) by (nonlinear_arith)
            requires
                e == f + 9 * d * q,
                k == 0,
        ;
        assert(e == (10 * q + k) * (60 * n) + t) by (nonlinear_arith)
            requires
                e == f + d * (9 * q + k),
                f == ten * q + rem,
                ten == 600 * n - 9 * d,
                k == 0,
                t == rem,
        ;
        assert(0 <= t < 60 * n);
    }
    lemma_fundamental_div_mod_converse(e, 60 * n, 10 * q + k, t);
    assert(0 <= e < 86400 * n) by (nonlinear_arith)
        requires
            e == (10 * q + k) * (60 * n) + t,
            0 <= q < 144,
            0 <= k <= 9,
            0 <= q * 10 + k <= 1439,
            0 <= t < 60 * n,
    ;
}

/// The inverse direction: a label count built from minute `mins` and offset `t` within
/// that minute, with the dropped labels removed, expands back to the same count.
pub proof fn lemma_collapse(n: int, d: int, mins: int, t: int)
    requires
        n >= 1,
        0 <= d,
        60 * n > 10 * d,
        0 <= mins < 1440,
        0 <= t < 60 * n,
        mins % 10 != 0 ==> t >= d,
    ensures
        ({
            let f = mins * (60 * n) + t - d * (mins - mins / 10);
            &&& 0 <= f < 144 * (600 * n - 9 * d)
            &&& expand_frame(n, d, f) == mins * (60 * n) + t
        }),
{
    let ten = 600 * n - 9 * d;
    let q = mins / 10;
    let k = mins % 10;
    lemma_fundamental_div_mod(mins, 10);
    let f = mins * (60 * n) + t - d * (mins - mins / 10);
    let rem = k * (60 * n - d) + t;
    assert(f == q * ten + rem) by (nonlinear_arith)
        requires
            f == mins * (60 * n) + t - d * (mins - q),
            mins == 10 * q + k,
            ten == 600 * n - 9 * d,
            rem == k * (60 * n - d) + t,
    ;
    assert(0 <= rem < ten) by (nonlinear_arith)
        requires
            rem == k * (60 * n - d) + t,
            0 <= k <= 9,
            0 <= t < 60 * n,
            60 * n > 10 * d,
            0 <= d,
            ten == 600 * n - 9 * d,
    ;
    assert(0 <= q < 144);
    lemma_fundamental_div_mod_converse(f, ten, q, rem);
    assert(0 <= f < 144 * ten) by (nonlinear_arith)
        requires
            f == q * ten + rem,
            0 <= rem < ten,
            0 <= q < 144,
    ;
    if k == 0 {
        if rem >= d {
            assert(rem - d < 60 * n - d);
            lemma_fundamental_div_mod_converse(rem - d, 60 * n - d, 0, rem - d);
        }
        assert(expand_frame(n, d, f) == f + 9 * d * q);
        assert(f + 9 * d * q == mins * (60 * n) + t) by (nonlinear_arith)
            requires
                f == mins * (60 * n) + t - d * (mins - q),
                mins == 10 * q,
        ;
    } else {
        assert(rem >= d) by (nonlinear_arith)
            requires
                rem == k * (60 * n - d) + t,
                t >= d,
                k >= 1,
                60 * n - d > 0,
        ;
        assert(rem - d == k * (60 * n - d) + (t - d));
        lemma_fundamental_div_mod_converse(rem - d, 60 * n - d, k, t - d);
        assert(expand_frame(n, d, f) == f + 9 * d * q + d * k);
        assert(f + 9 * d * q + d * k == mins * (60 * n) + t) by (nonlinear_arith)
            requires
                f == mins * (60 * n) + t - d * (mins - q),
                mins == 10 * q + k,
        ;
    }
}

} // verus!
