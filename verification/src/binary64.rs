//! Binary floating-point arithmetic, exactly, on integers: the `f64` or `f32`
//! number nearest to a fraction, as an IEEE 754 operation or integer
//! conversion gives it (53 or 24 significant bits, ties to even), kept as an
//! exact fraction so that what is printed or rounded of it can be computed
//! without error.

use vstd::prelude::*;

use vstd::arithmetic::div_mod::lemma_fundamental_div_mod;
use vstd::arithmetic::power2::{
    lemma2_to64, lemma2_to64_rest, lemma_pow2_adds, lemma_pow2_pos, lemma_pow2_strictly_increases, lemma_pow2_unfold,
    pow2,
};

verus! {

/// `n / d` rounded to the nearest integer, ties to even.
pub open spec fn round_half_even(n: nat, d: nat) -> nat
    recommends
        d > 0,
{
    let w = n / d;
    let r = n % d;
    if 2 * r > d {
        w + 1
    } else if 2 * r < d {
        w
    } else if w % 2 == 0 {
        w
    } else {
        w + 1
    }
}

/// `⌊log2 x⌋` for `x ≥ 1`.
pub open spec fn log2_floor(x: nat) -> nat
    decreases x,
{
    if x < 2 {
        0
    } else {
        1 + log2_floor(x / 2)
    }
}

/// The binary floating-point number of `p` significant bits nearest to
/// `n / d` (ties to even), as a fraction (numerator, denominator). Stated
/// for `n / d` of at least one half: below one the binade is `[1/2, 1)`,
/// whose spacing is `2^-p`; from one on, the value keeps the `p` significant
/// bits from its leading one. Exponent limits are never reached here.
pub open spec fn nearest_float(n: nat, d: nat, p: nat) -> (nat, nat) {
    if n < d {
        (round_half_even(n * pow2(p), d), pow2(p))
    } else {
        let k = log2_floor(n / d);
        if k + 1 >= p {
            let ulp = pow2((k + 1 - p) as nat);
            (round_half_even(n, d * ulp) * ulp, 1)
        } else {
            let scale = pow2((p - 1 - k) as nat);
            (round_half_even(n * scale, d), scale)
        }
    }
}

/// The binary64 (`f64`) number nearest to `n / d`.
pub open spec fn nearest_binary64(n: nat, d: nat) -> (nat, nat) {
    nearest_float(n, d, 53)
}

/// The binary32 (`f32`) number nearest to `n / d`.
pub open spec fn nearest_binary32(n: nat, d: nat) -> (nat, nat) {
    nearest_float(n, d, 24)
}

proof fn lemma_log2_bounds(x: nat)
    requires
        x >= 1,
    ensures
        pow2(log2_floor(x)) <= x < pow2(log2_floor(x) + 1),
    decreases x,
{
    lemma2_to64();
    if x >= 2 {
        lemma_log2_bounds(x / 2);
        lemma_pow2_unfold(log2_floor(x));
        lemma_pow2_unfold(log2_floor(x) + 1);
    }
}

proof fn lemma_log2_below(x: nat, e: nat)
    requires
        1 <= x < pow2(e),
    ensures
        log2_floor(x) < e,
{
    lemma_log2_bounds(x);
    if log2_floor(x) > e {
        lemma_pow2_strictly_increases(e, log2_floor(x));
    }
}

/// A rounded quotient is at most the quotient plus one, and the quotient is
/// at most the numerator.
pub proof fn lemma_rhe_bounds_div(n: nat, d: nat)
    requires
        d > 0,
    ensures
        round_half_even(n, d) <= n / d + 1,
        n / d <= n,
{
    lemma_fundamental_div_mod(n as int, d as int);
    let q = n / d;
    assert(q <= n) by (nonlinear_arith)
        requires
            n == d * q + n % d,
            n % d >= 0,
            d >= 1,
            q >= 0,
    ;
}

proof fn lemma_quotient_below(n: nat, d: nat, c: nat)
    requires
        d > 0,
        n < c * d,
    ensures
        n / d < c,
{
    lemma_fundamental_div_mod(n as int, d as int);
    let q = n / d;
    assert(d * q <= n);
    assert(q < c) by (nonlinear_arith)
        requires
            d > 0,
            d * q < c * d,
    ;
}

proof fn lemma_quotient_at_least(n: nat, d: nat, c: nat)
    requires
        d > 0,
        d * c <= n,
    ensures
        c <= n / d,
        c <= round_half_even(n, d),
{
    lemma_fundamental_div_mod(n as int, d as int);
    let q = n / d;
    assert(c <= q) by (nonlinear_arith)
        requires
            d > 0,
            n == d * q + n % d,
            n % d < d,
            d * c <= n,
    ;
}

proof fn lemma_rhe_at_most(n: nat, d: nat, c: nat)
    requires
        d > 0,
        n < c * d,
    ensures
        round_half_even(n, d) <= c,
{
    lemma_quotient_below(n, d, c);
}

proof fn lemma_below_next(n: nat, d: nat, p: nat)
    requires
        d > 0,
        n / d < p,
    ensures
        n < p * d,
{
    lemma_fundamental_div_mod(n as int, d as int);
    let q = n / d;
    assert(n < p * d) by (nonlinear_arith)
        requires
            n == d * q + n % d,
            n % d < d,
            q + 1 <= p,
            d > 0,
    ;
}

/// [`round_half_even`] on machine integers.
pub fn round_half_even_u128(n: u128, d: u128) -> (r: u128)
    requires
        d > 0,
        n / d < u128::MAX,
    ensures
        r as nat == round_half_even(n as nat, d as nat),
{
    let w = n / d;
    let r = n % d;
    if r > d - r {
        w + 1
    } else if r < d - r {
        w
    } else if w % 2 == 0 {
        w
    } else {
        w + 1
    }
}

/// `2^e`.
fn pow2_u128(e: u32) -> (p: u128)
    requires
        e <= 100,
    ensures
        p as nat == pow2(e as nat),
        p >= 1,
{
    proof {
        lemma2_to64();
        lemma2_to64_rest();
        lemma_pow2_adds(64, 36);
    }
    let mut p: u128 = 1;
    let mut i: u32 = 0;
    while i < e
        invariant
            i <= e <= 100,
            p as nat == pow2(i as nat),
            pow2(100) == 0x10_0000_0000_0000_0000_0000_0000,
        decreases e - i,
    {
        proof {
            lemma_pow2_unfold((i + 1) as nat);
            lemma_pow2_strictly_increases(i as nat, 100);
        }
        p = p * 2;
        i = i + 1;
    }
    proof {
        lemma_pow2_pos(e as nat);
    }
    p
}

/// `⌊log2 x⌋`.
fn log2_floor_u128(x: u128) -> (k: u32)
    requires
        1 <= x,
        x as nat <= 0x400_0000_0000_0000_0000_0000,
    ensures
        k as nat == log2_floor(x as nat),
        k <= 90,
{
    proof {
        lemma2_to64();
        lemma_pow2_adds(64, 27);
        lemma_log2_below(x as nat, 91);
    }
    let mut q = x;
    let mut k: u32 = 0;
    while q >= 2
        invariant
            1 <= q <= x,
            k as nat + log2_floor(q as nat) == log2_floor(x as nat),
            log2_floor(x as nat) <= 90,
        decreases q,
    {
        q = q / 2;
        k = k + 1;
    }
    k
}

/// The binary64 number nearest to `n / d`, for `n / d` of at least one half,
/// as a fraction; its numerator stays below `2^53` or at most twice the
/// quotient, its denominator within `1..=2^53`.
pub fn nearest_binary64_exec(n: u128, d: u128) -> (r: (u128, u128))
    requires
        1 <= d <= 0x8000_0000_0000_0000,
        n <= 0x4_0000_0000_0000_0000,
        2 * n >= d,
    ensures
        (r.0 as nat, r.1 as nat) == nearest_binary64(n as nat, d as nat),
        r.0 as nat <= pow2(53) || r.0 as nat <= 2 * (n as nat / d as nat),
        1 <= r.1,
        r.1 as nat <= pow2(53),
        n < d ==> r.1 as nat == pow2(53) && r.0 as nat <= pow2(53),
{
    proof {
        lemma2_to64();
        lemma2_to64_rest();
    }
    if n < d {
        let s = pow2_u128(53);
        assert((n as nat) * (s as nat) < (s as nat) * (d as nat)) by (nonlinear_arith)
            requires
                n < d,
                s > 0,
        ;
        assert((s as nat) * (d as nat) <= 0x20_0000_0000_0000 * 0x8000_0000_0000_0000) by (nonlinear_arith)
            requires
                s as nat == 0x20_0000_0000_0000,
                d as nat <= 0x8000_0000_0000_0000,
        ;
        let ns = n * s;
        proof {
            lemma_rhe_at_most(ns as nat, d as nat, s as nat);
        }
        let m = round_half_even_u128(ns, d);
        return (m, s);
    }
    let q = n / d;
    proof {
        lemma_fundamental_div_mod(n as int, d as int);
        if q == 0 {
            assert(d * q == 0) by (nonlinear_arith)
                requires
                    q == 0,
            ;
        }
    }
    let k = log2_floor_u128(q);
    proof {
        lemma_log2_bounds(q as nat);
        lemma_below_next(n as nat, d as nat, pow2(k as nat + 1));
        lemma_pow2_adds(64, 3);
        lemma_log2_below(q as nat, 67);
    }
    if k >= 52 {
        let ulp = pow2_u128(k - 52);
        proof {
            lemma_pow2_adds(53, (k - 52) as nat);
            assert((k - 52) as nat + 53 == k as nat + 1);
            lemma_pow2_strictly_increases((k - 52) as nat, 15);
            lemma_pow2_unfold(k as nat + 1);
        }
        assert((d as nat) * (ulp as nat) <= 0x8000_0000_0000_0000 * 0x8000) by (nonlinear_arith)
            requires
                d as nat <= 0x8000_0000_0000_0000,
                ulp as nat <= 0x8000,
        ;
        let du = d * ulp;
        assert((n as nat) < pow2(53) * (du as nat)) by (nonlinear_arith)
            requires
                (n as nat) < pow2(k as nat + 1) * (d as nat),
                pow2(k as nat + 1) == pow2(53) * (ulp as nat),
                du as nat == (d as nat) * (ulp as nat),
        ;
        proof {
            lemma_rhe_at_most(n as nat, du as nat, pow2(53));
        }
        let m = round_half_even_u128(n, du);
        assert((m as nat) * (ulp as nat) <= pow2(53) * (ulp as nat)) by (nonlinear_arith)
            requires
                m as nat <= pow2(53),
        ;
        let v = m * ulp;
        return (v, 1);
    } else {
        let s = pow2_u128(52 - k);
        proof {
            lemma_pow2_adds(k as nat + 1, (52 - k) as nat);
            assert(k as nat + 1 + (52 - k) as nat == 53);
            lemma_pow2_strictly_increases((52 - k) as nat, 53);
        }
        assert((n as nat) * (s as nat) < pow2(53) * (d as nat)) by (nonlinear_arith)
            requires
                (n as nat) < pow2(k as nat + 1) * (d as nat),
                pow2(53) == pow2(k as nat + 1) * (s as nat),
                s > 0,
        ;
        assert(pow2(53) * (d as nat) <= 0x20_0000_0000_0000 * 0x8000_0000_0000_0000) by (nonlinear_arith)
            requires
                pow2(53) == 0x20_0000_0000_0000,
                d as nat <= 0x8000_0000_0000_0000,
        ;
        let ns = n * s;
        proof {
            lemma_rhe_at_most(ns as nat, d as nat, pow2(53));
        }
        let m = round_half_even_u128(ns, d);
        return (m, s);
    }
}

/// The binary32 number nearest to `n / d`, for `n / d` of at least one
/// half, as a fraction; its numerator stays below `2^24` or at most twice the
/// quotient, its denominator within `1..=2^24`, and a value of at least one
/// stays at least one.
pub fn nearest_binary32_exec(n: u128, d: u128) -> (r: (u128, u128))
    requires
        1 <= d <= 0x1000_0000_0000_0000,
        n <= 0x400_0000_0000_0000_0000_0000,
        2 * n >= d,
    ensures
        (r.0 as nat, r.1 as nat) == nearest_binary32(n as nat, d as nat),
        r.0 as nat <= pow2(24) || r.0 as nat <= 2 * (n as nat / d as nat),
        1 <= r.1,
        r.1 as nat <= pow2(24),
        n >= d ==> r.0 >= r.1,
{
    proof {
        lemma2_to64();
    }
    if n < d {
        let s = pow2_u128(24);
        assert((n as nat) * (s as nat) < (s as nat) * (d as nat)) by (nonlinear_arith)
            requires
                n < d,
                s > 0,
        ;
        assert((s as nat) * (d as nat) <= 0x100_0000 * 0x1000_0000_0000_0000) by (nonlinear_arith)
            requires
                s as nat == 0x100_0000,
                d as nat <= 0x1000_0000_0000_0000,
        ;
        let ns = n * s;
        proof {
            lemma_rhe_at_most(ns as nat, d as nat, s as nat);
        }
        let m = round_half_even_u128(ns, d);
        return (m, s);
    }
    let q = n / d;
    proof {
        lemma_fundamental_div_mod(n as int, d as int);
        if q == 0 {
            assert(d * q == 0) by (nonlinear_arith)
                requires
                    q == 0,
            ;
        }
        lemma_rhe_bounds_div(n as nat, d as nat);
    }
    let k = log2_floor_u128(q);
    proof {
        lemma_log2_bounds(q as nat);
        lemma_below_next(n as nat, d as nat, pow2(k as nat + 1));
    }
    if k >= 23 {
        let ulp = pow2_u128(k - 23);
        proof {
            lemma_pow2_adds(24, (k - 23) as nat);
            assert((k - 23) as nat + 24 == k as nat + 1);
            lemma_pow2_strictly_increases((k - 23) as nat, 68);
            lemma_pow2_adds(64, 4);
            lemma_pow2_unfold(k as nat + 1);
            lemma_pow2_adds(23, (k - 23) as nat);
        }
        assert((d as nat) * (ulp as nat) < 0x1000_0000_0000_0000 * 0x10_0000_0000_0000_0000) by (nonlinear_arith)
            requires
                1 <= d,
                (d as nat) <= 0x1000_0000_0000_0000,
                (ulp as nat) < 0x10_0000_0000_0000_0000,
        ;
        let du = d * ulp;
        assert((n as nat) < pow2(24) * (du as nat)) by (nonlinear_arith)
            requires
                (n as nat) < pow2(k as nat + 1) * (d as nat),
                pow2(k as nat + 1) == pow2(24) * (ulp as nat),
                du as nat == (d as nat) * (ulp as nat),
        ;
        assert((du as nat) * pow2(23) <= n as nat) by (nonlinear_arith)
            requires
                pow2(k as nat) <= (q as nat),
                (d as nat) * (q as nat) <= n as nat,
                pow2(k as nat) == pow2(23) * (ulp as nat),
                du as nat == (d as nat) * (ulp as nat),
        ;
        proof {
            lemma_rhe_at_most(n as nat, du as nat, pow2(24));
            lemma_quotient_at_least(n as nat, du as nat, pow2(23));
        }
        let m = round_half_even_u128(n, du);
        assert((m as nat) * (ulp as nat) <= pow2(24) * (ulp as nat)) by (nonlinear_arith)
            requires
                m as nat <= pow2(24),
        ;
        assert((m as nat) * (ulp as nat) >= 1) by (nonlinear_arith)
            requires
                m as nat >= pow2(23),
                pow2(23) >= 1,
                ulp >= 1,
        ;
        let v = m * ulp;
        return (v, 1);
    } else {
        let s = pow2_u128(23 - k);
        proof {
            lemma_pow2_adds(k as nat + 1, (23 - k) as nat);
            assert(k as nat + 1 + (23 - k) as nat == 24);
            lemma_pow2_strictly_increases((23 - k) as nat, 24);
        }
        assert((n as nat) * (s as nat) < pow2(24) * (d as nat)) by (nonlinear_arith)
            requires
                (n as nat) < pow2(k as nat + 1) * (d as nat),
                pow2(24) == pow2(k as nat + 1) * (s as nat),
                s > 0,
        ;
        assert(pow2(24) * (d as nat) <= 0x100_0000 * 0x1000_0000_0000_0000) by (nonlinear_arith)
            requires
                pow2(24) == 0x100_0000,
                d as nat <= 0x1000_0000_0000_0000,
        ;
        assert((d as nat) * (s as nat) <= (n as nat) * (s as nat)) by (nonlinear_arith)
            requires
                d <= n,
        ;
        let ns = n * s;
        proof {
            lemma_rhe_at_most(ns as nat, d as nat, pow2(24));
            lemma_quotient_at_least(ns as nat, d as nat, s as nat);
        }
        let m = round_half_even_u128(ns, d);
        return (m, s);
    }
}

} // verus!
