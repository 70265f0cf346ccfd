use vstd::prelude::*;
use vstd::arithmetic::div_mod::{lemma_fundamental_div_mod, lemma_fundamental_div_mod_converse};

verus! {

/// The integer square root: the largest `s` with `s * s <= n`.
pub open spec fn is_isqrt(n: int, s: int) -> bool {
    &&& 0 <= s
    &&& s * s <= n
    &&& n < (s + 1) * (s + 1)
}

pub open spec fn abs(v: int) -> int {
    if v < 0 {
        -v
    } else {
        v
    }
}

/// The integer square root of a non-negative `n`.
pub open spec fn root(n: int) -> int {
    choose|s: int| is_isqrt(n, s)
}

/// Every non-negative integer has an integer square root.
pub proof fn lemma_root(n: int)
    requires
        n >= 0,
    ensures
        is_isqrt(n, root(n)),
    decreases n,
{
    if n == 0 {
        assert(is_isqrt(0, 0));
    } else {
        lemma_root(n - 1);
        let s = root(n - 1);
        if (s + 1) * (s + 1) <= n {
            assert((s + 2) * (s + 2) > n) by (nonlinear_arith)
                requires n - 1 < (s + 1) * (s + 1), s >= 0;
            assert(is_isqrt(n, s + 1));
        } else {
            assert(is_isqrt(n, s));
        }
    }
}

/// `is_isqrt` has at most one solution.
pub proof fn lemma_isqrt_unique(n: int, s1: int, s2: int)
    requires
        is_isqrt(n, s1),
        is_isqrt(n, s2),
    ensures
        s1 == s2,
{
    if s1 < s2 {
        assert((s1 + 1) * (s1 + 1) <= s2 * s2) by (nonlinear_arith)
            requires 0 <= s1 + 1 <= s2;
    }
    if s2 < s1 {
        assert((s2 + 1) * (s2 + 1) <= s1 * s1) by (nonlinear_arith)
            requires 0 <= s2 + 1 <= s1;
    }
}

/// For a positive divisor `/` is the floor quotient: `b * (a / b) <= a < b * (a / b) + b`.
pub proof fn lemma_floor_bounds(a: int, b: int)
    requires
        b > 0,
    ensures
        b * (a / b) <= a < b * (a / b) + b,
{
    lemma_fundamental_div_mod(a, b);
    assert(0 <= a % b < b);
}

/// `a / b` for a positive `b`, with `a` of either sign.
pub fn floor_div(a: i128, b: i128) -> (r: i128)
    requires
        b > 0,
        a > i128::MIN,
    ensures
        r == a as int / b as int,
        a >= 0 ==> 0 <= r <= a,
        a < 0 ==> a <= r < 0,
{
    proof {
        lemma_floor_bounds(a as int, b as int);
        let q = a as int / b as int;
        if a >= 0 {
            assert(0 <= q <= a) by (nonlinear_arith)
                requires b * q <= a, a < b * q + b, b >= 1, a >= 0;
        } else {
            assert(a <= q < 0) by (nonlinear_arith)
                requires b * q <= a, a < b * q + b, b >= 1, a < 0;
        }
    }
    if a >= 0 {
        (a as u128 / b as u128) as i128
    } else {
        let m: u128 = (-a) as u128;
        let q: u128 = m / b as u128;
        let rem: u128 = m % b as u128;
        proof {
            lemma_fundamental_div_mod(m as int, b as int);
        }
        if rem == 0 {
            proof {
                assert(a as int == (-(q as int)) * (b as int) + 0) by (nonlinear_arith)
                    requires m as int == b as int * q as int + rem as int, rem == 0, a as int == -(m as int);
                lemma_fundamental_div_mod_converse(a as int, b as int, -(q as int), 0);
            }
            -(q as i128)
        } else {
            proof {
                assert(a as int == (-(q as int) - 1) * (b as int) + (b as int - rem as int)) by (nonlinear_arith)
                    requires m as int == b as int * q as int + rem as int, a as int == -(m as int);
                lemma_fundamental_div_mod_converse(
                    a as int,
                    b as int,
                    -(q as int) - 1,
                    b as int - rem as int,
                );
            }
            -(q as i128) - 1
        }
    }
}

/// Largest `s` with `s * s <= n`, found by bisection.
pub fn isqrt_wide(n: u128) -> (s: u128)
    ensures
        is_isqrt(n as int, s as int),
        s as int == root(n as int),
{
    let mut lo: u128 = 0;
    let mut hi: u128 = 0x1_0000_0000_0000_0000;
    while hi - lo > 1
        invariant
            lo < hi <= 0x1_0000_0000_0000_0000,
            lo * lo <= n,
            n < hi * hi,
        decreases hi - lo,
    {
        let mid: u128 = lo + (hi - lo) / 2;
        assert(mid * mid < 0x1_0000_0000_0000_0000u128 * 0x1_0000_0000_0000_0000u128)
            by (nonlinear_arith)
            requires mid < 0x1_0000_0000_0000_0000u128;
        if mid * mid <= n {
            lo = mid;
        } else {
            hi = mid;
        }
    }
    proof {
        assert(is_isqrt(n as int, lo as int));
        lemma_isqrt_unique(n as int, lo as int, root(n as int));
    }
    lo
}

/// `isqrt_wide` on 64-bit values.
pub fn isqrt(n: u64) -> (s: u64)
    ensures
        is_isqrt(n as int, s as int),
        s as int == root(n as int),
{
    let s = isqrt_wide(n as u128);
    assert(s < 0x1_0000_0000) by (nonlinear_arith)
        requires s * s <= n, n < 0x1_0000_0000_0000_0000, s >= 0;
    s as u64
}

/// Smallest `t >= 0` with `t * t >= c`, for `c >= 0`.
pub open spec fn ceil_root(c: int) -> int {
    if root(c) * root(c) < c {
        root(c) + 1
    } else {
        root(c)
    }
}

/// Smallest `t >= 0` with `nn * t * t >= m`: the length `sqrt(m / nn)`
/// rounded up.
pub open spec fn sep_mag(m: int, nn: int) -> int {
    ceil_root((m + nn - 1) / nn)
}

/// `sep_mag(m, nn)` reaches `sqrt(m / nn)` and is less than one above it.
pub proof fn lemma_sep_mag(m: int, nn: int)
    requires
        m >= 0,
        nn >= 1,
    ensures
        sep_mag(m, nn) >= 0,
        nn * (sep_mag(m, nn) * sep_mag(m, nn)) >= m,
        sep_mag(m, nn) == 0 || nn * ((sep_mag(m, nn) - 1) * (sep_mag(m, nn) - 1)) < m,
        m == 0 ==> sep_mag(m, nn) == 0,
{
    let c = (m + nn - 1) / nn;
    lemma_floor_bounds(m + nn - 1, nn);
    assert(c >= 0) by (nonlinear_arith)
        requires nn * c + nn > m + nn - 1, m >= 0, nn >= 1;
    assert(nn * c >= m) by (nonlinear_arith)
        requires m + nn - 1 < nn * c + nn;
    assert(nn * (c - 1) < m) by (nonlinear_arith)
        requires nn * c <= m + nn - 1;
    lemma_root(c);
    let r = root(c);
    let t = sep_mag(m, nn);
    if r * r < c {
        assert(t == r + 1);
        assert(nn * (t * t) >= m) by (nonlinear_arith)
            requires t * t >= c, nn * c >= m, nn >= 1;
        assert(nn * ((t - 1) * (t - 1)) < m) by (nonlinear_arith)
            requires (t - 1) * (t - 1) <= c - 1, nn * (c - 1) < m, nn >= 1;
    } else {
        assert(t == r && r * r == c);
        assert(nn * (t * t) >= m);
        if t > 0 {
            assert((t - 1) * (t - 1) <= c - 1) by (nonlinear_arith)
                requires t * t == c, t >= 1;
            assert(nn * ((t - 1) * (t - 1)) < m) by (nonlinear_arith)
                requires (t - 1) * (t - 1) <= c - 1, nn * (c - 1) < m, nn >= 1;
        }
    }
    if m == 0 {
        assert(c == 0) by (nonlinear_arith)
            requires nn * c >= 0, nn * (c - 1) < 0, nn >= 1, c >= 0;
        assert(r == 0) by (nonlinear_arith)
            requires r * r <= 0, r >= 0;
    }
}

/// `sep_mag(m, nn)` on machine integers.
pub fn sep_mag_exec(m: u128, nn: u64) -> (t: u128)
    requires
        nn >= 1,
        m <= 0x1000_0000_0000_0000_0000_0000_0000_0000,
    ensures
        t == sep_mag(m as int, nn as int),
{
    let c: u128 = (m + nn as u128 - 1) / nn as u128;
    let r: u128 = isqrt_wide(c);
    proof {
        lemma_floor_bounds(m + nn - 1, nn as int);
        assert(c <= m + nn) by (nonlinear_arith)
            requires nn * c <= m + nn - 1, nn >= 1, c >= 0;
        assert(r <= 0x1_0000_0000_0000_0000) by (nonlinear_arith)
            requires r * r <= c, c <= 0x1000_0000_0000_0000_0000_0000_0000_0000 + 0x1_0000_0000_0000_0000, r >= 0;
    }
    if r * r < c {
        r + 1
    } else {
        r
    }
}

} // verus!
