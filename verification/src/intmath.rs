//! Integer arithmetic helpers shared by the geometry and combat code:
//! absolute value, sign, a floor square root, and vector scaling (the
//! integer analogue of normalising a direction and scaling it to a fixed
//! length).

use vstd::prelude::*;

verus! {

/// Absolute value of a mathematical integer.
pub open spec fn abs_i(x: int) -> int {
    if x < 0 {
        -x
    } else {
        x
    }
}

/// Sign of a mathematical integer: -1, 0 or 1.
pub open spec fn sign_i(x: int) -> int {
    if x < 0 {
        -1
    } else if x == 0 {
        0
    } else {
        1
    }
}

/// Floor of the square root, defined by counting up from zero.
pub open spec fn sqrt_floor(n: nat) -> nat
    decreases n,
{
    if n == 0 {
        0
    } else {
        let p = sqrt_floor((n - 1) as nat);
        if (p + 1) * (p + 1) <= n {
            (p + 1) as nat
        } else {
            p
        }
    }
}

/// `sqrt_floor(n)` is the unique `r` with `r * r <= n < (r + 1) * (r + 1)`.
pub proof fn lemma_sqrt_floor(n: nat)
    ensures
        sqrt_floor(n) * sqrt_floor(n) <= n,
        n < (sqrt_floor(n) + 1) * (sqrt_floor(n) + 1),
    decreases n,
{
    if n == 0 {
        assert(sqrt_floor(n) == 0);
        assert(n < (sqrt_floor(n) + 1) * (sqrt_floor(n) + 1)) by (nonlinear_arith)
            requires
                n == 0,
                sqrt_floor(n) == 0,
        ;
    } else {
        let p = sqrt_floor((n - 1) as nat);
        lemma_sqrt_floor((n - 1) as nat);
        assert(sqrt_floor(n) == if (p + 1) * (p + 1) <= n {
            (p + 1) as nat
        } else {
            p
        });
        if (p + 1) * (p + 1) <= n {
            assert(sqrt_floor(n) == p + 1);
            assert(n <= (p + 1) * (p + 1));
            assert((p + 1) * (p + 1) < (p + 2) * (p + 2)) by (nonlinear_arith)
                requires
                    p >= 0,
            ;
            assert(n < (sqrt_floor(n) + 1) * (sqrt_floor(n) + 1));
        } else {
            assert(sqrt_floor(n) == p);
            assert(sqrt_floor(n) * sqrt_floor(n) <= n);
            assert(n < (sqrt_floor(n) + 1) * (sqrt_floor(n) + 1));
        }
    }
}

/// Any `r` in the square-root window equals `sqrt_floor(n)`.
pub proof fn lemma_sqrt_floor_unique(n: nat, r: nat)
    requires
        r * r <= n,
        n < (r + 1) * (r + 1),
    ensures
        r == sqrt_floor(n),
{
    let s = sqrt_floor(n);
    lemma_sqrt_floor(n);
    if r < s {
        assert((r + 1) * (r + 1) <= s * s) by (nonlinear_arith)
            requires
                r + 1 <= s,
        ;
    }
    if s < r {
        assert((s + 1) * (s + 1) <= r * r) by (nonlinear_arith)
            requires
                s + 1 <= r,
        ;
    }
}

/// Floor square root, by binary search.
pub fn isqrt(n: u128) -> (r: u64)
    requires
        n < (1u128 << 126),
    ensures
        r == sqrt_floor(n as nat),
        r * r <= n,
{
    let mut lo: u128 = 0;
    let mut hi: u128 = 1u128 << 63;
    proof {
        assert((1u128 << 63) * (1u128 << 63) == (1u128 << 126)) by (bit_vector);
        assert((1u128 << 63) > 1u128) by (bit_vector);
        assert((1u128 << 126) < u128::MAX) by (bit_vector);
    }
    while lo + 1 < hi
        invariant
            lo < hi <= (1u128 << 63),
            lo * lo <= n,
            n < hi * hi,
            n < (1u128 << 126),
            (1u128 << 63) * (1u128 << 63) == (1u128 << 126),
        decreases hi - lo,
    {
        let mid = lo + (hi - lo) / 2;
        assert(lo < mid < hi);
        assert(mid * mid <= (1u128 << 63) * (1u128 << 63)) by (nonlinear_arith)
            requires
                0 <= mid <= (1u128 << 63),
        ;
        if mid * mid <= n {
            lo = mid;
        } else {
            hi = mid;
        }
    }
    proof {
        assert(lo * lo <= n < (lo + 1) * (lo + 1));
        lemma_sqrt_floor_unique(n as nat, lo as nat);
        assert(lo <= 1u128 << 63);
        assert((1u128 << 63) <= u64::MAX as u128) by (bit_vector);
    }
    lo as u64
}

/// One component of scaling the vector `(num, other)` to length `dist`:
/// the floor of the true normalised-and-scaled component,
/// `⌊√(num² · dist² / (num² + other²))⌋` with the component's sign. The
/// rounding sits outside the division, so the result never exceeds the
/// true value and the scaled vector's magnitude never exceeds `dist`.
/// A zero vector scales to zero.
pub open spec fn norm_scale(num: int, other: int, dist: nat) -> int {
    let sq = num * num + other * other;
    if sq == 0 {
        0
    } else {
        sign_i(num) * (sqrt_floor((num * num * (dist * dist) / sq) as nat) as int)
    }
}

/// A component never exceeds the target length in magnitude.
pub proof fn lemma_norm_scale_bound(num: int, other: int, dist: nat)
    ensures
        abs_i(norm_scale(num, other, dist)) <= dist,
        num == 0 ==> norm_scale(num, other, dist) == 0,
{
    let sq = num * num + other * other;
    assert(num * num >= 0 && other * other >= 0) by (nonlinear_arith);
    if sq != 0 {
        let q = num * num * (dist * dist) / sq;
        assert(num * num * (dist * dist) <= sq * (dist * dist)) by (nonlinear_arith)
            requires
                0 <= num * num <= sq,
                0 <= dist,
        ;
        assert(dist * dist >= 0) by (nonlinear_arith);
        vstd::arithmetic::div_mod::lemma_div_is_ordered(
            num * num * (dist * dist),
            sq * (dist * dist),
            sq,
        );
        vstd::arithmetic::div_mod::lemma_div_multiples_vanish((dist * dist) as int, sq);
        assert(sq * (dist * dist) / sq == dist * dist);
        vstd::arithmetic::div_mod::lemma_div_pos_is_pos(num * num * (dist * dist), sq);
        let m = sqrt_floor(q as nat);
        lemma_sqrt_floor(q as nat);
        assert(m <= dist) by {
            if m > dist {
                assert((dist + 1) * (dist + 1) <= m * m) by (nonlinear_arith)
                    requires
                        dist + 1 <= m,
                ;
                assert(dist * dist < (dist + 1) * (dist + 1)) by (nonlinear_arith)
                    requires
                        dist >= 0,
                ;
            }
        }
        assert(abs_i(sign_i(num) * (m as int)) <= dist) by (nonlinear_arith)
            requires
                0 <= m <= dist,
                sign_i(num) == 1 || sign_i(num) == 0 || sign_i(num) == -1,
        ;
        if num == 0 {
            assert(q == 0) by {
                vstd::arithmetic::div_mod::lemma_div_multiples_vanish(0int, sq);
                assert(num * num * (dist * dist) == 0);
            }
        }
    }
}

/// Magnitude of `x` as a `u128`.
fn abs_u128(x: i64) -> (r: u128)
    ensures
        r == abs_i(x as int),
{
    if x < 0 {
        (-(x as i128)) as u128
    } else {
        x as u128
    }
}

/// Scale the vector `(dx, dy)` to length `dist`: each component is the
/// floor of the true normalised-and-scaled component, so the result
/// points along `(dx, dy)` with magnitude within rounding of `dist`,
/// never more. A zero vector stays zero.
pub fn scale_vec(dx: i64, dy: i64, dist: u64) -> (r: (i64, i64))
    requires
        -(1i64 << 61) <= dx <= (1i64 << 61),
        -(1i64 << 61) <= dy <= (1i64 << 61),
        dist <= (1u64 << 22),
        abs_i(dx as int) * dist <= (1i64 << 62),
        abs_i(dy as int) * dist <= (1i64 << 62),
    ensures
        r.0 == norm_scale(dx as int, dy as int, dist as nat),
        r.1 == norm_scale(dy as int, dx as int, dist as nat),
        abs_i(r.0 as int) <= dist,
        abs_i(r.1 as int) <= dist,
{
    let ax = abs_u128(dx);
    let ay = abs_u128(dy);
    proof {
        assert((1i64 << 61) == 0x2000000000000000i64) by (bit_vector);
        assert((1i64 << 62) == 0x4000000000000000i64) by (bit_vector);
        assert((1u128 << 126) == 0x40000000000000000000000000000000u128) by (bit_vector);
        assert(ax * ax == (dx as int) * (dx as int)) by (nonlinear_arith)
            requires
                ax == dx as int || ax == -(dx as int),
        ;
        assert(ay * ay == (dy as int) * (dy as int)) by (nonlinear_arith)
            requires
                ay == dy as int || ay == -(dy as int),
        ;
        assert(ax * ax + ay * ay <= 0x2000000000000000u128 * 0x2000000000000000u128
            + 0x2000000000000000u128 * 0x2000000000000000u128) by (nonlinear_arith)
            requires
                0 <= ax <= 0x2000000000000000,
                0 <= ay <= 0x2000000000000000,
        ;
    }
    let sq = ax * ax + ay * ay;
    if sq == 0 {
        proof {
            lemma_norm_scale_bound(dx as int, dy as int, dist as nat);
            lemma_norm_scale_bound(dy as int, dx as int, dist as nat);
        }
        (0i64, 0i64)
    } else {
        proof {
            assert(ax * (dist as u128) <= 0x4000000000000000u128 && ay * (dist as u128)
                <= 0x4000000000000000u128);
            assert(0x4000000000000000u128 * 0x4000000000000000u128 < (1u128 << 126))
                by (bit_vector);
        }
        let px = ax * (dist as u128);
        let py = ay * (dist as u128);
        proof {
            assert(px * px <= 0x4000000000000000u128 * 0x4000000000000000u128) by (nonlinear_arith)
                requires
                    0 <= px <= 0x4000000000000000u128,
            ;
            assert(py * py <= 0x4000000000000000u128 * 0x4000000000000000u128) by (nonlinear_arith)
                requires
                    0 <= py <= 0x4000000000000000u128,
            ;
            vstd::arithmetic::div_mod::lemma_div_is_ordered(
                px * px,
                0x4000000000000000u128 * 0x4000000000000000u128 as int,
                sq as int,
            );
            vstd::arithmetic::div_mod::lemma_div_is_ordered(
                py * py,
                0x4000000000000000u128 * 0x4000000000000000u128 as int,
                sq as int,
            );
            vstd::arithmetic::div_mod::lemma_div_is_ordered_by_denominator(
                0x4000000000000000u128 * 0x4000000000000000u128 as int,
                1,
                sq as int,
            );
            vstd::arithmetic::div_mod::lemma_div_pos_is_pos(px * px, sq as int);
            vstd::arithmetic::div_mod::lemma_div_pos_is_pos(py * py, sq as int);
        }
        let qx = (px * px) / sq;
        let qy = (py * py) / sq;
        proof {
            // the computed quotients are the spec's quotients
            assert(px * px == ax * ax * ((dist as int) * (dist as int))) by (nonlinear_arith)
                requires
                    px == ax * (dist as int),
            ;
            assert(py * py == ay * ay * ((dist as int) * (dist as int))) by (nonlinear_arith)
                requires
                    py == ay * (dist as int),
            ;
            assert(qx == (dx as int) * (dx as int) * ((dist as int) * (dist as int)) / ((
            dx as int) * (dx as int) + (dy as int) * (dy as int)));
            assert(qy == (dy as int) * (dy as int) * ((dist as int) * (dist as int)) / ((
            dx as int) * (dx as int) + (dy as int) * (dy as int)));
            lemma_norm_scale_bound(dx as int, dy as int, dist as nat);
            lemma_norm_scale_bound(dy as int, dx as int, dist as nat);
        }
        let mx = isqrt(qx);
        let my = isqrt(qy);
        proof {
            // each root is the magnitude of the spec's component
            if dx == 0 {
                assert(ax == 0);
                assert(px == 0) by (nonlinear_arith)
                    requires
                        px == ax * (dist as int),
                        ax == 0,
                ;
                assert(px * px == 0) by (nonlinear_arith)
                    requires
                        px == 0,
                ;
                assert(qx == 0) by {
                    vstd::arithmetic::div_mod::lemma_div_multiples_vanish(0int, sq as int);
                    assert((sq as int) * 0 == 0);
                }
                assert(mx == 0);
            } else {
                assert(abs_i(norm_scale(dx as int, dy as int, dist as nat)) == mx)
                    by (nonlinear_arith)
                    requires
                        norm_scale(dx as int, dy as int, dist as nat) == sign_i(dx as int) * (
                        mx as int),
                        sign_i(dx as int) == 1 || sign_i(dx as int) == -1,
                        mx >= 0,
                ;
            }
            if dy == 0 {
                assert(ay == 0);
                assert(py == 0) by (nonlinear_arith)
                    requires
                        py == ay * (dist as int),
                        ay == 0,
                ;
                assert(py * py == 0) by (nonlinear_arith)
                    requires
                        py == 0,
                ;
                assert(qy == 0) by {
                    vstd::arithmetic::div_mod::lemma_div_multiples_vanish(0int, sq as int);
                    assert((sq as int) * 0 == 0);
                }
                assert(my == 0);
            } else {
                assert(abs_i(norm_scale(dy as int, dx as int, dist as nat)) == my)
                    by (nonlinear_arith)
                    requires
                        norm_scale(dy as int, dx as int, dist as nat) == sign_i(dy as int) * (
                        my as int),
                        sign_i(dy as int) == 1 || sign_i(dy as int) == -1,
                        my >= 0,
                ;
            }
            assert(mx <= dist && my <= dist);
            assert((1u64 << 22) == 0x400000u64) by (bit_vector);
        }
        let sx: i64 = if dx < 0 {
            -(mx as i64)
        } else if dx == 0 {
            0
        } else {
            mx as i64
        };
        let sy: i64 = if dy < 0 {
            -(my as i64)
        } else if dy == 0 {
            0
        } else {
            my as i64
        };
        proof {
            assert(sx as int == sign_i(dx as int) * (mx as int)) by (nonlinear_arith)
                requires
                    sx as int == (if dx < 0 {
                        -(mx as int)
                    } else if dx == 0 {
                        0int
                    } else {
                        mx as int
                    }),
                    mx >= 0,
            ;
            assert(sy as int == sign_i(dy as int) * (my as int)) by (nonlinear_arith)
                requires
                    sy as int == (if dy < 0 {
                        -(my as int)
                    } else if dy == 0 {
                        0int
                    } else {
                        my as int
                    }),
                    my >= 0,
            ;
            assert(abs_i(sx as int) <= dist && abs_i(sy as int) <= dist);
        }
        (sx, sy)
    }
}

} // verus!
