use vstd::prelude::*;

use vstd::arithmetic::div_mod::lemma_div_basics;

verus! {

/// Fixed-point scale: values carry 32 fractional bits.
pub open spec fn fx_one() -> int {
    0x1_0000_0000
}

/// A quarter turn in fixed-point radians: the largest integer not above
/// pi/2 times the scale.
pub open spec fn fx_half_pi() -> int {
    0x1_921F_B544
}

/// Tail of the cosine series in fixed point, from term index `k` on:
/// the series 1 - a^2/2! + a^4/4! - ... evaluated with truncating
/// fixed-point steps, twelve terms deep. `term` is the magnitude of the
/// previous term, `a2` the squared angle.
pub open spec fn spec_cos_tail(a2: int, term: int, k: int) -> int
    decreases 13 - k,
{
    if k < 1 || k > 12 {
        0
    } else {
        let t = ((term * a2) / fx_one()) / ((2 * k - 1) * (2 * k));
        (if k % 2 == 1 {
            -t
        } else {
            t
        }) + spec_cos_tail(a2, t, k + 1)
    }
}

/// Cosine of an angle in `[0, pi/2)`, in fixed point, clamped to `[0, 1]`.
pub open spec fn spec_cos_quarter(a: int) -> int {
    let a2 = (a * a) / fx_one();
    let c = fx_one() + spec_cos_tail(a2, fx_one(), 1);
    if c < 0 {
        0
    } else if c > fx_one() {
        fx_one()
    } else {
        c
    }
}

/// Tail of the sine series in fixed point, from term index `k` on: the
/// series a - a^3/3! + a^5/5! - ... evaluated with truncating fixed-point
/// steps, twelve terms deep.
pub open spec fn spec_sin_tail(a2: int, term: int, k: int) -> int
    decreases 13 - k,
{
    if k < 1 || k > 12 {
        0
    } else {
        let t = ((term * a2) / fx_one()) / ((2 * k) * (2 * k + 1));
        (if k % 2 == 1 {
            -t
        } else {
            t
        }) + spec_sin_tail(a2, t, k + 1)
    }
}

/// Sine of an angle in `[0, pi/2)`, in fixed point, clamped to `[0, 1]`.
pub open spec fn spec_sin_quarter(a: int) -> int {
    let a2 = (a * a) / fx_one();
    let s = a + spec_sin_tail(a2, a, 1);
    if s < 0 {
        0
    } else if s > fx_one() {
        fx_one()
    } else {
        s
    }
}

/// The quadrant of ray `i` of `n` equally spaced rays over a full turn.
pub open spec fn spec_quadrant(i: int, n: int) -> int {
    (4 * i) / n
}

/// The within-quadrant angle of ray `i` of `n`, in fixed-point radians.
pub open spec fn spec_angle_q(i: int, n: int) -> int {
    (fx_half_pi() * ((4 * i) % n)) / n
}

/// Fixed-point cosine of the angle of ray `i` of `n`, in `[-1, 1]`.
pub open spec fn spec_cos_ray(i: int, n: int) -> int {
    let q = spec_quadrant(i, n);
    let a = spec_angle_q(i, n);
    if q == 0 {
        spec_cos_quarter(a)
    } else if q == 1 {
        -spec_sin_quarter(a)
    } else if q == 2 {
        -spec_cos_quarter(a)
    } else {
        spec_sin_quarter(a)
    }
}

/// Fixed-point sine of the angle of ray `i` of `n`, in `[-1, 1]`.
pub open spec fn spec_sin_ray(i: int, n: int) -> int {
    let q = spec_quadrant(i, n);
    let a = spec_angle_q(i, n);
    if q == 0 {
        spec_sin_quarter(a)
    } else if q == 1 {
        spec_cos_quarter(a)
    } else if q == 2 {
        -spec_sin_quarter(a)
    } else {
        -spec_cos_quarter(a)
    }
}

/// `len` scaled by a fixed-point factor in `[-1, 1]`, rounded to the
/// nearest integer, halves away from zero.
pub open spec fn spec_round_scaled(len: int, c: int) -> int {
    if c >= 0 {
        (len * c + fx_one() / 2) / fx_one()
    } else {
        -((len * (-c) + fx_one() / 2) / fx_one())
    }
}

/// The cell offset of ray `i` of `n` equally spaced rays at distance
/// `len`: the rounded projections of the ray onto the two axes.
pub open spec fn spec_ray_offset(i: int, n: int, len: int) -> (int, int) {
    (spec_round_scaled(len, spec_cos_ray(i, n)), spec_round_scaled(len, spec_sin_ray(i, n)))
}

fn cos_tail(a2: u64, term: u64, k: u64) -> (r: i128)
    requires
        1 <= k <= 13,
        a2 <= 0x2_8000_0000,
        k == 1 ==> term <= 0x1_0000_0000,
        k >= 2 ==> term <= 0x2_0000_0000,
    ensures
        r == spec_cos_tail(a2 as int, term as int, k as int),
        -40 * (13 - k as int) * 0x1_0000_0000 <= r <= 40 * (13 - k as int) * 0x1_0000_0000,
    decreases 13 - k,
{
    if k > 12 {
        0
    } else {
        proof {
            assert((term as int) * (a2 as int) <= 0x5_0000_0000 * 0x1_0000_0000)
                by (nonlinear_arith)
                requires
                    0 <= term as int <= 0x2_0000_0000,
                    0 <= a2 as int <= 0x2_8000_0000,
            {
            }
            assert(2 <= (2 * (k as int) - 1) * (2 * (k as int)) <= 600) by (nonlinear_arith)
                requires
                    1 <= k as int <= 12,
            {
            }
        }
        let prod: u128 = (term as u128) * (a2 as u128);
        let scaled: u128 = prod / 0x1_0000_0000;
        let div: u64 = (2 * k - 1) * (2 * k);
        let t128: u128 = scaled / (div as u128);
        proof {
            if k == 1 {
                assert((term as int) * (a2 as int) <= 0x2_8000_0000 * 0x1_0000_0000)
                    by (nonlinear_arith)
                    requires
                        0 <= term as int <= 0x1_0000_0000,
                        0 <= a2 as int <= 0x2_8000_0000,
                {
                }
                assert(t128 <= 0x2_0000_0000) by (nonlinear_arith)
                    requires
                        t128 == (scaled as int) / (div as int),
                        0 <= scaled as int <= 0x2_8000_0000,
                        div as int >= 2,
                {
                }
            } else {
                assert(div as int >= 12) by (nonlinear_arith)
                    requires
                        2 <= k as int <= 12,
                        div as int == (2 * (k as int) - 1) * (2 * (k as int)),
                {
                }
                assert(t128 <= 0x2_0000_0000) by (nonlinear_arith)
                    requires
                        t128 == (scaled as int) / (div as int),
                        0 <= scaled as int <= 0x5_0000_0000,
                        div as int >= 12,
                {
                }
            }
        }
        let t: u64 = t128 as u64;
        let rest = cos_tail(a2, t, k + 1);
        let signed: i128 = if k % 2 == 1 {
            -(t as i128)
        } else {
            t as i128
        };
        signed + rest
    }
}

fn sin_tail(a2: u64, term: u64, k: u64) -> (r: i128)
    requires
        1 <= k <= 13,
        a2 <= 0x2_8000_0000,
        term <= 0x2_0000_0000,
    ensures
        r == spec_sin_tail(a2 as int, term as int, k as int),
        -40 * (13 - k as int) * 0x1_0000_0000 <= r <= 40 * (13 - k as int) * 0x1_0000_0000,
    decreases 13 - k,
{
    if k > 12 {
        0
    } else {
        proof {
            assert((term as int) * (a2 as int) <= 0x5_0000_0000 * 0x1_0000_0000)
                by (nonlinear_arith)
                requires
                    0 <= term as int <= 0x2_0000_0000,
                    0 <= a2 as int <= 0x2_8000_0000,
            {
            }
            assert(6 <= (2 * (k as int)) * (2 * (k as int) + 1) <= 650) by (nonlinear_arith)
                requires
                    1 <= k as int <= 12,
            {
            }
        }
        let prod: u128 = (term as u128) * (a2 as u128);
        let scaled: u128 = prod / 0x1_0000_0000;
        let div: u64 = (2 * k) * (2 * k + 1);
        let t128: u128 = scaled / (div as u128);
        proof {
            assert(t128 <= 0x2_0000_0000) by (nonlinear_arith)
                requires
                    t128 == (scaled as int) / (div as int),
                    0 <= scaled as int <= 0x5_0000_0000,
                    div as int >= 6,
            {
            }
        }
        let t: u64 = t128 as u64;
        let rest = sin_tail(a2, t, k + 1);
        let signed: i128 = if k % 2 == 1 {
            -(t as i128)
        } else {
            t as i128
        };
        signed + rest
    }
}

/// Cosine over the first quadrant, clamped into `[0, 1]` in fixed point.
fn cos_quarter(a: u64) -> (r: u64)
    requires
        a <= 0x1_921F_B544,
    ensures
        r == spec_cos_quarter(a as int),
        r <= 0x1_0000_0000,
{
    proof {
        assert((a as int) * (a as int) <= 0x1_921F_B544 * 0x1_921F_B544) by (nonlinear_arith)
            requires
                0 <= a as int <= 0x1_921F_B544,
        {
        }
    }
    let asq: u128 = (a as u128) * (a as u128);
    let a2: u64 = (asq / 0x1_0000_0000) as u64;
    let tail = cos_tail(a2, 0x1_0000_0000, 1);
    let c: i128 = 0x1_0000_0000i128 + tail;
    if c < 0 {
        0
    } else if c > 0x1_0000_0000 {
        0x1_0000_0000
    } else {
        c as u64
    }
}

/// Sine over the first quadrant, clamped into `[0, 1]` in fixed point.
fn sin_quarter(a: u64) -> (r: u64)
    requires
        a <= 0x1_921F_B544,
    ensures
        r == spec_sin_quarter(a as int),
        r <= 0x1_0000_0000,
{
    proof {
        assert((a as int) * (a as int) <= 0x1_921F_B544 * 0x1_921F_B544) by (nonlinear_arith)
            requires
                0 <= a as int <= 0x1_921F_B544,
        {
        }
    }
    let asq: u128 = (a as u128) * (a as u128);
    let a2: u64 = (asq / 0x1_0000_0000) as u64;
    let tail = sin_tail(a2, a, 1);
    let s: i128 = (a as i128) + tail;
    if s < 0 {
        0
    } else if s > 0x1_0000_0000 {
        0x1_0000_0000
    } else {
        s as u64
    }
}

/// With a zero angle the series tails vanish.
proof fn lemma_tails_zero(term: u64, k: u64)
    requires
        1 <= k <= 13,
    ensures
        spec_cos_tail(0, 0, k as int) == 0,
        spec_sin_tail(0, 0, k as int) == 0,
        spec_cos_tail(0, term as int, k as int) == 0,
        spec_sin_tail(0, term as int, k as int) == 0,
    decreases 13 - k,
{
    if k <= 12 {
        lemma_tails_zero(term, (k + 1) as u64);
        assert((2 * (k as int) - 1) * (2 * (k as int)) > 0) by (nonlinear_arith)
            requires
                1 <= k as int <= 12,
        {
        }
        assert((2 * (k as int)) * (2 * (k as int) + 1) > 0) by (nonlinear_arith)
            requires
                1 <= k as int <= 12,
        {
        }
        lemma_div_basics((2 * (k as int) - 1) * (2 * (k as int)));
        lemma_div_basics((2 * (k as int)) * (2 * (k as int) + 1));
        lemma_div_basics(fx_one());
        assert(((term as int) * 0) / fx_one() == 0);
        assert((0int * 0) / fx_one() == 0);
    }
}

/// `len` scaled by a clamped fixed-point factor, rounded half away from
/// zero; the result never exceeds `len` in magnitude.
fn round_scaled(len: usize, c: i128) -> (r: i64)
    requires
        -0x1_0000_0000 <= c <= 0x1_0000_0000,
        len <= 0x1000_0000,
    ensures
        r == spec_round_scaled(len as int, c as int),
        -(len as int) <= r <= len as int,
{
    let mag: u128 = if c >= 0 {
        c as u128
    } else {
        (-c) as u128
    };
    proof {
        assert((len as int) * (mag as int) <= 0x1000_0000 * 0x1_0000_0000) by (nonlinear_arith)
            requires
                0 <= len as int <= 0x1000_0000,
                0 <= mag as int <= 0x1_0000_0000,
        {
        }
    }
    let scaled: u128 = ((len as u128) * mag + 0x8000_0000) / 0x1_0000_0000;
    proof {
        assert(scaled as int <= len as int) by (nonlinear_arith)
            requires
                scaled as int == ((len as int) * (mag as int) + 0x8000_0000) / 0x1_0000_0000,
                0 <= mag as int <= 0x1_0000_0000,
                0 <= len as int,
        {
        }
    }
    let m: i64 = scaled as i64;
    if c >= 0 {
        m
    } else {
        -m
    }
}

/// The cell offset of ray `i` of `n` equally spaced rays at distance
/// `len`, per `spec_ray_offset`. On the four axis-aligned rays — where
/// four times `i` is a multiple of `n` — the offset is exact.
pub fn ray_offset(i: usize, n: usize, len: usize) -> (d: (i64, i64))
    requires
        1 <= n <= 0x1_0000_0000,
        i < n,
        len <= 0x1000_0000,
    ensures
        (d.0 as int, d.1 as int) == spec_ray_offset(i as int, n as int, len as int),
        -(len as int) <= d.0 <= len as int,
        -(len as int) <= d.1 <= len as int,
        (4 * (i as int)) % (n as int) == 0 && (4 * (i as int)) / (n as int) == 0 ==> d.0
            == len as int && d.1 == 0,
        (4 * (i as int)) % (n as int) == 0 && (4 * (i as int)) / (n as int) == 1 ==> d.0 == 0
            && d.1 == len as int,
        (4 * (i as int)) % (n as int) == 0 && (4 * (i as int)) / (n as int) == 2 ==> d.0
            == -(len as int) && d.1 == 0,
        (4 * (i as int)) % (n as int) == 0 && (4 * (i as int)) / (n as int) == 3 ==> d.0 == 0
            && d.1 == -(len as int),
{
    let four_i: u64 = 4 * (i as u64);
    let m: u64 = four_i % (n as u64);
    let q: u64 = four_i / (n as u64);
    proof {
        assert(q <= 3) by (nonlinear_arith)
            requires
                q == (4 * (i as int)) / (n as int),
                0 <= i as int,
                (i as int) < n as int,
                1 <= n as int,
        {
        }
    }
    let a128: u128 = (0x1_921F_B544u128 * (m as u128)) / (n as u128);
    proof {
        assert(a128 <= 0x1_921F_B544u128) by (nonlinear_arith)
            requires
                a128 == (0x1_921F_B544 * (m as int)) / (n as int),
                (m as int) < (n as int),
                1 <= (n as int),
        {
        }
    }
    let a: u64 = a128 as u64;
    let cq = cos_quarter(a);
    let sq = sin_quarter(a);
    proof {
        if m == 0 {
            assert(a == 0);
            lemma_tails_zero(0, 1);
            lemma_tails_zero(0x1_0000_0000u64, 1);
            lemma_div_basics(fx_one());
            assert((0int * 0) / fx_one() == 0);
            assert(spec_cos_quarter(0) == 0x1_0000_0000);
            assert(spec_sin_quarter(0) == 0);
        }
    }
    let (c, s): (i128, i128) = if q == 0 {
        (cq as i128, sq as i128)
    } else if q == 1 {
        (-(sq as i128), cq as i128)
    } else if q == 2 {
        (-(cq as i128), -(sq as i128))
    } else {
        (sq as i128, -(cq as i128))
    };
    let d0 = round_scaled(len, c);
    let d1 = round_scaled(len, s);
    proof {
        if m == 0 {
            assert(((len as int) * 0x1_0000_0000 + 0x8000_0000) / 0x1_0000_0000 == len as int)
                by (nonlinear_arith)
                requires
                    0 <= len as int,
            {
            }
            assert(spec_round_scaled(len as int, 0x1_0000_0000) == len as int);
            assert(spec_round_scaled(len as int, -0x1_0000_0000) == -(len as int));
            assert(spec_round_scaled(len as int, 0) == 0);
        }
    }
    (d0, d1)
}

} // verus!
