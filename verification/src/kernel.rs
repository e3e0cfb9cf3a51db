//! Generation of the normalised one-dimensional smoothing kernel.
//!
//! Entry `i` of a kernel of length `size` with spread `sigma` is a bell
//! shape evaluated at the distance of `i` from the centre `size / 2`.  In
//! fixed point the exponential is replaced by the reciprocal of the
//! quadratic Taylor polynomial of the exponential,
//! `shape(t) = 1 / (1 + t + t^2 / 2)` scaled by `SCALE`: it is `1.0` at the
//! centre of the bell, positive, and strictly flattens as the distance or
//! the spread grows, which is all the smoothing step relies on.  The raw
//! entries are then normalised so that the kernel sums to exactly `1.0`:
//! each entry takes its proportional share rounded down, and the rounding
//! deficit is added to the centre entry, which keeps the centre the maximum.

use vstd::arithmetic::div_mod::{
    lemma_div_by_multiple,
    lemma_div_is_ordered,
    lemma_div_is_ordered_by_denominator,
    lemma_div_is_strictly_smaller,
    lemma_div_multiples_vanish,
    lemma_div_pos_is_pos,
    lemma_fundamental_div_mod,
    lemma_mod_bound,
    lemma_mod_multiples_basic,
};
use vstd::arithmetic::mul::{
    lemma_mul_inequality,
    lemma_mul_is_distributive_add,
    lemma_mul_nonnegative,
};
use vstd::prelude::*;

use crate::error::OptError;
use crate::fixed::{absi, SCALE};

verus! {

/// Half of `SCALE`: the fixed-point value `0.5`.
pub const HALF_SCALE: i64 = 500_000;

/// The distance of entry `i` from the kernel's centre, in fixed point:
/// `|i - size/2|` where the centre sits at `size/2` exactly, so the distance
/// is `|2*i - size|` halves.
pub open spec fn half_dist(size: int, i: int) -> int {
    absi(2 * i - size) * (HALF_SCALE as int)
}

/// The distance scaled by the spread: `half_dist / sigma` in fixed point.
pub open spec fn ratio_spec(size: int, sigma: int, i: int) -> int {
    half_dist(size, i) * (SCALE as int) / sigma
}

/// Half the square of the scaled distance, the bell shape's argument.
pub open spec fn tq_spec(size: int, sigma: int, i: int) -> int {
    let r = ratio_spec(size, sigma, i);
    r * r / (2 * (SCALE as int))
}

/// The bell shape: the reciprocal of the quadratic Taylor polynomial of the
/// exponential, `SCALE^2 / (SCALE + t + t^2 / (2*SCALE))`, cut to `0` once
/// the argument reaches `SCALE^2`, where the quotient has dropped below one
/// fixed-point unit anyway.
pub open spec fn shape(t: int) -> int {
    let s = SCALE as int;
    if t >= s * s {
        0
    } else {
        s * s / (s + t + t * t / (2 * s))
    }
}

/// The raw, unnormalised kernel entry `i`.
pub open spec fn raw_entry(size: int, sigma: int, i: int) -> int {
    shape(tq_spec(size, sigma, i))
}

/// The sum of the first `n` raw entries.
pub open spec fn raw_total(size: int, sigma: int, n: int) -> int
    decreases n,
{
    if n <= 0 {
        0
    } else {
        raw_total(size, sigma, n - 1) + raw_entry(size, sigma, n - 1)
    }
}

/// Normalised entry `i` before the rounding deficit is reassigned: the
/// entry's proportional share of `SCALE`, rounded down.
pub open spec fn norm_entry(size: int, sigma: int, i: int) -> int {
    raw_entry(size, sigma, i) * (SCALE as int) / raw_total(size, sigma, size)
}

/// The sum of the first `n` normalised entries.
pub open spec fn norm_sum(size: int, sigma: int, n: int) -> int
    decreases n,
{
    if n <= 0 {
        0
    } else {
        norm_sum(size, sigma, n - 1) + norm_entry(size, sigma, n - 1)
    }
}

/// What rounding the shares down left over from `SCALE`.
pub open spec fn kernel_deficit(size: int, sigma: int) -> int {
    SCALE as int - norm_sum(size, sigma, size)
}

/// The final kernel entry: the rounded share, with the rounding deficit
/// added to the centre entry so the whole kernel sums to exactly `SCALE`.
pub open spec fn kernel_entry(size: int, sigma: int, i: int) -> int {
    if i == size / 2 {
        norm_entry(size, sigma, i) + kernel_deficit(size, sigma)
    } else {
        norm_entry(size, sigma, i)
    }
}

/// The sum of a vector of fixed-point scalars.
pub open spec fn seq_sum(s: Seq<i64>) -> int
    decreases s.len(),
{
    if s.len() == 0 {
        0
    } else {
        seq_sum(s.drop_last()) + s.last()
    }
}

/// The bell shape stays between `0` and `SCALE`.
pub proof fn lemma_shape_bounds(t: int)
    requires
        0 <= t,
    ensures
        0 <= shape(t) <= SCALE as int,
{
    let s = SCALE as int;
    if t < s * s {
        lemma_mul_nonnegative(t, t);
        lemma_div_pos_is_pos(t * t, 2 * s);
        let denom = s + t + t * t / (2 * s);
        assert(denom >= s);
        lemma_div_pos_is_pos(s * s, denom);
        lemma_div_is_ordered_by_denominator(s * s, s, denom);
        lemma_div_by_multiple(s, s);
        assert((s * s) / s == s);
    }
}

/// The bell shape never grows as its argument grows.
pub proof fn lemma_shape_antitone(t1: int, t2: int)
    requires
        0 <= t1 <= t2,
    ensures
        shape(t2) <= shape(t1),
{
    let s = SCALE as int;
    lemma_shape_bounds(t1);
    lemma_shape_bounds(t2);
    if t2 < s * s {
        assert(t1 * t1 <= t2 * t2) by (nonlinear_arith)
            requires
                0 <= t1,
                t1 <= t2,
        ;
        lemma_div_is_ordered(t1 * t1, t2 * t2, 2 * s);
        let d1 = s + t1 + t1 * t1 / (2 * s);
        let d2 = s + t2 + t2 * t2 / (2 * s);
        lemma_mul_nonnegative(t1, t1);
        lemma_div_pos_is_pos(t1 * t1, 2 * s);
        assert(1 <= d1 <= d2);
        lemma_div_is_ordered_by_denominator(s * s, d1, d2);
    }
}

/// The scaled distance and the shape argument are never negative.
pub proof fn lemma_ratio_nonneg(size: int, sigma: int, i: int)
    requires
        1 <= sigma,
    ensures
        0 <= ratio_spec(size, sigma, i),
        0 <= tq_spec(size, sigma, i),
{
    lemma_mul_nonnegative(absi(2 * i - size), HALF_SCALE as int);
    lemma_mul_nonnegative(half_dist(size, i), SCALE as int);
    lemma_div_pos_is_pos(half_dist(size, i) * (SCALE as int), sigma);
    let r = ratio_spec(size, sigma, i);
    lemma_mul_nonnegative(r, r);
    lemma_div_pos_is_pos(r * r, 2 * (SCALE as int));
}

/// Every raw entry lies between `0` and `SCALE`.
pub proof fn lemma_raw_entry_bounds(size: int, sigma: int, i: int)
    requires
        1 <= sigma,
    ensures
        0 <= raw_entry(size, sigma, i) <= SCALE as int,
{
    lemma_ratio_nonneg(size, sigma, i);
    lemma_shape_bounds(tq_spec(size, sigma, i));
}

/// An entry no farther from the centre is no smaller: the bell falls with
/// distance.
pub proof fn lemma_raw_entry_antitone(size: int, sigma: int, i: int, j: int)
    requires
        1 <= sigma,
        half_dist(size, i) <= half_dist(size, j),
    ensures
        raw_entry(size, sigma, j) <= raw_entry(size, sigma, i),
{
    lemma_ratio_nonneg(size, sigma, i);
    lemma_ratio_nonneg(size, sigma, j);
    lemma_mul_inequality(half_dist(size, i), half_dist(size, j), SCALE as int);
    lemma_div_is_ordered(
        half_dist(size, i) * (SCALE as int),
        half_dist(size, j) * (SCALE as int),
        sigma,
    );
    let ri = ratio_spec(size, sigma, i);
    let rj = ratio_spec(size, sigma, j);
    assert(ri * ri <= rj * rj) by (nonlinear_arith)
        requires
            0 <= ri,
            ri <= rj,
    ;
    lemma_div_is_ordered(ri * ri, rj * rj, 2 * (SCALE as int));
    lemma_shape_antitone(tq_spec(size, sigma, i), tq_spec(size, sigma, j));
}

/// No entry is closer to the centre than the centre entry itself.
pub proof fn lemma_center_dist(size: int, i: int)
    requires
        1 <= size,
    ensures
        half_dist(size, size / 2) <= half_dist(size, i),
{
    let c = size / 2;
    lemma_fundamental_div_mod(size, 2);
    lemma_mod_bound(size, 2);
    assert(2 * c - size == -(size % 2));
    assert(absi(2 * c - size) == size % 2);
    if size % 2 == 1 {
        if 2 * i - size == 0 {
            assert(size == i * 2);
            lemma_mod_multiples_basic(i, 2);
            assert(false);
        }
        assert(absi(2 * i - size) >= 1);
    }
    lemma_mul_inequality(absi(2 * c - size), absi(2 * i - size), HALF_SCALE as int);
}

/// A raw total is never negative.
pub proof fn lemma_raw_total_nonneg(size: int, sigma: int, n: int)
    requires
        1 <= sigma,
    ensures
        0 <= raw_total(size, sigma, n),
    decreases n,
{
    if n > 0 {
        lemma_raw_entry_bounds(size, sigma, n - 1);
        lemma_raw_total_nonneg(size, sigma, n - 1);
    }
}

/// The raw totals grow with the number of entries and stay non-negative.
pub proof fn lemma_raw_total_mono(size: int, sigma: int, n1: int, n2: int)
    requires
        1 <= sigma,
        0 <= n1 <= n2,
    ensures
        0 <= raw_total(size, sigma, n1) <= raw_total(size, sigma, n2),
    decreases n2 - n1,
{
    lemma_raw_total_nonneg(size, sigma, n1);
    if n2 > n1 {
        lemma_raw_entry_bounds(size, sigma, n2 - 1);
        lemma_raw_total_mono(size, sigma, n1, n2 - 1);
    }
}

/// Rounding each summand down never beats rounding the sum down.
pub proof fn lemma_div_add_le(a: int, b: int, d: int)
    requires
        0 <= a,
        0 <= b,
        1 <= d,
    ensures
        a / d + b / d <= (a + b) / d,
{
    let qa = a / d;
    let qb = b / d;
    lemma_fundamental_div_mod(a, d);
    lemma_fundamental_div_mod(b, d);
    lemma_mod_bound(a, d);
    lemma_mod_bound(b, d);
    lemma_div_pos_is_pos(a, d);
    lemma_div_pos_is_pos(b, d);
    lemma_mul_is_distributive_add(d, qa, qb);
    assert(d * (qa + qb) <= a + b);
    lemma_div_is_ordered(d * (qa + qb), a + b, d);
    lemma_div_multiples_vanish(qa + qb, d);
}

/// Each normalised entry lies between `0` and `SCALE`.
pub proof fn lemma_norm_entry_bounds(size: int, sigma: int, i: int)
    requires
        1 <= sigma,
        0 <= i < size,
        1 <= raw_total(size, sigma, size),
    ensures
        0 <= norm_entry(size, sigma, i) <= SCALE as int,
{
    let s = SCALE as int;
    let tt = raw_total(size, sigma, size);
    lemma_raw_entry_bounds(size, sigma, i);
    lemma_raw_total_mono(size, sigma, 0, i);
    lemma_raw_total_mono(size, sigma, i + 1, size);
    assert(raw_entry(size, sigma, i) <= tt);
    lemma_mul_nonnegative(raw_entry(size, sigma, i), s);
    lemma_div_pos_is_pos(raw_entry(size, sigma, i) * s, tt);
    lemma_mul_inequality(raw_entry(size, sigma, i), tt, s);
    lemma_div_is_ordered(raw_entry(size, sigma, i) * s, tt * s, tt);
    lemma_div_by_multiple(s, tt);
    assert((s * tt) / tt == s);
    assert(tt * s == s * tt) by (nonlinear_arith);
}

/// The first `n` normalised entries sum to at most their rounded-down joint
/// share, hence to at most `SCALE`.
pub proof fn lemma_norm_sum_le(size: int, sigma: int, n: int)
    requires
        1 <= sigma,
        0 <= n <= size,
        1 <= raw_total(size, sigma, size),
    ensures
        0 <= norm_sum(size, sigma, n),
        norm_sum(size, sigma, n) <= raw_total(size, sigma, n) * (SCALE as int) / raw_total(
            size,
            sigma,
            size,
        ),
        norm_sum(size, sigma, n) <= SCALE as int,
    decreases n,
{
    let s = SCALE as int;
    let tt = raw_total(size, sigma, size);
    if n == 0 {
        lemma_div_pos_is_pos(0, tt);
        assert(raw_total(size, sigma, 0) * s == 0) by (nonlinear_arith)
            requires
                raw_total(size, sigma, 0) == 0,
        ;
    } else {
        lemma_norm_sum_le(size, sigma, n - 1);
        lemma_raw_entry_bounds(size, sigma, n - 1);
        lemma_raw_total_mono(size, sigma, 0, n - 1);
        lemma_mul_nonnegative(raw_entry(size, sigma, n - 1), s);
        lemma_div_pos_is_pos(raw_entry(size, sigma, n - 1) * s, tt);
        lemma_mul_nonnegative(raw_total(size, sigma, n - 1), s);
        lemma_div_add_le(
            raw_total(size, sigma, n - 1) * s,
            raw_entry(size, sigma, n - 1) * s,
            tt,
        );
        lemma_mul_is_distributive_add(
            s,
            raw_total(size, sigma, n - 1),
            raw_entry(size, sigma, n - 1),
        );
        assert(raw_total(size, sigma, n - 1) * s + raw_entry(size, sigma, n - 1) * s
            == raw_total(size, sigma, n) * s) by (nonlinear_arith)
            requires
                raw_total(size, sigma, n) == raw_total(size, sigma, n - 1) + raw_entry(
                    size,
                    sigma,
                    n - 1,
                ),
        ;
    }
    lemma_raw_total_mono(size, sigma, n, size);
    lemma_mul_inequality(raw_total(size, sigma, n), tt, s);
    lemma_div_is_ordered(raw_total(size, sigma, n) * s, tt * s, tt);
    lemma_div_by_multiple(s, tt);
    assert(tt * s == s * tt) by (nonlinear_arith);
}

/// The partial sums of normalised entries grow with the number of entries.
pub proof fn lemma_norm_sum_mono(size: int, sigma: int, n1: int, n2: int)
    requires
        1 <= sigma,
        0 <= n1 <= n2,
        1 <= raw_total(size, sigma, size),
    ensures
        norm_sum(size, sigma, n1) <= norm_sum(size, sigma, n2),
    decreases n2 - n1,
{
    if n2 > n1 {
        let s = SCALE as int;
        lemma_raw_entry_bounds(size, sigma, n2 - 1);
        lemma_mul_nonnegative(raw_entry(size, sigma, n2 - 1), s);
        lemma_div_pos_is_pos(
            raw_entry(size, sigma, n2 - 1) * s,
            raw_total(size, sigma, size),
        );
        lemma_norm_sum_mono(size, sigma, n1, n2 - 1);
    }
}

/// The whole normalised sum covers any single entry.
pub proof fn lemma_norm_sum_ge_entry(size: int, sigma: int, i: int)
    requires
        1 <= sigma,
        0 <= i < size,
        1 <= raw_total(size, sigma, size),
    ensures
        norm_entry(size, sigma, i) <= norm_sum(size, sigma, size),
{
    lemma_norm_sum_le(size, sigma, i);
    assert(norm_sum(size, sigma, i + 1) == norm_sum(size, sigma, i) + norm_entry(size, sigma, i));
    lemma_norm_sum_mono(size, sigma, i + 1, size);
}

/// The centre's normalised share is the largest before the deficit is even
/// added to it.
pub proof fn lemma_norm_center_max(size: int, sigma: int, i: int)
    requires
        1 <= sigma,
        1 <= size,
        0 <= i < size,
        1 <= raw_total(size, sigma, size),
    ensures
        norm_entry(size, sigma, i) <= norm_entry(size, sigma, size / 2),
{
    let s = SCALE as int;
    let tt = raw_total(size, sigma, size);
    lemma_center_dist(size, i);
    lemma_raw_entry_antitone(size, sigma, size / 2, i);
    lemma_mul_inequality(raw_entry(size, sigma, i), raw_entry(size, sigma, size / 2), s);
    lemma_div_is_ordered(
        raw_entry(size, sigma, i) * s,
        raw_entry(size, sigma, size / 2) * s,
        tt,
    );
}

/// Widening the spread never shrinks a raw entry: the bell flattens, every
/// entry climbing toward the centre's value.
pub proof fn lemma_wider_sigma_flattens_entry(size: int, sigma1: int, sigma2: int, i: int)
    requires
        1 <= sigma1 <= sigma2,
    ensures
        raw_entry(size, sigma1, i) <= raw_entry(size, sigma2, i),
{
    lemma_ratio_nonneg(size, sigma1, i);
    lemma_ratio_nonneg(size, sigma2, i);
    lemma_mul_nonnegative(absi(2 * i - size), HALF_SCALE as int);
    lemma_mul_nonnegative(half_dist(size, i), SCALE as int);
    lemma_div_is_ordered_by_denominator(half_dist(size, i) * (SCALE as int), sigma1, sigma2);
    let r1 = ratio_spec(size, sigma1, i);
    let r2 = ratio_spec(size, sigma2, i);
    assert(r2 * r2 <= r1 * r1) by (nonlinear_arith)
        requires
            0 <= r2,
            r2 <= r1,
    ;
    lemma_div_is_ordered(r2 * r2, r1 * r1, 2 * (SCALE as int));
    lemma_shape_antitone(tq_spec(size, sigma2, i), tq_spec(size, sigma1, i));
}

/// Widening the spread never shrinks the raw total mass either.
pub proof fn lemma_wider_sigma_flattens_total(size: int, sigma1: int, sigma2: int, n: int)
    requires
        1 <= sigma1 <= sigma2,
        0 <= n,
    ensures
        raw_total(size, sigma1, n) <= raw_total(size, sigma2, n),
    decreases n,
{
    if n > 0 {
        lemma_wider_sigma_flattens_total(size, sigma1, sigma2, n - 1);
        lemma_wider_sigma_flattens_entry(size, sigma1, sigma2, n - 1);
    }
}

/// At an even size the centre entry sits exactly on the bell's peak, so its
/// raw value is exactly `SCALE` for every spread.
pub proof fn lemma_center_raw_even(size: int, sigma: int)
    requires
        1 <= sigma,
        1 <= size,
        size % 2 == 0,
    ensures
        raw_entry(size, sigma, size / 2) == SCALE as int,
{
    let s = SCALE as int;
    let c = size / 2;
    lemma_fundamental_div_mod(size, 2);
    assert(2 * c - size == 0);
    assert(half_dist(size, c) == 0);
    assert(ratio_spec(size, sigma, c) == 0int / sigma);
    lemma_div_pos_is_pos(0, sigma);
    lemma_div_is_ordered(0, 0, sigma);
    assert(0int / sigma == 0) by {
        lemma_div_multiples_vanish(0, sigma);
    }
    assert(tq_spec(size, sigma, c) == 0int / (2 * s));
    assert(0int / (2 * s) == 0) by {
        lemma_div_multiples_vanish(0, 2 * s);
    }
    assert(0int * 0int == 0) by (nonlinear_arith);
    assert(shape(0) == s * s / s);
    lemma_div_by_multiple(s, s);
}

/// For an even size the centre entry's rounded share never grows as the
/// spread widens: its raw value is pinned at `SCALE` while the total mass
/// grows, so its share of the normalisation shrinks.
pub proof fn lemma_wider_sigma_shrinks_center_share(size: int, sigma1: int, sigma2: int)
    requires
        1 <= sigma1 <= sigma2,
        1 <= size,
        size % 2 == 0,
        1 <= raw_total(size, sigma1, size),
    ensures
        norm_entry(size, sigma2, size / 2) <= norm_entry(size, sigma1, size / 2),
{
    let s = SCALE as int;
    let c = size / 2;
    lemma_center_raw_even(size, sigma1);
    lemma_center_raw_even(size, sigma2);
    lemma_wider_sigma_flattens_total(size, sigma1, sigma2, size);
    lemma_mul_nonnegative(s, s);
    lemma_div_is_ordered_by_denominator(
        s * s,
        raw_total(size, sigma1, size),
        raw_total(size, sigma2, size),
    );
}

/// The sum of a vector whose entries are the rounded shares, with `d` extra
/// on entry `c`, over its first `n` entries.
proof fn lemma_kernel_prefix_sum(s: Seq<i64>, size: int, sigma: int, c: int, d: int, n: int)
    requires
        s.len() == size,
        0 <= c < size,
        0 <= n <= size,
        forall|t: int|
            0 <= t < size && t != c ==> #[trigger] (s[t] as int) == norm_entry(size, sigma, t),
        s[c] as int == norm_entry(size, sigma, c) + d,
    ensures
        seq_sum(s.subrange(0, n)) == norm_sum(size, sigma, n) + if c < n {
            d
        } else {
            0
        },
    decreases n,
{
    if n == 0 {
        assert(s.subrange(0, 0) =~= Seq::<i64>::empty());
    } else {
        lemma_kernel_prefix_sum(s, size, sigma, c, d, n - 1);
        let pre = s.subrange(0, n);
        assert(pre.drop_last() =~= s.subrange(0, n - 1));
        assert(pre.last() == s[n - 1]);
    }
}


/// Computes one raw kernel entry in fixed point.
fn raw_entry_exec(size: usize, sigma: i64, i: usize) -> (e: i64)
    requires
        1 <= size,
        1 <= sigma,
        i < size,
    ensures
        e as int == raw_entry(size as int, sigma as int, i as int),
        0 <= e <= SCALE,
{
    proof {
        lemma_raw_entry_bounds(size as int, sigma as int, i as int);
        lemma_ratio_nonneg(size as int, sigma as int, i as int);
    }
    let two_i: u128 = (i as u128) * 2;
    let sz: u128 = size as u128;
    let d: u128 = if two_i >= sz {
        two_i - sz
    } else {
        sz - two_i
    };
    proof {
        assert(d as int == absi(2 * (i as int) - (size as int)));
    }
    let hd: u128 = d * 500_000u128;
    proof {
        assert(hd as int == half_dist(size as int, i as int));
    }
    let rt: u128 = hd * 1_000_000u128 / (sigma as u128);
    proof {
        assert(rt as int == ratio_spec(size as int, sigma as int, i as int));
    }
    if rt >= 2_000_000_000u128 {
        proof {
            let r = ratio_spec(size as int, sigma as int, i as int);
            assert(r * r >= 4_000_000_000_000_000_000int) by (nonlinear_arith)
                requires
                    r >= 2_000_000_000int,
            ;
            lemma_div_is_ordered(4_000_000_000_000_000_000int, r * r, 2_000_000int);
            lemma_div_by_multiple(2_000_000_000_000int, 2_000_000int);
            assert(tq_spec(size as int, sigma as int, i as int) >= 2_000_000_000_000int);
            assert(raw_entry(size as int, sigma as int, i as int) == 0);
        }
        0i64
    } else {
        proof {
            assert((rt as int) * (rt as int) < 4_000_000_000_000_000_000int) by (nonlinear_arith)
                requires
                    0 <= rt as int,
                    (rt as int) < 2_000_000_000int,
            ;
        }
        let t: u128 = rt * rt / 2_000_000u128;
        proof {
            assert(t as int == tq_spec(size as int, sigma as int, i as int));
        }
        if t >= 1_000_000_000_000u128 {
            proof {
                assert(raw_entry(size as int, sigma as int, i as int) == 0);
            }
            0i64
        } else {
            proof {
                assert((t as int) * (t as int) < 1_000_000_000_000_000_000_000_000int)
                    by (nonlinear_arith)
                    requires
                        0 <= t as int,
                        (t as int) < 1_000_000_000_000int,
                ;
            }
            let denom: u128 = 1_000_000u128 + t + t * t / 2_000_000u128;
            let e128: u128 = 1_000_000_000_000u128 / denom;
            proof {
                let tt = tq_spec(size as int, sigma as int, i as int);
                assert(denom as int == 1_000_000int + tt + tt * tt / 2_000_000int);
                assert(e128 as int == raw_entry(size as int, sigma as int, i as int));
            }
            e128 as i64
        }
    }
}

/// Generates the normalised smoothing kernel of length `size` with spread
/// `sigma` (a positive fixed-point number).
///
/// Rejects `size == 0` and `sigma <= 0` with `InvalidParameter`.  Returns
/// `OutOfRange` exactly when the raw bell mass cannot be normalised: it
/// either exceeds the `i64` range (astronomic sizes) or rounds down to zero
/// (a spread so small that every entry underflows).  On success every entry
/// is `kernel_entry`: the entries are non-negative, sum to exactly `SCALE`,
/// and the entry at `size / 2` is a maximum.
pub fn generate_kernel(size: usize, sigma: i64) -> (r: Result<Vec<i64>, OptError>)
    ensures
        size == 0 || sigma <= 0 ==> r == Err::<Vec<i64>, OptError>(OptError::InvalidParameter),
        size >= 1 && sigma >= 1 ==> {
            let total = raw_total(size as int, sigma as int, size as int);
            &&& (total == 0 || total > i64::MAX ==> r == Err::<Vec<i64>, OptError>(
                OptError::OutOfRange,
            ))
            &&& (1 <= total <= i64::MAX ==> (r matches Ok(k) && k@.len() == size && (forall|
                i: int,
            |
                0 <= i < size ==> k@[i] as int == kernel_entry(size as int, sigma as int, i))))
        },
        r matches Ok(k) ==> k@.len() == size && seq_sum(k@) == SCALE as int && (forall|i: int|
            0 <= i < k@.len() ==> 0 <= #[trigger] k@[i] <= SCALE) && (forall|i: int|
            0 <= i < k@.len() ==> #[trigger] k@[i] <= k@[size as int / 2]),
{
    if size == 0 || sigma <= 0 {
        return Err(OptError::InvalidParameter);
    }
    let mut raw: Vec<i64> = Vec::new();
    let mut total: i64 = 0;
    let mut i: usize = 0;
    while i < size
        invariant
            1 <= size,
            1 <= sigma,
            i <= size,
            raw@.len() == i,
            forall|t: int|
                0 <= t < i ==> raw@[t] as int == raw_entry(size as int, sigma as int, t),
            total as int == raw_total(size as int, sigma as int, i as int),
            0 <= total,
        decreases size - i,
    {
        let e: i64 = raw_entry_exec(size, sigma, i);
        let total2: i64 = match total.checked_add(e) {
            Some(v) => v,
            None => {
                proof {
                    assert(raw_total(size as int, sigma as int, i + 1 as int) > i64::MAX);
                    lemma_raw_total_mono(size as int, sigma as int, i + 1 as int, size as int);
                }
                return Err(OptError::OutOfRange);
            },
        };
        raw.push(e);
        total = total2;
        i = i + 1;
    }
    if total == 0 {
        return Err(OptError::OutOfRange);
    }
    let ghost szi: int = size as int;
    let ghost sgi: int = sigma as int;
    let mut normed: Vec<i64> = Vec::new();
    let mut ksum: i64 = 0;
    let mut j: usize = 0;
    while j < size
        invariant
            1 <= size,
            1 <= sigma,
            j <= size,
            total as int == raw_total(size as int, sigma as int, size as int),
            1 <= total,
            raw@.len() == size,
            forall|t: int|
                0 <= t < size ==> raw@[t] as int == raw_entry(size as int, sigma as int, t),
            normed@.len() == j,
            forall|t: int|
                0 <= t < j ==> normed@[t] as int == norm_entry(size as int, sigma as int, t),
            ksum as int == norm_sum(size as int, sigma as int, j as int),
            0 <= ksum <= SCALE,
        decreases size - j,
    {
        let e: i64 = raw[j];
        proof {
            lemma_raw_entry_bounds(size as int, sigma as int, j as int);
            lemma_norm_entry_bounds(size as int, sigma as int, j as int);
        }
        let k128: u128 = (e as u128) * 1_000_000u128 / (total as u128);
        proof {
            assert(k128 as int == norm_entry(size as int, sigma as int, j as int));
            lemma_norm_sum_le(size as int, sigma as int, j + 1 as int);
        }
        let kv: i64 = k128 as i64;
        let ksum2: i64 = ksum + kv;
        normed.push(kv);
        ksum = ksum2;
        j = j + 1;
    }
    let deficit: i64 = SCALE - ksum;
    let c: usize = size / 2;
    proof {
        lemma_div_is_strictly_smaller(size as int, 2);
        assert(c < size);
        lemma_norm_sum_ge_entry(szi, sgi, c as int);
        assert(norm_entry(szi, sgi, c as int) + deficit as int <= SCALE as int);
    }
    let mut out: Vec<i64> = Vec::new();
    let mut m: usize = 0;
    while m < size
        invariant
            1 <= size,
            1 <= sigma,
            m <= size,
            c < size,
            c as int == size as int / 2,
            total as int == raw_total(size as int, sigma as int, size as int),
            1 <= total,
            normed@.len() == size,
            forall|t: int|
                0 <= t < size ==> normed@[t] as int == norm_entry(size as int, sigma as int, t),
            deficit as int == SCALE as int - norm_sum(size as int, sigma as int, size as int),
            0 <= deficit,
            norm_entry(size as int, sigma as int, c as int) + deficit as int <= SCALE as int,
            out@.len() == m,
            forall|t: int|
                0 <= t < m ==> out@[t] as int == kernel_entry(size as int, sigma as int, t),
        decreases size - m,
    {
        let base: i64 = normed[m];
        proof {
            lemma_norm_entry_bounds(size as int, sigma as int, m as int);
        }
        let v: i64 = if m == c {
            base + deficit
        } else {
            base
        };
        out.push(v);
        m = m + 1;
    }
    proof {
        assert forall|t: int| 0 <= t < szi implies 0 <= #[trigger] out@[t] <= SCALE by {
            lemma_norm_entry_bounds(szi, sgi, t);
        }
        assert forall|t: int| 0 <= t < szi implies #[trigger] out@[t] <= out@[c as int] by {
            lemma_norm_center_max(szi, sgi, t);
            assert(out@[c as int] as int == kernel_entry(szi, sgi, c as int));
        }
        lemma_kernel_prefix_sum(out@, szi, sgi, c as int, deficit as int, szi);
        assert(out@.subrange(0, szi) =~= out@);
    }
    Ok(out)
}

} // verus!
