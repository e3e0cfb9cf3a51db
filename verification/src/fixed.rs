//! Fixed-point scalars and their checked arithmetic.
//!
//! A scalar is an `i64` counting units of `1/SCALE`, so `SCALE` itself stands
//! for `1.0`.  Addition and subtraction are exact; multiplication scales the
//! wide product back down by `SCALE`, rounding the magnitude toward zero.
//! Every executable operation reports a result that would leave the `i64`
//! range as `None` instead of wrapping, and the spec-level counterparts
//! (`cadd`, `csub`, `cmul`) say exactly when that happens.

use vstd::prelude::*;

verus! {

/// Number of fixed-point units in `1.0`.
pub const SCALE: i64 = 1_000_000;

/// Whether a mathematical integer fits in an `i64`.
pub open spec fn in_i64(x: int) -> bool {
    i64::MIN <= x <= i64::MAX
}

/// Magnitude of a mathematical integer.
pub open spec fn absi(x: int) -> int {
    if x < 0 {
        -x
    } else {
        x
    }
}

/// The exact value of a fixed-point product: the magnitudes are multiplied,
/// scaled down by `SCALE` (dropping the remainder), and the sign of the
/// product is restored.  Rounding is therefore toward zero.
pub open spec fn tmul(a: int, b: int) -> int {
    let m: int = absi(a) * absi(b) / (SCALE as int);
    if (a < 0) != (b < 0) {
        -m
    } else {
        m
    }
}

/// Checked fixed-point addition.
pub open spec fn cadd(a: int, b: int) -> Option<int> {
    if in_i64(a + b) {
        Some(a + b)
    } else {
        None
    }
}

/// Checked fixed-point subtraction.
pub open spec fn csub(a: int, b: int) -> Option<int> {
    if in_i64(a - b) {
        Some(a - b)
    } else {
        None
    }
}

/// Checked fixed-point multiplication.
pub open spec fn cmul(a: int, b: int) -> Option<int> {
    if in_i64(tmul(a, b)) {
        Some(tmul(a, b))
    } else {
        None
    }
}

/// Checked addition lifted over operands that may already have failed.
pub open spec fn oadd(a: Option<int>, b: Option<int>) -> Option<int> {
    match (a, b) {
        (Some(x), Some(y)) => cadd(x, y),
        _ => None,
    }
}

/// Checked multiplication lifted over operands that may already have failed.
pub open spec fn omul(a: Option<int>, b: Option<int>) -> Option<int> {
    match (a, b) {
        (Some(x), Some(y)) => cmul(x, y),
        _ => None,
    }
}

/// The mathematical values held by a vector of fixed-point scalars.
pub open spec fn s2i(s: Seq<i64>) -> Seq<int> {
    s.map(|i: int, v: i64| v as int)
}

/// Fixed-point addition; `None` when the sum leaves the `i64` range.
pub fn add_fp(a: i64, b: i64) -> (r: Option<i64>)
    ensures
        r.is_some() == cadd(a as int, b as int).is_some(),
        r matches Some(q) ==> cadd(a as int, b as int) == Some(q as int),
{
    a.checked_add(b)
}

/// Fixed-point subtraction; `None` when the difference leaves the `i64` range.
pub fn sub_fp(a: i64, b: i64) -> (r: Option<i64>)
    ensures
        r.is_some() == csub(a as int, b as int).is_some(),
        r matches Some(q) ==> csub(a as int, b as int) == Some(q as int),
{
    a.checked_sub(b)
}

/// Fixed-point multiplication; `None` when the scaled product leaves the
/// `i64` range.  The wide product is formed over magnitudes so that the
/// division by `SCALE` rounds toward zero.
pub fn mul_fp(a: i64, b: i64) -> (r: Option<i64>)
    ensures
        r.is_some() == cmul(a as int, b as int).is_some(),
        r matches Some(q) ==> cmul(a as int, b as int) == Some(q as int),
{
    let neg: bool = (a < 0) != (b < 0);
    let aa: u128 = if a >= 0 {
        a as u128
    } else {
        (-(a as i128)) as u128
    };
    let bb: u128 = if b >= 0 {
        b as u128
    } else {
        (-(b as i128)) as u128
    };
    proof {
        assert(aa as int == absi(a as int));
        assert(bb as int == absi(b as int));
        assert(aa as int * bb as int <= 0x8000_0000_0000_0000int * 0x8000_0000_0000_0000int)
            by (nonlinear_arith)
            requires
                0 <= aa as int <= 0x8000_0000_0000_0000int,
                0 <= bb as int <= 0x8000_0000_0000_0000int,
        ;
    }
    let p: u128 = aa * bb;
    let q: u128 = p / (SCALE as u128);
    if neg {
        if q > 9_223_372_036_854_775_808u128 {
            None
        } else {
            let v: i64 = (-(q as i128)) as i64;
            Some(v)
        }
    } else {
        if q > i64::MAX as u128 {
            None
        } else {
            Some(q as i64)
        }
    }
}

/// A fresh vector holding the same fixed-point values.
pub fn copy_vec(v: &Vec<i64>) -> (r: Vec<i64>)
    ensures
        r@ == v@,
{
    let mut out: Vec<i64> = Vec::new();
    let mut i: usize = 0;
    while i < v.len()
        invariant
            i <= v@.len(),
            out@ == v@.subrange(0, i as int),
        decreases v@.len() - i,
    {
        out.push(v[i]);
        proof {
            assert(out@ =~= v@.subrange(0, i + 1 as int));
        }
        i = i + 1;
    }
    proof {
        assert(out@ =~= v@);
    }
    out
}

} // verus!
