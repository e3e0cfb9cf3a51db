//! The fixed quadratic objective and its analytic gradient.
//!
//! The objective of the experiment is
//! `f(x) = x0^2 + 2*x1^2 + 3*x2^2 + x0*x1 + x1*x2 + 5`,
//! a closed-form function of exactly three components; its partial
//! derivatives are `2*x0 + x1`, `4*x1 + x0 + x2` and `6*x2 + x1`.  Both
//! functions reject any other input length with `DimensionMismatch`, and all
//! arithmetic is checked fixed-point arithmetic: an intermediate value that
//! leaves the `i64` range surfaces as `OutOfRange`.

use vstd::prelude::*;

use crate::error::OptError;
use crate::fixed::{cmul, oadd, omul, s2i};
use crate::fixed::{add_fp, mul_fp};

verus! {

/// The constant term of the objective, `5.0` in fixed point.
pub const OBJECTIVE_CONSTANT: i64 = 5_000_000;

/// Coefficient `2.0` in fixed point.
pub const TWO_FP: i64 = 2_000_000;

/// Coefficient `3.0` in fixed point.
pub const THREE_FP: i64 = 3_000_000;

/// Coefficient `4.0` in fixed point.
pub const FOUR_FP: i64 = 4_000_000;

/// Coefficient `6.0` in fixed point.
pub const SIX_FP: i64 = 6_000_000;

/// The objective's value on a three-component state, or `None` where some
/// intermediate of the checked evaluation leaves the `i64` range.
pub open spec fn fx_spec(x0: int, x1: int, x2: int) -> Option<int> {
    let sq0 = cmul(x0, x0);
    let t1 = omul(Some(TWO_FP as int), cmul(x1, x1));
    let t2 = omul(Some(THREE_FP as int), cmul(x2, x2));
    let p01 = cmul(x0, x1);
    let p12 = cmul(x1, x2);
    oadd(
        oadd(oadd(oadd(oadd(sq0, t1), t2), p01), p12),
        Some(OBJECTIVE_CONSTANT as int),
    )
}

/// First component of the gradient: `2*x0 + x1`.
pub open spec fn grad0_spec(x0: int, x1: int) -> Option<int> {
    oadd(cmul(TWO_FP as int, x0), Some(x1))
}

/// Second component of the gradient: `4*x1 + x0 + x2`.
pub open spec fn grad1_spec(x0: int, x1: int, x2: int) -> Option<int> {
    oadd(oadd(cmul(FOUR_FP as int, x1), Some(x0)), Some(x2))
}

/// Third component of the gradient: `6*x2 + x1`.
pub open spec fn grad2_spec(x1: int, x2: int) -> Option<int> {
    oadd(cmul(SIX_FP as int, x2), Some(x1))
}

/// The whole gradient on a three-component state, or `None` where some
/// component's checked evaluation leaves the `i64` range.
pub open spec fn grad_spec(x: Seq<int>) -> Option<Seq<int>> {
    let g0 = grad0_spec(x[0], x[1]);
    let g1 = grad1_spec(x[0], x[1], x[2]);
    let g2 = grad2_spec(x[1], x[2]);
    if g0.is_some() && g1.is_some() && g2.is_some() {
        Some(seq![g0.unwrap(), g1.unwrap(), g2.unwrap()])
    } else {
        None
    }
}

/// Evaluates the objective at `x`.
///
/// Returns `DimensionMismatch` unless `x` has exactly three components, and
/// `OutOfRange` exactly when the checked evaluation in `fx_spec` fails.
pub fn f(x: &Vec<i64>) -> (r: Result<i64, OptError>)
    ensures
        x@.len() != 3 ==> r == Err::<i64, OptError>(OptError::DimensionMismatch),
        x@.len() == 3 ==> match fx_spec(x@[0] as int, x@[1] as int, x@[2] as int) {
            Some(v) => r matches Ok(y) && y as int == v,
            None => r == Err::<i64, OptError>(OptError::OutOfRange),
        },
{
    if x.len() != 3 {
        return Err(OptError::DimensionMismatch);
    }
    let sq0: i64 = match mul_fp(x[0], x[0]) {
        Some(v) => v,
        None => {
            return Err(OptError::OutOfRange);
        },
    };
    let sq1: i64 = match mul_fp(x[1], x[1]) {
        Some(v) => v,
        None => {
            return Err(OptError::OutOfRange);
        },
    };
    let t1: i64 = match mul_fp(TWO_FP, sq1) {
        Some(v) => v,
        None => {
            return Err(OptError::OutOfRange);
        },
    };
    let sq2: i64 = match mul_fp(x[2], x[2]) {
        Some(v) => v,
        None => {
            return Err(OptError::OutOfRange);
        },
    };
    let t2: i64 = match mul_fp(THREE_FP, sq2) {
        Some(v) => v,
        None => {
            return Err(OptError::OutOfRange);
        },
    };
    let p01: i64 = match mul_fp(x[0], x[1]) {
        Some(v) => v,
        None => {
            return Err(OptError::OutOfRange);
        },
    };
    let p12: i64 = match mul_fp(x[1], x[2]) {
        Some(v) => v,
        None => {
            return Err(OptError::OutOfRange);
        },
    };
    let s1: i64 = match add_fp(sq0, t1) {
        Some(v) => v,
        None => {
            return Err(OptError::OutOfRange);
        },
    };
    let s2: i64 = match add_fp(s1, t2) {
        Some(v) => v,
        None => {
            return Err(OptError::OutOfRange);
        },
    };
    let s3: i64 = match add_fp(s2, p01) {
        Some(v) => v,
        None => {
            return Err(OptError::OutOfRange);
        },
    };
    let s4: i64 = match add_fp(s3, p12) {
        Some(v) => v,
        None => {
            return Err(OptError::OutOfRange);
        },
    };
    let s5: i64 = match add_fp(s4, OBJECTIVE_CONSTANT) {
        Some(v) => v,
        None => {
            return Err(OptError::OutOfRange);
        },
    };
    Ok(s5)
}

/// Computes the analytic gradient of the objective at `x`.
///
/// Returns `DimensionMismatch` unless `x` has exactly three components, and
/// `OutOfRange` exactly when the checked evaluation in `grad_spec` fails.
pub fn gradient_f(x: &Vec<i64>) -> (r: Result<Vec<i64>, OptError>)
    ensures
        x@.len() != 3 ==> r == Err::<Vec<i64>, OptError>(OptError::DimensionMismatch),
        x@.len() == 3 ==> match grad_spec(s2i(x@)) {
            Some(g) => r matches Ok(v) && s2i(v@) == g,
            None => r == Err::<Vec<i64>, OptError>(OptError::OutOfRange),
        },
{
    if x.len() != 3 {
        return Err(OptError::DimensionMismatch);
    }
    proof {
        assert(s2i(x@)[0] == x@[0] as int);
        assert(s2i(x@)[1] == x@[1] as int);
        assert(s2i(x@)[2] == x@[2] as int);
    }
    let m0: i64 = match mul_fp(TWO_FP, x[0]) {
        Some(v) => v,
        None => {
            return Err(OptError::OutOfRange);
        },
    };
    let g0: i64 = match add_fp(m0, x[1]) {
        Some(v) => v,
        None => {
            return Err(OptError::OutOfRange);
        },
    };
    let m1: i64 = match mul_fp(FOUR_FP, x[1]) {
        Some(v) => v,
        None => {
            return Err(OptError::OutOfRange);
        },
    };
    let a1: i64 = match add_fp(m1, x[0]) {
        Some(v) => v,
        None => {
            return Err(OptError::OutOfRange);
        },
    };
    let g1: i64 = match add_fp(a1, x[2]) {
        Some(v) => v,
        None => {
            return Err(OptError::OutOfRange);
        },
    };
    let m2: i64 = match mul_fp(SIX_FP, x[2]) {
        Some(v) => v,
        None => {
            return Err(OptError::OutOfRange);
        },
    };
    let g2: i64 = match add_fp(m2, x[1]) {
        Some(v) => v,
        None => {
            return Err(OptError::OutOfRange);
        },
    };
    let out: Vec<i64> = vec![g0, g1, g2];
    proof {
        assert(s2i(out@) =~= grad_spec(s2i(x@)).unwrap());
    }
    Ok(out)
}

} // verus!
