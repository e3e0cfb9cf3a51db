//! The weight-update rule and the optimisation loop.
//!
//! One iteration, in order: compute the weight gradient (the state gradient,
//! smoothed by the kernel, scaled per coordinate by the current weight),
//! descend the weights by it, recompute the state gradient, smooth it with
//! the kernel, subtract the smoothed gradient from the state, and record the
//! iteration index, a snapshot of the weights and the objective value at the
//! new state.  The loop runs a fixed number of iterations; the first failure
//! of any step aborts the whole run.

use vstd::prelude::*;

use crate::conv::{conv_full, convolve};
use crate::error::OptError;
use crate::fixed::{cmul, csub, s2i};
use crate::fixed::{copy_vec, mul_fp, sub_fp};
use crate::objective::{f, fx_spec, grad_spec, gradient_f};

verus! {

/// One weight coordinate after a descent step: `w - lr * g`, checked.
pub open spec fn upd_entry(wv: int, gv: int, lr: int) -> Option<int> {
    match cmul(lr, gv) {
        Some(t) => csub(wv, t),
        None => None,
    }
}

/// Whether every coordinate's descent step stays in range.
pub open spec fn upd_ok(w: Seq<int>, g: Seq<int>, lr: int) -> bool {
    forall|i: int| 0 <= i < w.len() ==> upd_entry(w[i], g[i], lr).is_some()
}

/// The weights after a whole descent step.
pub open spec fn upd_val(w: Seq<int>, g: Seq<int>, lr: int) -> Seq<int> {
    Seq::new(w.len(), |i: int| upd_entry(w[i], g[i], lr).unwrap())
}

/// The checked whole descent step on the weights.
pub open spec fn upd_full(w: Seq<int>, g: Seq<int>, lr: int) -> Option<Seq<int>> {
    if upd_ok(w, g, lr) {
        Some(upd_val(w, g, lr))
    } else {
        None
    }
}

/// Whether every coordinate of `x - d` stays in range.
pub open spec fn sub_ok(x: Seq<int>, d: Seq<int>) -> bool {
    forall|i: int| 0 <= i < x.len() ==> csub(x[i], d[i]).is_some()
}

/// The state after subtracting `d` coordinate by coordinate.
pub open spec fn sub_val(x: Seq<int>, d: Seq<int>) -> Seq<int> {
    Seq::new(x.len(), |i: int| csub(x[i], d[i]).unwrap())
}

/// The checked coordinatewise subtraction `x - d`.
pub open spec fn sub_full(x: Seq<int>, d: Seq<int>) -> Option<Seq<int>> {
    if sub_ok(x, d) {
        Some(sub_val(x, d))
    } else {
        None
    }
}

/// Whether every coordinatewise product `w[i] * c[i]` stays in range.
pub open spec fn wmul_ok(w: Seq<int>, c: Seq<int>) -> bool {
    forall|i: int| 0 <= i < w.len() ==> cmul(w[i], c[i]).is_some()
}

/// The coordinatewise products `w[i] * c[i]`.
pub open spec fn wmul_val(w: Seq<int>, c: Seq<int>) -> Seq<int> {
    Seq::new(w.len(), |i: int| cmul(w[i], c[i]).unwrap())
}

/// The checked coordinatewise product of `w` and `c`.
pub open spec fn wmul_full(w: Seq<int>, c: Seq<int>) -> Option<Seq<int>> {
    if wmul_ok(w, c) {
        Some(wmul_val(w, c))
    } else {
        None
    }
}

/// The weight gradient: the state gradient at `x`, convolved with the
/// kernel, scaled per coordinate by the matching weight.
pub open spec fn gfw_spec(k: Seq<int>, w: Seq<int>, x: Seq<int>) -> Option<Seq<int>> {
    match grad_spec(x) {
        Some(g) => match conv_full(k, g) {
            Some(c) => wmul_full(w, c),
            None => None,
        },
        None => None,
    }
}

/// One whole iteration on `(x, w)`: the new state, the new weights, and the
/// objective value at the new state; `None` where any checked step fails.
pub open spec fn step_spec(k: Seq<int>, x: Seq<int>, w: Seq<int>, lr: int) -> Option<
    (Seq<int>, Seq<int>, int),
> {
    match gfw_spec(k, w, x) {
        Some(gw) => match upd_full(w, gw, lr) {
            Some(w2) => match grad_spec(x) {
                Some(g) => match conv_full(k, g) {
                    Some(c) => match sub_full(x, c) {
                        Some(x2) => match fx_spec(x2[0], x2[1], x2[2]) {
                            Some(fx) => Some((x2, w2, fx)),
                            None => None,
                        },
                        None => None,
                    },
                    None => None,
                },
                None => None,
            },
            None => None,
        },
        None => None,
    }
}

/// The loop after `n` iterations: the final state, the final weights, and
/// per iteration the weight snapshot with the objective value; `None` where
/// some iteration fails.
pub open spec fn run_spec(k: Seq<int>, x: Seq<int>, w: Seq<int>, lr: int, n: nat) -> Option<
    (Seq<int>, Seq<int>, Seq<(Seq<int>, int)>),
>
    decreases n,
{
    if n == 0 {
        Some((x, w, Seq::<(Seq<int>, int)>::empty()))
    } else {
        match run_spec(k, x, w, lr, (n - 1) as nat) {
            Some(prev) => match step_spec(k, prev.0, prev.1, lr) {
                Some(st) => Some((st.0, st.1, prev.2.push((st.1, st.2)))),
                None => None,
            },
            None => None,
        }
    }
}

/// Once some iteration has failed, every longer run fails too.
proof fn lemma_run_none_mono(k: Seq<int>, x: Seq<int>, w: Seq<int>, lr: int, n1: nat, n2: nat)
    requires
        n1 <= n2,
        run_spec(k, x, w, lr, n1).is_none(),
    ensures
        run_spec(k, x, w, lr, n2).is_none(),
    decreases n2 - n1,
{
    if n2 > n1 {
        lemma_run_none_mono(k, x, w, lr, n1, (n2 - 1) as nat);
    }
}

/// What the loop reports once per iteration: the 1-based iteration index, a
/// snapshot of the weights after that iteration's descent step, and the
/// objective value at the freshly updated state.
#[derive(Debug)]
pub struct IterationRecord {
    /// 1-based index of the iteration that produced this record.
    pub index: usize,
    /// The weight vector right after this iteration's descent step.
    pub w: Vec<i64>,
    /// The objective value at the state right after this iteration.
    pub fx: i64,
}

/// Descends the weights in place: `w[i] - learning_rate * gradient_w[i]`
/// for every coordinate.
///
/// Returns `DimensionMismatch` when the vectors' lengths differ and
/// `OutOfRange` exactly when some coordinate's checked step fails; on any
/// error the weights are left unchanged.
pub fn update_weights(w: &mut Vec<i64>, gradient_w: &Vec<i64>, learning_rate: i64) -> (r: Result<
    (),
    OptError,
>)
    ensures
        old(w)@.len() != gradient_w@.len() ==> r == Err::<(), OptError>(
            OptError::DimensionMismatch,
        ) && final(w)@ == old(w)@,
        old(w)@.len() == gradient_w@.len() ==> match upd_full(
            s2i(old(w)@),
            s2i(gradient_w@),
            learning_rate as int,
        ) {
            Some(v) => r == Ok::<(), OptError>(()) && s2i(final(w)@) == v && final(w)@.len()
                == old(w)@.len(),
            None => r == Err::<(), OptError>(OptError::OutOfRange) && final(w)@ == old(w)@,
        },
{
    if w.len() != gradient_w.len() {
        return Err(OptError::DimensionMismatch);
    }
    let n: usize = w.len();
    let mut nv: Vec<i64> = Vec::new();
    let mut i: usize = 0;
    while i < n
        invariant
            i <= n,
            n == w@.len(),
            n == gradient_w@.len(),
            w@ == old(w)@,
            nv@.len() == i,
            forall|t: int|
                0 <= t < i ==> upd_entry(
                    w@[t] as int,
                    gradient_w@[t] as int,
                    learning_rate as int,
                ).is_some(),
            forall|t: int|
                0 <= t < i ==> nv@[t] as int == upd_entry(
                    w@[t] as int,
                    gradient_w@[t] as int,
                    learning_rate as int,
                ).unwrap(),
        decreases n - i,
    {
        let step: i64 = match mul_fp(learning_rate, gradient_w[i]) {
            Some(v) => v,
            None => {
                proof {
                    assert(s2i(w@)[i as int] == w@[i as int] as int);
                    assert(s2i(gradient_w@)[i as int] == gradient_w@[i as int] as int);
                    assert(!upd_ok(s2i(w@), s2i(gradient_w@), learning_rate as int));
                }
                return Err(OptError::OutOfRange);
            },
        };
        let nw: i64 = match sub_fp(w[i], step) {
            Some(v) => v,
            None => {
                proof {
                    assert(s2i(w@)[i as int] == w@[i as int] as int);
                    assert(s2i(gradient_w@)[i as int] == gradient_w@[i as int] as int);
                    assert(!upd_ok(s2i(w@), s2i(gradient_w@), learning_rate as int));
                }
                return Err(OptError::OutOfRange);
            },
        };
        nv.push(nw);
        i = i + 1;
    }
    proof {
        assert(forall|t: int| 0 <= t < n ==> s2i(w@)[t] == w@[t] as int);
        assert(forall|t: int| 0 <= t < n ==> s2i(gradient_w@)[t] == gradient_w@[t] as int);
        assert(upd_ok(s2i(w@), s2i(gradient_w@), learning_rate as int));
        assert(s2i(nv@) =~= upd_val(s2i(w@), s2i(gradient_w@), learning_rate as int));
    }
    *w = nv;
    Ok(())
}

/// Subtracts `d` from the state in place: `x[i] - d[i]` for every
/// coordinate.
///
/// Returns `DimensionMismatch` when the vectors' lengths differ and
/// `OutOfRange` exactly when some coordinate's checked difference fails; on
/// any error the state is left unchanged.
pub fn sub_vec(x: &mut Vec<i64>, d: &Vec<i64>) -> (r: Result<(), OptError>)
    ensures
        old(x)@.len() != d@.len() ==> r == Err::<(), OptError>(OptError::DimensionMismatch)
            && final(x)@ == old(x)@,
        old(x)@.len() == d@.len() ==> match sub_full(s2i(old(x)@), s2i(d@)) {
            Some(v) => r == Ok::<(), OptError>(()) && s2i(final(x)@) == v && final(x)@.len()
                == old(x)@.len(),
            None => r == Err::<(), OptError>(OptError::OutOfRange) && final(x)@ == old(x)@,
        },
{
    if x.len() != d.len() {
        return Err(OptError::DimensionMismatch);
    }
    let n: usize = x.len();
    let mut nv: Vec<i64> = Vec::new();
    let mut i: usize = 0;
    while i < n
        invariant
            i <= n,
            n == x@.len(),
            n == d@.len(),
            x@ == old(x)@,
            nv@.len() == i,
            forall|t: int| 0 <= t < i ==> csub(x@[t] as int, d@[t] as int).is_some(),
            forall|t: int|
                0 <= t < i ==> nv@[t] as int == csub(x@[t] as int, d@[t] as int).unwrap(),
        decreases n - i,
    {
        let nw: i64 = match sub_fp(x[i], d[i]) {
            Some(v) => v,
            None => {
                proof {
                    assert(s2i(x@)[i as int] == x@[i as int] as int);
                    assert(s2i(d@)[i as int] == d@[i as int] as int);
                    assert(!sub_ok(s2i(x@), s2i(d@)));
                }
                return Err(OptError::OutOfRange);
            },
        };
        nv.push(nw);
        i = i + 1;
    }
    proof {
        assert(forall|t: int| 0 <= t < n ==> s2i(x@)[t] == x@[t] as int);
        assert(forall|t: int| 0 <= t < n ==> s2i(d@)[t] == d@[t] as int);
        assert(sub_ok(s2i(x@), s2i(d@)));
        assert(s2i(nv@) =~= sub_val(s2i(x@), s2i(d@)));
    }
    *x = nv;
    Ok(())
}

/// Computes the weight gradient: the state gradient at `x`, smoothed by
/// `kernel`, scaled per coordinate by the matching entry of `w`.
///
/// Returns `DimensionMismatch` unless `x` and `w` both have exactly three
/// components, and `OutOfRange` exactly when the checked evaluation in
/// `gfw_spec` fails.
pub fn gradient_f_w(kernel: &Vec<i64>, w: &Vec<i64>, x: &Vec<i64>) -> (r: Result<
    Vec<i64>,
    OptError,
>)
    ensures
        x@.len() != 3 || w@.len() != 3 ==> r == Err::<Vec<i64>, OptError>(
            OptError::DimensionMismatch,
        ),
        x@.len() == 3 && w@.len() == 3 ==> match gfw_spec(s2i(kernel@), s2i(w@), s2i(x@)) {
            Some(v) => r matches Ok(o) && o@.len() == 3 && s2i(o@) == v,
            None => r == Err::<Vec<i64>, OptError>(OptError::OutOfRange),
        },
{
    if x.len() != 3 || w.len() != 3 {
        return Err(OptError::DimensionMismatch);
    }
    let g: Vec<i64> = match gradient_f(x) {
        Ok(v) => v,
        Err(e) => {
            return Err(e);
        },
    };
    let cg: Vec<i64> = match convolve(kernel, &g) {
        Ok(v) => v,
        Err(e) => {
            return Err(e);
        },
    };
    let mut out: Vec<i64> = Vec::new();
    let mut i: usize = 0;
    while i < 3
        invariant
            i <= 3,
            x@.len() == 3,
            w@.len() == 3,
            g@.len() == 3,
            cg@.len() == 3,
            grad_spec(s2i(x@)) == Some(s2i(g@)),
            conv_full(s2i(kernel@), s2i(g@)) == Some(s2i(cg@)),
            out@.len() == i,
            forall|t: int| 0 <= t < i ==> cmul(w@[t] as int, cg@[t] as int).is_some(),
            forall|t: int|
                0 <= t < i ==> out@[t] as int == cmul(w@[t] as int, cg@[t] as int).unwrap(),
        decreases 3 - i,
    {
        let p: i64 = match mul_fp(w[i], cg[i]) {
            Some(v) => v,
            None => {
                proof {
                    assert(s2i(w@)[i as int] == w@[i as int] as int);
                    assert(s2i(cg@)[i as int] == cg@[i as int] as int);
                    assert(!wmul_ok(s2i(w@), s2i(cg@)));
                }
                return Err(OptError::OutOfRange);
            },
        };
        out.push(p);
        i = i + 1;
    }
    proof {
        assert(forall|t: int| 0 <= t < 3 ==> s2i(w@)[t] == w@[t] as int);
        assert(forall|t: int| 0 <= t < 3 ==> s2i(cg@)[t] == cg@[t] as int);
        assert(wmul_ok(s2i(w@), s2i(cg@)));
        assert(s2i(out@) =~= wmul_val(s2i(w@), s2i(cg@)));
    }
    Ok(out)
}

/// Performs one whole iteration in place: updates the weights by their
/// gradient, then the state by the smoothed state gradient, and returns the
/// objective value at the new state.
///
/// Returns `OutOfRange` exactly when the checked evaluation in `step_spec`
/// fails; the vectors' contents are unspecified after an error, since the
/// run they belong to is aborted.
pub fn iterate_once(kernel: &Vec<i64>, x: &mut Vec<i64>, w: &mut Vec<i64>, learning_rate: i64) -> (r:
    Result<i64, OptError>)
    requires
        old(x)@.len() == 3,
        old(w)@.len() == 3,
    ensures
        match step_spec(s2i(kernel@), s2i(old(x)@), s2i(old(w)@), learning_rate as int) {
            Some(st) => r matches Ok(fx) && s2i(final(x)@) == st.0 && s2i(final(w)@) == st.1
                && fx as int == st.2 && final(x)@.len() == 3 && final(w)@.len() == 3,
            None => r == Err::<i64, OptError>(OptError::OutOfRange),
        },
{
    let ghost kk: Seq<int> = s2i(kernel@);
    let ghost xs: Seq<int> = s2i(x@);
    let ghost ws: Seq<int> = s2i(w@);
    let gw: Vec<i64> = match gradient_f_w(kernel, w, x) {
        Ok(v) => v,
        Err(e) => {
            proof {
                assert(step_spec(kk, xs, ws, learning_rate as int).is_none());
            }
            return Err(e);
        },
    };
    match update_weights(w, &gw, learning_rate) {
        Ok(u) => u,
        Err(e) => {
            proof {
                assert(step_spec(kk, xs, ws, learning_rate as int).is_none());
            }
            return Err(e);
        },
    };
    let g: Vec<i64> = match gradient_f(x) {
        Ok(v) => v,
        Err(e) => {
            proof {
                assert(step_spec(kk, xs, ws, learning_rate as int).is_none());
            }
            return Err(e);
        },
    };
    let cg: Vec<i64> = match convolve(kernel, &g) {
        Ok(v) => v,
        Err(e) => {
            proof {
                assert(step_spec(kk, xs, ws, learning_rate as int).is_none());
            }
            return Err(e);
        },
    };
    match sub_vec(x, &cg) {
        Ok(u) => u,
        Err(e) => {
            proof {
                assert(step_spec(kk, xs, ws, learning_rate as int).is_none());
            }
            return Err(e);
        },
    };
    let fx: i64 = match f(x) {
        Ok(v) => v,
        Err(e) => {
            proof {
                assert(s2i(x@)[0] == x@[0] as int);
                assert(s2i(x@)[1] == x@[1] as int);
                assert(s2i(x@)[2] == x@[2] as int);
                assert(step_spec(kk, xs, ws, learning_rate as int).is_none());
            }
            return Err(e);
        },
    };
    proof {
        assert(s2i(x@)[0] == x@[0] as int);
        assert(s2i(x@)[1] == x@[1] as int);
        assert(s2i(x@)[2] == x@[2] as int);
        assert(step_spec(kk, xs, ws, learning_rate as int) == Some(
            (s2i(x@), s2i(w@), fx as int),
        ));
    }
    Ok(fx)
}

/// Runs the optimisation loop for exactly `iterations` iterations from the
/// given state and weights, with a fixed smoothing kernel and weight
/// learning rate.
///
/// On success the records are exactly one per iteration, indexed 1 upward,
/// each carrying the weight snapshot and the objective value that `run_spec`
/// gives for that iteration.  Returns `DimensionMismatch` unless `x0` and
/// `w0` both have exactly three components, and `OutOfRange` exactly when
/// `run_spec` fails, that is, when some iteration's checked arithmetic
/// leaves the `i64` range.
pub fn run_optimization(
    x0: Vec<i64>,
    w0: Vec<i64>,
    kernel: &Vec<i64>,
    learning_rate: i64,
    iterations: usize,
) -> (r: Result<Vec<IterationRecord>, OptError>)
    ensures
        x0@.len() != 3 || w0@.len() != 3 ==> r == Err::<Vec<IterationRecord>, OptError>(
            OptError::DimensionMismatch,
        ),
        x0@.len() == 3 && w0@.len() == 3 ==> match run_spec(
            s2i(kernel@),
            s2i(x0@),
            s2i(w0@),
            learning_rate as int,
            iterations as nat,
        ) {
            Some(fin) => r matches Ok(recs) && recs@.len() == iterations && (forall|j: int|
                0 <= j < iterations ==> recs@[j].index == j + 1) && (forall|j: int|
                0 <= j < iterations ==> s2i(recs@[j].w@) == fin.2[j].0) && (forall|j: int|
                0 <= j < iterations ==> recs@[j].fx as int == fin.2[j].1),
            None => r == Err::<Vec<IterationRecord>, OptError>(OptError::OutOfRange),
        },
{
    if x0.len() != 3 || w0.len() != 3 {
        return Err(OptError::DimensionMismatch);
    }
    let ghost kk: Seq<int> = s2i(kernel@);
    let ghost xi: Seq<int> = s2i(x0@);
    let ghost wi: Seq<int> = s2i(w0@);
    let ghost lri: int = learning_rate as int;
    let mut x: Vec<i64> = x0;
    let mut w: Vec<i64> = w0;
    let mut records: Vec<IterationRecord> = Vec::new();
    let mut k: usize = 0;
    while k < iterations
        invariant
            k <= iterations,
            kk == s2i(kernel@),
            xi == s2i(x0@),
            wi == s2i(w0@),
            xi.len() == 3,
            wi.len() == 3,
            x0@.len() == 3,
            w0@.len() == 3,
            lri == learning_rate as int,
            x@.len() == 3,
            w@.len() == 3,
            records@.len() == k,
            run_spec(kk, xi, wi, lri, k as nat) matches Some(cur) && cur.0 == s2i(x@) && cur.1
                == s2i(w@) && cur.2.len() == k && (forall|j: int|
                0 <= j < k ==> records@[j].index == j + 1) && (forall|j: int|
                0 <= j < k ==> s2i(records@[j].w@) == cur.2[j].0) && (forall|j: int|
                0 <= j < k ==> records@[j].fx as int == cur.2[j].1),
        decreases iterations - k,
    {
        let ghost xs: Seq<int> = s2i(x@);
        let ghost ws: Seq<int> = s2i(w@);
        let fx: i64 = match iterate_once(kernel, &mut x, &mut w, learning_rate) {
            Ok(v) => v,
            Err(e) => {
                proof {
                    assert(run_spec(kk, xi, wi, lri, (k + 1) as nat).is_none());
                    lemma_run_none_mono(kk, xi, wi, lri, (k + 1) as nat, iterations as nat);
                }
                return Err(e);
            },
        };
        let snapshot: Vec<i64> = copy_vec(&w);
        records.push(IterationRecord { index: k + 1, w: snapshot, fx });
        k = k + 1;
    }
    Ok(records)
}

} // verus!
