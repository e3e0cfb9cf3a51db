//! Truncated one-dimensional convolution of a kernel with a gradient.
//!
//! Output entry `i` accumulates `kernel[j] * grad[i + j]` for `j` from `0`
//! while `i + j` stays inside `grad`; taps that would run past the end are
//! simply skipped, so tail entries use fewer taps than interior entries.
//! There is no wraparound and no zero padding, and no normalisation is
//! applied here.  The output always has `grad`'s length.

use vstd::prelude::*;

use crate::error::OptError;
use crate::fixed::{cmul, oadd, s2i};
use crate::fixed::{add_fp, mul_fp};

verus! {

/// How many kernel taps output entry `i` uses: all of the kernel, truncated
/// at the end of the gradient.
pub open spec fn taps(k: Seq<int>, g: Seq<int>, i: int) -> int {
    if k.len() <= g.len() - i {
        k.len() as int
    } else {
        g.len() - i
    }
}

/// The checked partial sum of the first `n` taps of output entry `i`.
pub open spec fn conv_upto(k: Seq<int>, g: Seq<int>, i: int, n: int) -> Option<int>
    decreases n,
{
    if n <= 0 {
        Some(0)
    } else {
        match conv_upto(k, g, i, n - 1) {
            Some(s) => oadd(Some(s), cmul(k[n - 1], g[i + n - 1])),
            None => None,
        }
    }
}

/// The checked value of output entry `i`.
pub open spec fn conv_entry(k: Seq<int>, g: Seq<int>, i: int) -> Option<int> {
    conv_upto(k, g, i, taps(k, g, i))
}

/// Whether every output entry evaluates without leaving the `i64` range.
pub open spec fn conv_ok(k: Seq<int>, g: Seq<int>) -> bool {
    forall|i: int| 0 <= i < g.len() ==> conv_entry(k, g, i).is_some()
}

/// The full convolution result.
pub open spec fn conv_val(k: Seq<int>, g: Seq<int>) -> Seq<int> {
    Seq::new(g.len(), |i: int| conv_entry(k, g, i).unwrap())
}

/// The checked full convolution: the result, or `None` where some entry's
/// checked accumulation leaves the `i64` range.
pub open spec fn conv_full(k: Seq<int>, g: Seq<int>) -> Option<Seq<int>> {
    if conv_ok(k, g) {
        Some(conv_val(k, g))
    } else {
        None
    }
}

/// Once a partial sum has failed, every longer partial sum fails too.
proof fn lemma_conv_upto_none_mono(k: Seq<int>, g: Seq<int>, i: int, m: int, m2: int)
    requires
        0 <= m <= m2,
        conv_upto(k, g, i, m).is_none(),
    ensures
        conv_upto(k, g, i, m2).is_none(),
    decreases m2 - m,
{
    if m2 > m {
        lemma_conv_upto_none_mono(k, g, i, m, m2 - 1);
    }
}

/// Convolves `kernel` with `grad` under the truncated-tap rule.
///
/// The result has `grad`'s length; entry `i` is the checked sum of
/// `kernel[j] * grad[i + j]` over the in-bounds taps.  Returns `OutOfRange`
/// exactly when some entry's checked accumulation fails.
pub fn convolve(kernel: &Vec<i64>, grad: &Vec<i64>) -> (r: Result<Vec<i64>, OptError>)
    ensures
        match conv_full(s2i(kernel@), s2i(grad@)) {
            Some(v) => r matches Ok(o) && o@.len() == grad@.len() && s2i(o@) == v,
            None => r == Err::<Vec<i64>, OptError>(OptError::OutOfRange),
        },
{
    let n: usize = grad.len();
    let kl: usize = kernel.len();
    let mut out: Vec<i64> = Vec::new();
    let mut i: usize = 0;
    while i < n
        invariant
            i <= n,
            n == grad@.len(),
            kl == kernel@.len(),
            out@.len() == i,
            forall|t: int| 0 <= t < i ==> conv_entry(s2i(kernel@), s2i(grad@), t).is_some(),
            forall|t: int| 0 <= t < i ==> out@[t] as int == conv_entry(
                s2i(kernel@),
                s2i(grad@),
                t,
            ).unwrap(),
        decreases n - i,
    {
        let ghost kk: Seq<int> = s2i(kernel@);
        let ghost gg: Seq<int> = s2i(grad@);
        let mut acc: i64 = 0;
        let mut j: usize = 0;
        while j < kl && j < n - i
            invariant
                i < n,
                n == grad@.len(),
                kl == kernel@.len(),
                kk == s2i(kernel@),
                gg == s2i(grad@),
                j as int <= taps(kk, gg, i as int),
                conv_upto(kk, gg, i as int, j as int) == Some(acc as int),
            decreases kl - j,
        {
            proof {
                assert(kk[j as int] == kernel@[j as int] as int);
                assert(gg[i + j as int] == grad@[i + j as int] as int);
            }
            let term: i64 = match mul_fp(kernel[j], grad[i + j]) {
                Some(v) => v,
                None => {
                    proof {
                        assert(conv_upto(kk, gg, i as int, j + 1 as int).is_none());
                        lemma_conv_upto_none_mono(
                            kk,
                            gg,
                            i as int,
                            j + 1 as int,
                            taps(kk, gg, i as int),
                        );
                        assert(conv_entry(kk, gg, i as int).is_none());
                        assert(gg.len() == grad@.len());
                        assert(!conv_ok(kk, gg));
                    }
                    return Err(OptError::OutOfRange);
                },
            };
            let new_acc: i64 = match add_fp(acc, term) {
                Some(v) => v,
                None => {
                    proof {
                        assert(conv_upto(kk, gg, i as int, j + 1 as int).is_none());
                        lemma_conv_upto_none_mono(
                            kk,
                            gg,
                            i as int,
                            j + 1 as int,
                            taps(kk, gg, i as int),
                        );
                        assert(conv_entry(kk, gg, i as int).is_none());
                        assert(gg.len() == grad@.len());
                        assert(!conv_ok(kk, gg));
                    }
                    return Err(OptError::OutOfRange);
                },
            };
            proof {
                assert(conv_upto(kk, gg, i as int, j + 1 as int) == Some(new_acc as int));
            }
            acc = new_acc;
            j = j + 1;
        }
        proof {
            assert(j as int == taps(kk, gg, i as int));
            assert(conv_entry(kk, gg, i as int) == Some(acc as int));
        }
        out.push(acc);
        i = i + 1;
    }
    proof {
        assert(conv_ok(s2i(kernel@), s2i(grad@)));
        assert(s2i(out@) =~= conv_val(s2i(kernel@), s2i(grad@)));
    }
    Ok(out)
}

} // verus!
