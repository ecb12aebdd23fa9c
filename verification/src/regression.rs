//! Task adapter for epsilon-insensitive support vector regression.
//! Each sample is embedded as a pair of slack variables: the
//! canonical problem doubles the kernel to 2n variables, gives the first
//! half the constraint coefficient +1 and linear term `(eps - z_i) ONE`,
//! the second half -1 and `(eps + z_i) ONE`, and boxes every variable by C.
//! The fitted coefficient of sample i is the difference of its pair.

use vstd::prelude::*;
use crate::kernel::Kernel;
use crate::solver_smo::{Problem, SolverState, SvmError, solve, in_box, obj2, constraint_terms_of,
    lemma_unit_mul, lemma_obj2_zero};
use crate::sums::{sum_int, int_seq, lemma_sum_zero, lemma_sum_split, lemma_sum_add};
use crate::numeric::trunc_div;
use crate::{Svm, SvmTask, SvmParams, ExitReason, ONE, MAX_BOUND, MAX_KERNEL, MAX_SAMPLES,
    RHO_CAP};

verus! {

/// Which original sample a doubled variable stands for.
pub open spec fn fold_idx(s: int, n: int) -> int {
    if s < n {
        s
    } else {
        s - n
    }
}

/// The canonical problem an epsilon-SVR instance builds.
pub open spec fn svr_problem_shape(
    prob: Problem,
    kernel: Kernel,
    z: Seq<i64>,
    c: i64,
    tube: i64,
) -> bool {
    let n = z.len() as int;
    &&& prob.n() == 2 * n
    &&& forall|a: int, b: int|
        0 <= a < 2 * n && 0 <= b < 2 * n ==> #[trigger] prob.kernel.at(a, b) == kernel.at(
            fold_idx(a, n),
            fold_idx(b, n),
        )
    &&& forall|s: int|
        0 <= s < 2 * n ==> #[trigger] prob.y@[s] == if s < n {
            1i64
        } else {
            -1i64
        }
    &&& forall|s: int|
        0 <= s < 2 * n ==> #[trigger] prob.p@[s] as int == if s < n {
            (tube - z[s]) * ONE
        } else {
            (tube + z[s - n]) * ONE
        }
    &&& forall|s: int| 0 <= s < 2 * n ==> #[trigger] prob.bound@[s] == c
}

/// What a model returned by `fit_epsilon` is: the image of a well-formed
/// final solver state of the doubled problem, with each coefficient the
/// difference of its slack pair.
pub open spec fn svr_solution(
    kernel: Kernel,
    z: Seq<i64>,
    c: i64,
    tube: i64,
    eps: i64,
    m: Svm,
    st: SolverState,
) -> bool {
    let n = z.len() as int;
    &&& st.wf()
    &&& svr_problem_shape(st.prob, kernel, z, c, tube)
    &&& m.alpha@.len() == n
    &&& forall|i: int|
        0 <= i < n ==> #[trigger] m.alpha@[i] as int == st.alpha@[i] - st.alpha@[i + n]
    &&& st.constraint_total() == 0
    &&& m.rho as int == trunc_div(st.rho_model(), ONE as int)
    &&& m.obj as int == trunc_div(obj2(st.prob, st.alpha@), 2)
    &&& (m.exit_reason == ExitReason::ReachedThreshold ==> st.kkt_all(eps as int))
}

/// Valid (C, tube) pair for regression.
pub open spec fn svr_c_ok(c: Option<(i64, i64)>) -> bool {
    match c {
        Some(ce) => 0 < ce.0 <= MAX_BOUND && 0 <= ce.1 <= MAX_KERNEL,
        None => false,
    }
}

/// All targets within the representable range.
pub open spec fn targets_ok(z: Seq<i64>) -> bool {
    forall|i: int| 0 <= i < z.len() ==> -MAX_KERNEL <= #[trigger] z[i] <= MAX_KERNEL
}

/// Fits an epsilon-insensitive support vector regressor: deviations from
/// the target larger than the tube width are penalized with weight C.
/// Errors, in order of checking: a negative stopping threshold, a target
/// vector not aligned with the kernel, a missing or out-of-range (C, tube)
/// pair, a problem whose doubled variables exceed the size limit, and a
/// target out of range.
pub fn fit_epsilon(params: &SvmParams, kernel: Kernel, targets: &Vec<i64>) -> (r: Result<
    Svm,
    SvmError,
>)
    requires
        kernel.wf(),
    ensures
        r == Err::<Svm, SvmError>(SvmError::InvalidEps) <==> params.solver_params.eps < 0,
        params.solver_params.eps >= 0 ==> (r == Err::<Svm, SvmError>(SvmError::MismatchedLabels)
            <==> targets@.len() != kernel.n()),
        params.solver_params.eps >= 0 && targets@.len() == kernel.n() ==> (r == Err::<
            Svm,
            SvmError,
        >(SvmError::InvalidC) <==> !svr_c_ok(params.c)),
        params.solver_params.eps >= 0 && targets@.len() == kernel.n() && svr_c_ok(params.c) ==> (r
            == Err::<Svm, SvmError>(SvmError::TooManyVariables) <==> 2 * kernel.n()
            > MAX_SAMPLES as int),
        params.solver_params.eps >= 0 && targets@.len() == kernel.n() && svr_c_ok(params.c) && 2
            * kernel.n() <= MAX_SAMPLES as int ==> (r == Err::<Svm, SvmError>(
            SvmError::InvalidTarget,
        ) <==> !targets_ok(targets@)),
        r.is_ok() <==> (params.solver_params.eps >= 0 && targets@.len() == kernel.n() && svr_c_ok(
            params.c,
        ) && 2 * kernel.n() <= MAX_SAMPLES as int && targets_ok(targets@)),
        match r {
            Ok(m) => {
                &&& m.wf()
                &&& m.task == SvmTask::Regression
                &&& m.alpha@.len() == kernel.n()
                &&& m.iterations <= params.solver_params.max_iter
                &&& forall|i: int|
                    0 <= i < m.alpha@.len() ==> -params.c.unwrap().0 <= #[trigger] m.alpha@[i]
                        <= params.c.unwrap().0
                &&& sum_int(int_seq(m.alpha@)) == 0
                &&& (m.exit_reason == ExitReason::ReachedIterations ==> m.iterations
                    == params.solver_params.max_iter)
                &&& m.obj <= 0
                &&& m.linear_decision.is_none()
                &&& m.r.is_none()
                &&& exists|st: SolverState|
                    svr_solution(
                        kernel,
                        targets@,
                        params.c.unwrap().0,
                        params.c.unwrap().1,
                        params.solver_params.eps,
                        m,
                        st,
                    )
            },
            Err(_) => true,
        },
{
    if params.solver_params.eps < 0 {
        return Err(SvmError::InvalidEps);
    }
    let n = kernel.len();
    if targets.len() != n {
        return Err(SvmError::MismatchedLabels);
    }
    let (c, tube) = match params.c {
        Some(ce) => ce,
        None => { return Err(SvmError::InvalidC) },
    };
    if c <= 0 || c > MAX_BOUND || tube < 0 || tube > MAX_KERNEL {
        return Err(SvmError::InvalidC);
    }
    if n > MAX_SAMPLES / 2 {
        return Err(SvmError::TooManyVariables);
    }
    let mut i: usize = 0;
    while i < n
        invariant
            i <= n,
            targets@.len() == n,
            n == kernel.n(),
            params.solver_params.eps >= 0,
            params.c == Some::<(i64, i64)>((c, tube)),
            svr_c_ok(params.c),
            2 * kernel.n() <= MAX_SAMPLES as int,
            forall|k: int| 0 <= k < i ==> -MAX_KERNEL <= #[trigger] targets@[k] <= MAX_KERNEL,
        decreases n - i,
    {
        let z = targets[i];
        if z < -MAX_KERNEL || z > MAX_KERNEL {
            return Err(SvmError::InvalidTarget);
        }
        i += 1;
    }
    let n2 = 2 * n;
    // the doubled kernel: each variable answers with its sample's row
    let mut mat: Vec<Vec<i64>> = Vec::new();
    let mut a: usize = 0;
    while a < n2
        invariant
            a <= n2,
            n2 == 2 * n,
            1 <= n,
            n2 <= MAX_SAMPLES,
            kernel.wf(),
            n == kernel.n(),
            mat@.len() == a as int,
            forall|s: int| 0 <= s < a ==> #[trigger] mat@[s]@.len() == n2 as int,
            forall|s: int, t: int|
                0 <= s < a && 0 <= t < n2 ==> #[trigger] (mat@[s]@[t] as int) == kernel.at(
                    fold_idx(s, n as int),
                    fold_idx(t, n as int),
                ),
        decreases n2 - a,
    {
        let base_a = if a < n {
            a
        } else {
            a - n
        };
        let mut row: Vec<i64> = Vec::new();
        let mut b: usize = 0;
        while b < n2
            invariant
                b <= n2,
                n2 == 2 * n,
                a < n2,
                kernel.wf(),
                n == kernel.n(),
                base_a as int == fold_idx(a as int, n as int),
                base_a < n,
                row@.len() == b as int,
                forall|t: int|
                    0 <= t < b ==> #[trigger] (row@[t] as int) == kernel.at(
                        base_a as int,
                        fold_idx(t, n as int),
                    ),
            decreases n2 - b,
        {
            let base_b = if b < n {
                b
            } else {
                b - n
            };
            row.push(kernel.value(base_a, base_b));
            b += 1;
        }
        mat.push(row);
        a += 1;
    }
    let k2 = Kernel { matrix: mat };
    proof {
        assert forall|s: int, t: int|
            0 <= s < k2.n() && 0 <= t < k2.n() implies #[trigger] k2.at(s, t) == k2.at(t, s) by {
            assert(k2.at(s, t) == kernel.at(fold_idx(s, n as int), fold_idx(t, n as int)));
            assert(k2.at(t, s) == kernel.at(fold_idx(t, n as int), fold_idx(s, n as int)));
        }
        assert(k2.wf());
    }
    let mut ys: Vec<i64> = Vec::new();
    let mut p: Vec<i64> = Vec::new();
    let mut bound: Vec<i64> = Vec::new();
    let mut alpha: Vec<i64> = Vec::new();
    let mut s: usize = 0;
    while s < n2
        invariant
            s <= n2,
            n2 == 2 * n,
            targets@.len() == n,
            forall|k: int| 0 <= k < n ==> -MAX_KERNEL <= #[trigger] targets@[k] <= MAX_KERNEL,
            0 <= tube <= MAX_KERNEL,
            ys@.len() == s as int,
            p@.len() == s as int,
            bound@.len() == s as int,
            alpha@.len() == s as int,
            forall|k: int|
                0 <= k < s ==> #[trigger] ys@[k] == if k < n as int {
                    1i64
                } else {
                    -1i64
                },
            forall|k: int|
                0 <= k < s ==> #[trigger] p@[k] as int == if k < n as int {
                    (tube - targets@[k]) * ONE
                } else {
                    (tube + targets@[k - n]) * ONE
                },
            forall|k: int| 0 <= k < s ==> #[trigger] bound@[k] == c,
            forall|k: int| 0 <= k < s ==> #[trigger] alpha@[k] == 0i64,
        decreases n2 - s,
    {
        if s < n {
            ys.push(1);
            p.push((tube - targets[s]) * ONE);
        } else {
            ys.push(-1);
            p.push((tube + targets[s - n]) * ONE);
        }
        bound.push(c);
        alpha.push(0);
        s += 1;
    }
    let prob = Problem { kernel: k2, y: ys, p: p, bound: bound };
    proof {
        assert forall|k: int|
            0 <= k < prob.n() implies -crate::MAX_LINEAR <= #[trigger] prob.p@[k]
            <= crate::MAX_LINEAR by {
            assert((tube - targets@[fold_idx(k, n as int)]) * ONE <= 2 * MAX_KERNEL * ONE)
                by (nonlinear_arith)
                requires
                    -MAX_KERNEL <= targets@[fold_idx(k, n as int)] <= MAX_KERNEL,
                    0 <= tube <= MAX_KERNEL,
            ;
            assert((tube - targets@[fold_idx(k, n as int)]) * ONE >= -(2 * MAX_KERNEL * ONE))
                by (nonlinear_arith)
                requires
                    -MAX_KERNEL <= targets@[fold_idx(k, n as int)] <= MAX_KERNEL,
                    0 <= tube <= MAX_KERNEL,
            ;
            assert((tube + targets@[fold_idx(k, n as int)]) * ONE <= 2 * MAX_KERNEL * ONE)
                by (nonlinear_arith)
                requires
                    -MAX_KERNEL <= targets@[fold_idx(k, n as int)] <= MAX_KERNEL,
                    0 <= tube <= MAX_KERNEL,
            ;
            assert((tube + targets@[fold_idx(k, n as int)]) * ONE >= -(2 * MAX_KERNEL * ONE))
                by (nonlinear_arith)
                requires
                    -MAX_KERNEL <= targets@[fold_idx(k, n as int)] <= MAX_KERNEL,
                    0 <= tube <= MAX_KERNEL,
            ;
        }
        assert(prob.wf());
        assert forall|k: int| 0 <= k < prob.n() implies in_box(prob, alpha@, k) by {}
        assert forall|k: int|
            0 <= k < prob.n() implies #[trigger] constraint_terms_of(prob, alpha@)[k] == 0 by {
            lemma_unit_mul(prob.y@[k] as int, 0);
        }
        lemma_sum_zero(constraint_terms_of(prob, alpha@));
    }
    let ghost alpha0 = alpha@;
    let out = solve(prob, alpha, &params.solver_params);
    proof {
        lemma_obj2_zero(out.state.prob, alpha0);
        crate::numeric::lemma_trunc_div_nonpos(obj2(out.state.prob, out.state.alpha@), 2);
    }
    let mut combined: Vec<i64> = Vec::new();
    let mut i: usize = 0;
    while i < n
        invariant
            i <= n,
            out.state.wf(),
            n2 == out.state.n(),
            n2 == 2 * n,
            combined@.len() == i as int,
            forall|k: int| 0 <= k < out.state.n() ==> #[trigger] out.state.prob.bound@[k] == c,
            0 < c <= MAX_BOUND,
            forall|k: int|
                0 <= k < i ==> #[trigger] combined@[k] as int == out.state.alpha@[k]
                    - out.state.alpha@[k + n],
            forall|k: int| 0 <= k < i ==> -c <= #[trigger] combined@[k] <= c,
        decreases n - i,
    {
        let up = out.state.alpha[i];
        let dn = out.state.alpha[i + n];
        proof {
            assert(in_box(out.state.prob, out.state.alpha@, i as int));
            assert(in_box(out.state.prob, out.state.alpha@, i as int + n as int));
        }
        combined.push(up - dn);
        i += 1;
    }
    let rho = crate::numeric::div_trunc_i64(out.rho, ONE);
    proof {
        assert(RHO_CAP as int * ONE as int >= RHO_CAP as int) by (nonlinear_arith);
        crate::numeric::lemma_trunc_div_bound(out.rho as int, ONE as int, RHO_CAP as int);
    }
    let m = Svm {
        alpha: combined,
        rho: rho,
        r: None,
        exit_reason: out.exit_reason,
        iterations: out.iterations,
        obj: out.obj,
        linear_decision: None,
        task: SvmTask::Regression,
    };
    proof {
        let ts = out.state.constraint_terms();
        lemma_sum_split(ts, n as int);
        let ta = ts.take(n as int);
        let tb = ts.skip(n as int);
        assert forall|k: int| 0 <= k < n as int implies #[trigger] int_seq(m.alpha@)[k] == ta[k]
            + tb[k] by {
            lemma_unit_mul(out.state.prob.y@[k] as int, out.state.alpha@[k] as int);
            lemma_unit_mul(
                out.state.prob.y@[k + n] as int,
                out.state.alpha@[k + n] as int,
            );
            assert(ta[k] == ts[k]);
            assert(tb[k] == ts[k + n]);
        }
        crate::sums::lemma_sum_add(ta, tb, int_seq(m.alpha@));
        assert(sum_int(int_seq(m.alpha@)) == 0);
        assert(svr_solution(
            kernel,
            targets@,
            c,
            tube,
            params.solver_params.eps,
            m,
            out.state,
        ));
    }
    Ok(m)
}

} // verus!
