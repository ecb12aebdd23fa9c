//! Task adapters for classification: weighted two-class C-SVC
//! and one-class distribution estimation.  Each adapter validates its
//! hyperparameters, translates the task into the solver's canonical dual
//! form (box bounds per variable, +-1 constraint coefficients, linear term,
//! initial coefficients), runs the SMO driver and reads the raw solution
//! back into a fitted model.

use vstd::prelude::*;
use crate::kernel::Kernel;
use crate::solver_smo::{Problem, SolverState, SvmError, solve, in_box, obj2,
    constraint_terms_of, lemma_unit_mul, lemma_obj2_zero};
use crate::sums::{sum_int, int_seq, lemma_sum_zero};
use crate::numeric::{trunc_div, lemma_mul_bounds};
use crate::{Svm, SvmTask, SvmParams, ExitReason, ONE, MAX_BOUND, MAX_SAMPLES, RHO_CAP};

verus! {

/// The canonical problem a C-SVC instance builds: linear term `-ONE^2`
/// everywhere, per-class box bounds, labels as +-1 constraint coefficients.
pub open spec fn c_problem_shape(
    prob: Problem,
    kernel: Kernel,
    y: Seq<bool>,
    c_pos: i64,
    c_neg: i64,
) -> bool {
    &&& prob.kernel == kernel
    &&& prob.n() == y.len()
    &&& forall|i: int|
        0 <= i < y.len() ==> #[trigger] prob.y@[i] == if y[i] {
            1i64
        } else {
            -1i64
        }
    &&& forall|i: int| 0 <= i < y.len() ==> #[trigger] prob.p@[i] == -(ONE * ONE)
    &&& forall|i: int|
        0 <= i < y.len() ==> #[trigger] prob.bound@[i] == if y[i] {
            c_pos
        } else {
            c_neg
        }
}

/// What a model returned by `fit_c` is: the image of a well-formed final
/// solver state of the canonical C-SVC problem, with label-signed
/// coefficients, the bias recovered from the KKT residuals, and the KKT
/// conditions met up to eps whenever the threshold exit is reported.
pub open spec fn c_svc_solution(
    kernel: Kernel,
    y: Seq<bool>,
    c_pos: i64,
    c_neg: i64,
    eps: i64,
    m: Svm,
    st: SolverState,
) -> bool {
    &&& st.wf()
    &&& c_problem_shape(st.prob, kernel, y, c_pos, c_neg)
    &&& m.alpha@.len() == y.len()
    &&& forall|i: int|
        0 <= i < y.len() ==> #[trigger] m.alpha@[i] as int == if y[i] {
            st.alpha@[i] as int
        } else {
            -(st.alpha@[i] as int)
        }
    &&& st.constraint_total() == 0
    &&& m.rho as int == trunc_div(st.rho_model(), ONE as int)
    &&& m.obj as int == trunc_div(obj2(st.prob, st.alpha@), 2)
    &&& (m.exit_reason == ExitReason::ReachedThreshold ==> st.kkt_all(eps as int))
}

/// Valid C pair for classification.
pub open spec fn c_pair_ok(c: Option<(i64, i64)>) -> bool {
    match c {
        Some(cc) => 0 < cc.0 <= MAX_BOUND && 0 < cc.1 <= MAX_BOUND,
        None => false,
    }
}

/// Fits a weighted two-class C-support vector classifier.  Labels are
/// booleans (true is the positive class); the C pair of the parameters
/// penalizes margin violations of the positive and negative class
/// independently.  Every error is reported before solving: a negative
/// stopping threshold, a label vector not aligned with the kernel, and a
/// missing or out-of-range C pair, in that order of checking.
pub fn fit_c(params: &SvmParams, kernel: Kernel, y: &Vec<bool>) -> (r: Result<Svm, SvmError>)
    requires
        kernel.wf(),
    ensures
        r == Err::<Svm, SvmError>(SvmError::InvalidEps) <==> params.solver_params.eps < 0,
        params.solver_params.eps >= 0 ==> (r == Err::<Svm, SvmError>(SvmError::MismatchedLabels)
            <==> y@.len() != kernel.n()),
        params.solver_params.eps >= 0 && y@.len() == kernel.n() ==> (r == Err::<Svm, SvmError>(
            SvmError::InvalidC,
        ) <==> !c_pair_ok(params.c)),
        r.is_ok() <==> (params.solver_params.eps >= 0 && y@.len() == kernel.n() && c_pair_ok(
            params.c,
        )),
        match r {
            Ok(m) => {
                &&& m.wf()
                &&& m.task == SvmTask::Classification
                &&& m.alpha@.len() == kernel.n()
                &&& m.iterations <= params.solver_params.max_iter
                &&& forall|i: int|
                    0 <= i < y@.len() ==> if y@[i] {
                        0 <= #[trigger] m.alpha@[i] <= params.c.unwrap().0
                    } else {
                        -params.c.unwrap().1 <= m.alpha@[i] <= 0
                    }
                &&& sum_int(int_seq(m.alpha@)) == 0
                &&& (m.exit_reason == ExitReason::ReachedIterations ==> m.iterations
                    == params.solver_params.max_iter)
                &&& m.obj <= 0
                &&& m.linear_decision.is_none()
                &&& m.r.is_none()
                &&& exists|st: SolverState|
                    c_svc_solution(
                        kernel,
                        y@,
                        params.c.unwrap().0,
                        params.c.unwrap().1,
                        params.solver_params.eps,
                        m,
                        st,
                    )
            },
            Err(_) => true,
        },
{
    if params.solver_params.eps < 0 {
        return Err(SvmError::InvalidEps);
    }
    let n = kernel.len();
    if y.len() != n {
        return Err(SvmError::MismatchedLabels);
    }
    let (c_pos, c_neg) = match params.c {
        Some(cc) => cc,
        None => { return Err(SvmError::InvalidC) },
    };
    if c_pos <= 0 || c_pos > MAX_BOUND || c_neg <= 0 || c_neg > MAX_BOUND {
        return Err(SvmError::InvalidC);
    }
    let mut ys: Vec<i64> = Vec::new();
    let mut p: Vec<i64> = Vec::new();
    let mut bound: Vec<i64> = Vec::new();
    let mut alpha: Vec<i64> = Vec::new();
    let lin: i64 = -(ONE * ONE);
    let mut i: usize = 0;
    while i < n
        invariant
            i <= n,
            y@.len() == n,
            ys@.len() == i as int,
            p@.len() == i as int,
            bound@.len() == i as int,
            alpha@.len() == i as int,
            lin == -(ONE * ONE),
            forall|k: int|
                0 <= k < i ==> #[trigger] ys@[k] == if y@[k] {
                    1i64
                } else {
                    -1i64
                },
            forall|k: int| 0 <= k < i ==> #[trigger] p@[k] == lin,
            forall|k: int|
                0 <= k < i ==> #[trigger] bound@[k] == if y@[k] {
                    c_pos
                } else {
                    c_neg
                },
            forall|k: int| 0 <= k < i ==> #[trigger] alpha@[k] == 0i64,
        decreases n - i,
    {
        if y[i] {
            ys.push(1);
            bound.push(c_pos);
        } else {
            ys.push(-1);
            bound.push(c_neg);
        }
        p.push(lin);
        alpha.push(0);
        i += 1;
    }
    let prob = Problem { kernel: kernel, y: ys, p: p, bound: bound };
    let ghost alpha0 = alpha@;
    proof {
        assert(prob.wf());
        assert forall|k: int| 0 <= k < prob.n() implies in_box(prob, alpha@, k) by {}
        assert forall|k: int|
            0 <= k < prob.n() implies #[trigger] constraint_terms_of(prob, alpha@)[k] == 0 by {
            lemma_unit_mul(prob.y@[k] as int, 0);
        }
        lemma_sum_zero(constraint_terms_of(prob, alpha@));
    }
    let out = solve(prob, alpha, &params.solver_params);
    proof {
        lemma_obj2_zero(out.state.prob, alpha0);
        crate::numeric::lemma_trunc_div_nonpos(obj2(out.state.prob, out.state.alpha@), 2);
    }
    let mut signed: Vec<i64> = Vec::new();
    let mut i: usize = 0;
    while i < n
        invariant
            i <= n,
            y@.len() == n,
            out.state.wf(),
            n == out.state.n(),
            signed@.len() == i as int,
            c_problem_shape(out.state.prob, kernel, y@, c_pos, c_neg),
            forall|k: int|
                0 <= k < i ==> #[trigger] signed@[k] as int == if y@[k] {
                    out.state.alpha@[k] as int
                } else {
                    -(out.state.alpha@[k] as int)
                },
        decreases n - i,
    {
        let a = out.state.alpha[i];
        proof {
            assert(in_box(out.state.prob, out.state.alpha@, i as int));
        }
        if y[i] {
            signed.push(a);
        } else {
            signed.push(-a);
        }
        i += 1;
    }
    let rho = crate::numeric::div_trunc_i64(out.rho, ONE);
    proof {
        assert(RHO_CAP as int * ONE as int >= RHO_CAP as int) by (nonlinear_arith);
        crate::numeric::lemma_trunc_div_bound(out.rho as int, ONE as int, RHO_CAP as int);
    }
    let m = Svm {
        alpha: signed,
        rho: rho,
        r: None,
        exit_reason: out.exit_reason,
        iterations: out.iterations,
        obj: out.obj,
        linear_decision: None,
        task: SvmTask::Classification,
    };
    proof {
        assert forall|k: int| 0 <= k < n as int implies #[trigger] int_seq(m.alpha@)[k]
            == out.state.constraint_terms()[k] by {
            assert(in_box(out.state.prob, out.state.alpha@, k));
            lemma_unit_mul(out.state.prob.y@[k] as int, out.state.alpha@[k] as int);
        }
        assert(int_seq(m.alpha@) =~= out.state.constraint_terms());
        assert(sum_int(int_seq(m.alpha@)) == 0);
        assert forall|k: int| 0 <= k < y@.len() implies if y@[k] {
            0 <= #[trigger] m.alpha@[k] <= c_pos
        } else {
            -c_neg <= m.alpha@[k] <= 0
        } by {
            assert(in_box(out.state.prob, out.state.alpha@, k));
        }
        assert(c_svc_solution(
            kernel,
            y@,
            c_pos,
            c_neg,
            params.solver_params.eps,
            m,
            out.state,
        ));
    }
    Ok(m)
}

/// Fills an initial coefficient vector greedily: each entry takes as much
/// of the remaining total as its cap admits, so the entries sum exactly to
/// the requested total while staying in [0, cap].
fn fill_alpha(n: usize, cap: i64, total: i64) -> (a: Vec<i64>)
    requires
        0 < cap <= MAX_BOUND,
        0 <= total,
        total as int <= n as int * cap as int,
        n <= MAX_SAMPLES,
    ensures
        a@.len() == n,
        forall|i: int| 0 <= i < n ==> 0 <= #[trigger] a@[i] <= cap,
        sum_int(int_seq(a@)) == total,
{
    let mut a: Vec<i64> = Vec::new();
    let mut remaining: i64 = total;
    let mut i: usize = 0;
    while i < n
        invariant
            i <= n,
            n <= MAX_SAMPLES,
            0 < cap <= MAX_BOUND,
            a@.len() == i as int,
            0 <= remaining,
            remaining as int <= (n as int - i as int) * cap as int,
            forall|k: int| 0 <= k < i ==> 0 <= #[trigger] a@[k] <= cap,
            sum_int(int_seq(a@)) == total - remaining,
        decreases n - i,
    {
        proof {
            assert((n as int - i as int) * cap as int >= 1 * cap as int) by (nonlinear_arith)
                requires
                    n as int - i as int >= 1,
                    cap as int >= 1,
            ;
        }
        let v: i64 = if remaining >= cap {
            cap
        } else {
            remaining
        };
        proof {
            assert((n as int - i as int) * cap as int == (n as int - i as int - 1) * cap as int
                + cap as int) by (nonlinear_arith);
            assert((n as int - i as int - 1) * cap as int >= 0) by (nonlinear_arith)
                requires
                    n as int - i as int - 1 >= 0,
                    cap as int > 0,
            ;
        }
        let ghost prev = a@;
        a.push(v);
        remaining = remaining - v;
        proof {
            assert(int_seq(a@).drop_last() =~= int_seq(prev));
            assert(int_seq(a@).last() == v as int);
        }
        i += 1;
    }
    proof {
        assert((n as int - i as int) * cap as int == 0) by (nonlinear_arith)
            requires
                n as int == i as int,
        ;
    }
    a
}

/// The box bound of the one-class problem: `ceil(ONE^2 / (nu n))`, the
/// fixed-point form of `1 / (nu n)` rounded up so that the coefficients can
/// reach their required total of ONE.
pub open spec fn one_class_bound(nu: i64, n: int) -> int {
    (ONE as int * ONE as int + nu as int * n - 1) / (nu as int * n)
}

/// A nu that yields a solvable one-class problem of size n.
pub open spec fn one_class_nu_ok(nu: Option<(i64, i64)>, n: int) -> bool {
    match nu {
        Some(v) => 0 < v.0 <= ONE && one_class_bound(v.0, n) <= MAX_BOUND && n * one_class_bound(
            v.0,
            n,
        ) >= ONE,
        None => false,
    }
}

/// The canonical problem a one-class instance builds: a single positive
/// pseudo-label everywhere, zero linear term, the derived box bound.
pub open spec fn one_class_shape(prob: Problem, kernel: Kernel, nu: i64) -> bool {
    &&& prob.kernel == kernel
    &&& forall|i: int| 0 <= i < prob.n() ==> #[trigger] prob.y@[i] == 1i64
    &&& forall|i: int| 0 <= i < prob.n() ==> #[trigger] prob.p@[i] == 0i64
    &&& forall|i: int|
        0 <= i < prob.n() ==> #[trigger] prob.bound@[i] as int == one_class_bound(nu, prob.n())
}

/// What a model returned by `fit_one_class` is.
pub open spec fn one_class_solution(
    kernel: Kernel,
    nu: i64,
    eps: i64,
    m: Svm,
    st: SolverState,
) -> bool {
    &&& st.wf()
    &&& one_class_shape(st.prob, kernel, nu)
    &&& m.alpha@ == st.alpha@
    &&& st.constraint_total() == ONE as int
    &&& m.rho as int == trunc_div(st.rho_model(), ONE as int)
    &&& m.obj as int == trunc_div(obj2(st.prob, st.alpha@), 2)
    &&& (m.exit_reason == ExitReason::ReachedThreshold ==> st.kkt_all(eps as int))
}

/// Fits a one-class model: all samples carry a single positive
/// pseudo-label, each coefficient is boxed by the fixed-point form of
/// `1/(nu n)`, and the coefficients must sum to one, so roughly a nu
/// fraction of the samples end up as support vectors.  Errors, in order of
/// checking: a negative stopping threshold, then a missing nu, a nu outside
/// (0, ONE], or a nu whose derived box bound leaves the representable range.
pub fn fit_one_class(params: &SvmParams, kernel: Kernel) -> (r: Result<Svm, SvmError>)
    requires
        kernel.wf(),
    ensures
        r == Err::<Svm, SvmError>(SvmError::InvalidEps) <==> params.solver_params.eps < 0,
        params.solver_params.eps >= 0 ==> (r == Err::<Svm, SvmError>(SvmError::InvalidNu)
            <==> !one_class_nu_ok(params.nu, kernel.n())),
        r.is_ok() <==> (params.solver_params.eps >= 0 && one_class_nu_ok(params.nu, kernel.n())),
        match r {
            Ok(m) => {
                &&& m.wf()
                &&& m.task == SvmTask::OneClass
                &&& m.alpha@.len() == kernel.n()
                &&& m.iterations <= params.solver_params.max_iter
                &&& forall|i: int| 0 <= i < m.alpha@.len() ==> 0 <= #[trigger] m.alpha@[i]
                &&& sum_int(int_seq(m.alpha@)) == ONE as int
                &&& (m.exit_reason == ExitReason::ReachedIterations ==> m.iterations
                    == params.solver_params.max_iter)
                &&& m.linear_decision.is_none()
                &&& m.r.is_none()
                &&& exists|st: SolverState|
                    one_class_solution(
                        kernel,
                        params.nu.unwrap().0,
                        params.solver_params.eps,
                        m,
                        st,
                    )
            },
            Err(_) => true,
        },
{
    if params.solver_params.eps < 0 {
        return Err(SvmError::InvalidEps);
    }
    let n = kernel.len();
    let nu = match params.nu {
        Some(v) => v.0,
        None => { return Err(SvmError::InvalidNu) },
    };
    if nu <= 0 || nu > ONE {
        return Err(SvmError::InvalidNu);
    }
    // cap = ceil(ONE^2 / (nu n)), computed exactly
    let num: u128 = (ONE as u128) * (ONE as u128);
    proof {
        lemma_mul_bounds(nu as int, n as int, ONE as int, MAX_SAMPLES as int);
    }
    let den: u128 = (nu as u128) * (n as u128);
    proof {
        assert(den >= 1);
    }
    let cap128: u128 = (num + den - 1) / den;
    proof {
        assert(num == ONE as int * ONE as int);
        assert(den == nu as int * n as int);
        assert(cap128 as int == one_class_bound(nu, n as int));
    }
    if cap128 > MAX_BOUND as u128 {
        return Err(SvmError::InvalidNu);
    }
    let cap: i64 = cap128 as i64;
    proof {
        lemma_mul_bounds(cap as int, n as int, MAX_BOUND as int, MAX_SAMPLES as int);
    }
    let tot128: u128 = (cap as u128) * (n as u128);
    proof {
        assert(tot128 == n as int * cap as int) by (nonlinear_arith)
            requires
                tot128 == cap as int * n as int,
        ;
    }
    if tot128 < ONE as u128 {
        return Err(SvmError::InvalidNu);
    }
    proof {
        assert(cap >= 1) by (nonlinear_arith)
            requires
                cap as int * n as int >= ONE as int,
                1 <= n as int <= MAX_SAMPLES as int,
                ONE as int > MAX_SAMPLES as int,
                0 <= cap as int,
        ;
    }
    let alpha = fill_alpha(n, cap, ONE);
    let mut ys: Vec<i64> = Vec::new();
    let mut p: Vec<i64> = Vec::new();
    let mut bound: Vec<i64> = Vec::new();
    let mut i: usize = 0;
    while i < n
        invariant
            i <= n,
            ys@.len() == i as int,
            p@.len() == i as int,
            bound@.len() == i as int,
            forall|k: int| 0 <= k < i ==> #[trigger] ys@[k] == 1i64,
            forall|k: int| 0 <= k < i ==> #[trigger] p@[k] == 0i64,
            forall|k: int| 0 <= k < i ==> #[trigger] bound@[k] == cap,
        decreases n - i,
    {
        ys.push(1);
        p.push(0);
        bound.push(cap);
        i += 1;
    }
    let prob = Problem { kernel: kernel, y: ys, p: p, bound: bound };
    proof {
        assert(prob.wf());
        assert forall|k: int| 0 <= k < prob.n() implies in_box(prob, alpha@, k) by {}
        assert forall|k: int|
            0 <= k < prob.n() implies #[trigger] constraint_terms_of(prob, alpha@)[k]
            == int_seq(alpha@)[k] by {
            lemma_unit_mul(prob.y@[k] as int, alpha@[k] as int);
        }
        assert(constraint_terms_of(prob, alpha@) =~= int_seq(alpha@));
    }
    let out = solve(prob, alpha, &params.solver_params);
    let mut raw: Vec<i64> = Vec::new();
    let mut i: usize = 0;
    while i < n
        invariant
            i <= n,
            out.state.wf(),
            n == out.state.n(),
            raw@.len() == i as int,
            forall|k: int| 0 <= k < i ==> #[trigger] raw@[k] == out.state.alpha@[k],
        decreases n - i,
    {
        raw.push(out.state.alpha[i]);
        i += 1;
    }
    let rho = crate::numeric::div_trunc_i64(out.rho, ONE);
    proof {
        assert(RHO_CAP as int * ONE as int >= RHO_CAP as int) by (nonlinear_arith);
        crate::numeric::lemma_trunc_div_bound(out.rho as int, ONE as int, RHO_CAP as int);
    }
    let m = Svm {
        alpha: raw,
        rho: rho,
        r: None,
        exit_reason: out.exit_reason,
        iterations: out.iterations,
        obj: out.obj,
        linear_decision: None,
        task: SvmTask::OneClass,
    };
    proof {
        assert(m.alpha@ =~= out.state.alpha@);
        assert forall|k: int| 0 <= k < n as int implies #[trigger] int_seq(m.alpha@)[k]
            == out.state.constraint_terms()[k] by {
            lemma_unit_mul(out.state.prob.y@[k] as int, out.state.alpha@[k] as int);
        }
        assert(int_seq(m.alpha@) =~= out.state.constraint_terms());
        assert forall|k: int| 0 <= k < m.alpha@.len() implies 0 <= #[trigger] m.alpha@[k]
            && m.alpha@[k] <= MAX_BOUND by {
            assert(in_box(out.state.prob, out.state.alpha@, k));
        }
        assert(one_class_solution(kernel, nu, params.solver_params.eps, m, out.state));
    }
    Ok(m)
}

} // verus!
