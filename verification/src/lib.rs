//! Support Vector Machines trained by Sequential Minimal Optimization (SMO).
//!
//! The crate trains two-class (optionally class-weighted) classifiers,
//! one-class models and epsilon-insensitive regressors by solving the SVM
//! dual quadratic program with SMO.  All arithmetic is exact fixed-point
//! arithmetic over `i64`: a quantity x is represented by the integer
//! `x * ONE`, kernel values and hyperparameters included.  This makes the
//! solver's central invariants provable and exactly true (not merely up to
//! floating tolerance): the linear equality constraint is preserved by every
//! pair step, every alpha stays inside its box bounds, and the dual objective
//! never worsens.

use vstd::prelude::*;

pub mod sums;
pub mod numeric;
pub mod kernel;
pub mod solver_smo;
pub mod classification;
pub mod regression;

pub use solver_smo::{SolverParams, SvmError};
pub use kernel::Kernel;

use crate::numeric::{trunc_div, div_trunc_i128};
use crate::sums::{sum_int, lemma_sum_take_succ, lemma_sum_take_all};
use crate::solver_smo::lemma_kv_alpha_bound;

verus! {

/// The fixed-point unit: the integer that represents the real number one.
pub const ONE: i64 = 1048576;

/// Largest number of dual variables a problem may have.  Together with the
/// other limits it guarantees that every intermediate value of the solver
/// fits in the machine integers it is computed in.
pub const MAX_SAMPLES: usize = 512;

/// Bound on the magnitude of a kernel matrix entry.
pub const MAX_KERNEL: i64 = 67108864;

/// Bound on a box constraint (the largest admissible per-variable upper bound).
pub const MAX_BOUND: i64 = 67108864;

/// Bound on the magnitude of one gradient summand `Q[i][j] * alpha[j]`.
pub const TERM_LIMIT: i64 = 4503599627370496;

/// Bound on the magnitude of an entry of the linear term of the dual problem.
pub const MAX_LINEAR: i64 = 4503599627370496;

/// Bound on the magnitude of any gradient entry:
/// `MAX_LINEAR + MAX_SAMPLES * TERM_LIMIT`.
pub const GRAD_LIMIT: i64 = 2310346608841064448;

/// A sentinel strictly beyond any gradient value, used when recovering the
/// bias term from variables stuck at a bound: `GRAD_LIMIT + 1`.
pub const RHO_CAP: i64 = 2310346608841064449;

/// Bound on one summand of the dual objective:
/// `MAX_BOUND * (GRAD_LIMIT + MAX_LINEAR)`.
pub const OBJ_TERM_LIMIT: i128 = 155346967820479848949743616;

/// How many optimization steps pass between two shrinking rounds.
pub const SHRINK_PERIOD: usize = 1000;

/// Bound on an entry of a collapsed linear weight vector:
/// `MAX_SAMPLES * TERM_LIMIT / ONE`.
pub const WEIGHT_LIMIT: i64 = 2199023255552;

/// The default stopping threshold: the fixed-point form of 1e-7 in the
/// solver's gradient units (`round(1e-7 * ONE * ONE)`).
pub const DEFAULT_EPS: i64 = 109951;

/// A trained sample is a support vector iff its coefficient magnitude
/// exceeds this small numerical threshold, the fixed-point form of 1e-5
/// (`round(1e-5 * ONE)`).
pub const SUPPORT_THRESHOLD: i64 = 10;

/// Reason for stopping.
///
/// SMO can either exit because the Karush-Kuhn-Tucker violation dropped below
/// the configured threshold or because the iteration budget ran out.  The
/// flag is carried in the solution so a caller can decide how far to trust
/// the model.
#[derive(Debug, Clone, Copy, PartialEq, Eq, Structural)]
pub enum ExitReason {
    ReachedThreshold,
    ReachedIterations,
}

/// Which decision-function formula a fitted model uses (the task marker of
/// the training entry point, carried as a value).
#[derive(Debug, Clone, Copy, PartialEq, Eq, Structural)]
pub enum SvmTask {
    Classification,
    Regression,
    OneClass,
}

/// SVM hyperparameters.
///
/// C or Nu values control the balance between support-vector count and
/// accuracy, eps the precision of the optimization.  All values are
/// fixed-point: the integer `ONE` stands for the real number one.  After
/// setting the desired parameters a model is fitted with one of the fit
/// entry points (`classification::fit_c`, `classification::fit_one_class`,
/// `regression::fit_epsilon`).
#[derive(Debug, Clone, Copy, PartialEq, Eq)]
pub struct SvmParams {
    pub c: Option<(i64, i64)>,
    pub nu: Option<(i64, i64)>,
    pub solver_params: SolverParams,
}

impl SvmParams {
    /// Sets the stopping condition: optimization ends once the summed
    /// eligible gradients of the maximally violating pair drop to this
    /// threshold (in gradient units, fixed point squared).  Zero asks for
    /// exact integer optimality; the default is the fixed-point form of
    /// 1e-7.
    pub fn eps(self, new_eps: i64) -> (r: Self)
        ensures
            r == (SvmParams { solver_params: SolverParams { eps: new_eps, ..self.solver_params }, ..self }),
    {
        SvmParams { solver_params: SolverParams { eps: new_eps, ..self.solver_params }, ..self }
    }

    /// Enables or disables shrinking of the active variable set.  Shrinking
    /// can speed the optimization up, but may degrade the solution quality.
    pub fn shrinking(self, shrinking: bool) -> (r: Self)
        ensures
            r == (SvmParams {
                solver_params: SolverParams { shrinking: shrinking, ..self.solver_params },
                ..self
            }),
    {
        SvmParams {
            solver_params: SolverParams { shrinking: shrinking, ..self.solver_params },
            ..self
        }
    }

    /// Caps the number of optimization steps.
    pub fn max_iterations(self, max_iter: usize) -> (r: Self)
        ensures
            r == (SvmParams {
                solver_params: SolverParams { max_iter: max_iter, ..self.solver_params },
                ..self
            }),
    {
        SvmParams {
            solver_params: SolverParams { max_iter: max_iter, ..self.solver_params },
            ..self
        }
    }

    /// Sets the C penalty for positive and negative samples.
    pub fn pos_neg_weights(self, c_pos: i64, c_neg: i64) -> (r: Self)
        ensures
            r == (SvmParams { c: Some((c_pos, c_neg)), nu: None, ..self }),
    {
        SvmParams { c: Some((c_pos, c_neg)), nu: None, ..self }
    }

    /// Sets the Nu value; it must lie in (0, ONE] and trades
    /// support-vector count against solution quality.  It feeds
    /// `classification::fit_one_class`; Nu-SVC training (two-class
    /// classification driven by nu) is not provided by this library.
    pub fn nu_weight(self, nu: i64) -> (r: Self)
        ensures
            r == (SvmParams { nu: Some((nu, nu)), c: None, ..self }),
    {
        SvmParams { nu: Some((nu, nu)), c: None, ..self }
    }

    /// Sets the C penalty and the epsilon tube width for regression.
    pub fn c_eps(self, c: i64, eps: i64) -> (r: Self)
        ensures
            r == (SvmParams { c: Some((c, eps)), nu: None, ..self }),
    {
        SvmParams { c: Some((c, eps)), nu: None, ..self }
    }

    /// Sets the Nu and epsilon values for Nu-insensitive regression.
    /// This library trains the epsilon-insensitive flavor only:
    /// `regression::fit_epsilon` needs a C pair and rejects parameters
    /// configured this way with `InvalidC`.
    pub fn nu_eps(self, nu: i64, eps: i64) -> (r: Self)
        ensures
            r == (SvmParams { nu: Some((nu, eps)), c: None, ..self }),
    {
        SvmParams { nu: Some((nu, eps)), c: None, ..self }
    }
}

/// Fitted Support Vector Machine model: the result of the SMO optimizer,
/// carrying the signed support-vector coefficients, the quality of the
/// solution and optionally the collapsed linear hyperplane.  It owns its
/// data; inference against new points takes a precomputed kernel row, so no
/// reference to the training set is kept.
#[derive(Debug)]
pub struct Svm {
    /// One signed coefficient per training sample: `y_i alpha_i` for
    /// classification, `alpha_i - alpha_i*` for regression, `alpha_i` for
    /// one-class.  A sample whose entry exceeds the support threshold in
    /// magnitude is a support vector.
    pub alpha: Vec<i64>,
    /// The bias term of the decision function.
    pub rho: i64,
    /// The slope term reserved for Nu-insensitive regression.  This
    /// library does not train Nu-regression, so every fitted model carries
    /// None here (the fit contracts state it).
    pub r: Option<i64>,
    pub exit_reason: ExitReason,
    pub iterations: usize,
    /// The dual objective value, in units of ONE cubed.
    pub obj: i128,
    /// The feature-space weight vector, when the kernel is linear and the
    /// caller collapsed the support-vector expansion.  The fit entry
    /// points leave it None (their contracts state it); the caller fills
    /// it from the verified `linear_weights`.
    pub linear_decision: Option<Vec<i64>>,
    pub task: SvmTask,
}

/// Number of support vectors among the first t coefficients: those whose
/// magnitude exceeds `SUPPORT_THRESHOLD`, the fixed-point form of 1e-5.
pub open spec fn support_count(s: Seq<i64>, t: int) -> int
    decreases t,
{
    if t <= 0 {
        0
    } else {
        support_count(s, t - 1) + if s[t - 1] > SUPPORT_THRESHOLD || s[t - 1]
            < -SUPPORT_THRESHOLD {
            1int
        } else {
            0int
        }
    }
}

impl Svm {
    /// A model the library's fit entry points can return: within size and
    /// coefficient limits.
    pub open spec fn wf(self) -> bool {
        &&& self.alpha@.len() <= MAX_SAMPLES
        &&& forall|i: int|
            0 <= i < self.alpha@.len() ==> -MAX_BOUND <= #[trigger] self.alpha@[i] <= MAX_BOUND
        &&& -RHO_CAP <= self.rho <= RHO_CAP
    }

    /// Creates the hyperparameter set with the default values: C values of
    /// (ONE, ONE), a stopping threshold of 1e-7 in fixed point, no
    /// shrinking, and an iteration cap of one million.
    pub fn params() -> (p: SvmParams)
        ensures
            p.c == Some((ONE, ONE)),
            p.nu.is_none(),
            p.solver_params.eps == DEFAULT_EPS,
            !p.solver_params.shrinking,
            p.solver_params.max_iter == 1000000,
    {
        SvmParams {
            c: Some((ONE, ONE)),
            nu: None,
            solver_params: SolverParams {
                eps: DEFAULT_EPS,
                shrinking: false,
                max_iter: 1000000,
            },
        }
    }

    /// Returns the number of support vectors: the samples whose coefficient
    /// magnitude exceeds the small numerical threshold 1e-5 (in fixed
    /// point, `SUPPORT_THRESHOLD`) and which therefore influence the
    /// decision outcome.
    pub fn nsupport(&self) -> (c: usize)
        ensures
            c as int == support_count(self.alpha@, self.alpha@.len() as int),
    {
        let n = self.alpha.len();
        let mut c: usize = 0;
        let mut t: usize = 0;
        while t < n
            invariant
                t <= n,
                n == self.alpha@.len(),
                c as int == support_count(self.alpha@, t as int),
                c <= t,
            decreases n - t,
        {
            let a = self.alpha[t];
            if a > SUPPORT_THRESHOLD || a < -SUPPORT_THRESHOLD {
                c += 1;
            }
            t += 1;
        }
        c
    }

    /// Renders the one-line solution report a consumer displays: exit
    /// reason, iteration count, objective value and support-vector count.
    /// A threshold exit reads "Exited after ...", a capped run "Reached
    /// maximal iterations ..." (the contract pins the prefixes).
    pub fn summary(&self) -> (r: String)
        ensures
            self.exit_reason == ExitReason::ReachedThreshold ==> r@.len() >= 12 && r@.take(12)
                == "Exited after"@,
            self.exit_reason == ExitReason::ReachedIterations ==> r@.len() >= 26 && r@.take(26)
                == "Reached maximal iterations"@,
    {
        let nsv = self.nsupport();
        match self.exit_reason {
            ExitReason::ReachedThreshold => threshold_report(self.iterations, self.obj, nsv),
            ExitReason::ReachedIterations => cap_report(self.iterations, self.obj, nsv),
        }
    }

    /// The raw decision value for a query point, given its kernel row
    /// against the training samples (`row[i] = K(x, x_i)`):
    /// `sum_i alpha_i row_i / ONE - rho`.  Classification reads the class
    /// off the sign; regression reads the predicted target directly.
    pub fn decision_value(&self, row: &Vec<i64>) -> (d: i64)
        requires
            self.wf(),
            row@.len() == self.alpha@.len(),
            forall|i: int|
                0 <= i < row@.len() ==> -MAX_KERNEL <= #[trigger] row@[i] <= MAX_KERNEL,
        ensures
            d as int == trunc_div(sum_int(weighted_terms(self.alpha@, row@)), ONE as int)
                - self.rho,
    {
        let n = self.alpha.len();
        let terms = Ghost(weighted_terms(self.alpha@, row@));
        let mut acc: i128 = 0;
        let mut t: usize = 0;
        while t < n
            invariant
                t <= n,
                n == self.alpha@.len(),
                self.wf(),
                row@.len() == self.alpha@.len(),
                forall|i: int|
                    0 <= i < row@.len() ==> -MAX_KERNEL <= #[trigger] row@[i] <= MAX_KERNEL,
                terms@ == weighted_terms(self.alpha@, row@),
                acc == sum_int(terms@.take(t as int)),
                -((t as int) * TERM_LIMIT) <= acc <= (t as int) * TERM_LIMIT,
            decreases n - t,
        {
            let at = self.alpha[t];
            let rt = row[t];
            proof {
                lemma_kv_alpha_bound(at as int, rt as int);
            }
            let term: i128 = (at as i128) * (rt as i128);
            proof {
                assert(term as int == terms@[t as int]);
                lemma_sum_take_succ(terms@, t as int);
                assert((t as int) * TERM_LIMIT + TERM_LIMIT == (t as int + 1) * TERM_LIMIT)
                    by (nonlinear_arith);
                assert((-(t as int)) * TERM_LIMIT == -((t as int) * TERM_LIMIT))
                    by (nonlinear_arith);
                assert((-(t as int + 1)) * TERM_LIMIT == -((t as int + 1) * TERM_LIMIT))
                    by (nonlinear_arith);
            }
            acc = acc + term;
            t += 1;
        }
        proof {
            lemma_sum_take_all(terms@);
            assert((n as int) * TERM_LIMIT <= MAX_SAMPLES as int * TERM_LIMIT) by (nonlinear_arith)
                requires
                    0 <= n as int <= MAX_SAMPLES as int,
            ;
            assert((-(n as int)) * TERM_LIMIT == -((n as int) * TERM_LIMIT)) by (nonlinear_arith);
        }
        let q = div_trunc_i128(acc, ONE as i128);
        proof {
            crate::numeric::lemma_trunc_div_bound(acc as int, ONE as int, GRAD_LIMIT as int);
            assert(GRAD_LIMIT as int * ONE as int >= MAX_SAMPLES as int * TERM_LIMIT)
                by (nonlinear_arith);
        }
        (q as i64) - self.rho
    }
}


/// Relies on std's `format!`: renders
/// "Exited after {iterations} iterations with obj = {obj} and {nsv}
/// support vectors", so the result starts with the literal head.
#[verifier::external_body]
fn threshold_report(iterations: usize, obj: i128, nsv: usize) -> (r: String)
    ensures
        r@.len() >= 12,
        r@.take(12) == "Exited after"@,
{
    format!("Exited after {} iterations with obj = {} and {} support vectors", iterations, obj, nsv)
}

/// Relies on std's `format!`: renders
/// "Reached maximal iterations {iterations} with obj = {obj} and {nsv}
/// support vectors", so the result starts with the literal head.
#[verifier::external_body]
fn cap_report(iterations: usize, obj: i128, nsv: usize) -> (r: String)
    ensures
        r@.len() >= 26,
        r@.take(26) == "Reached maximal iterations"@,
{
    format!(
        "Reached maximal iterations {} with obj = {} and {} support vectors",
        iterations,
        obj,
        nsv,
    )
}

/// The summands `alpha_i row_i` of a decision value.
pub open spec fn weighted_terms(alpha: Seq<i64>, row: Seq<i64>) -> Seq<int> {
    Seq::new(alpha.len(), |i: int| alpha[i] * row[i])
}

/// The summands `alpha_i x_i[f]` of one collapsed weight coordinate.
pub open spec fn feature_terms(points: Seq<Vec<i64>>, alpha: Seq<i64>, f: int) -> Seq<int> {
    Seq::new(alpha.len(), |i: int| alpha[i] * points[i]@[f])
}

/// The feature count of a point set.
pub open spec fn dim_of(points: Seq<Vec<i64>>) -> int {
    if points.len() == 0 {
        0
    } else {
        points[0]@.len() as int
    }
}

/// Collapses the support-vector expansion over a linear kernel into a
/// feature-space weight vector: `w_f = sum_i alpha_i x_i[f] / ONE`.  With
/// it, inference costs O(features) instead of O(support vectors); the
/// caller stores it in the model's `linear_decision` field.
pub fn linear_weights(points: &Vec<Vec<i64>>, alpha: &Vec<i64>) -> (w: Vec<i64>)
    requires
        points@.len() == alpha@.len(),
        alpha@.len() <= MAX_SAMPLES,
        forall|i: int|
            0 <= i < alpha@.len() ==> -MAX_BOUND <= #[trigger] alpha@[i] <= MAX_BOUND,
        forall|i: int| 0 <= i < points@.len() ==> #[trigger] points@[i]@.len() == dim_of(points@),
        forall|i: int, f: int|
            0 <= i < points@.len() && 0 <= f < dim_of(points@) ==> -MAX_KERNEL
                <= #[trigger] points@[i]@[f] <= MAX_KERNEL,
    ensures
        w@.len() == dim_of(points@),
        forall|f: int|
            0 <= f < dim_of(points@) ==> #[trigger] w@[f] as int == trunc_div(
                sum_int(feature_terms(points@, alpha@, f)),
                ONE as int,
            ),
        forall|f: int|
            0 <= f < dim_of(points@) ==> -WEIGHT_LIMIT <= #[trigger] w@[f] <= WEIGHT_LIMIT,
{
    let n = alpha.len();
    let d = if n == 0 {
        0
    } else {
        points[0].len()
    };
    let mut w: Vec<i64> = Vec::new();
    let mut f: usize = 0;
    while f < d
        invariant
            f <= d,
            d as int == dim_of(points@),
            n == alpha@.len(),
            points@.len() == alpha@.len(),
            n <= MAX_SAMPLES,
            forall|i: int|
                0 <= i < alpha@.len() ==> -MAX_BOUND <= #[trigger] alpha@[i] <= MAX_BOUND,
            forall|i: int|
                0 <= i < points@.len() ==> #[trigger] points@[i]@.len() == dim_of(points@),
            forall|i: int, g: int|
                0 <= i < points@.len() && 0 <= g < dim_of(points@) ==> -MAX_KERNEL
                    <= #[trigger] points@[i]@[g] <= MAX_KERNEL,
            w@.len() == f as int,
            forall|g: int|
                0 <= g < f ==> #[trigger] w@[g] as int == trunc_div(
                    sum_int(feature_terms(points@, alpha@, g)),
                    ONE as int,
                ),
            forall|g: int| 0 <= g < f ==> -WEIGHT_LIMIT <= #[trigger] w@[g] <= WEIGHT_LIMIT,
        decreases d - f,
    {
        let terms = Ghost(feature_terms(points@, alpha@, f as int));
        let mut acc: i128 = 0;
        let mut i: usize = 0;
        while i < n
            invariant
                i <= n,
                f < d,
                d as int == dim_of(points@),
                n == alpha@.len(),
                points@.len() == alpha@.len(),
                n <= MAX_SAMPLES,
                forall|k: int|
                    0 <= k < alpha@.len() ==> -MAX_BOUND <= #[trigger] alpha@[k] <= MAX_BOUND,
                forall|k: int|
                    0 <= k < points@.len() ==> #[trigger] points@[k]@.len() == dim_of(points@),
                forall|k: int, g: int|
                    0 <= k < points@.len() && 0 <= g < dim_of(points@) ==> -MAX_KERNEL
                        <= #[trigger] points@[k]@[g] <= MAX_KERNEL,
                terms@ == feature_terms(points@, alpha@, f as int),
                acc == sum_int(terms@.take(i as int)),
                -((i as int) * TERM_LIMIT) <= acc <= (i as int) * TERM_LIMIT,
            decreases n - i,
        {
            let ai = alpha[i];
            let xf = points[i][f];
            proof {
                crate::solver_smo::lemma_kv_alpha_bound(ai as int, xf as int);
            }
            let term: i128 = (ai as i128) * (xf as i128);
            proof {
                assert(term as int == terms@[i as int]);
                lemma_sum_take_succ(terms@, i as int);
                assert((i as int) * TERM_LIMIT + TERM_LIMIT == (i as int + 1) * TERM_LIMIT)
                    by (nonlinear_arith);
                assert((-(i as int)) * TERM_LIMIT == -((i as int) * TERM_LIMIT))
                    by (nonlinear_arith);
                assert((-(i as int + 1)) * TERM_LIMIT == -((i as int + 1) * TERM_LIMIT))
                    by (nonlinear_arith);
            }
            acc = acc + term;
            i += 1;
        }
        proof {
            lemma_sum_take_all(terms@);
            assert((n as int) * TERM_LIMIT <= MAX_SAMPLES as int * TERM_LIMIT) by (nonlinear_arith)
                requires
                    0 <= n as int <= MAX_SAMPLES as int,
            ;
            assert((-(n as int)) * TERM_LIMIT == -((n as int) * TERM_LIMIT)) by (nonlinear_arith);
            crate::numeric::lemma_trunc_div_bound(acc as int, ONE as int, WEIGHT_LIMIT as int);
            assert(WEIGHT_LIMIT as int * ONE as int >= MAX_SAMPLES as int * TERM_LIMIT)
                by (nonlinear_arith);
        }
        let q = div_trunc_i128(acc, ONE as i128);
        w.push(q as i64);
        f += 1;
    }
    w
}

/// The decision value of a collapsed linear model on a raw feature vector:
/// `sum_f w_f x_f / ONE - rho`.
pub fn linear_decision_value(w: &Vec<i64>, x: &Vec<i64>, rho: i64) -> (d: i64)
    requires
        w@.len() == x@.len(),
        w@.len() <= MAX_SAMPLES,
        forall|f: int| 0 <= f < w@.len() ==> -WEIGHT_LIMIT <= #[trigger] w@[f] <= WEIGHT_LIMIT,
        forall|f: int| 0 <= f < x@.len() ==> -MAX_KERNEL <= #[trigger] x@[f] <= MAX_KERNEL,
        -RHO_CAP <= rho <= RHO_CAP,
    ensures
        d as int == trunc_div(sum_int(weighted_terms(w@, x@)), ONE as int) - rho,
{
    let n = w.len();
    let terms = Ghost(weighted_terms(w@, x@));
    let mut acc: i128 = 0;
    let mut t: usize = 0;
    while t < n
        invariant
            t <= n,
            n == w@.len(),
            w@.len() == x@.len(),
            n <= MAX_SAMPLES,
            forall|f: int|
                0 <= f < w@.len() ==> -WEIGHT_LIMIT <= #[trigger] w@[f] <= WEIGHT_LIMIT,
            forall|f: int| 0 <= f < x@.len() ==> -MAX_KERNEL <= #[trigger] x@[f] <= MAX_KERNEL,
            terms@ == weighted_terms(w@, x@),
            acc == sum_int(terms@.take(t as int)),
            -((t as int) * (WEIGHT_LIMIT as int * MAX_KERNEL as int)) <= acc <= (t as int)
                * (WEIGHT_LIMIT as int * MAX_KERNEL as int),
        decreases n - t,
    {
        let wt = w[t];
        let xt = x[t];
        proof {
            assert(-(WEIGHT_LIMIT as int * MAX_KERNEL as int) <= (wt as int) * (xt as int)
                <= WEIGHT_LIMIT as int * MAX_KERNEL as int) by (nonlinear_arith)
                requires
                    -WEIGHT_LIMIT <= wt as int <= WEIGHT_LIMIT,
                    -MAX_KERNEL <= xt as int <= MAX_KERNEL,
            ;
        }
        let term: i128 = (wt as i128) * (xt as i128);
        proof {
            assert(term as int == terms@[t as int]);
            lemma_sum_take_succ(terms@, t as int);
            assert((t as int) * (WEIGHT_LIMIT as int * MAX_KERNEL as int) + WEIGHT_LIMIT as int
                * MAX_KERNEL as int == (t as int + 1) * (WEIGHT_LIMIT as int * MAX_KERNEL as int))
                by (nonlinear_arith);
            assert((-(t as int)) * (WEIGHT_LIMIT as int * MAX_KERNEL as int) == -((t as int)
                * (WEIGHT_LIMIT as int * MAX_KERNEL as int))) by (nonlinear_arith);
            assert((-(t as int + 1)) * (WEIGHT_LIMIT as int * MAX_KERNEL as int) == -((t as int
                + 1) * (WEIGHT_LIMIT as int * MAX_KERNEL as int))) by (nonlinear_arith);
        }
        acc = acc + term;
        t += 1;
    }
    proof {
        lemma_sum_take_all(terms@);
        assert((n as int) * (WEIGHT_LIMIT as int * MAX_KERNEL as int) <= MAX_SAMPLES as int
            * (WEIGHT_LIMIT as int * MAX_KERNEL as int)) by (nonlinear_arith)
            requires
                0 <= n as int <= MAX_SAMPLES as int,
        ;
        assert((-(n as int)) * (WEIGHT_LIMIT as int * MAX_KERNEL as int) == -((n as int)
            * (WEIGHT_LIMIT as int * MAX_KERNEL as int))) by (nonlinear_arith);
        crate::numeric::lemma_trunc_div_bound(
            acc as int,
            ONE as int,
            GRAD_LIMIT as int,
        );
        assert(GRAD_LIMIT as int * ONE as int >= MAX_SAMPLES as int * (WEIGHT_LIMIT as int
            * MAX_KERNEL as int)) by (nonlinear_arith);
    }
    let q = div_trunc_i128(acc, ONE as i128);
    (q as i64) - rho
}

} // verus!
