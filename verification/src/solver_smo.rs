//! The SMO solver for the canonical SVM dual problem
//!
//!     minimize    1/2 * sum_ij alpha_i alpha_j Q[i][j] + sum_i p_i alpha_i
//!     subject to  0 <= alpha_i <= bound_i,   sum_i y_i alpha_i  held constant,
//!
//! where `Q[i][j] = y_i y_j K[i][j]` is the label-signed kernel matrix.
//! The solver keeps three invariants that its contracts state exactly:
//! every alpha stays in its box, the linear equality constraint keeps the
//! value it had at the start, and the gradient vector always equals
//! `p_i + sum_j Q[i][j] alpha_j`.

use vstd::prelude::*;
use crate::kernel::Kernel;
use crate::sums::{sum_int, lemma_sum_take_succ, lemma_sum_take_all, lemma_sum_update,
    lemma_sum_bound, lemma_sum_add, lemma_sum_scale, lemma_sum_zero};
use crate::numeric::{trunc_div, clamp_spec, div_trunc_i64, div_trunc_i128, clamp_i128,
    lemma_trunc_div_bound};
use crate::{MAX_SAMPLES, MAX_KERNEL, MAX_BOUND, MAX_LINEAR, TERM_LIMIT, GRAD_LIMIT, RHO_CAP,
    OBJ_TERM_LIMIT, SHRINK_PERIOD, ExitReason};

verus! {

/// Everything the library can reject or report.
#[derive(Debug, Clone, Copy, PartialEq, Eq, Structural)]
pub enum SvmError {
    /// The similarity matrix is not a well-formed kernel (not square, empty,
    /// too large, out of range, or asymmetric).
    InvalidKernel,
    /// A penalty value C is not in (0, MAX_BOUND].
    InvalidC,
    /// A nu value is not in (0, ONE], or makes the derived box bound fall
    /// outside (0, MAX_BOUND].
    InvalidNu,
    /// The stopping threshold is negative.
    InvalidEps,
    /// A regression target is out of the representable range.
    InvalidTarget,
    /// The label or target vector does not have one entry per sample.
    MismatchedLabels,
    /// The problem has too many dual variables (regression doubles them).
    TooManyVariables,
}

/// Configuration of the SMO loop: stopping threshold, shrinking, and the
/// iteration cap.
#[derive(Debug, Clone, Copy, PartialEq, Eq, Structural)]
pub struct SolverParams {
    /// Stopping threshold on the KKT violation measure, in gradient units
    /// (fixed-point squared); must be nonnegative.
    pub eps: i64,
    /// Whether the active set is periodically shrunk.
    pub shrinking: bool,
    /// Hard cap on the number of optimization steps.
    pub max_iter: usize,
}

impl SolverParams {
    pub open spec fn wf(self) -> bool {
        0 <= self.eps
    }
}

/// The canonical dual problem: a kernel oracle, the +-1 coefficients of the
/// linear equality constraint, the linear term of the objective, and the
/// per-variable upper box bounds (every lower bound is zero).
pub struct Problem {
    pub kernel: Kernel,
    pub y: Vec<i64>,
    pub p: Vec<i64>,
    pub bound: Vec<i64>,
}

impl Problem {
    pub open spec fn n(self) -> int {
        self.kernel.n()
    }

    pub open spec fn wf(self) -> bool {
        &&& self.kernel.wf()
        &&& self.y@.len() == self.n()
        &&& self.p@.len() == self.n()
        &&& self.bound@.len() == self.n()
        &&& forall|i: int|
            0 <= i < self.n() ==> #[trigger] self.y@[i] == 1 || self.y@[i] == -1
        &&& forall|i: int| 0 <= i < self.n() ==> 0 <= #[trigger] self.bound@[i] <= MAX_BOUND
        &&& forall|i: int|
            0 <= i < self.n() ==> -MAX_LINEAR <= #[trigger] self.p@[i] <= MAX_LINEAR
    }

    /// The label-signed kernel entry `Q[i][j] = y_i y_j K[i][j]`.
    pub open spec fn q(self, i: int, j: int) -> int {
        self.y@[i] * self.y@[j] * self.kernel.at(i, j)
    }
}

/// The mutable state of one optimization run.
pub struct SolverState {
    pub prob: Problem,
    pub alpha: Vec<i64>,
    pub grad: Vec<i64>,
    pub active: Vec<bool>,
}

/// The gradient summands `Q[i][j] * alpha[j]` of variable i.
pub open spec fn grad_terms(prob: Problem, alpha: Seq<i64>, i: int) -> Seq<int> {
    Seq::new(prob.n() as nat, |j: int| prob.q(i, j) * alpha[j])
}

/// What the gradient of variable i must be: `p_i + sum_j Q[i][j] alpha_j`.
pub open spec fn grad_model(prob: Problem, alpha: Seq<i64>, i: int) -> int {
    prob.p@[i] + sum_int(grad_terms(prob, alpha, i))
}

/// Box feasibility of a coefficient vector.
pub open spec fn in_box(prob: Problem, alpha: Seq<i64>, i: int) -> bool {
    0 <= alpha[i] <= prob.bound@[i]
}

impl SolverState {
    pub open spec fn n(self) -> int {
        self.prob.n()
    }

    /// The solver's well-formedness: problem well-formed, vectors aligned,
    /// every alpha inside its box, and the gradient exactly consistent with
    /// alpha.  The last two conjuncts are the heart of the solver.
    pub open spec fn wf(self) -> bool {
        &&& self.prob.wf()
        &&& self.alpha@.len() == self.n()
        &&& self.grad@.len() == self.n()
        &&& self.active@.len() == self.n()
        &&& forall|i: int| 0 <= i < self.n() ==> in_box(self.prob, self.alpha@, i)
        &&& forall|i: int|
            0 <= i < self.n() ==> #[trigger] self.grad@[i] == grad_model(
                self.prob,
                self.alpha@,
                i,
            )
    }

    /// The summands `y_i alpha_i` of the linear equality constraint.
    pub open spec fn constraint_terms(self) -> Seq<int> {
        constraint_terms_of(self.prob, self.alpha@)
    }

    /// The value of the linear equality constraint, `sum_i y_i alpha_i`.
    pub open spec fn constraint_total(self) -> int {
        constraint_sum(self.prob, self.alpha@)
    }

    /// Whether variable t may move up (increase its `y alpha` contribution).
    pub open spec fn up_eligible(self, t: int) -> bool {
        if self.prob.y@[t] == 1 {
            self.alpha@[t] < self.prob.bound@[t]
        } else {
            self.alpha@[t] > 0
        }
    }

    /// Whether variable t may move down.
    pub open spec fn low_eligible(self, t: int) -> bool {
        if self.prob.y@[t] == 1 {
            self.alpha@[t] > 0
        } else {
            self.alpha@[t] < self.prob.bound@[t]
        }
    }

    /// The "eligible gradient" `-y_t G_t` of an upward move.
    pub open spec fn viol_up(self, t: int) -> int {
        -(self.prob.y@[t] * self.grad@[t])
    }

    /// The "eligible gradient" `y_t G_t` of a downward move.
    pub open spec fn viol_low(self, t: int) -> int {
        self.prob.y@[t] * self.grad@[t]
    }

    /// The KKT conditions hold up to eps over the active set: no active
    /// eligible pair has a combined violation above eps.
    pub open spec fn kkt_active(self, eps: int) -> bool {
        forall|t: int, s: int|
            0 <= t < self.n() && 0 <= s < self.n() && self.active@[t] && self.active@[s]
                && #[trigger] self.up_eligible(t) && #[trigger] self.low_eligible(s)
                ==> self.viol_up(t) + self.viol_low(s) <= eps
    }

    /// The KKT conditions hold up to eps over all variables.
    pub open spec fn kkt_all(self, eps: int) -> bool {
        forall|t: int, s: int|
            0 <= t < self.n() && 0 <= s < self.n() && #[trigger] self.up_eligible(t)
                && #[trigger] self.low_eligible(s) ==> self.viol_up(t) + self.viol_low(s) <= eps
    }

    /// A variable strictly between its bounds (a free support vector).
    pub open spec fn is_free(self, t: int) -> bool {
        0 < self.alpha@[t] < self.prob.bound@[t]
    }

    /// Largest upward eligible gradient among the first t active variables
    /// (the sentinel -RHO_CAP when none is eligible).
    pub open spec fn up_max(self, t: int) -> int
        decreases t,
    {
        if t <= 0 {
            -RHO_CAP as int
        } else {
            let prev = self.up_max(t - 1);
            if self.active@[t - 1] && self.up_eligible(t - 1) && self.viol_up(t - 1) > prev {
                self.viol_up(t - 1)
            } else {
                prev
            }
        }
    }

    /// Largest downward eligible gradient among the first t active
    /// variables (the sentinel -RHO_CAP when none is eligible).
    pub open spec fn low_max(self, t: int) -> int
        decreases t,
    {
        if t <= 0 {
            -RHO_CAP as int
        } else {
            let prev = self.low_max(t - 1);
            if self.active@[t - 1] && self.low_eligible(t - 1) && self.viol_low(t - 1) > prev {
                self.viol_low(t - 1)
            } else {
                prev
            }
        }
    }

    /// A variable provably stuck at a bound for the near future: one of its
    /// directions is blocked by the box, and its gradient in that blocked
    /// direction lies strictly beyond the corresponding extreme g1 (upward)
    /// or g2 (downward) of the current violations, so the selector will not
    /// pick it soon.
    pub open spec fn shrink_candidate(self, t: int, g1: int, g2: int) -> bool {
        (!self.up_eligible(t) && self.viol_up(t) > g1) || (!self.low_eligible(t)
            && self.viol_low(t) > g2)
    }
}

/// The summands `y_i alpha_i` of the linear equality constraint.
pub open spec fn constraint_terms_of(prob: Problem, alpha: Seq<i64>) -> Seq<int> {
    Seq::new(prob.n() as nat, |i: int| prob.y@[i] * alpha[i])
}

/// The value of the linear equality constraint for a coefficient vector.
pub open spec fn constraint_sum(prob: Problem, alpha: Seq<i64>) -> int {
    sum_int(constraint_terms_of(prob, alpha))
}

/// Twice the dual objective: `sum_k alpha_k (G_k + p_k)`, where G is the
/// gradient model.  This equals `sum_kl alpha_k alpha_l Q[k][l]
/// + 2 sum_k p_k alpha_k`, so halving it gives the objective the solver
/// minimizes.
pub open spec fn obj2_terms(prob: Problem, alpha: Seq<i64>) -> Seq<int> {
    Seq::new(prob.n() as nat, |k: int| alpha[k] * (grad_model(prob, alpha, k) + prob.p@[k]))
}

/// Twice the dual objective of a coefficient vector.
pub open spec fn obj2(prob: Problem, alpha: Seq<i64>) -> int {
    sum_int(obj2_terms(prob, alpha))
}

/// A kernel entry times a box-feasible coefficient stays within `TERM_LIMIT`.
pub proof fn lemma_kv_alpha_bound(kv: int, aj: int)
    by (nonlinear_arith)
    requires
        -MAX_KERNEL <= kv <= MAX_KERNEL,
        -MAX_BOUND <= aj <= MAX_BOUND,
    ensures
        -TERM_LIMIT <= kv * aj <= TERM_LIMIT,
{
}

/// Folding the two +-1 labels of a product into a single sign.
pub proof fn lemma_signed_term(yi: int, yj: int, kv: int, aj: int, t: int)
    by (nonlinear_arith)
    requires
        yi == 1 || yi == -1,
        yj == 1 || yj == -1,
        t == if yi == yj {
            kv * aj
        } else {
            -(kv * aj)
        },
    ensures
        t == yi * yj * kv * aj,
{
}

/// Multiplying by a +-1 sign is identity or negation.
pub proof fn lemma_unit_mul(y: int, g: int)
    by (nonlinear_arith)
    requires
        y == 1 || y == -1,
    ensures
        y == 1 ==> y * g == g,
        y == -1 ==> y * g == -g,
{
}

/// Each gradient summand is bounded by `TERM_LIMIT`.
proof fn lemma_grad_terms_bound(prob: Problem, alpha: Seq<i64>, i: int)
    requires
        prob.wf(),
        alpha.len() == prob.n(),
        forall|k: int| 0 <= k < prob.n() ==> in_box(prob, alpha, k),
        0 <= i < prob.n(),
    ensures
        forall|j: int|
            0 <= j < prob.n() ==> -TERM_LIMIT <= #[trigger] grad_terms(prob, alpha, i)[j]
                <= TERM_LIMIT,
{
    assert forall|j: int|
        0 <= j < prob.n() implies -TERM_LIMIT <= #[trigger] grad_terms(prob, alpha, i)[j]
        <= TERM_LIMIT by {
        let yi = prob.y@[i] as int;
        let yj = prob.y@[j] as int;
        let kv = prob.kernel.at(i, j);
        let aj = alpha[j] as int;
        assert(in_box(prob, alpha, j));
        assert(-TERM_LIMIT <= yi * yj * kv * aj <= TERM_LIMIT) by (nonlinear_arith)
            requires
                yi == 1 || yi == -1,
                yj == 1 || yj == -1,
                -MAX_KERNEL <= kv <= MAX_KERNEL,
                0 <= aj <= MAX_BOUND,
                TERM_LIMIT == MAX_KERNEL as int * MAX_BOUND as int,
        ;
    }
}

/// The gradient model is bounded by `GRAD_LIMIT`.
pub proof fn lemma_grad_model_bound(prob: Problem, alpha: Seq<i64>, i: int)
    requires
        prob.wf(),
        alpha.len() == prob.n(),
        forall|k: int| 0 <= k < prob.n() ==> in_box(prob, alpha, k),
        0 <= i < prob.n(),
    ensures
        -GRAD_LIMIT <= grad_model(prob, alpha, i) <= GRAD_LIMIT,
{
    lemma_grad_terms_bound(prob, alpha, i);
    lemma_sum_bound(grad_terms(prob, alpha, i), TERM_LIMIT as int);
    let n = prob.n();
    assert(n * TERM_LIMIT <= MAX_SAMPLES as int * TERM_LIMIT) by (nonlinear_arith)
        requires
            0 <= n <= MAX_SAMPLES as int,
    ;
}

/// Rebuilds the whole gradient vector from its definition, in O(n^2).
/// Used when a run starts and whenever the active set is reconstructed.
pub fn compute_gradient(prob: &Problem, alpha: &Vec<i64>) -> (g: Vec<i64>)
    requires
        prob.wf(),
        alpha@.len() == prob.n(),
        forall|k: int| 0 <= k < prob.n() ==> in_box(*prob, alpha@, k),
    ensures
        g@.len() == prob.n(),
        forall|i: int| 0 <= i < prob.n() ==> #[trigger] g@[i] == grad_model(*prob, alpha@, i),
{
    let n = alpha.len();
    let mut g: Vec<i64> = Vec::new();
    let mut i: usize = 0;
    while i < n
        invariant
            i <= n,
            n == prob.n(),
            prob.wf(),
            alpha@.len() == prob.n(),
            forall|k: int| 0 <= k < prob.n() ==> in_box(*prob, alpha@, k),
            g@.len() == i as int,
            forall|k: int| 0 <= k < i ==> #[trigger] g@[k] == grad_model(*prob, alpha@, k),
        decreases n - i,
    {
        let terms = Ghost(grad_terms(*prob, alpha@, i as int));
        proof {
            lemma_grad_terms_bound(*prob, alpha@, i as int);
        }
        let mut acc: i128 = 0;
        let mut j: usize = 0;
        while j < n
            invariant
                j <= n,
                i < n,
                n == prob.n(),
                prob.wf(),
                alpha@.len() == prob.n(),
                forall|k: int| 0 <= k < prob.n() ==> in_box(*prob, alpha@, k),
                terms@ == grad_terms(*prob, alpha@, i as int),
                forall|k: int|
                    0 <= k < prob.n() ==> -TERM_LIMIT <= #[trigger] terms@[k] <= TERM_LIMIT,
                acc == sum_int(terms@.take(j as int)),
                -(j as int) * TERM_LIMIT <= acc <= (j as int) * TERM_LIMIT,
            decreases n - j,
        {
            let yi = prob.y[i];
            let yj = prob.y[j];
            let kv = prob.kernel.value(i, j);
            let aj = alpha[j];
            proof {
                assert(in_box(*prob, alpha@, j as int));
                lemma_kv_alpha_bound(kv as int, aj as int);
            }
            let prod: i128 = (kv as i128) * (aj as i128);
            let t: i128 = if yi == yj {
                prod
            } else {
                -prod
            };
            proof {
                lemma_signed_term(yi as int, yj as int, kv as int, aj as int, t as int);
                assert(t == terms@[j as int]);
                lemma_sum_take_succ(terms@, j as int);
                assert((j as int) * TERM_LIMIT + TERM_LIMIT == (j as int + 1) * TERM_LIMIT)
                    by (nonlinear_arith);
            }
            acc = acc + t;
            j += 1;
        }
        proof {
            lemma_sum_take_all(terms@);
            lemma_sum_bound(terms@, TERM_LIMIT as int);
            assert((n as int) * TERM_LIMIT <= MAX_SAMPLES as int * TERM_LIMIT) by (nonlinear_arith)
                requires
                    0 <= n as int <= MAX_SAMPLES as int,
            ;
        }
        let gi: i64 = prob.p[i] + (acc as i64);
        proof {
            assert(gi == grad_model(*prob, alpha@, i as int));
        }
        g.push(gi);
        i += 1;
    }
    g
}

/// The curvature of the objective along the feasible direction of the pair,
/// `K[i][i] + K[j][j] - 2 K[i][j]`, floored at the smallest positive integer
/// so the analytic step never divides by zero (numerical degeneracy is
/// handled by flooring, not by failing).
pub open spec fn quad_of(st: SolverState, i: int, j: int) -> int {
    let kq = st.prob.kernel.at(i, i) + st.prob.kernel.at(j, j) - 2 * st.prob.kernel.at(i, j);
    if kq < 1 {
        1
    } else {
        kq
    }
}

/// The derivative of the objective along the pair's feasible direction:
/// `y_i G_i - y_j G_j`.  The move is parametrized by a step `lam` with
/// `alpha_i += y_i lam` and `alpha_j -= y_j lam`, which preserves
/// `sum_k y_k alpha_k` exactly.
pub open spec fn step_dir(st: SolverState, i: int, j: int) -> int {
    st.prob.y@[i] * st.grad@[i] - st.prob.y@[j] * st.grad@[j]
}

/// Smallest step that keeps both coefficients inside their boxes.
pub open spec fn step_lo(st: SolverState, i: int, j: int) -> int {
    let li = if st.prob.y@[i] == 1 {
        -st.alpha@[i] as int
    } else {
        st.alpha@[i] - st.prob.bound@[i]
    };
    let lj = if st.prob.y@[j] == 1 {
        st.alpha@[j] - st.prob.bound@[j]
    } else {
        -st.alpha@[j] as int
    };
    if li >= lj {
        li
    } else {
        lj
    }
}

/// Largest step that keeps both coefficients inside their boxes.
pub open spec fn step_hi(st: SolverState, i: int, j: int) -> int {
    let hi = if st.prob.y@[i] == 1 {
        st.prob.bound@[i] - st.alpha@[i]
    } else {
        st.alpha@[i] as int
    };
    let hj = if st.prob.y@[j] == 1 {
        st.alpha@[j] as int
    } else {
        st.prob.bound@[j] - st.alpha@[j]
    };
    if hi <= hj {
        hi
    } else {
        hj
    }
}

/// The analytic step of the pair optimizer: the unconstrained minimizer of
/// the one-dimensional quadratic, rounded toward zero, then clipped into the
/// box-feasible interval.
pub open spec fn step_size(st: SolverState, i: int, j: int) -> int {
    clamp_spec(trunc_div(-step_dir(st, i, j), quad_of(st, i, j)), step_lo(st, i, j), step_hi(st, i, j))
}

/// The second-order gain estimate of pairing partner t with the chosen
/// first index i: the pair's combined violation squared over its floored
/// curvature, `(viol_up(i) + viol_low(t))^2 / quad`.  The selector
/// maximizes it.
pub open spec fn pair_score(st: SolverState, i: int, t: int) -> int {
    let b = st.viol_up(i) + st.viol_low(t);
    (b * b) / quad_of(st, i, t)
}

/// What the two optimized coefficients become.
pub open spec fn stepped_alpha(st: SolverState, i: int, j: int) -> (int, int) {
    let lam = step_size(st, i, j);
    (st.alpha@[i] + st.prob.y@[i] * lam, st.alpha@[j] - st.prob.y@[j] * lam)
}

/// A step rounded toward zero and clipped through a feasible interval
/// containing zero never increases the one-dimensional quadratic
/// `lam^2 quad / 2 + lam d` the pair optimizer minimizes.
pub proof fn lemma_step_no_worse(d: int, quad: int, lo: int, hi: int, lam: int)
    requires
        1 <= quad,
        lo <= 0 <= hi,
        lam == clamp_spec(trunc_div(-d, quad), lo, hi),
    ensures
        2 * lam * d + quad * lam * lam <= 0,
{
    let r = trunc_div(-d, quad);
    if d <= 0 {
        assert(r == (-d) / quad);
        assert(0 <= r && quad * r <= -d) by (nonlinear_arith)
            requires
                1 <= quad,
                d <= 0,
                r == (-d) / quad,
        ;
        assert(0 <= lam <= r);
        assert(quad * lam <= quad * r) by (nonlinear_arith)
            requires
                0 <= lam <= r,
                1 <= quad,
        ;
        assert(2 * lam * d + quad * lam * lam <= 0) by (nonlinear_arith)
            requires
                0 <= lam,
                d <= 0,
                quad * lam <= -d,
        ;
    } else {
        assert(r == -(d / quad));
        assert(r <= 0 && quad * (-r) <= d) by (nonlinear_arith)
            requires
                1 <= quad,
                d > 0,
                r == -(d / quad),
        ;
        assert(r <= lam <= 0);
        assert(quad * (-lam) <= quad * (-r)) by (nonlinear_arith)
            requires
                r <= lam <= 0,
                1 <= quad,
        ;
        assert(2 * lam * d + quad * lam * lam <= 0) by (nonlinear_arith)
            requires
                lam <= 0,
                d > 0,
                quad * (-lam) <= d,
        ;
    }
}

/// A coupled update `a + y lam` and its contribution `y a + lam` to the
/// equality constraint, for a +-1 sign y.
pub proof fn lemma_constraint_term(y: int, a: int, na: int, lam: int)
    by (nonlinear_arith)
    requires
        y == 1 || y == -1,
        na == if y == 1 {
            a + lam
        } else {
            a - lam
        },
    ensures
        y * na == y * a + lam,
        na == a + y * lam,
{
}

/// How the gradient model reacts to changing exactly two coefficients.
pub proof fn lemma_grad_model_two_update(
    prob: Problem,
    a1: Seq<i64>,
    a2: Seq<i64>,
    i: int,
    j: int,
    k: int,
)
    requires
        prob.wf(),
        a1.len() == prob.n(),
        a2.len() == prob.n(),
        0 <= i < prob.n(),
        0 <= j < prob.n(),
        i != j,
        0 <= k < prob.n(),
        forall|m: int| 0 <= m < prob.n() && m != i && m != j ==> a1[m] == #[trigger] a2[m],
    ensures
        grad_model(prob, a2, k) == grad_model(prob, a1, k) + prob.q(k, i) * (a2[i] - a1[i])
            + prob.q(k, j) * (a2[j] - a1[j]),
{
    let t1 = grad_terms(prob, a1, k);
    let t2 = grad_terms(prob, a2, k);
    let mid = t1.update(i, prob.q(k, i) * a2[i]);
    assert forall|m: int| 0 <= m < prob.n() implies t2[m] == #[trigger] mid.update(
        j,
        prob.q(k, j) * a2[j],
    )[m] by {
        if m != i && m != j {
            assert(a1[m] == a2[m]);
        }
    }
    assert(t2 =~= mid.update(j, prob.q(k, j) * a2[j]));
    lemma_sum_update(t1, i, prob.q(k, i) * a2[i]);
    lemma_sum_update(mid, j, prob.q(k, j) * a2[j]);
    assert(prob.q(k, i) * (a2[i] - a1[i]) == prob.q(k, i) * a2[i] - prob.q(k, i) * a1[i])
        by (nonlinear_arith);
    assert(prob.q(k, j) * (a2[j] - a1[j]) == prob.q(k, j) * a2[j] - prob.q(k, j) * a1[j])
        by (nonlinear_arith);
}

impl SolverState {
    /// Optimizes the selected pair (i, j): takes the analytic step along the
    /// feasible direction, clipped so both coefficients stay inside their
    /// boxes, and updates the whole gradient vector, active and inactive
    /// entries alike, so inactive variables remain correctly tracked.
    ///
    /// The step is pinned exactly by the contract; the equality constraint
    /// `sum_k y_k alpha_k` is preserved algebraically, not approximately.
    #[verifier::rlimit(100)]
    pub fn update_pair(&mut self, i: usize, j: usize)
        requires
            old(self).wf(),
            i < old(self).n(),
            j < old(self).n(),
            i != j,
        ensures
            final(self).wf(),
            final(self).prob == old(self).prob,
            final(self).active@ == old(self).active@,
            final(self).alpha@.len() == old(self).alpha@.len(),
            final(self).alpha@[i as int] as int == stepped_alpha(*old(self), i as int, j as int).0,
            final(self).alpha@[j as int] as int == stepped_alpha(*old(self), i as int, j as int).1,
            forall|m: int|
                0 <= m < final(self).n() && m != i as int && m != j as int ==> final(self).alpha@[m]
                    == #[trigger] old(self).alpha@[m],
            final(self).constraint_total() == old(self).constraint_total(),
            obj2(final(self).prob, final(self).alpha@) <= obj2(old(self).prob, old(self).alpha@),
    {
        proof {
            lemma_grad_model_bound(self.prob, self.alpha@, i as int);
            lemma_grad_model_bound(self.prob, self.alpha@, j as int);
        }
        let yi = self.prob.y[i];
        let yj = self.prob.y[j];
        let gi = self.grad[i];
        let gj = self.grad[j];
        let ygi: i64 = if yi == 1 {
            gi
        } else {
            -gi
        };
        let ygj: i64 = if yj == 1 {
            gj
        } else {
            -gj
        };
        let d: i64 = ygi - ygj;
        let kii = self.prob.kernel.value(i, i);
        let kjj = self.prob.kernel.value(j, j);
        let kij = self.prob.kernel.value(i, j);
        let kq: i64 = kii + kjj - 2 * kij;
        let quad: i64 = if kq < 1 {
            1
        } else {
            kq
        };
        let raw: i64 = div_trunc_i64(-d, quad);
        let ai = self.alpha[i];
        let aj = self.alpha[j];
        let ci = self.prob.bound[i];
        let cj = self.prob.bound[j];
        proof {
            assert(in_box(self.prob, self.alpha@, i as int));
            assert(in_box(self.prob, self.alpha@, j as int));
            assert(0 <= ci <= MAX_BOUND);
            assert(0 <= cj <= MAX_BOUND);
        }
        let lo_i: i64 = if yi == 1 {
            -ai
        } else {
            ai - ci
        };
        let lo_j: i64 = if yj == 1 {
            aj - cj
        } else {
            -aj
        };
        let hi_i: i64 = if yi == 1 {
            ci - ai
        } else {
            ai
        };
        let hi_j: i64 = if yj == 1 {
            aj
        } else {
            cj - aj
        };
        let lo: i64 = if lo_i >= lo_j {
            lo_i
        } else {
            lo_j
        };
        let hi: i64 = if hi_i <= hi_j {
            hi_i
        } else {
            hi_j
        };
        proof {
            assert(lo <= 0 && 0 <= hi);
        }
        let lam: i64 = clamp_i128(raw as i128, lo as i128, hi as i128) as i64;
        proof {
            assert(lam as int == step_size(*old(self), i as int, j as int));
        }
        let new_ai: i64 = if yi == 1 {
            ai + lam
        } else {
            ai - lam
        };
        let new_aj: i64 = if yj == 1 {
            aj - lam
        } else {
            aj + lam
        };
        let delta_i: i64 = new_ai - ai;
        let delta_j: i64 = new_aj - aj;
        proof {
            lemma_constraint_term(yi as int, ai as int, new_ai as int, lam as int);
            lemma_constraint_term(yj as int, aj as int, new_aj as int, -(lam as int));
        }
        self.alpha.set(i, new_ai);
        self.alpha.set(j, new_aj);
        proof {
            // the equality constraint: the two coupled updates cancel
            let ts1 = old(self).constraint_terms();
            let ts2 = self.constraint_terms();
            let mid = ts1.update(i as int, self.prob.y@[i as int] * new_ai);
            assert(ts2 =~= mid.update(j as int, self.prob.y@[j as int] * new_aj));
            lemma_sum_update(ts1, i as int, self.prob.y@[i as int] * new_ai);
            lemma_sum_update(mid, j as int, self.prob.y@[j as int] * new_aj);
            assert(in_box(self.prob, self.alpha@, i as int));
            assert(in_box(self.prob, self.alpha@, j as int));
            assert forall|m: int| 0 <= m < self.n() implies in_box(self.prob, self.alpha@, m) by {
                if m != i as int && m != j as int {
                    assert(in_box(self.prob, old(self).alpha@, m));
                    assert(self.alpha@[m] == old(self).alpha@[m]);
                }
            }
            assert(self.constraint_total() == old(self).constraint_total());
        }
        // update the whole gradient so it matches the new coefficients
        let n = self.grad.len();
        let mut k: usize = 0;
        while k < n
            invariant
                k <= n,
                n == self.n(),
                i < n,
                j < n,
                i != j,
                self.prob.wf(),
                self.prob == old(self).prob,
                old(self).wf(),
                self.active@ == old(self).active@,
                self.alpha@ == old(self).alpha@.update(i as int, new_ai).update(
                    j as int,
                    new_aj,
                ),
                self.constraint_total() == old(self).constraint_total(),
                yi as int == self.prob.y@[i as int],
                yj as int == self.prob.y@[j as int],
                yi == 1 || yi == -1,
                yj == 1 || yj == -1,
                self.alpha@.len() == self.n(),
                self.grad@.len() == self.n(),
                forall|m: int| 0 <= m < self.n() ==> in_box(self.prob, self.alpha@, m),
                forall|m: int|
                    0 <= m < self.n() && m != i as int && m != j as int ==> old(self).alpha@[m]
                        == #[trigger] self.alpha@[m],
                self.alpha@[i as int] == new_ai,
                self.alpha@[j as int] == new_aj,
                delta_i as int == new_ai - old(self).alpha@[i as int],
                delta_j as int == new_aj - old(self).alpha@[j as int],
                -MAX_BOUND <= delta_i as int <= MAX_BOUND,
                -MAX_BOUND <= delta_j as int <= MAX_BOUND,
                forall|m: int|
                    0 <= m < k ==> #[trigger] self.grad@[m] == grad_model(
                        self.prob,
                        self.alpha@,
                        m,
                    ),
                forall|m: int|
                    k <= m < self.n() ==> #[trigger] self.grad@[m] == grad_model(
                        self.prob,
                        old(self).alpha@,
                        m,
                    ),
            decreases n - k,
        {
            let yk = self.prob.y[k];
            let kki = self.prob.kernel.value(k, i);
            let kkj = self.prob.kernel.value(k, j);
            proof {
                lemma_kv_alpha_bound(kki as int, delta_i as int);
                lemma_kv_alpha_bound(kkj as int, delta_j as int);
            }
            let p1: i128 = (kki as i128) * (delta_i as i128);
            let p2: i128 = (kkj as i128) * (delta_j as i128);
            let t1: i128 = if yk == yi {
                p1
            } else {
                -p1
            };
            let t2: i128 = if yk == yj {
                p2
            } else {
                -p2
            };
            proof {
                lemma_signed_term(yk as int, yi as int, kki as int, delta_i as int, t1 as int);
                lemma_signed_term(yk as int, yj as int, kkj as int, delta_j as int, t2 as int);
                lemma_grad_model_two_update(
                    self.prob,
                    old(self).alpha@,
                    self.alpha@,
                    i as int,
                    j as int,
                    k as int,
                );
                lemma_grad_model_bound(self.prob, old(self).alpha@, k as int);
                lemma_grad_model_bound(self.prob, self.alpha@, k as int);
                assert(self.prob.q(k as int, i as int) * (delta_i as int) == t1 as int);
                assert(self.prob.q(k as int, j as int) * (delta_j as int) == t2 as int);
            }
            let gk: i64 = ((self.grad[k] as i128) + t1 + t2) as i64;
            self.grad.set(k, gk);
            k += 1;
        }
        proof {
            lemma_step_objective_no_worse(*old(self), i as int, j as int, self.alpha@);
        }
    }
}


/// The dual objective of the all-zero coefficient vector is zero.
pub proof fn lemma_obj2_zero(prob: Problem, alpha: Seq<i64>)
    requires
        alpha.len() == prob.n(),
        forall|k: int| 0 <= k < alpha.len() ==> #[trigger] alpha[k] == 0,
    ensures
        obj2(prob, alpha) == 0,
{
    assert forall|k: int| 0 <= k < prob.n() implies #[trigger] obj2_terms(prob, alpha)[k] == 0 by {
        assert(alpha[k] * (grad_model(prob, alpha, k) + prob.p@[k]) == 0) by (nonlinear_arith)
            requires
                alpha[k] == 0,
        ;
    }
    lemma_sum_zero(obj2_terms(prob, alpha));
}

/// How the dual objective reacts to one coupled pair step: moving along the
/// feasible direction by lam changes twice the objective by exactly
/// `2 lam d + lam^2 (K_ii + K_jj - 2 K_ij)`, where d is the directional
/// derivative `y_i G_i - y_j G_j`.  The objective is quadratic, so this
/// second-order expansion is exact, not an approximation.
pub proof fn lemma_obj2_two_update(
    prob: Problem,
    a1: Seq<i64>,
    a2: Seq<i64>,
    i: int,
    j: int,
    lam: int,
)
    requires
        prob.wf(),
        a1.len() == prob.n(),
        a2.len() == prob.n(),
        0 <= i < prob.n(),
        0 <= j < prob.n(),
        i != j,
        forall|m: int| 0 <= m < prob.n() && m != i && m != j ==> a1[m] == #[trigger] a2[m],
        a2[i] as int == a1[i] + prob.y@[i] * lam,
        a2[j] as int == a1[j] - prob.y@[j] * lam,
    ensures
        obj2(prob, a2) == obj2(prob, a1) + 2 * lam * (prob.y@[i] * grad_model(prob, a1, i)
            - prob.y@[j] * grad_model(prob, a1, j)) + lam * lam * (prob.kernel.at(i, i)
            + prob.kernel.at(j, j) - 2 * prob.kernel.at(i, j)),
{
    let n = prob.n();
    let di = a2[i] - a1[i];
    let dj = a2[j] - a1[j];
    let g1i = grad_model(prob, a1, i);
    let g1j = grad_model(prob, a1, j);
    let g2i = grad_model(prob, a2, i);
    let g2j = grad_model(prob, a2, j);
    // gradients after the step, for every index
    assert forall|k: int| 0 <= k < n implies #[trigger] grad_model(prob, a2, k) == grad_model(
        prob,
        a1,
        k,
    ) + prob.q(k, i) * di + prob.q(k, j) * dj by {
        lemma_grad_model_two_update(prob, a1, a2, i, j, k);
    }
    let t1 = obj2_terms(prob, a1);
    let t2 = obj2_terms(prob, a2);
    // mid: old weights against the new gradients
    let mid = Seq::new(n as nat, |k: int| a1[k] * (grad_model(prob, a2, k) + prob.p@[k]));
    // t2 is mid with the two reweighted entries
    assert forall|k: int| 0 <= k < n implies #[trigger] t2[k] == mid.update(
        i,
        a2[i] * (grad_model(prob, a2, i) + prob.p@[i]),
    ).update(j, a2[j] * (grad_model(prob, a2, j) + prob.p@[j]))[k] by {
        if k != i && k != j {
            assert(a1[k] == a2[k]);
        }
    }
    assert(t2 =~= mid.update(i, a2[i] * (g2i + prob.p@[i])).update(
        j,
        a2[j] * (g2j + prob.p@[j]),
    ));
    lemma_sum_update(mid, i, a2[i] * (g2i + prob.p@[i]));
    lemma_sum_update(
        mid.update(i, a2[i] * (g2i + prob.p@[i])),
        j,
        a2[j] * (g2j + prob.p@[j]),
    );
    assert(mid[i] == a1[i] * (g2i + prob.p@[i]));
    assert(mid[j] == a1[j] * (g2j + prob.p@[j]));
    assert(sum_int(t2) == sum_int(mid) - a1[i] * (g2i + prob.p@[i]) + a2[i] * (g2i + prob.p@[i])
        - a1[j] * (g2j + prob.p@[j]) + a2[j] * (g2j + prob.p@[j]));
    // mid minus t1 is the weighted gradient change
    let dseq = Seq::new(n as nat, |k: int| a1[k] * (prob.q(k, i) * di) + a1[k] * (prob.q(k, j)
        * dj));
    assert forall|k: int| 0 <= k < n implies #[trigger] mid[k] == t1[k] + dseq[k] by {
        let gk1 = grad_model(prob, a1, k);
        assert(a1[k] * (gk1 + prob.q(k, i) * di + prob.q(k, j) * dj + prob.p@[k]) == a1[k] * (gk1
            + prob.p@[k]) + a1[k] * (prob.q(k, i) * di) + a1[k] * (prob.q(k, j) * dj))
            by (nonlinear_arith);
    }
    lemma_sum_add(
        t1,
        dseq,
        Seq::new(n as nat, |k: int| t1[k] + dseq[k]),
    );
    assert(mid =~= Seq::new(n as nat, |k: int| t1[k] + dseq[k]));
    assert(sum_int(mid) == sum_int(t1) + sum_int(dseq));
    // the weighted gradient change splits into two scaled gradient sums
    let si = Seq::new(n as nat, |k: int| di * (prob.q(i, k) * a1[k]));
    let sj = Seq::new(n as nat, |k: int| dj * (prob.q(j, k) * a1[k]));
    assert forall|k: int| 0 <= k < n implies #[trigger] dseq[k] == si[k] + sj[k] by {
        let yi = prob.y@[i] as int;
        let yj = prob.y@[j] as int;
        let yk = prob.y@[k] as int;
        assert(a1[k] * ((yk * yi * prob.kernel.at(k, i)) * di) == di * ((yi * yk
            * prob.kernel.at(i, k)) * a1[k])) by (nonlinear_arith)
            requires
                prob.kernel.at(k, i) == prob.kernel.at(i, k),
        ;
        assert(a1[k] * ((yk * yj * prob.kernel.at(k, j)) * dj) == dj * ((yj * yk
            * prob.kernel.at(j, k)) * a1[k])) by (nonlinear_arith)
            requires
                prob.kernel.at(k, j) == prob.kernel.at(j, k),
        ;
    }
    lemma_sum_add(si, sj, dseq);
    lemma_sum_scale(di, grad_terms(prob, a1, i), si);
    lemma_sum_scale(dj, grad_terms(prob, a1, j), sj);
    assert(sum_int(grad_terms(prob, a1, i)) == g1i - prob.p@[i]);
    assert(sum_int(grad_terms(prob, a1, j)) == g1j - prob.p@[j]);
    assert(sum_int(dseq) == di * (g1i - prob.p@[i]) + dj * (g1j - prob.p@[j]));
    // assemble: the p-terms cancel
    assert(obj2(prob, a2) == obj2(prob, a1) + di * (g1i + g2i) + dj * (g1j + g2j))
        by (nonlinear_arith)
        requires
            obj2(prob, a2) == obj2(prob, a1) + di * (g1i - prob.p@[i]) + dj * (g1j - prob.p@[j])
                - a1[i] * (g2i + prob.p@[i]) + a2[i] * (g2i + prob.p@[i]) - a1[j] * (g2j
                + prob.p@[j]) + a2[j] * (g2j + prob.p@[j]),
            di == a2[i] - a1[i],
            dj == a2[j] - a1[j],
    ;
    // expand the new gradients at i and j and fold the signs
    let yi = prob.y@[i] as int;
    let yj = prob.y@[j] as int;
    let kii = prob.kernel.at(i, i);
    let kjj = prob.kernel.at(j, j);
    let kij = prob.kernel.at(i, j);
    assert(prob.q(i, i) == yi * yi * kii);
    assert(prob.q(i, j) == yi * yj * kij);
    assert(prob.q(j, i) == yj * yi * prob.kernel.at(j, i));
    assert(prob.kernel.at(j, i) == kij);
    lemma_obj2_assemble(yi, yj, kii, kjj, kij, lam, di, dj, g1i, g1j, g2i, g2j);
}

/// The ring identity that folds the +-1 signs out of the pair expansion.
proof fn lemma_obj2_assemble(
    yi: int,
    yj: int,
    kii: int,
    kjj: int,
    kij: int,
    lam: int,
    di: int,
    dj: int,
    g1i: int,
    g1j: int,
    g2i: int,
    g2j: int,
)
    requires
        yi == 1 || yi == -1,
        yj == 1 || yj == -1,
        di == yi * lam,
        dj == -(yj * lam),
        g2i == g1i + (yi * yi * kii) * di + (yi * yj * kij) * dj,
        g2j == g1j + (yj * yi * kij) * di + (yj * yj * kjj) * dj,
    ensures
        di * (g1i + g2i) + dj * (g1j + g2j) == 2 * lam * (yi * g1i - yj * g1j) + lam * lam * (kii
            + kjj - 2 * kij),
{
    if yi == 1 && yj == 1 {
        assert(g2i == g1i + ((kii - kij)) * lam) by (nonlinear_arith)
            requires
                yi == 1,
                yj == 1,
                di == yi * lam,
                dj == -(yj * lam),
                g2i == g1i + (yi * yi * kii) * di + (yi * yj * kij) * dj,
        ;
        assert(g2j == g1j + ((kij - kjj)) * lam) by (nonlinear_arith)
            requires
                yi == 1,
                yj == 1,
                di == yi * lam,
                dj == -(yj * lam),
                g2j == g1j + (yj * yi * kij) * di + (yj * yj * kjj) * dj,
        ;
        lemma_unit_mul(yi, lam);
        lemma_unit_mul(yj, lam);
        lemma_unit_mul(yi, g1i);
        lemma_unit_mul(yj, g1j);
        assert(di == lam && dj == -lam);
        assert((lam) * (g1i + g2i) + (-lam) * (g1j + g2j) == 2 * lam * ((g1i) - (g1j))
            + lam * lam * (kii + kjj - 2 * kij)) by (nonlinear_arith)
            requires
                g2i == g1i + ((kii - kij)) * lam,
                g2j == g1j + ((kij - kjj)) * lam,
        ;
    } else if yi == 1 && yj == -1 {
        assert(g2i == g1i + ((kii - kij)) * lam) by (nonlinear_arith)
            requires
                yi == 1,
                yj == -1,
                di == yi * lam,
                dj == -(yj * lam),
                g2i == g1i + (yi * yi * kii) * di + (yi * yj * kij) * dj,
        ;
        assert(g2j == g1j + (-(kij - kjj)) * lam) by (nonlinear_arith)
            requires
                yi == 1,
                yj == -1,
                di == yi * lam,
                dj == -(yj * lam),
                g2j == g1j + (yj * yi * kij) * di + (yj * yj * kjj) * dj,
        ;
        lemma_unit_mul(yi, lam);
        lemma_unit_mul(yj, lam);
        lemma_unit_mul(yi, g1i);
        lemma_unit_mul(yj, g1j);
        assert(di == lam && dj == lam);
        assert((lam) * (g1i + g2i) + (lam) * (g1j + g2j) == 2 * lam * ((g1i) - (-g1j))
            + lam * lam * (kii + kjj - 2 * kij)) by (nonlinear_arith)
            requires
                g2i == g1i + ((kii - kij)) * lam,
                g2j == g1j + (-(kij - kjj)) * lam,
        ;
    } else if yi == -1 && yj == 1 {
        assert(g2i == g1i + (-(kii - kij)) * lam) by (nonlinear_arith)
            requires
                yi == -1,
                yj == 1,
                di == yi * lam,
                dj == -(yj * lam),
                g2i == g1i + (yi * yi * kii) * di + (yi * yj * kij) * dj,
        ;
        assert(g2j == g1j + ((kij - kjj)) * lam) by (nonlinear_arith)
            requires
                yi == -1,
                yj == 1,
                di == yi * lam,
                dj == -(yj * lam),
                g2j == g1j + (yj * yi * kij) * di + (yj * yj * kjj) * dj,
        ;
        lemma_unit_mul(yi, lam);
        lemma_unit_mul(yj, lam);
        lemma_unit_mul(yi, g1i);
        lemma_unit_mul(yj, g1j);
        assert(di == -lam && dj == -lam);
        assert((-lam) * (g1i + g2i) + (-lam) * (g1j + g2j) == 2 * lam * ((-g1i) - (g1j))
            + lam * lam * (kii + kjj - 2 * kij)) by (nonlinear_arith)
            requires
                g2i == g1i + (-(kii - kij)) * lam,
                g2j == g1j + ((kij - kjj)) * lam,
        ;
    } else {
        assert(g2i == g1i + (-(kii - kij)) * lam) by (nonlinear_arith)
            requires
                yi == -1,
                yj == -1,
                di == yi * lam,
                dj == -(yj * lam),
                g2i == g1i + (yi * yi * kii) * di + (yi * yj * kij) * dj,
        ;
        assert(g2j == g1j + (-(kij - kjj)) * lam) by (nonlinear_arith)
            requires
                yi == -1,
                yj == -1,
                di == yi * lam,
                dj == -(yj * lam),
                g2j == g1j + (yj * yi * kij) * di + (yj * yj * kjj) * dj,
        ;
        lemma_unit_mul(yi, lam);
        lemma_unit_mul(yj, lam);
        lemma_unit_mul(yi, g1i);
        lemma_unit_mul(yj, g1j);
        assert(di == -lam && dj == lam);
        assert((-lam) * (g1i + g2i) + (lam) * (g1j + g2j) == 2 * lam * ((-g1i) - (-g1j))
            + lam * lam * (kii + kjj - 2 * kij)) by (nonlinear_arith)
            requires
                g2i == g1i + (-(kii - kij)) * lam,
                g2j == g1j + (-(kij - kjj)) * lam,
        ;
    }
}

/// One pair step never increases the dual objective (the step is the
/// truncated, clipped minimizer of the exact one-dimensional quadratic).
pub proof fn lemma_step_objective_no_worse(st: SolverState, i: int, j: int, a2: Seq<i64>)
    requires
        st.wf(),
        0 <= i < st.n(),
        0 <= j < st.n(),
        i != j,
        a2.len() == st.n(),
        forall|m: int|
            0 <= m < st.n() && m != i && m != j ==> st.alpha@[m] == #[trigger] a2[m],
        a2[i] as int == stepped_alpha(st, i, j).0,
        a2[j] as int == stepped_alpha(st, i, j).1,
    ensures
        obj2(st.prob, a2) <= obj2(st.prob, st.alpha@),
{
    let lam = step_size(st, i, j);
    let d = step_dir(st, i, j);
    let qd = quad_of(st, i, j);
    let kq = st.prob.kernel.at(i, i) + st.prob.kernel.at(j, j) - 2 * st.prob.kernel.at(i, j);
    assert(st.grad@[i] == grad_model(st.prob, st.alpha@, i));
    assert(st.grad@[j] == grad_model(st.prob, st.alpha@, j));
    assert(in_box(st.prob, st.alpha@, i));
    assert(in_box(st.prob, st.alpha@, j));
    lemma_obj2_two_update(st.prob, st.alpha@, a2, i, j, lam);
    lemma_step_no_worse(d, qd, step_lo(st, i, j), step_hi(st, i, j), lam);
    assert(2 * lam * d + qd * lam * lam <= 0);
    assert(kq * (lam * lam) <= qd * (lam * lam)) by (nonlinear_arith)
        requires
            kq <= qd,
    ;
    assert(lam * lam * kq == kq * (lam * lam)) by (nonlinear_arith);
    assert(lam * lam * qd == qd * (lam * lam)) by (nonlinear_arith);
    assert(qd * lam * lam == qd * (lam * lam)) by (nonlinear_arith);
}

impl SolverState {
    /// The violations of one index from the two sides cancel: an index can
    /// never form a violating pair with itself.
    proof fn lemma_self_pair(self, t: int)
        ensures
            self.viol_up(t) + self.viol_low(t) == 0,
    {
    }

    /// The eligible gradient of an in-range variable is bounded.
    proof fn lemma_viol_bound(self, t: int)
        requires
            self.wf(),
            0 <= t < self.n(),
        ensures
            -GRAD_LIMIT <= self.viol_up(t) <= GRAD_LIMIT,
            -GRAD_LIMIT <= self.viol_low(t) <= GRAD_LIMIT,
            -GRAD_LIMIT <= self.grad@[t] <= GRAD_LIMIT,
    {
        lemma_grad_model_bound(self.prob, self.alpha@, t);
        assert(self.grad@[t] == grad_model(self.prob, self.alpha@, t));
    }

    /// The working-set selector.  Finds the active index with the
    /// largest upward eligible gradient, the largest downward one (their sum
    /// is the KKT violation measure), and a partner chosen by the
    /// second-order gain heuristic with the curvature floored to stay
    /// positive.  Returns `None` exactly when no active eligible pair
    /// violates the KKT conditions at all; ties go to the smallest index,
    /// which keeps the selection deterministic.
    pub fn select_working_set(&self) -> (r: Option<(usize, usize, i64)>)
        requires
            self.wf(),
        ensures
            match r {
                None => self.kkt_active(0),
                Some(pair) => {
                    &&& pair.0 < self.n()
                    &&& pair.1 < self.n()
                    &&& pair.0 != pair.1
                    &&& self.active@[pair.0 as int] && self.up_eligible(pair.0 as int)
                    &&& self.active@[pair.1 as int] && self.low_eligible(pair.1 as int)
                    &&& pair.2 > 0
                    &&& forall|t: int, s: int|
                        0 <= t < self.n() && 0 <= s < self.n() && self.active@[t]
                            && self.active@[s] && #[trigger] self.up_eligible(t)
                            && #[trigger] self.low_eligible(s) ==> self.viol_up(t)
                            + self.viol_low(s) <= pair.2 as int
                    &&& exists|s: int|
                        0 <= s < self.n() && self.active@[s] && #[trigger] self.low_eligible(s)
                            && pair.2 as int == self.viol_up(pair.0 as int) + self.viol_low(s)
                    &&& forall|t: int|
                        0 <= t < self.n() && self.active@[t] && #[trigger] self.up_eligible(t)
                            ==> self.viol_up(t) <= self.viol_up(pair.0 as int)
                    &&& forall|t: int|
                        0 <= t < pair.0 as int && self.active@[t] && #[trigger] self.up_eligible(
                            t,
                        ) ==> self.viol_up(t) < self.viol_up(pair.0 as int)
                    &&& forall|t: int|
                        0 <= t < self.n() && self.active@[t] && #[trigger] self.low_eligible(t)
                            && self.viol_up(pair.0 as int) + self.viol_low(t) > 0 ==> pair_score(
                            *self,
                            pair.0 as int,
                            t,
                        ) <= pair_score(*self, pair.0 as int, pair.1 as int)
                    &&& forall|t: int|
                        0 <= t < pair.1 as int && self.active@[t] && #[trigger] self.low_eligible(
                            t,
                        ) && self.viol_up(pair.0 as int) + self.viol_low(t) > 0 ==> pair_score(
                            *self,
                            pair.0 as int,
                            t,
                        ) < pair_score(*self, pair.0 as int, pair.1 as int)
                },
            },
    {
        let n = self.alpha.len();
        // the index with the largest upward eligible gradient
        let mut best_i: usize = 0;
        let mut best_v: i64 = 0;
        let mut have_i: bool = false;
        let mut t: usize = 0;
        while t < n
            invariant
                t <= n,
                n == self.n(),
                self.wf(),
                have_i ==> best_i < n && self.active@[best_i as int] && self.up_eligible(
                    best_i as int,
                ) && best_v as int == self.viol_up(best_i as int),
                forall|m: int|
                    0 <= m < t && self.active@[m] && #[trigger] self.up_eligible(m) ==> have_i
                        && self.viol_up(m) <= best_v as int,
                forall|m: int|
                    0 <= m < best_i as int && self.active@[m] && #[trigger] self.up_eligible(m)
                        ==> self.viol_up(m) < best_v as int,
            decreases n - t,
        {
            if self.active[t] {
                let yt = self.prob.y[t];
                let at = self.alpha[t];
                let ct = self.prob.bound[t];
                let el = if yt == 1 {
                    at < ct
                } else {
                    at > 0
                };
                if el {
                    proof {
                        self.lemma_viol_bound(t as int);
                    }
                    let g = self.grad[t];
                    let v: i64 = if yt == 1 {
                        -g
                    } else {
                        g
                    };
                    proof {
                        lemma_unit_mul(yt as int, g as int);
                        assert(v as int == self.viol_up(t as int));
                    }
                    if !have_i || v > best_v {
                        have_i = true;
                        best_i = t;
                        best_v = v;
                    }
                }
            }
            t += 1;
        }
        if !have_i {
            return None;
        }
        proof {
            self.lemma_viol_bound(best_i as int);
        }
        // the largest downward eligible gradient, and the second-order partner
        let mut smax_v: i64 = 0;
        let mut have_s: bool = false;
        let mut smax_i: usize = 0;
        let mut best_j: usize = 0;
        let mut have_j: bool = false;
        let mut best_score: u128 = 0;
        let mut t: usize = 0;
        while t < n
            invariant
                t <= n,
                n == self.n(),
                self.wf(),
                best_i < n,
                self.active@[best_i as int],
                self.up_eligible(best_i as int),
                best_v as int == self.viol_up(best_i as int),
                -GRAD_LIMIT <= best_v as int <= GRAD_LIMIT,
                have_s ==> smax_i < n && self.active@[smax_i as int] && self.low_eligible(
                    smax_i as int,
                ) && smax_v as int == self.viol_low(smax_i as int) && -GRAD_LIMIT <= smax_v as int
                    <= GRAD_LIMIT,
                forall|m: int|
                    0 <= m < t && self.active@[m] && #[trigger] self.low_eligible(m) ==> have_s
                        && self.viol_low(m) <= smax_v as int,
                have_j ==> best_j < n && self.active@[best_j as int] && self.low_eligible(
                    best_j as int,
                ) && self.viol_up(best_i as int) + self.viol_low(best_j as int) > 0
                    && best_score as int == pair_score(*self, best_i as int, best_j as int),
                !have_j ==> forall|m: int|
                    0 <= m < t && self.active@[m] && #[trigger] self.low_eligible(m)
                        ==> self.viol_up(best_i as int) + self.viol_low(m) <= 0,
                forall|m: int|
                    0 <= m < t && self.active@[m] && #[trigger] self.low_eligible(m)
                        && self.viol_up(best_i as int) + self.viol_low(m) > 0 ==> have_j
                        && pair_score(*self, best_i as int, m) <= best_score as int,
                forall|m: int|
                    0 <= m < best_j as int && self.active@[m] && #[trigger] self.low_eligible(m)
                        && self.viol_up(best_i as int) + self.viol_low(m) > 0 ==> pair_score(
                        *self,
                        best_i as int,
                        m,
                    ) < best_score as int,
            decreases n - t,
        {
            if self.active[t] {
                let yt = self.prob.y[t];
                let at = self.alpha[t];
                let ct = self.prob.bound[t];
                let el = if yt == 1 {
                    at > 0
                } else {
                    at < ct
                };
                if el {
                    proof {
                        self.lemma_viol_bound(t as int);
                    }
                    let g = self.grad[t];
                    let v: i64 = if yt == 1 {
                        g
                    } else {
                        -g
                    };
                    proof {
                        lemma_unit_mul(yt as int, g as int);
                        assert(v as int == self.viol_low(t as int));
                    }
                    if !have_s || v > smax_v {
                        have_s = true;
                        smax_v = v;
                        smax_i = t;
                    }
                    let b: i64 = best_v + v;
                    if b > 0 {
                        // second-order gain estimate b^2 / curvature
                        let kii = self.prob.kernel.value(best_i, best_i);
                        let ktt = self.prob.kernel.value(t, t);
                        let kit = self.prob.kernel.value(best_i, t);
                        let kq: i64 = kii + ktt - 2 * kit;
                        let quad: i64 = if kq < 1 {
                            1
                        } else {
                            kq
                        };
                        let bu: u128 = b as u128;
                        proof {
                            assert(bu * bu < 0xffff_ffff_ffff_ffff_ffff_ffff_ffff_ffff)
                                by (nonlinear_arith)
                                requires
                                    bu <= 2 * GRAD_LIMIT as u128,
                            ;
                        }
                        let score: u128 = (bu * bu) / (quad as u128);
                        proof {
                            assert(quad as int == quad_of(*self, best_i as int, t as int));
                            assert(bu as int * bu as int == (b as int) * (b as int))
                                by (nonlinear_arith)
                                requires
                                    bu as int == b as int,
                            ;
                            assert(score as int == pair_score(*self, best_i as int, t as int));
                        }
                        if !have_j || score > best_score {
                            have_j = true;
                            best_j = t;
                            best_score = score;
                        }
                    }
                }
            }
            t += 1;
        }
        if !have_s {
            return None;
        }
        proof {
            self.lemma_viol_bound(best_i as int);
        }
        let m: i64 = best_v + smax_v;
        if m <= 0 {
            return None;
        }
        if !have_j {
            proof {
                assert(self.viol_up(best_i as int) + self.viol_low(smax_i as int) > 0);
                assert(false);
            }
        }
        proof {
            if best_j as int == best_i as int {
                self.lemma_self_pair(best_i as int);
                assert(false);
            }
        }
        Some((best_i, best_j, m))
    }
}

impl SolverState {
    /// Starts a run: checks nothing (the adapters have), rebuilds the
    /// gradient from the initial coefficients, and activates every variable.
    pub fn start(prob: Problem, alpha: Vec<i64>) -> (st: SolverState)
        requires
            prob.wf(),
            alpha@.len() == prob.n(),
            forall|k: int| 0 <= k < prob.n() ==> in_box(prob, alpha@, k),
        ensures
            st.wf(),
            st.prob == prob,
            st.alpha@ == alpha@,
            forall|k: int| 0 <= k < st.n() ==> #[trigger] st.active@[k],
    {
        let n = alpha.len();
        let grad = compute_gradient(&prob, &alpha);
        let mut active: Vec<bool> = Vec::new();
        let mut i: usize = 0;
        while i < n
            invariant
                i <= n,
                active@.len() == i as int,
                forall|k: int| 0 <= k < i ==> #[trigger] active@[k],
            decreases n - i,
        {
            active.push(true);
            i += 1;
        }
        SolverState { prob, alpha, grad, active }
    }
}

impl SolverState {
    /// A variable that caps the bias from above: at a bound, with its
    /// `y G` an upper limit on admissible rho values.
    pub open spec fn caps_above(self, t: int) -> bool {
        (self.alpha@[t] == self.prob.bound@[t] && self.prob.y@[t] == -1) || (self.alpha@[t] == 0
            && self.prob.y@[t] == 1)
    }

    /// A variable that caps the bias from below.
    pub open spec fn caps_below(self, t: int) -> bool {
        (self.alpha@[t] == self.prob.bound@[t] && self.prob.y@[t] == 1) || (self.alpha@[t] == 0
            && self.prob.y@[t] == -1)
    }

    /// Number of free variables among the first t.
    pub open spec fn free_cnt(self, t: int) -> int
        decreases t,
    {
        if t <= 0 {
            0
        } else {
            self.free_cnt(t - 1) + if self.is_free(t - 1) {
                1int
            } else {
                0int
            }
        }
    }

    /// Sum of `y G` over the free variables among the first t.
    pub open spec fn free_sum(self, t: int) -> int
        decreases t,
    {
        if t <= 0 {
            0
        } else {
            self.free_sum(t - 1) + if self.is_free(t - 1) {
                self.viol_low(t - 1)
            } else {
                0int
            }
        }
    }

    /// Smallest upper cap on rho among the first t (RHO_CAP when none).
    pub open spec fn cap_min(self, t: int) -> int
        decreases t,
    {
        if t <= 0 {
            RHO_CAP as int
        } else {
            let prev = self.cap_min(t - 1);
            if self.caps_above(t - 1) && self.viol_low(t - 1) < prev {
                self.viol_low(t - 1)
            } else {
                prev
            }
        }
    }

    /// Largest lower cap on rho among the first t (-RHO_CAP when none).
    pub open spec fn cap_max(self, t: int) -> int
        decreases t,
    {
        if t <= 0 {
            -RHO_CAP as int
        } else {
            let prev = self.cap_max(t - 1);
            if self.caps_below(t - 1) && self.viol_low(t - 1) > prev {
                self.viol_low(t - 1)
            } else {
                prev
            }
        }
    }

    /// The bias term: the average KKT residual `y G` of the free support
    /// vectors, falling back to the midpoint of the range admitted by the
    /// bound variables when no free one exists.
    pub open spec fn rho_model(self) -> int {
        if self.free_cnt(self.n()) > 0 {
            trunc_div(self.free_sum(self.n()), self.free_cnt(self.n()))
        } else {
            trunc_div(self.cap_min(self.n()) + self.cap_max(self.n()), 2)
        }
    }

    /// Recovers the bias term rho from the KKT equality conditions
    /// exactly as `rho_model` states it.
    pub fn calculate_rho(&self) -> (r: i64)
        requires
            self.wf(),
        ensures
            r as int == self.rho_model(),
            -RHO_CAP <= r <= RHO_CAP,
    {
        let n = self.alpha.len();
        let mut cnt: usize = 0;
        let mut fsum: i128 = 0;
        let mut cmin: i64 = RHO_CAP;
        let mut cmax: i64 = -RHO_CAP;
        let mut t: usize = 0;
        while t < n
            invariant
                t <= n,
                n == self.n(),
                self.wf(),
                cnt as int == self.free_cnt(t as int),
                cnt <= t,
                fsum == self.free_sum(t as int),
                -((cnt as int) * GRAD_LIMIT) <= fsum <= (cnt as int) * GRAD_LIMIT,
                cmin as int == self.cap_min(t as int),
                cmax as int == self.cap_max(t as int),
                -RHO_CAP <= cmin <= RHO_CAP,
                -RHO_CAP <= cmax <= RHO_CAP,
            decreases n - t,
        {
            let yt = self.prob.y[t];
            let at = self.alpha[t];
            let ct = self.prob.bound[t];
            let g = self.grad[t];
            proof {
                self.lemma_viol_bound(t as int);
                lemma_unit_mul(yt as int, g as int);
            }
            let c: i64 = if yt == 1 {
                g
            } else {
                -g
            };
            proof {
                assert(c as int == self.viol_low(t as int));
            }
            if 0 < at && at < ct {
                cnt += 1;
                fsum = fsum + (c as i128);
                proof {
                    assert((cnt as int - 1) * GRAD_LIMIT + GRAD_LIMIT == (cnt as int) * GRAD_LIMIT)
                        by (nonlinear_arith);
                    assert((-(cnt as int - 1)) * GRAD_LIMIT == -((cnt as int - 1) * GRAD_LIMIT))
                        by (nonlinear_arith);
                }
            } else {
                if (at == ct && yt == -1) || (at == 0 && yt == 1) {
                    if c < cmin {
                        cmin = c;
                    }
                }
                if (at == ct && yt == 1) || (at == 0 && yt == -1) {
                    if c > cmax {
                        cmax = c;
                    }
                }
            }
            t += 1;
        }
        if cnt > 0 {
            proof {
                assert((cnt as int) * GRAD_LIMIT == GRAD_LIMIT * (cnt as int)) by (nonlinear_arith);
                lemma_trunc_div_bound(fsum as int, cnt as int, GRAD_LIMIT as int);
            }
            let q = div_trunc_i128(fsum, cnt as i128);
            q as i64
        } else {
            div_trunc_i64(cmin + cmax, 2)
        }
    }

    /// The dual objective value at termination: half of
    /// `sum_k alpha_k (G_k + p_k)`, rounded toward zero.
    pub fn objective(&self) -> (o: i128)
        requires
            self.wf(),
        ensures
            o as int == trunc_div(obj2(self.prob, self.alpha@), 2),
    {
        let n = self.alpha.len();
        let terms = Ghost(obj2_terms(self.prob, self.alpha@));
        let mut acc: i128 = 0;
        let mut k: usize = 0;
        while k < n
            invariant
                k <= n,
                n == self.n(),
                self.wf(),
                terms@ == obj2_terms(self.prob, self.alpha@),
                acc == sum_int(terms@.take(k as int)),
                -((k as int) * OBJ_TERM_LIMIT) <= acc <= (k as int) * OBJ_TERM_LIMIT,
            decreases n - k,
        {
            let ak = self.alpha[k];
            let gk = self.grad[k];
            let pk = self.prob.p[k];
            proof {
                self.lemma_viol_bound(k as int);
                assert(in_box(self.prob, self.alpha@, k as int));
            }
            let lin: i64 = gk + pk;
            proof {
                assert(-OBJ_TERM_LIMIT <= (ak as int) * (lin as int) <= OBJ_TERM_LIMIT)
                    by (nonlinear_arith)
                    requires
                        0 <= ak as int <= MAX_BOUND,
                        -(GRAD_LIMIT as int + MAX_LINEAR as int) <= lin as int <= GRAD_LIMIT as int
                            + MAX_LINEAR as int,
                        OBJ_TERM_LIMIT == MAX_BOUND as int * (GRAD_LIMIT as int
                            + MAX_LINEAR as int),
                ;
            }
            let term: i128 = (ak as i128) * (lin as i128);
            proof {
                assert(term as int == terms@[k as int]);
                lemma_sum_take_succ(terms@, k as int);
                assert((k as int) * OBJ_TERM_LIMIT + OBJ_TERM_LIMIT == (k as int + 1)
                    * OBJ_TERM_LIMIT) by (nonlinear_arith);
                assert((-(k as int)) * OBJ_TERM_LIMIT == -((k as int) * OBJ_TERM_LIMIT))
                    by (nonlinear_arith);
                assert((-(k as int + 1)) * OBJ_TERM_LIMIT == -((k as int + 1) * OBJ_TERM_LIMIT))
                    by (nonlinear_arith);
            }
            acc = acc + term;
            k += 1;
        }
        proof {
            lemma_sum_take_all(terms@);
            assert((n as int) * OBJ_TERM_LIMIT <= MAX_SAMPLES as int * OBJ_TERM_LIMIT)
                by (nonlinear_arith)
                requires
                    0 <= n as int <= MAX_SAMPLES as int,
            ;
            assert((-(n as int)) * OBJ_TERM_LIMIT == -((n as int) * OBJ_TERM_LIMIT))
                by (nonlinear_arith);
        }
        div_trunc_i128(acc, 2)
    }

    /// Whether every variable is active.
    pub fn all_active(&self) -> (r: bool)
        requires
            self.wf(),
        ensures
            r == forall|t: int| 0 <= t < self.n() ==> self.active@[t],
    {
        let n = self.active.len();
        let mut t: usize = 0;
        while t < n
            invariant
                t <= n,
                n == self.n(),
                self.wf(),
                forall|m: int| 0 <= m < t ==> self.active@[m],
            decreases n - t,
        {
            if !self.active[t] {
                return false;
            }
            t += 1;
        }
        true
    }

    /// Reactivates every variable, undoing shrinking.  The pair optimizer
    /// keeps the gradient exact for active and inactive variables alike, so
    /// reactivation needs no gradient rebuild: a rebuild from scratch is
    /// the identity here, which the wf invariant proves.
    pub fn reconstruct_active(&mut self)
        requires
            old(self).wf(),
        ensures
            final(self).wf(),
            final(self).prob == old(self).prob,
            final(self).alpha@ == old(self).alpha@,
            final(self).grad@ == old(self).grad@,
            forall|t: int| 0 <= t < final(self).n() ==> final(self).active@[t],
    {
        let n = self.active.len();
        let mut t: usize = 0;
        while t < n
            invariant
                t <= n,
                n == self.n(),
                self.wf(),
                self.prob == old(self).prob,
                self.alpha@ == old(self).alpha@,
                self.grad@ == old(self).grad@,
                self.active@.len() == n as int,
                forall|m: int| 0 <= m < t ==> self.active@[m],
            decreases n - t,
        {
            self.active.set(t, true);
            t += 1;
        }
    }

    /// One shrinking round.  Computes the extremes g1, g2 of the upward
    /// and downward eligible gradients over the active set.  Once their sum
    /// (the tracked violation) falls within ten times the stopping
    /// threshold, the active set is fully reconstructed instead, so a
    /// nearly converged solution is validated over the whole problem.
    /// Otherwise exactly the variables stuck at a bound whose blocked
    /// direction's gradient lies strictly beyond the corresponding extreme
    /// are deactivated (`shrink_candidate`); with no eligible variable on
    /// one of the sides nothing changes.  Free variables are never
    /// deactivated, and coefficients and gradient are untouched.
    pub fn do_shrinking(&mut self, eps: i64)
        requires
            old(self).wf(),
            0 <= eps,
        ensures
            final(self).wf(),
            final(self).prob == old(self).prob,
            final(self).alpha@ == old(self).alpha@,
            final(self).grad@ == old(self).grad@,
            ({
                let g1 = old(self).up_max(old(self).n());
                let g2 = old(self).low_max(old(self).n());
                if g1 == -RHO_CAP as int || g2 == -RHO_CAP as int {
                    final(self).active@ == old(self).active@
                } else if g1 + g2 <= 10 * eps {
                    forall|t: int| 0 <= t < final(self).n() ==> #[trigger] final(self).active@[t]
                } else {
                    forall|t: int|
                        0 <= t < final(self).n() ==> #[trigger] final(self).active@[t] == (old(
                            self,
                        ).active@[t] && !old(self).shrink_candidate(t, g1, g2))
                }
            }),
            forall|t: int|
                0 <= t < final(self).n() && old(self).active@[t] && old(self).is_free(t)
                    ==> final(self).active@[t],
    {
        let n = self.alpha.len();
        // extremes of the violating gradients over the active set
        let mut g1: i64 = -RHO_CAP;
        let mut g2: i64 = -RHO_CAP;
        let mut t: usize = 0;
        while t < n
            invariant
                t <= n,
                n == self.n(),
                self.wf(),
                *self == *old(self),
                g1 as int == self.up_max(t as int),
                g2 as int == self.low_max(t as int),
                -RHO_CAP <= g1 <= GRAD_LIMIT,
                -RHO_CAP <= g2 <= GRAD_LIMIT,
            decreases n - t,
        {
            if self.active[t] {
                let yt = self.prob.y[t];
                let at = self.alpha[t];
                let ct = self.prob.bound[t];
                let g = self.grad[t];
                proof {
                    self.lemma_viol_bound(t as int);
                    lemma_unit_mul(yt as int, g as int);
                }
                let up_el = if yt == 1 {
                    at < ct
                } else {
                    at > 0
                };
                let low_el = if yt == 1 {
                    at > 0
                } else {
                    at < ct
                };
                let vu: i64 = if yt == 1 {
                    -g
                } else {
                    g
                };
                let vl: i64 = if yt == 1 {
                    g
                } else {
                    -g
                };
                if up_el && vu > g1 {
                    g1 = vu;
                }
                if low_el && vl > g2 {
                    g2 = vl;
                }
            }
            t += 1;
        }
        if g1 == -RHO_CAP || g2 == -RHO_CAP {
            return ;
        }
        if (g1 as i128) + (g2 as i128) <= 10 * (eps as i128) {
            self.reconstruct_active();
            return ;
        }
        let mut t: usize = 0;
        while t < n
            invariant
                t <= n,
                n == self.n(),
                self.wf(),
                self.prob == old(self).prob,
                self.alpha@ == old(self).alpha@,
                self.grad@ == old(self).grad@,
                g1 as int == old(self).up_max(old(self).n()),
                g2 as int == old(self).low_max(old(self).n()),
                forall|m2: int|
                    0 <= m2 < t ==> #[trigger] self.active@[m2] == (old(self).active@[m2] && !old(
                        self,
                    ).shrink_candidate(m2, g1 as int, g2 as int)),
                forall|m2: int|
                    t <= m2 < self.n() ==> #[trigger] self.active@[m2] == old(self).active@[m2],
            decreases n - t,
        {
            if self.active[t] {
                let yt = self.prob.y[t];
                let at = self.alpha[t];
                let ct = self.prob.bound[t];
                let g = self.grad[t];
                proof {
                    self.lemma_viol_bound(t as int);
                    lemma_unit_mul(yt as int, g as int);
                }
                let up_el = if yt == 1 {
                    at < ct
                } else {
                    at > 0
                };
                let low_el = if yt == 1 {
                    at > 0
                } else {
                    at < ct
                };
                let vu: i64 = if yt == 1 {
                    -g
                } else {
                    g
                };
                let vl: i64 = if yt == 1 {
                    g
                } else {
                    -g
                };
                if (!up_el && vu > g1) || (!low_el && vl > g2) {
                    self.active.set(t, false);
                }
            }
            t += 1;
        }
    }
}

/// What one optimization run returns: the final solver state (coefficients
/// and gradient), the exit reason, the step count, the bias term and the
/// dual objective value.
pub struct SolverOutput {
    pub state: SolverState,
    pub exit_reason: ExitReason,
    pub iterations: usize,
    pub rho: i64,
    pub obj: i128,
}

/// The SMO driver: repeat selection, pair optimization and
/// shrinking until the KKT violation measure falls below the stopping
/// threshold over the full variable set, or the iteration budget runs out.
/// A below-threshold answer on a shrunk active set is never trusted: the
/// active set is reconstructed first and the check repeated on the whole
/// problem.
pub fn solve(prob: Problem, alpha_init: Vec<i64>, params: &SolverParams) -> (out: SolverOutput)
    requires
        prob.wf(),
        params.wf(),
        alpha_init@.len() == prob.n(),
        forall|k: int| 0 <= k < prob.n() ==> in_box(prob, alpha_init@, k),
    ensures
        out.state.wf(),
        out.state.prob == prob,
        out.state.constraint_total() == constraint_sum(prob, alpha_init@),
        out.iterations <= params.max_iter,
        out.exit_reason == ExitReason::ReachedIterations ==> out.iterations == params.max_iter,
        out.exit_reason == ExitReason::ReachedThreshold ==> out.state.kkt_all(params.eps as int),
        out.exit_reason == ExitReason::ReachedThreshold || out.exit_reason
            == ExitReason::ReachedIterations,
        out.rho as int == out.state.rho_model(),
        -RHO_CAP <= out.rho <= RHO_CAP,
        out.obj as int == trunc_div(obj2(prob, out.state.alpha@), 2),
        obj2(prob, out.state.alpha@) <= obj2(prob, alpha_init@),
{
    let ghost alpha0 = alpha_init@;
    let mut st = SolverState::start(prob, alpha_init);
    let mut iter: usize = 0;
    let mut done: bool = false;
    while !done && iter < params.max_iter
        invariant
            st.wf(),
            st.prob == prob,
            params.wf(),
            iter <= params.max_iter,
            st.constraint_total() == constraint_sum(prob, alpha0),
            obj2(prob, st.alpha@) <= obj2(prob, alpha0),
            done ==> st.kkt_all(params.eps as int),
        decreases
                (if done {
                    0int
                } else {
                    1int
                }),
                params.max_iter - iter,
    {
        if params.shrinking && iter % SHRINK_PERIOD == SHRINK_PERIOD - 1 {
            st.do_shrinking(params.eps);
        }
        let sel = st.select_working_set();
        let mut pair_i: usize = 0;
        let mut pair_j: usize = 0;
        let mut have_pair: bool = false;
        match sel {
            None => {},
            Some(pair) => {
                if pair.2 > params.eps {
                    pair_i = pair.0;
                    pair_j = pair.1;
                    have_pair = true;
                }
            },
        }
        if !have_pair {
            proof {
                assert(st.kkt_active(params.eps as int));
            }
            if st.all_active() {
                proof {
                    assert forall|t: int, s: int|
                        0 <= t < st.n() && 0 <= s < st.n() && #[trigger] st.up_eligible(t)
                            && #[trigger] st.low_eligible(s) implies st.viol_up(t) + st.viol_low(
                        s,
                    ) <= params.eps as int by {
                        assert(st.active@[t]);
                        assert(st.active@[s]);
                    }
                }
                done = true;
            } else {
                st.reconstruct_active();
                let sel2 = st.select_working_set();
                let mut stop2: bool = true;
                match sel2 {
                    None => {},
                    Some(pair) => {
                        if pair.2 > params.eps {
                            pair_i = pair.0;
                            pair_j = pair.1;
                            have_pair = true;
                            stop2 = false;
                        }
                    },
                }
                if stop2 {
                    proof {
                        assert(st.kkt_active(params.eps as int));
                        assert forall|t: int, s: int|
                            0 <= t < st.n() && 0 <= s < st.n() && #[trigger] st.up_eligible(t)
                                && #[trigger] st.low_eligible(s) implies st.viol_up(t)
                            + st.viol_low(s) <= params.eps as int by {
                            assert(st.active@[t]);
                            assert(st.active@[s]);
                        }
                    }
                    done = true;
                }
            }
        }
        if have_pair {
            st.update_pair(pair_i, pair_j);
            iter += 1;
        }
    }
    let reason = if done {
        ExitReason::ReachedThreshold
    } else {
        ExitReason::ReachedIterations
    };
    let rho = st.calculate_rho();
    let obj = st.objective();
    SolverOutput { state: st, exit_reason: reason, iterations: iter, rho: rho, obj: obj }
}

} // verus!
