use linfa_svm::classification::{fit_c, fit_one_class};
use linfa_svm::regression::fit_epsilon;
use linfa_svm::{linear_weights, ExitReason, Kernel, Svm, ONE};

fn scale(v: f64) -> i64 {
    (v * ONE as f64).round() as i64
}

/// Linear kernel matrix of scaled points: K[i][j] = x_i . x_j / ONE.
fn linear_matrix(points: &[Vec<i64>]) -> Vec<Vec<i64>> {
    let n = points.len();
    let mut m = vec![vec![0i64; n]; n];
    for i in 0..n {
        for j in 0..n {
            let mut acc: i128 = 0;
            for f in 0..points[i].len() {
                acc += points[i][f] as i128 * points[j][f] as i128;
            }
            m[i][j] = (acc / ONE as i128) as i64;
        }
    }
    m
}

fn gaussian_matrix(points: &[Vec<f64>], gamma: f64) -> Vec<Vec<i64>> {
    let n = points.len();
    let mut m = vec![vec![0i64; n]; n];
    for i in 0..n {
        for j in 0..=i {
            let mut d2 = 0.0;
            for f in 0..points[i].len() {
                let d = points[i][f] - points[j][f];
                d2 += d * d;
            }
            let v = scale((-gamma * d2).exp());
            m[i][j] = v;
            m[j][i] = v;
        }
    }
    m
}

fn separable_2d() -> (Vec<Vec<i64>>, Vec<bool>) {
    let points = vec![
        vec![scale(1.0), scale(1.0)],
        vec![scale(2.0), scale(2.0)],
        vec![scale(-1.0), scale(-1.0)],
        vec![scale(-2.0), scale(-2.0)],
    ];
    let labels = vec![true, true, false, false];
    (points, labels)
}

fn fit_separable(eps: i64, max_iter: usize) -> (Svm, Vec<Vec<i64>>, Vec<Vec<i64>>) {
    let (points, labels) = separable_2d();
    let matrix = linear_matrix(&points);
    let kernel = Kernel::from_matrix(matrix.clone()).unwrap();
    let params = Svm::params().eps(eps).max_iterations(max_iter);
    let model = fit_c(&params, kernel, &labels).unwrap();
    (model, matrix, points)
}

#[test]
fn equality_constraint_holds_after_classification() {
    let (model, _, _) = fit_separable(ONE / 1000, 100000);
    // sum_i label_i alpha_i == 0, exactly (the coefficients carry the label)
    let total: i128 = model.alpha.iter().map(|a| *a as i128).sum();
    assert_eq!(total, 0);
}

#[test]
fn alphas_stay_inside_box_bounds() {
    let (model, _, _) = fit_separable(ONE / 1000, 100000);
    for (i, a) in model.alpha.iter().enumerate() {
        if i < 2 {
            assert!(0 <= *a && *a <= ONE);
        } else {
            assert!(-ONE <= *a && *a <= 0);
        }
    }
}

#[test]
fn objective_is_monotone_across_iteration_caps() {
    // the solver is deterministic, so a longer run extends a shorter one;
    // the minimized dual objective must never increase from step to step
    let mut previous: Option<i128> = None;
    for cap in [0usize, 1, 2, 3, 5, 8, 20, 1000] {
        let (model, _, _) = fit_separable(ONE / 1000, cap);
        if let Some(p) = previous {
            assert!(model.obj <= p, "objective worsened: {} then {}", p, model.obj);
        }
        previous = Some(model.obj);
    }
}

#[test]
fn solver_is_deterministic() {
    let (m1, _, _) = fit_separable(ONE / 1000, 100000);
    let (m2, _, _) = fit_separable(ONE / 1000, 100000);
    assert_eq!(m1.alpha, m2.alpha);
    assert_eq!(m1.rho, m2.rho);
    assert_eq!(m1.obj, m2.obj);
    assert_eq!(m1.iterations, m2.iterations);
    assert_eq!(m1.exit_reason, m2.exit_reason);
}

#[test]
fn converges_by_threshold_on_small_convex_problem() {
    let (model, _, _) = fit_separable(ONE / 1000, 100000);
    assert_eq!(model.exit_reason, ExitReason::ReachedThreshold);
    assert!(model.iterations < 1000);
}

#[test]
fn separable_clusters_margin_points_carry_the_solution() {
    let (model, matrix, points) = fit_separable(ONE / 10000, 100000);
    // the two margin points (1,1) and (-1,-1) are the support vectors
    assert!(model.alpha[0] > 0 && model.alpha[0] < ONE);
    assert!(model.alpha[2] < 0 && model.alpha[2] > -ONE);
    assert_eq!(model.alpha[1], 0);
    assert_eq!(model.alpha[3], 0);
    assert_eq!(model.nsupport(), 2);
    // the decision boundary separates the clusters perfectly
    for i in 0..4 {
        let row = matrix[i].clone();
        let d = model.decision_value(&row);
        if i < 2 {
            assert!(d > 0, "positive sample {} got {}", i, d);
        } else {
            assert!(d < 0, "negative sample {} got {}", i, d);
        }
    }
    // collapsing the linear kernel gives w close to (1/2, 1/2)
    let w = linear_weights(&points, &model.alpha);
    assert_eq!(w.len(), 2);
    assert!((w[0] - ONE / 2).abs() < ONE / 64, "w0 = {}", w[0]);
    assert!((w[1] - ONE / 2).abs() < ONE / 64, "w1 = {}", w[1]);
}

#[test]
fn one_class_flags_a_nu_fraction_as_support_vectors() {
    // 20 points: a tight blob plus two far points; nu = 0.1 caps every
    // alpha at 1/(nu n) = 1/2 and the alphas must sum to one, so the mass
    // lands on the boundary points: roughly 10% support vectors
    let mut points = Vec::new();
    for i in 0..18 {
        let a = i as f64 * 2.399;
        let r = 0.02 + 0.003 * (i as f64);
        points.push(vec![a.sin() * r, a.cos() * r]);
    }
    points.push(vec![0.5, 0.0]);
    points.push(vec![-0.5, 0.0]);
    let matrix = gaussian_matrix(&points, 2.0);
    let kernel = Kernel::from_matrix(matrix).unwrap();
    let params = Svm::params().nu_weight(ONE / 10).eps(ONE / 1000).max_iterations(100000);
    let model = fit_one_class(&params, kernel).unwrap();
    let total: i128 = model.alpha.iter().map(|a| *a as i128).sum();
    assert_eq!(total, ONE as i128);
    for a in model.alpha.iter() {
        assert!(*a >= 0);
    }
    let sv = model.nsupport();
    assert!(sv >= 2 && sv <= 4, "{} support vectors", sv);
}

#[test]
fn epsilon_svr_recovers_the_linear_slope() {
    // noiseless y = 2x on ten points; the collapsed weight approximates 2
    let mut points = Vec::new();
    let mut targets = Vec::new();
    for i in 1..=10 {
        let x = i as f64 / 10.0;
        points.push(vec![scale(x)]);
        targets.push(scale(2.0 * x));
    }
    let matrix = linear_matrix(&points);
    let kernel = Kernel::from_matrix(matrix.clone()).unwrap();
    let params = Svm::params()
        .c_eps(10 * ONE, ONE / 100)
        .eps(ONE / 10000)
        .max_iterations(200000);
    let model = fit_epsilon(&params, kernel, &targets).unwrap();
    let total: i128 = model.alpha.iter().map(|a| *a as i128).sum();
    assert_eq!(total, 0);
    // the dual objective starts at zero and never worsens
    assert!(model.obj <= 0);
    let w = linear_weights(&points, &model.alpha);
    assert_eq!(w.len(), 1);
    assert!((w[0] - 2 * ONE).abs() < ONE / 8, "w = {}", w[0]);
    // every training prediction lies within the tube plus a small slack
    for i in 0..10 {
        let row = matrix[i].clone();
        let predicted = model.decision_value(&row);
        let err = (predicted - targets[i]).abs();
        assert!(err <= ONE / 100 + ONE / 64, "sample {}: err {}", i, err);
    }
}

#[test]
fn summary_reports_exit_reason_and_support_vectors() {
    let (model, _, _) = fit_separable(ONE / 1000, 100000);
    let s = model.summary();
    assert!(s.contains("support vectors"));
    assert!(s.contains("Exited after"));
    let (capped, _, _) = fit_separable(0, 1);
    let s2 = capped.summary();
    assert!(s2.contains("Reached maximal iterations"));
}
