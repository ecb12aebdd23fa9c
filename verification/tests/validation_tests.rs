use linfa_svm::classification::{fit_c, fit_one_class};
use linfa_svm::regression::fit_epsilon;
use linfa_svm::{ExitReason, Kernel, Svm, SvmError, SvmTask, DEFAULT_EPS, ONE, MAX_KERNEL,
    SUPPORT_THRESHOLD};

fn tiny_kernel() -> Kernel {
    Kernel::from_matrix(vec![vec![ONE, 0], vec![0, ONE]]).unwrap()
}

#[test]
fn kernel_rejects_non_square_matrix() {
    let r = Kernel::from_matrix(vec![vec![ONE, 0], vec![0]]);
    assert_eq!(r.unwrap_err(), SvmError::InvalidKernel);
}

#[test]
fn kernel_rejects_asymmetric_matrix() {
    let r = Kernel::from_matrix(vec![vec![ONE, 1], vec![2, ONE]]);
    assert_eq!(r.unwrap_err(), SvmError::InvalidKernel);
}

#[test]
fn kernel_rejects_out_of_range_entry() {
    let r = Kernel::from_matrix(vec![vec![MAX_KERNEL + 1]]);
    assert_eq!(r.unwrap_err(), SvmError::InvalidKernel);
}

#[test]
fn kernel_rejects_empty_matrix() {
    let r = Kernel::from_matrix(Vec::new());
    assert_eq!(r.unwrap_err(), SvmError::InvalidKernel);
}

#[test]
fn fit_c_rejects_non_positive_c() {
    let params = Svm::params().pos_neg_weights(0, ONE);
    let r = fit_c(&params, tiny_kernel(), &vec![true, false]);
    assert_eq!(r.unwrap_err(), SvmError::InvalidC);
}

#[test]
fn fit_c_rejects_negative_eps() {
    let params = Svm::params().eps(-1);
    let r = fit_c(&params, tiny_kernel(), &vec![true, false]);
    assert_eq!(r.unwrap_err(), SvmError::InvalidEps);
}

#[test]
fn fit_c_rejects_mismatched_labels() {
    let params = Svm::params();
    let r = fit_c(&params, tiny_kernel(), &vec![true]);
    assert_eq!(r.unwrap_err(), SvmError::MismatchedLabels);
}

#[test]
fn one_class_rejects_nu_out_of_range() {
    let params = Svm::params().nu_weight(0);
    let r = fit_one_class(&params, tiny_kernel());
    assert_eq!(r.unwrap_err(), SvmError::InvalidNu);
    let params = Svm::params().nu_weight(ONE + 1);
    let r = fit_one_class(&params, tiny_kernel());
    assert_eq!(r.unwrap_err(), SvmError::InvalidNu);
}

#[test]
fn one_class_rejects_nu_with_unrepresentable_bound() {
    // nu of one integer unit makes 1/(nu n) larger than any box bound
    let params = Svm::params().nu_weight(1);
    let r = fit_one_class(&params, tiny_kernel());
    assert_eq!(r.unwrap_err(), SvmError::InvalidNu);
}

#[test]
fn regression_rejects_target_out_of_range() {
    let params = Svm::params().c_eps(ONE, 0);
    let r = fit_epsilon(&params, tiny_kernel(), &vec![MAX_KERNEL + 1, 0]);
    assert_eq!(r.unwrap_err(), SvmError::InvalidTarget);
}

#[test]
fn regression_rejects_oversized_problem() {
    // 257 samples double to 514 variables, one over the limit
    let n = 257;
    let mut m = vec![vec![0i64; n]; n];
    for i in 0..n {
        m[i][i] = ONE;
    }
    let kernel = Kernel::from_matrix(m).unwrap();
    let params = Svm::params().c_eps(ONE, 0);
    let r = fit_epsilon(&params, kernel, &vec![0; n]);
    assert_eq!(r.unwrap_err(), SvmError::TooManyVariables);
}

#[test]
fn params_builder_keeps_the_configured_task_values() {
    let p = Svm::params();
    assert_eq!(p.c, Some((ONE, ONE)));
    assert_eq!(p.nu, None);
    assert_eq!(p.solver_params.eps, DEFAULT_EPS);
    assert!(!p.solver_params.shrinking);
    let p = p.nu_weight(ONE / 4);
    assert_eq!(p.c, None);
    assert_eq!(p.nu, Some((ONE / 4, ONE / 4)));
    let p = p.c_eps(2 * ONE, ONE / 100);
    assert_eq!(p.c, Some((2 * ONE, ONE / 100)));
    assert_eq!(p.nu, None);
    let p = p.eps(7).shrinking(true).max_iterations(42);
    assert_eq!(p.solver_params.eps, 7);
    assert!(p.solver_params.shrinking);
    assert_eq!(p.solver_params.max_iter, 42);
}

#[test]
fn shrinking_run_matches_plain_run_on_small_problem() {
    let m = vec![
        vec![2 * ONE, ONE, -ONE, 0],
        vec![ONE, 2 * ONE, 0, -ONE],
        vec![-ONE, 0, 2 * ONE, ONE],
        vec![0, -ONE, ONE, 2 * ONE],
    ];
    let labels = vec![true, true, false, false];
    let k1 = Kernel::from_matrix(m.clone()).unwrap();
    let k2 = Kernel::from_matrix(m).unwrap();
    let plain = fit_c(&Svm::params().eps(ONE / 1000), k1, &labels).unwrap();
    let shrunk = fit_c(&Svm::params().eps(ONE / 1000).shrinking(true), k2, &labels).unwrap();
    assert_eq!(plain.alpha, shrunk.alpha);
    assert_eq!(plain.rho, shrunk.rho);
}

#[test]
fn nsupport_ignores_coefficients_below_the_threshold() {
    // the support-vector cut is 1e-5 in fixed point: entries at or below it
    // do not count, entries just above it do
    let model = Svm {
        alpha: vec![0, SUPPORT_THRESHOLD, -SUPPORT_THRESHOLD, SUPPORT_THRESHOLD + 1, -ONE],
        rho: 0,
        r: None,
        exit_reason: ExitReason::ReachedThreshold,
        iterations: 0,
        obj: 0,
        linear_decision: None,
        task: SvmTask::Classification,
    };
    assert_eq!(model.nsupport(), 2);
}
