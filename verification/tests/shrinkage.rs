use analytics::shrinkage::{coefficient, Coefficient};
use ndarray::{Array2, Axis};

fn observations() -> Array2<f64> {
    Array2::from_shape_vec(
        (6, 3),
        vec![
            0.01, 0.02, -0.01, //
            0.03, -0.01, 0.02, //
            -0.02, 0.01, 0.00, //
            0.00, 0.03, 0.01, //
            0.02, -0.02, -0.03, //
            -0.01, 0.00, 0.02,
        ],
    )
    .unwrap()
}

/// Forty observations of three assets that share a factor.
fn factor_returns() -> Array2<f64> {
    let mut entries = Vec::new();
    for i in 0..40_i32 {
        let f = ((i * 7) % 11 - 5) as f64 / 100.0;
        entries.push(f + ((i * 3) % 5 - 2) as f64 / 200.0);
        entries.push(2.0 * f + ((i * 5) % 7 - 3) as f64 / 300.0);
        entries.push(-f + ((i * 2) % 3 - 1) as f64 / 100.0);
    }
    Array2::from_shape_vec((40, 3), entries).unwrap()
}

/// The coefficient as a double: the division that the library leaves to its
/// caller, carried out.
fn shrinkage(beta: f64, delta: f64) -> f64 {
    match coefficient(beta.to_bits(), delta.to_bits()) {
        Coefficient::Zero => 0.0,
        Coefficient::Ratio { numerator } => f64::from_bits(numerator) / delta,
    }
}

/// The shrunk estimate, the sample covariance it starts from, and the
/// coefficient: the arithmetic done here, the guards applied by the library.
fn shrunk_estimate(x: &Array2<f64>) -> (Array2<f64>, Array2<f64>, f64) {
    let n = x.nrows();
    let p = x.ncols();
    let mean = x.mean_axis(Axis(0)).unwrap();
    let x = x - &mean.broadcast((n, p)).unwrap();
    let x2 = x.mapv(|v| v * v);
    let emp_cov_trace = x2.sum_axis(Axis(0)) / n as f64;
    let mu = emp_cov_trace.sum() / p as f64;
    let beta_ = x2.t().dot(&x2).sum();
    let delta_ = x.t().dot(&x).mapv(|v| v * v).sum() / (n as f64).powi(2);
    let beta = 1.0 / (p as f64 * n as f64) * (beta_ / n as f64 - delta_);
    let mut delta = delta_ - 2.0 * mu * emp_cov_trace.sum() + p as f64 * mu * mu;
    delta /= p as f64;
    let shrinkage = shrinkage(beta, delta);
    let sample = x.t().dot(&x) / n as f64;
    let mut estimate = sample.clone() * (1.0 - shrinkage);
    for i in 0..p {
        estimate[[i, i]] += shrinkage * mu;
    }
    (estimate, sample, shrinkage)
}

#[test]
fn intensity_below_dispersion_is_the_numerator() {
    assert_eq!(
        coefficient(1.0_f64.to_bits(), 4.0_f64.to_bits()),
        Coefficient::Ratio { numerator: 1.0_f64.to_bits() }
    );
    assert_eq!(shrinkage(1.0, 4.0), 0.25);
}

#[test]
fn intensity_is_capped_at_the_dispersion() {
    assert_eq!(
        coefficient(5.0_f64.to_bits(), 4.0_f64.to_bits()),
        Coefficient::Ratio { numerator: 4.0_f64.to_bits() }
    );
    assert_eq!(shrinkage(5.0, 4.0), 1.0);
    assert_eq!(shrinkage(4.0, 4.0), 1.0);
    assert_eq!(shrinkage(f64::INFINITY, 0.125), 1.0);
}

#[test]
fn no_intensity_gives_no_shrinkage() {
    assert_eq!(coefficient(0.0_f64.to_bits(), 4.0_f64.to_bits()), Coefficient::Zero);
    assert_eq!(coefficient((-0.0_f64).to_bits(), 4.0_f64.to_bits()), Coefficient::Zero);
    assert_eq!(coefficient(0.0_f64.to_bits(), 0.0_f64.to_bits()), Coefficient::Zero);
    assert_eq!(coefficient(0.0_f64.to_bits(), f64::NAN.to_bits()), Coefficient::Zero);
    assert_eq!(shrinkage(0.0, 0.0).to_bits(), 0.0_f64.to_bits());
}

#[test]
fn no_dispersion_under_an_intensity_gives_no_shrinkage() {
    assert_eq!(coefficient(2.0_f64.to_bits(), 0.0_f64.to_bits()), Coefficient::Zero);
    assert_eq!(coefficient(2.0_f64.to_bits(), (-0.0_f64).to_bits()), Coefficient::Zero);
}

#[test]
fn an_intensity_below_zero_is_kept() {
    assert_eq!(
        coefficient((-1.0_f64).to_bits(), 4.0_f64.to_bits()),
        Coefficient::Ratio { numerator: (-1.0_f64).to_bits() }
    );
    assert_eq!(shrinkage(-1.0, 4.0), -0.25);
}

#[test]
fn what_is_not_a_number_yields_to_the_other() {
    assert_eq!(
        coefficient(f64::NAN.to_bits(), 4.0_f64.to_bits()),
        Coefficient::Ratio { numerator: 4.0_f64.to_bits() }
    );
    assert_eq!(
        coefficient(3.0_f64.to_bits(), f64::NAN.to_bits()),
        Coefficient::Ratio { numerator: 3.0_f64.to_bits() }
    );
    assert!(shrinkage(f64::NAN, f64::NAN).is_nan());
    assert!(shrinkage(3.0, f64::NAN).is_nan());
    assert_eq!(shrinkage(f64::NAN, 4.0), 1.0);
}

#[test]
fn coefficient_agrees_with_the_guards_on_doubles() {
    let pool = [
        0.0,
        -0.0,
        5e-324,
        -5e-324,
        1e-12,
        0.125,
        -0.125,
        1.0,
        -1.0,
        3.5,
        1e300,
        -1e300,
        f64::INFINITY,
        f64::NEG_INFINITY,
        f64::NAN,
    ];
    for beta in pool {
        for delta in pool {
            let capped = beta.min(delta);
            let expected = if capped == 0.0 { 0.0 } else { capped / delta };
            let got = shrinkage(beta, delta);
            if expected.is_nan() {
                assert!(got.is_nan(), "{:?} {:?}", beta, delta);
            } else {
                assert_eq!(got.to_bits(), expected.to_bits(), "{:?} {:?}", beta, delta);
            }
        }
    }
}

#[test]
fn shrunk_estimate_is_symmetric_with_variances_not_below_zero() {
    let (estimate, _, _) = shrunk_estimate(&observations());
    for i in 0..3 {
        assert!(estimate[[i, i]] >= 0.0);
        for j in 0..3 {
            assert!((estimate[[i, j]] - estimate[[j, i]]).abs() < 1e-15);
        }
    }
}

#[test]
fn shrunk_estimate_blends_sample_and_target() {
    let (estimate, sample, shrinkage) = shrunk_estimate(&observations());
    assert!(shrinkage > 0.0 && shrinkage <= 1.0, "{:?}", shrinkage);
    let mu = (sample[[0, 0]] + sample[[1, 1]] + sample[[2, 2]]) / 3.0;
    for i in 0..3 {
        for j in 0..3 {
            let target = if i == j { mu } else { 0.0 };
            let blend = (1.0 - shrinkage) * sample[[i, j]] + shrinkage * target;
            assert!((estimate[[i, j]] - blend).abs() < 1e-15, "entry {} {}", i, j);
        }
    }
}

#[test]
fn correlated_returns_are_shrunk_a_little() {
    let (estimate, sample, shrinkage) = shrunk_estimate(&factor_returns());
    assert!((shrinkage - 0.029377229157).abs() < 1e-9, "{:?}", shrinkage);
    let mu = (sample[[0, 0]] + sample[[1, 1]] + sample[[2, 2]]) / 3.0;
    for i in 0..3 {
        assert!(estimate[[i, i]] >= 0.0);
        for j in 0..3 {
            let target = if i == j { mu } else { 0.0 };
            let blend = (1.0 - shrinkage) * sample[[i, j]] + shrinkage * target;
            assert!((estimate[[i, j]] - blend).abs() < 1e-15, "entry {} {}", i, j);
            assert!((estimate[[i, j]] - estimate[[j, i]]).abs() < 1e-15);
        }
    }
}

#[test]
fn a_single_observation_is_not_shrunk() {
    let x = Array2::from_shape_vec((1, 2), vec![0.01, -0.02]).unwrap();
    let (estimate, sample, shrinkage) = shrunk_estimate(&x);
    assert_eq!(shrinkage, 0.0);
    assert_eq!(estimate, sample);
    assert_eq!(estimate, Array2::<f64>::zeros((2, 2)));
}

#[test]
fn shrunk_estimate_repeats_bit_for_bit() {
    let (first, _, _) = shrunk_estimate(&observations());
    let (second, _, _) = shrunk_estimate(&observations());
    for (a, b) in first.iter().zip(second.iter()) {
        assert_eq!(a.to_bits(), b.to_bits());
    }
}
