use contdist::beta::{Beta, Cumulative, Density, LogDensity, LogTerm};
use contdist::rat::Rat;
use contdist::value::{RootExpr, Val};
use rand_distr::Distribution;
use special::Beta as _;
use special::Gamma as _;

fn rat(n: i128, d: i128) -> Rat {
    Rat::new(n, d)
}

fn fin(n: i128, d: i128) -> Val {
    Val::Fin(Rat::new(n, d))
}

fn f(r: &Rat) -> f64 {
    r.num() as f64 / r.den() as f64
}

fn shape_f(v: &Val) -> f64 {
    match v {
        Val::Fin(r) => f(r),
        Val::PosInf => f64::INFINITY,
        Val::NegInf => f64::NEG_INFINITY,
        Val::Nan => f64::NAN,
    }
}

/// Equal, or within a relative tolerance that absorbs the difference between
/// this special-function backend and the one the expected values came from.
fn close(a: f64, b: f64) -> bool {
    if a == b {
        return true;
    }
    if a.is_infinite() || b.is_infinite() {
        return false;
    }
    (a - b).abs() <= 1e-9 * b.abs().max(1e-12)
}

fn eval_root(e: &RootExpr) -> f64 {
    f(&e.base) + f(&e.coeff) * f(&e.radicand).sqrt()
}

fn eval_ln_pdf(d: &Beta, x: &Rat) -> f64 {
    match d.ln_pdf(x) {
        LogDensity::NegInf => f64::NEG_INFINITY,
        LogDensity::PosInf => f64::INFINITY,
        LogDensity::Exact(v) => f(&v),
        LogDensity::General { lower, upper } => {
            let a = shape_f(&d.shape_a());
            let b = shape_f(&d.shape_b());
            let norm = (a + b).ln_gamma().0 - a.ln_gamma().0 - b.ln_gamma().0;
            let term = |t: &LogTerm| match t {
                LogTerm::Zero => 0.0,
                LogTerm::Log { coeff, arg } => f(coeff) * f(arg).ln(),
            };
            norm + term(&lower) + term(&upper)
        }
    }
}

fn eval_pdf(d: &Beta, x: &Rat) -> f64 {
    match d.pdf(x) {
        Density::Zero => 0.0,
        Density::PointMass => f64::INFINITY,
        Density::Finite(v) => f(&v),
        Density::Direct => {
            let a = shape_f(&d.shape_a());
            let b = shape_f(&d.shape_b());
            let bb = (a + b).gamma() / (a.gamma() * b.gamma());
            bb * f(x).powf(a - 1.0) * (1.0 - f(x)).powf(b - 1.0)
        }
        Density::LogSpace => eval_ln_pdf(d, x).exp(),
    }
}

fn eval_cdf(d: &Beta, x: &Rat) -> f64 {
    match d.cdf(x) {
        Cumulative::Exact(v) => f(&v),
        Cumulative::RegBeta => {
            let a = shape_f(&d.shape_a());
            let b = shape_f(&d.shape_b());
            f(x).inc_beta(a, b, a.ln_beta(b))
        }
    }
}

fn try_create(a: Val, b: Val) -> Beta {
    let r = Beta::new(a, b);
    assert!(r.is_ok());
    r.unwrap()
}

#[test]
fn beta_test_create() {
    let valid = [
        (fin(1, 1), fin(1, 1)),
        (fin(9, 1), fin(1, 1)),
        (fin(5, 1), fin(100, 1)),
        (fin(1, 1), Val::PosInf),
        (Val::PosInf, fin(1, 1)),
    ];
    for &(a, b) in valid.iter() {
        let d = try_create(a, b);
        assert_eq!(d.shape_a(), a);
        assert_eq!(d.shape_b(), b);
    }
}

#[test]
fn beta_test_bad_create() {
    let invalid = [
        (fin(0, 1), fin(0, 1)),
        (fin(0, 1), fin(1, 10)),
        (fin(1, 1), fin(0, 1)),
        (fin(0, 1), Val::PosInf),
        (Val::PosInf, fin(0, 1)),
        (Val::Nan, fin(1, 1)),
        (fin(1, 1), Val::Nan),
        (Val::Nan, Val::Nan),
        (fin(1, 1), fin(-1, 1)),
        (fin(-1, 1), fin(1, 1)),
        (fin(-1, 1), fin(-1, 1)),
    ];
    for &(a, b) in invalid.iter() {
        assert!(Beta::new(a, b).is_err());
    }
}

#[test]
fn test_mean() {
    let test = [
        ((fin(1, 1), fin(1, 1)), 0.5),
        ((fin(9, 1), fin(1, 1)), 0.9),
        ((fin(5, 1), fin(100, 1)), 0.047619047619047619047616),
        ((fin(1, 1), Val::PosInf), 0.0),
        ((Val::PosInf, fin(1, 1)), 1.0),
    ];
    for &((a, b), expect) in test.iter() {
        assert_eq!(f(&try_create(a, b).mean().unwrap()), expect);
    }
    assert!(try_create(Val::PosInf, Val::PosInf).mean().is_none());
}

#[test]
fn beta_test_variance() {
    let test = [
        ((fin(1, 1), fin(1, 1)), 1.0 / 12.0),
        ((fin(9, 1), fin(1, 1)), 9.0 / 1100.0),
        ((fin(5, 1), fin(100, 1)), 500.0 / 1168650.0),
        ((fin(1, 1), Val::PosInf), 0.0),
        ((Val::PosInf, fin(1, 1)), 0.0),
    ];
    for &((a, b), expect) in test.iter() {
        assert_eq!(f(&try_create(a, b).variance().unwrap()), expect);
    }
    assert!(try_create(Val::PosInf, Val::PosInf).variance().is_none());
}

#[test]
fn beta_test_entropy() {
    let test = [
        ((fin(9, 1), fin(1, 1)), -1.3083356884473304939016015),
        ((fin(5, 1), fin(100, 1)), -2.52016231876027436794592),
        ((fin(1, 1), fin(1, 1)), 0.0),
    ];
    for &((a, b), expect) in test.iter() {
        let e = try_create(a, b).entropy().unwrap();
        let av = f(&e.0);
        let bv = f(&e.1);
        let val = av.ln_beta(bv) - (av - 1.0) * av.digamma() - (bv - 1.0) * bv.digamma() + (av + bv
            - 2.0) * (av + bv).digamma();
        assert!(close(val, expect), "entropy {val} vs {expect}");
    }
    assert!(try_create(fin(1, 1), Val::PosInf).entropy().is_none());
    assert!(try_create(Val::PosInf, fin(1, 1)).entropy().is_none());
    assert!(try_create(Val::PosInf, Val::PosInf).entropy().is_none());
}

#[test]
fn beta_test_skewness() {
    let test = [
        ((fin(1, 1), fin(1, 1)), 0.0),
        ((fin(9, 1), fin(1, 1)), -1.4740554623801777107177478829),
        ((fin(5, 1), fin(100, 1)), 0.817594109275534303545831591),
        ((fin(1, 1), Val::PosInf), 2.0),
        ((Val::PosInf, fin(1, 1)), -2.0),
        ((Val::PosInf, Val::PosInf), 0.0),
    ];
    for &((a, b), expect) in test.iter() {
        let v = eval_root(&try_create(a, b).skewness().unwrap());
        assert!(close(v, expect), "skewness {v} vs {expect}");
    }
}

#[test]
fn beta_test_mode() {
    assert_eq!(
        f(&try_create(fin(5, 1), fin(100, 1)).mode().unwrap()),
        0.038834951456310676243255386
    );
    assert_eq!(f(&try_create(fin(92, 1), Val::PosInf).mode().unwrap()), 0.0);
    assert_eq!(f(&try_create(Val::PosInf, fin(2, 1)).mode().unwrap()), 1.0);
    assert!(try_create(Val::PosInf, Val::PosInf).mode().is_none());
}

#[test]
#[should_panic]
fn test_mode_shape_a_lte_1() {
    try_create(fin(1, 1), fin(5, 1)).mode().unwrap();
}

#[test]
#[should_panic]
fn test_mode_shape_b_lte_1() {
    try_create(fin(5, 1), fin(1, 1)).mode().unwrap();
}

#[test]
fn test_min_max() {
    let d = try_create(fin(1, 1), fin(1, 1));
    assert_eq!(f(&d.min()), 0.0);
    assert_eq!(f(&d.max()), 1.0);
}

#[test]
fn test_pdf() {
    let test = [
        ((fin(1, 1), fin(1, 1)), rat(0, 1), 1.0),
        ((fin(1, 1), fin(1, 1)), rat(1, 2), 1.0),
        ((fin(1, 1), fin(1, 1)), rat(1, 1), 1.0),
        ((fin(9, 1), fin(1, 1)), rat(0, 1), 0.0),
        ((fin(9, 1), fin(1, 1)), rat(1, 2), 0.03515625),
        ((fin(9, 1), fin(1, 1)), rat(1, 1), 9.0),
        ((fin(5, 1), fin(100, 1)), rat(0, 1), 0.0),
        ((fin(5, 1), fin(100, 1)), rat(1, 2), 4.534102298350337661e-23),
        ((fin(5, 1), fin(100, 1)), rat(1, 1), 0.0),
        ((fin(1, 1), Val::PosInf), rat(0, 1), f64::INFINITY),
        ((fin(1, 1), Val::PosInf), rat(1, 2), 0.0),
        ((fin(1, 1), Val::PosInf), rat(1, 1), 0.0),
        ((Val::PosInf, fin(1, 1)), rat(0, 1), 0.0),
        ((Val::PosInf, fin(1, 1)), rat(1, 2), 0.0),
        ((Val::PosInf, fin(1, 1)), rat(1, 1), f64::INFINITY),
        ((Val::PosInf, Val::PosInf), rat(0, 1), 0.0),
        ((Val::PosInf, Val::PosInf), rat(1, 2), f64::INFINITY),
        ((Val::PosInf, Val::PosInf), rat(1, 1), 0.0),
    ];
    for &((a, b), x, expect) in test.iter() {
        let v = eval_pdf(&try_create(a, b), &x);
        assert!(v == expect || close(v, expect), "pdf {v} vs {expect}");
    }
}

#[test]
fn test_pdf_input_lt_0() {
    assert_eq!(eval_pdf(&try_create(fin(1, 1), fin(1, 1)), &rat(-1, 1)), 0.0);
}

#[test]
fn test_pdf_input_gt_0() {
    assert_eq!(eval_pdf(&try_create(fin(1, 1), fin(1, 1)), &rat(2, 1)), 0.0);
}

#[test]
fn test_ln_pdf() {
    let test = [
        ((fin(1, 1), fin(1, 1)), rat(0, 1), 0.0),
        ((fin(1, 1), fin(1, 1)), rat(1, 2), 0.0),
        ((fin(1, 1), fin(1, 1)), rat(1, 1), 0.0),
        ((fin(9, 1), fin(1, 1)), rat(0, 1), f64::NEG_INFINITY),
        ((fin(9, 1), fin(1, 1)), rat(1, 2), -3.347952867143343092547366497),
        ((fin(9, 1), fin(1, 1)), rat(1, 1), 2.1972245773362193827904904738),
        ((fin(5, 1), fin(100, 1)), rat(0, 1), f64::NEG_INFINITY),
        ((fin(5, 1), fin(100, 1)), rat(1, 2), -51.447830024537682154565870),
        ((fin(5, 1), fin(100, 1)), rat(1, 1), f64::NEG_INFINITY),
        ((fin(1, 1), Val::PosInf), rat(0, 1), f64::INFINITY),
        ((fin(1, 1), Val::PosInf), rat(1, 2), f64::NEG_INFINITY),
        ((fin(1, 1), Val::PosInf), rat(1, 1), f64::NEG_INFINITY),
        ((Val::PosInf, fin(1, 1)), rat(0, 1), f64::NEG_INFINITY),
        ((Val::PosInf, fin(1, 1)), rat(1, 2), f64::NEG_INFINITY),
        ((Val::PosInf, fin(1, 1)), rat(1, 1), f64::INFINITY),
        ((Val::PosInf, Val::PosInf), rat(0, 1), f64::NEG_INFINITY),
        ((Val::PosInf, Val::PosInf), rat(1, 2), f64::INFINITY),
        ((Val::PosInf, Val::PosInf), rat(1, 1), f64::NEG_INFINITY),
    ];
    for &((a, b), x, expect) in test.iter() {
        let v = eval_ln_pdf(&try_create(a, b), &x);
        assert!(v == expect || close(v, expect), "ln_pdf {v} vs {expect}");
    }
}

#[test]
fn test_ln_pdf_input_lt_0() {
    assert_eq!(
        eval_ln_pdf(&try_create(fin(1, 1), fin(1, 1)), &rat(-1, 1)),
        f64::NEG_INFINITY
    );
}

#[test]
fn test_ln_pdf_input_gt_1() {
    assert_eq!(
        eval_ln_pdf(&try_create(fin(1, 1), fin(1, 1)), &rat(2, 1)),
        f64::NEG_INFINITY
    );
}

#[test]
fn test_cdf() {
    let test = [
        ((fin(1, 1), fin(1, 1)), rat(0, 1), 0.0),
        ((fin(1, 1), fin(1, 1)), rat(1, 2), 0.5),
        ((fin(1, 1), fin(1, 1)), rat(1, 1), 1.0),
        ((fin(9, 1), fin(1, 1)), rat(0, 1), 0.0),
        ((fin(9, 1), fin(1, 1)), rat(1, 2), 0.001953125),
        ((fin(9, 1), fin(1, 1)), rat(1, 1), 1.0),
        ((fin(5, 1), fin(100, 1)), rat(0, 1), 0.0),
        ((fin(5, 1), fin(100, 1)), rat(1, 2), 1.0),
        ((fin(5, 1), fin(100, 1)), rat(1, 1), 1.0),
        ((fin(1, 1), Val::PosInf), rat(0, 1), 1.0),
        ((fin(1, 1), Val::PosInf), rat(1, 2), 1.0),
        ((fin(1, 1), Val::PosInf), rat(1, 1), 1.0),
        ((Val::PosInf, fin(1, 1)), rat(0, 1), 0.0),
        ((Val::PosInf, fin(1, 1)), rat(1, 2), 0.0),
        ((Val::PosInf, fin(1, 1)), rat(1, 1), 1.0),
        ((Val::PosInf, Val::PosInf), rat(0, 1), 0.0),
        ((Val::PosInf, Val::PosInf), rat(1, 2), 1.0),
        ((Val::PosInf, Val::PosInf), rat(1, 1), 1.0),
    ];
    for &((a, b), x, expect) in test.iter() {
        let v = eval_cdf(&try_create(a, b), &x);
        assert!(v == expect || close(v, expect), "cdf {v} vs {expect}");
    }
}

#[test]
fn test_cdf_input_lt_0() {
    assert_eq!(eval_cdf(&try_create(fin(1, 1), fin(1, 1)), &rat(-1, 1)), 0.0);
}

#[test]
fn test_cdf_input_gt_1() {
    assert_eq!(eval_cdf(&try_create(fin(1, 1), fin(1, 1)), &rat(2, 1)), 1.0);
}

fn check_continuous_distribution(d: &Beta, x_min: i128, x_max: i128) {
    // Numerically integrate the density and compare with the cumulative
    // probability at interior checkpoints.
    let steps: i128 = 2000;
    let span = x_max - x_min;
    let dx = span as f64 / steps as f64;
    let mut acc = 0.0;
    let mut i: i128 = 0;
    while i < steps {
        let lo = eval_pdf(d, &rat(x_min * steps + i * span, steps));
        let hi = eval_pdf(d, &rat(x_min * steps + (i + 1) * span, steps));
        acc += 0.5 * (lo + hi) * dx;
        if (i + 1) % 200 == 0 {
            let cdf = eval_cdf(d, &rat(x_min * steps + (i + 1) * span, steps));
            assert!(
                (acc - cdf).abs() < 5e-3,
                "integral {acc} vs cdf {cdf} at step {i}"
            );
        }
        i += 1;
    }
    assert!((acc - 1.0).abs() < 5e-3, "total mass {acc}");
}

#[test]
fn test_continuous() {
    check_continuous_distribution(&try_create(fin(6, 5), fin(17, 5)), 0, 1);
    check_continuous_distribution(&try_create(fin(9, 2), fin(67, 10)), 0, 1);
}

#[test]
fn beta_pdf_agrees_with_exp_ln_pdf() {
    let params = [
        (fin(1, 1), fin(1, 1)),
        (fin(9, 1), fin(1, 1)),
        (fin(5, 1), fin(100, 1)),
        (fin(200, 1), fin(3, 2)),
        (fin(1, 1), Val::PosInf),
        (Val::PosInf, Val::PosInf),
    ];
    let xs = [rat(1, 10), rat(1, 2), rat(9, 10), rat(1, 3)];
    for &(a, b) in params.iter() {
        let d = try_create(a, b);
        for x in xs.iter() {
            let p = eval_pdf(&d, x);
            let l = eval_ln_pdf(&d, x).exp();
            assert!(p == l || close(p, l), "pdf {p} vs exp(ln_pdf) {l}");
        }
    }
}

#[test]
fn beta_cdf_monotone_scenario() {
    let d = try_create(fin(9, 1), fin(1, 1));
    let mut prev = eval_cdf(&d, &rat(-1, 1));
    let mut i: i128 = 0;
    while i <= 12 {
        let cur = eval_cdf(&d, &rat(i, 10));
        assert!(prev <= cur);
        prev = cur;
        i += 1;
    }
    assert_eq!(eval_cdf(&d, &rat(-3, 1)), 0.0);
    assert_eq!(eval_cdf(&d, &rat(1, 1)), 1.0);
}

#[test]
fn beta_sampling_round_trip() {
    let mut rng = rand::rng();
    let ga = rand_distr::Gamma::new(2.0f64, 1.0f64).unwrap();
    let gb = rand_distr::Gamma::new(3.0f64, 1.0f64).unwrap();
    let grid: i128 = 65536;
    let mut sum = 0.0;
    let mut n = 0u32;
    while n < 40000 {
        let xv: f64 = ga.sample(&mut rng);
        let yv: f64 = gb.sample(&mut rng);
        let xn = ((xv * grid as f64) as i128).clamp(0, 16777215);
        let yn = ((yv * grid as f64) as i128).clamp(0, 16777215);
        if xn == 0 && yn == 0 {
            continue;
        }
        let draw = Beta::sample_ratio(&rat(xn, grid), &rat(yn, grid));
        sum += f(&draw);
        n += 1;
    }
    let d = try_create(fin(2, 1), fin(3, 1));
    let want = f(&d.mean().unwrap());
    let got = sum / 40000.0;
    assert!((got - want).abs() < 0.02, "empirical mean {got} vs {want}");
}
