use contdist::rat::Rat;
use contdist::triangular::Triangular;
use contdist::value::{LogExpr, LogVal, RootExpr, Val};
use rand::RngExt;

fn rat(n: i128, d: i128) -> Rat {
    Rat::new(n, d)
}

fn fin(n: i128, d: i128) -> Val {
    Val::Fin(Rat::new(n, d))
}

fn f(r: &Rat) -> f64 {
    r.num() as f64 / r.den() as f64
}

fn eval_root(e: &RootExpr) -> f64 {
    f(&e.base) + f(&e.coeff) * f(&e.radicand).sqrt()
}

fn eval_log_val(v: &LogVal) -> f64 {
    match v {
        LogVal::NegInf => f64::NEG_INFINITY,
        LogVal::Ln(r) => f(r).ln(),
    }
}

fn eval_log_expr(e: &LogExpr) -> f64 {
    f(&e.base) + f(&e.coeff) * f(&e.arg).ln()
}

fn almost(a: f64, b: f64, prec: f64) -> bool {
    if a == b {
        return true;
    }
    (a - b).abs() < prec
}

fn try_create(min: Val, max: Val, mode: Val) -> Triangular {
    let r = Triangular::new(min, max, mode);
    assert!(r.is_ok());
    r.unwrap()
}

fn create_case(min: Val, max: Val, mode: Val) {
    let n = try_create(min, max, mode);
    assert_eq!(Val::Fin(n.min()), min);
    assert_eq!(Val::Fin(n.max()), max);
    assert_eq!(Val::Fin(n.mode()), mode);
}

fn bad_create_case(min: Val, max: Val, mode: Val) {
    assert!(Triangular::new(min, max, mode).is_err());
}

#[test]
fn triangular_test_create() {
    create_case(fin(-1, 1), fin(1, 1), fin(0, 1));
    create_case(fin(1, 1), fin(2, 1), fin(1, 1));
    create_case(fin(5, 1), fin(25, 1), fin(25, 1));
    create_case(fin(1, 100000), fin(100000, 1), fin(1, 1000));
    create_case(fin(0, 1), fin(1, 1), fin(9, 10));
    create_case(fin(-4, 1), fin(-1, 2), fin(-2, 1));
    create_case(fin(-13039, 1000), fin(842, 100), fin(117, 100));
}

#[test]
fn triangular_test_bad_create() {
    bad_create_case(fin(0, 1), fin(0, 1), fin(0, 1));
    bad_create_case(fin(0, 1), fin(1, 1), fin(-1, 10));
    bad_create_case(fin(0, 1), fin(1, 1), fin(11, 10));
    bad_create_case(fin(0, 1), fin(-1, 1), fin(1, 2));
    bad_create_case(fin(2, 1), fin(1, 1), fin(3, 2));
    bad_create_case(Val::Nan, fin(1, 1), fin(1, 2));
    bad_create_case(fin(1, 5), Val::Nan, fin(1, 2));
    bad_create_case(fin(1, 2), fin(1, 1), Val::Nan);
    bad_create_case(Val::Nan, Val::Nan, Val::Nan);
    bad_create_case(Val::NegInf, fin(1, 1), fin(1, 2));
    bad_create_case(fin(0, 1), Val::PosInf, fin(1, 2));
}

#[test]
fn triangular_test_variance() {
    let test = [
        ((fin(0, 1), fin(1, 1), fin(1, 2)), 0.75 / 18.0),
        ((fin(0, 1), fin(1, 1), fin(3, 4)), 0.8125 / 18.0),
        ((fin(-5, 1), fin(8, 1), fin(-7, 2)), 151.75 / 18.0),
        ((fin(-5, 1), fin(8, 1), fin(5, 1)), 139.0 / 18.0),
        ((fin(-5, 1), fin(-3, 1), fin(-4, 1)), 3.0 / 18.0),
        ((fin(15, 1), fin(134, 1), fin(21, 1)), 13483.0 / 18.0),
    ];
    for &((a, b, c), expect) in test.iter() {
        assert_eq!(f(&try_create(a, b, c).variance()), expect);
    }
}

#[test]
fn test_std_dev() {
    let test = [
        ((fin(0, 1), fin(1, 1), fin(1, 2)), (0.75f64 / 18.0).sqrt()),
        ((fin(0, 1), fin(1, 1), fin(3, 4)), (0.8125f64 / 18.0).sqrt()),
        ((fin(-5, 1), fin(8, 1), fin(-7, 2)), (151.75f64 / 18.0).sqrt()),
        ((fin(-5, 1), fin(8, 1), fin(5, 1)), (139.0f64 / 18.0).sqrt()),
        ((fin(-5, 1), fin(-3, 1), fin(-4, 1)), (3.0f64 / 18.0).sqrt()),
        ((fin(15, 1), fin(134, 1), fin(21, 1)), (13483.0f64 / 18.0).sqrt()),
    ];
    for &((a, b, c), expect) in test.iter() {
        assert_eq!(eval_root(&try_create(a, b, c).std_dev()), expect);
    }
}

#[test]
fn triangular_test_entropy() {
    let test = [
        ((fin(0, 1), fin(1, 1), fin(1, 2)), -0.1931471805599453094172),
        ((fin(0, 1), fin(1, 1), fin(3, 4)), -0.1931471805599453094172),
        ((fin(-5, 1), fin(8, 1), fin(-7, 2)), 2.371802176901591426636),
        ((fin(-5, 1), fin(8, 1), fin(5, 1)), 2.371802176901591426636),
        ((fin(-5, 1), fin(-3, 1), fin(-4, 1)), 0.5),
        ((fin(15, 1), fin(134, 1), fin(21, 1)), 4.585976312551584075938),
    ];
    for &((a, b, c), expect) in test.iter() {
        assert!(almost(eval_log_expr(&try_create(a, b, c).entropy()), expect, 1e-15));
    }
}

#[test]
fn triangular_test_skewness() {
    let test = [
        ((fin(0, 1), fin(1, 1), fin(1, 2)), 0.0),
        ((fin(0, 1), fin(1, 1), fin(3, 4)), -0.4224039833745502226059),
        ((fin(-5, 1), fin(8, 1), fin(-7, 2)), 0.5375093589712976359809),
        ((fin(-5, 1), fin(8, 1), fin(5, 1)), -0.4445991743012595633537),
        ((fin(-5, 1), fin(-3, 1), fin(-4, 1)), 0.0),
        ((fin(15, 1), fin(134, 1), fin(21, 1)), 0.5605920922751860613217),
    ];
    for &((a, b, c), expect) in test.iter() {
        let v = eval_root(&try_create(a, b, c).skewness());
        assert!(almost(v, expect, 1e-14), "skewness {v} vs {expect}");
    }
}

#[test]
fn triangular_test_mode() {
    let test = [
        ((fin(0, 1), fin(1, 1), fin(1, 2)), 0.5),
        ((fin(0, 1), fin(1, 1), fin(3, 4)), 0.75),
        ((fin(-5, 1), fin(8, 1), fin(-7, 2)), -3.5),
        ((fin(-5, 1), fin(8, 1), fin(5, 1)), 5.0),
        ((fin(-5, 1), fin(-3, 1), fin(-4, 1)), -4.0),
        ((fin(15, 1), fin(134, 1), fin(21, 1)), 21.0),
    ];
    for &((a, b, c), expect) in test.iter() {
        assert_eq!(f(&try_create(a, b, c).mode()), expect);
    }
}

#[test]
fn test_median() {
    let test = [
        ((fin(0, 1), fin(1, 1), fin(1, 2)), 0.5),
        ((fin(0, 1), fin(1, 1), fin(3, 4)), 0.6123724356957945245493),
        ((fin(-5, 1), fin(8, 1), fin(-7, 2)), -0.6458082328952913226724),
        ((fin(-5, 1), fin(8, 1), fin(5, 1)), 3.062257748298549652367),
        ((fin(-5, 1), fin(-3, 1), fin(-4, 1)), -4.0),
        ((fin(15, 1), fin(134, 1), fin(21, 1)), 52.00304883716712238797),
    ];
    for &((a, b, c), expect) in test.iter() {
        let m = try_create(a, b, c).median();
        assert!(m.is_some());
        assert!(almost(eval_root(&m.unwrap()), expect, 1e-14));
    }
}

#[test]
fn triangular_test_pdf() {
    let test = [
        ((fin(0, 1), fin(1, 1), fin(1, 2)), rat(-1, 1), 0.0),
        ((fin(0, 1), fin(1, 1), fin(1, 2)), rat(11, 10), 0.0),
        ((fin(0, 1), fin(1, 1), fin(1, 2)), rat(1, 4), 1.0),
        ((fin(0, 1), fin(1, 1), fin(1, 2)), rat(1, 2), 2.0),
        ((fin(0, 1), fin(1, 1), fin(1, 2)), rat(3, 4), 1.0),
        ((fin(-5, 1), fin(8, 1), fin(-7, 2)), rat(-51, 10), 0.0),
        ((fin(-5, 1), fin(8, 1), fin(-7, 2)), rat(81, 10), 0.0),
        ((fin(-5, 1), fin(8, 1), fin(-7, 2)), rat(-4, 1), 0.1025641025641025641026),
        ((fin(-5, 1), fin(8, 1), fin(-7, 2)), rat(-7, 2), 0.1538461538461538461538),
        ((fin(-5, 1), fin(8, 1), fin(-7, 2)), rat(4, 1), 0.05351170568561872909699),
        ((fin(-5, 1), fin(-3, 1), fin(-4, 1)), rat(-51, 10), 0.0),
        ((fin(-5, 1), fin(-3, 1), fin(-4, 1)), rat(-29, 10), 0.0),
        ((fin(-5, 1), fin(-3, 1), fin(-4, 1)), rat(-9, 2), 0.5),
        ((fin(-5, 1), fin(-3, 1), fin(-4, 1)), rat(-4, 1), 1.0),
        ((fin(-5, 1), fin(-3, 1), fin(-4, 1)), rat(-7, 2), 0.5),
    ];
    for &((a, b, c), x, expect) in test.iter() {
        assert_eq!(f(&try_create(a, b, c).pdf(&x)), expect);
    }
}

#[test]
fn triangular_test_ln_pdf() {
    let test = [
        ((fin(0, 1), fin(1, 1), fin(1, 2)), rat(-1, 1), f64::NEG_INFINITY),
        ((fin(0, 1), fin(1, 1), fin(1, 2)), rat(11, 10), f64::NEG_INFINITY),
        ((fin(0, 1), fin(1, 1), fin(1, 2)), rat(1, 4), 0.0),
        ((fin(0, 1), fin(1, 1), fin(1, 2)), rat(1, 2), 2f64.ln()),
        ((fin(0, 1), fin(1, 1), fin(1, 2)), rat(3, 4), 0.0),
        ((fin(-5, 1), fin(8, 1), fin(-7, 2)), rat(-51, 10), f64::NEG_INFINITY),
        ((fin(-5, 1), fin(8, 1), fin(-7, 2)), rat(81, 10), f64::NEG_INFINITY),
        ((fin(-5, 1), fin(8, 1), fin(-7, 2)), rat(-4, 1), 0.1025641025641025641026f64.ln()),
        ((fin(-5, 1), fin(8, 1), fin(-7, 2)), rat(-7, 2), 0.1538461538461538461538f64.ln()),
        ((fin(-5, 1), fin(8, 1), fin(-7, 2)), rat(4, 1), 0.05351170568561872909699f64.ln()),
        ((fin(-5, 1), fin(-3, 1), fin(-4, 1)), rat(-51, 10), f64::NEG_INFINITY),
        ((fin(-5, 1), fin(-3, 1), fin(-4, 1)), rat(-29, 10), f64::NEG_INFINITY),
        ((fin(-5, 1), fin(-3, 1), fin(-4, 1)), rat(-9, 2), 0.5f64.ln()),
        ((fin(-5, 1), fin(-3, 1), fin(-4, 1)), rat(-4, 1), 0.0),
        ((fin(-5, 1), fin(-3, 1), fin(-4, 1)), rat(-7, 2), 0.5f64.ln()),
    ];
    for &((a, b, c), x, expect) in test.iter() {
        assert_eq!(eval_log_val(&try_create(a, b, c).ln_pdf(&x)), expect);
    }
}

#[test]
fn triangular_test_cdf() {
}

#[test]
fn triangular_test_mean() {
    let test = [
        ((fin(0, 1), fin(1, 1), fin(1, 2)), 0.5),
        ((fin(-5, 1), fin(8, 1), fin(-7, 2)), -1.0 / 6.0),
        ((fin(-5, 1), fin(-3, 1), fin(-4, 1)), -4.0),
        ((fin(15, 1), fin(134, 1), fin(21, 1)), 170.0 / 3.0),
    ];
    for &((a, b, c), expect) in test.iter() {
        assert_eq!(f(&try_create(a, b, c).mean()), expect);
    }
}

#[test]
fn triangular_cdf_values_and_monotone() {
    let d = try_create(fin(0, 1), fin(1, 1), fin(1, 2));
    assert_eq!(f(&d.cdf(&rat(-1, 1))), 0.0);
    assert_eq!(f(&d.cdf(&rat(0, 1))), 0.0);
    assert_eq!(f(&d.cdf(&rat(1, 4))), 0.125);
    assert_eq!(f(&d.cdf(&rat(1, 2))), 0.5);
    assert_eq!(f(&d.cdf(&rat(3, 4))), 0.875);
    assert_eq!(f(&d.cdf(&rat(1, 1))), 1.0);
    assert_eq!(f(&d.cdf(&rat(2, 1))), 1.0);
    let e = try_create(fin(-5, 1), fin(8, 1), fin(-7, 2));
    let mut prev = f(&e.cdf(&rat(-6, 1)));
    let mut i: i128 = -60;
    while i <= 90 {
        let cur = f(&e.cdf(&rat(i, 10)));
        assert!(prev <= cur);
        prev = cur;
        i += 1;
    }
    assert_eq!(f(&e.cdf(&rat(-5, 1))), 0.0);
    assert_eq!(f(&e.cdf(&rat(8, 1))), 1.0);
}

#[test]
fn triangular_pdf_agrees_with_exp_ln_pdf() {
    let d = try_create(fin(-5, 1), fin(8, 1), fin(-7, 2));
    let xs = [rat(-6, 1), rat(-4, 1), rat(-7, 2), rat(0, 1), rat(4, 1), rat(9, 1)];
    for x in xs.iter() {
        let p = f(&d.pdf(x));
        match d.ln_pdf(x) {
            LogVal::NegInf => assert_eq!(p, 0.0),
            LogVal::Ln(v) => assert_eq!(f(&v), p),
        }
        let l = eval_log_val(&d.ln_pdf(x)).exp();
        assert!(almost(p, l, 1e-14), "pdf {p} vs exp(ln_pdf) {l}");
    }
}

#[test]
fn triangular_sampling_round_trip() {
    let mut rng = rand::rng();
    let d = try_create(fin(0, 1), fin(1, 1), fin(1, 2));
    let grid: i128 = 16777216;
    let n: u32 = 100000;
    let mut sum = 0.0;
    let mut sum2 = 0.0;
    let mut i: u32 = 0;
    while i < n {
        let un = rng.random_range(0u32..16777216u32) as i128;
        let s = eval_root(&d.sample_transform(&rat(un, grid)));
        sum += s;
        sum2 += s * s;
        i += 1;
    }
    let mean = sum / n as f64;
    let var = sum2 / n as f64 - mean * mean;
    assert!((mean - f(&d.mean())).abs() < 0.01, "empirical mean {mean}");
    assert!((var - f(&d.variance())).abs() < 0.01, "empirical variance {var}");
}
