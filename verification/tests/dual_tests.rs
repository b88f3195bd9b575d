use dualnum::dual::Dual;
use dualnum::fixed::Fixed;
use dualnum::DualError;

fn fx(x: f64) -> Fixed {
    Fixed {
        m: (x * 1e12).round() as i128,
    }
}

fn s(x: &str) -> String {
    x.to_string()
}

#[test]
fn new() {
    let x = Dual::new(fx(1.0), vec![s("a"), s("a")], Vec::new()).unwrap();
    assert_eq!(x.real_part(), fx(1.0));
    assert_eq!(x.vars(), vec![s("a")]);
    assert_eq!(x.grad(), vec![fx(1.0)]);
}

#[test]
fn new_with_dual() {
    let x = Dual::new(fx(1.0), vec![s("a"), s("a")], vec![fx(2.5)]).unwrap();
    assert_eq!(x.real_part(), fx(1.0));
    assert_eq!(x.vars(), vec![s("a")]);
    assert_eq!(x.grad(), vec![fx(2.5)]);
}

#[test]
fn new_len_mismatch() {
    let r = Dual::new(fx(1.0), vec![s("a"), s("a")], vec![fx(1.0), fx(2.0)]);
    assert_eq!(r.unwrap_err(), DualError::InvalidLength);
}

#[test]
fn ptr_eq() {
    let x = Dual::new(fx(1.0), vec![s("a")], vec![]).unwrap();
    let y = Dual::new(fx(1.0), vec![s("a")], vec![]).unwrap();
    assert!(x.ptr_eq(&y) == false);
}

#[test]
fn to_new_vars() {
    let x = Dual::new(fx(1.5), vec![s("a"), s("b")], vec![fx(1.0), fx(2.0)]).unwrap();
    let y = Dual::new(fx(2.0), vec![s("a"), s("c")], vec![fx(3.0), fx(3.0)]).unwrap();
    let z = x.to_new_vars(&y.share_vars());
    assert_eq!(z.real_part(), fx(1.5));
    assert!(y.ptr_eq(&z));
    assert_eq!(z.grad(), vec![fx(1.0), fx(0.0)]);
}

#[test]
fn new_from() {
    let x = Dual::new(fx(1.5), vec![s("a"), s("b")], vec![fx(1.0), fx(2.0)]).unwrap();
    let y = Dual::new_from(&x, fx(2.0), vec![s("a"), s("c")], vec![fx(3.0), fx(3.0)]).unwrap();
    assert_eq!(y.real_part(), fx(2.0));
    assert!(y.ptr_eq(&x));
    assert_eq!(y.grad(), vec![fx(3.0), fx(0.0)]);
}

#[test]
fn dual_arithmetic_matches_calculus() {
    // f(a, b) = a * b + a: df/da = b + 1, df/db = a
    let a = Dual::new(fx(3.0), vec![s("a")], vec![]).unwrap();
    let b = Dual::new(fx(4.0), vec![s("b")], vec![]).unwrap();
    let f = a.mul(&b).add(&a);
    assert_eq!(f.real_part(), fx(15.0));
    assert_eq!(f.grad1(&vec![s("a"), s("b")]), vec![fx(5.0), fx(3.0)]);
}

#[test]
fn dual_exp_log_roundtrip_value() {
    let a = Dual::new(fx(1.5), vec![s("a")], vec![]).unwrap();
    let e = a.exp();
    assert!(e.real_part().close(fx(4.481689070338065)));
    // chain rule: d/da exp(a) = exp(a)
    assert!(e.grad1(&vec![s("a")])[0].close(fx(4.481689070338065)));
    let l = e.log();
    assert!(l.real_part().close(fx(1.5)));
}

#[test]
fn dual_pow_and_div() {
    let a = Dual::new(fx(2.0), vec![s("a")], vec![]).unwrap();
    let p = a.pow(3);
    assert_eq!(p.real_part(), fx(8.0));
    // d/da a^3 = 3 a^2 = 12
    assert_eq!(p.grad1(&vec![s("a")])[0], fx(12.0));
    let b = Dual::new(fx(4.0), vec![s("b")], vec![]).unwrap();
    let q = a.div(&b);
    assert!(q.real_part().close(fx(0.5)));
    // d/da (a/b) = 1/b; d/db (a/b) = -a/b^2
    let g = q.grad1(&vec![s("a"), s("b")]);
    assert!(g[0].close(fx(0.25)));
    assert!(g[1].close(fx(-0.125)));
}

#[test]
fn dual_abs_branches() {
    let neg = Dual::new(fx(-2.0), vec![s("a")], vec![fx(1.0)]).unwrap();
    let r = neg.abs();
    assert_eq!(r.real_part(), fx(2.0));
    assert_eq!(r.grad(), vec![fx(-1.0)]);
    // at exactly zero the positive branch is taken
    let zero = Dual::new(fx(0.0), vec![s("a")], vec![fx(1.0)]).unwrap();
    let rz = zero.abs();
    assert_eq!(rz.grad(), vec![fx(1.0)]);
}

#[test]
fn dual_sum_folds_registries() {
    let xs = vec![
        Dual::new(fx(1.0), vec![s("a")], vec![]).unwrap(),
        Dual::new(fx(2.0), vec![s("b")], vec![]).unwrap(),
        Dual::new(fx(3.0), vec![s("a")], vec![]).unwrap(),
    ];
    let total = Dual::sum(&xs);
    assert_eq!(total.real_part(), fx(6.0));
    assert_eq!(total.vars(), vec![s("a"), s("b")]);
    assert_eq!(total.grad(), vec![fx(2.0), fx(1.0)]);
}

#[test]
fn dual_dot_product() {
    let xs = vec![
        Dual::new(fx(5.0), vec![s("b"), s("c")], vec![fx(3.0), fx(1.0)]).unwrap(),
        Dual::new(fx(2.0), vec![s("c")], vec![]).unwrap(),
    ];
    let ys = vec![
        Dual::new(fx(5.0), vec![s("c"), s("b")], vec![fx(1.0), fx(3.0)]).unwrap(),
        Dual::new(fx(4.0), vec![s("b")], vec![]).unwrap(),
    ];
    let r = Dual::dot(&xs, &ys);
    assert_eq!(r.real_part(), fx(33.0));
    // d/db (x0 y0 + x1 y1) = 3*5 + 5*3 = 30, plus x1 * 1 = 2, total 32
    assert_eq!(r.grad1(&vec![s("b")]), vec![fx(32.0)]);
}

#[test]
fn dual_ordering_is_by_real_part() {
    let a = Dual::new(fx(1.0), vec![s("a")], vec![fx(9.0)]).unwrap();
    let b = Dual::new(fx(2.0), vec![s("b")], vec![fx(-9.0)]).unwrap();
    assert!(a < b);
    assert!(b > a);
    assert!(a <= Dual::from_scalar(fx(1.0)));
    assert!(a >= Dual::from_scalar(fx(1.0)));
}
