use dualnum::dual2::Dual2;
use dualnum::fixed::Fixed;

fn fx(x: f64) -> Fixed {
    Fixed {
        m: (x * 1e12).round() as i128,
    }
}

fn s(x: &str) -> String {
    x.to_string()
}

fn d2(real: f64, vars: Vec<String>, grad: Vec<f64>, hess: Vec<f64>) -> Dual2 {
    Dual2::new(
        fx(real),
        vars,
        grad.into_iter().map(fx).collect(),
        hess.into_iter().map(fx).collect(),
    )
    .unwrap()
}

#[test]
fn clone_arc() {
    let d1 = d2(20.0, vec![s("a")], vec![], vec![]);
    let d2 = d1.duplicate();
    assert!(d1.ptr_eq(&d2));
}

#[test]
fn default_dual() {
    let result = Dual2::default();
    let expected = d2(0.0, Vec::new(), Vec::new(), Vec::new());
    assert!(result == expected);
}

#[test]
fn to_new_ordered_vars() {
    let d1 = d2(20.0, vec![s("a")], vec![], vec![]);
    let dd = d2(20.0, vec![s("a"), s("b")], vec![], vec![]);
    let d3 = d1.to_new_vars(&dd.share_vars());
    assert!(d3.ptr_eq(&dd));
    assert!(d3.grad().len() == 2);
    let d4 = dd.to_new_vars(&d1.share_vars());
    assert!(d4.ptr_eq(&d1));
    assert!(d4.grad().len() == 1);
}

#[test]
fn new_dual() {
    d2(2.3, vec![s("a")], Vec::new(), Vec::new());
}

#[test]
fn new_dual_len_mismatch() {
    let r = Dual2::new(fx(2.3), vec![s("a"), s("b")], vec![fx(1.0)], Vec::new());
    assert!(r.is_err());
}

#[test]
fn zero_init() {
    let d = d2(2.3, vec![s("a"), s("b")], Vec::new(), Vec::new());
    for val in d.grad() {
        assert!(val == fx(1.0));
    }
}

#[test]
fn negate() {
    let d = d2(
        2.3,
        vec![s("a"), s("b")],
        vec![2.0, -1.4],
        vec![1.0, -1.0, -1.0, 2.0],
    );
    let n = d.neg();
    assert!(n.real_part() == fx(-2.3));
    assert!(d.ptr_eq(&n));
    assert!(n.grad()[0] == fx(-2.0));
    assert!(n.grad()[1] == fx(1.4));
    // entry at row 1, column 0 of the two-by-two stored Hessian
    assert!(n.hess()[2] == fx(1.0));
}

#[test]
fn eq_ne() {
    // a dual with variables never equals a bare scalar
    assert!(d2(0.0, vec![s("a")], vec![], vec![]) != Dual2::from_scalar(fx(0.0)));
    // a dual with no variables equals the same bare scalar (and reversed)
    assert!(d2(2.0, vec![], vec![], vec![]) == Dual2::from_scalar(fx(2.0)));
    assert!(Dual2::from_scalar(fx(2.0)) == d2(2.0, vec![], vec![], vec![]));
    let d = d2(2.0, vec![s("a")], vec![2.3], vec![]);
    assert!(d == d2(2.0, vec![s("a")], vec![2.3], vec![]));
    assert!(d != d2(2.0, vec![s("b")], vec![2.3], vec![]));
    assert!(d != d2(3.0, vec![s("a")], vec![2.3], vec![]));
    assert!(d != d2(2.0, vec![s("a")], vec![1.3], vec![]));
    // missing variables are zero-filled on reconciliation
    assert!(d == d2(2.0, vec![s("a"), s("b")], vec![2.3, 0.0], vec![]));
}

#[test]
fn dual2_add_f64() {
    let d1 = d2(1.0, vec![s("v0"), s("v1")], vec![1.0, 2.0], Vec::new());
    let result = d1.add_scalar(fx(10.0)).add_scalar(fx(15.0));
    let expected = d2(26.0, vec![s("v0"), s("v1")], vec![1.0, 2.0], Vec::new());
    assert!(result == expected);
}

#[test]
fn dual2_add() {
    let d1 = d2(1.0, vec![s("v0"), s("v1")], vec![1.0, 2.0], Vec::new());
    let dd = d2(2.0, vec![s("v0"), s("v2")], vec![0.0, 3.0], Vec::new());
    let expected = d2(
        3.0,
        vec![s("v0"), s("v1"), s("v2")],
        vec![1.0, 2.0, 3.0],
        Vec::new(),
    );
    let result = d1.add(&dd);
    assert!(result == expected);
}

#[test]
fn sub_f64() {
    let d1 = d2(1.0, vec![s("v0"), s("v1")], vec![1.0, 2.0], Vec::new());
    let result = d1.scalar_sub(fx(10.0)).sub_scalar(fx(15.0));
    let expected = d2(
        -6.0,
        vec![s("v0"), s("v1")],
        vec![-1.0, -2.0],
        Vec::new(),
    );
    assert!(result == expected);
}

#[test]
fn sub() {
    let d1 = d2(1.0, vec![s("v0"), s("v1")], vec![1.0, 2.0], Vec::new());
    let dd = d2(2.0, vec![s("v0"), s("v2")], vec![0.0, 3.0], Vec::new());
    let expected = d2(
        -1.0,
        vec![s("v0"), s("v1"), s("v2")],
        vec![1.0, 2.0, -3.0],
        Vec::new(),
    );
    let result = d1.sub(&dd);
    assert!(result == expected);
}

#[test]
fn mul_f64() {
    let d1 = d2(1.0, vec![s("v0"), s("v1")], vec![1.0, 2.0], Vec::new());
    let result = d1.mul_scalar(fx(10.0)).mul_scalar(fx(2.0));
    let expected = d2(
        20.0,
        vec![s("v0"), s("v1")],
        vec![20.0, 40.0],
        Vec::new(),
    );
    assert!(result == expected);
}

#[test]
fn mul() {
    let d1 = d2(1.0, vec![s("v0"), s("v1")], vec![1.0, 2.0], Vec::new());
    let dd = d2(2.0, vec![s("v0"), s("v2")], vec![0.0, 3.0], Vec::new());
    let expected = d2(
        2.0,
        vec![s("v0"), s("v1"), s("v2")],
        vec![2.0, 4.0, 3.0],
        vec![0.0, 0.0, 1.5, 0.0, 0.0, 3.0, 1.5, 3.0, 0.0],
    );
    let result = d1.mul(&dd);
    assert!(result == expected);
}

#[test]
fn inv() {
    let d1 = d2(1.0, vec![s("v0"), s("v1")], vec![1.0, 2.0], Vec::new());
    let result = d1.mul(&d1.pow(-1));
    let expected = d2(1.0, vec![], vec![], Vec::new());
    assert!(result == expected);
}

#[test]
fn abs() {
    let d1 = d2(-2.0, vec![s("v0"), s("v1")], vec![1.0, 2.0], Vec::new());
    let result = d1.abs();
    let expected = d2(
        2.0,
        vec![s("v0"), s("v1")],
        vec![-1.0, -2.0],
        Vec::new(),
    );
    assert!(result == expected);
}

#[test]
fn div_f64() {
    let d1 = d2(1.0, vec![s("v0"), s("v1")], vec![1.0, 2.0], Vec::new());
    let result = d1.div_scalar(fx(2.0));
    let expected = d2(0.5, vec![s("v0"), s("v1")], vec![0.5, 1.0], Vec::new());
    assert!(result == expected);
}

#[test]
fn f64_div() {
    let d1 = d2(1.0, vec![s("v0"), s("v1")], vec![1.0, 2.0], Vec::new());
    let result = d1.scalar_div(fx(2.0));
    let expected = Dual2::from_scalar(fx(2.0)).div(&d1);
    assert!(result == expected);
}

#[test]
fn div() {
    let d1 = d2(1.0, vec![s("v0"), s("v1")], vec![1.0, 2.0], Vec::new());
    let dd = d2(2.0, vec![s("v0"), s("v2")], vec![0.0, 3.0], Vec::new());
    let expected = d2(
        0.5,
        vec![s("v0"), s("v1"), s("v2")],
        vec![0.5, 1.0, -0.75],
        vec![0.0, 0.0, -0.375, 0.0, 0.0, -0.75, -0.375, -0.75, 1.125],
    );
    let result = d1.div(&dd);
    assert!(result == expected);
}

#[test]
fn ord() {
    let d1 = d2(1.0, vec![s("v0"), s("v1")], vec![1.0, 2.0], Vec::new());
    assert!(d1 < Dual2::from_scalar(fx(2.0)));
    assert!(d1 > Dual2::from_scalar(fx(0.5)));
    assert!(d1 <= Dual2::from_scalar(fx(1.0)));
    assert!(d1 >= Dual2::from_scalar(fx(1.0)));
    assert!(Dual2::from_scalar(fx(1.0)) <= d1);
    assert!(Dual2::from_scalar(fx(1.0)) >= d1);
    assert!(Dual2::from_scalar(fx(2.0)) > d1);
    assert!(Dual2::from_scalar(fx(0.5)) < d1);
    let dd = d2(2.0, vec![s("v0"), s("v2")], vec![1.0, 2.0], Vec::new());
    assert!(dd > d1);
    assert!(d1 < dd);
    let d3 = d2(1.0, vec![s("v3")], vec![10.0], Vec::new());
    assert!(d1 >= d3);
    assert!(d1 <= d3);
}

#[test]
fn exp() {
    let d1 = d2(1.0, vec![s("v0"), s("v1")], vec![1.0, 2.0], Vec::new());
    let result = d1.exp();
    assert!(d1.ptr_eq(&result));
    let c = fx(1.0).exp();
    assert!(c.close(fx(2.718281828459045)));
    let expected = Dual2::new(
        c,
        vec![s("v0"), s("v1")],
        vec![c, c.scale_by(2)],
        vec![c.half(), c, c, c.scale_by(2)],
    )
    .unwrap();
    assert!(result == expected);
}

#[test]
fn log() {
    let d1 = d2(1.0, vec![s("v0"), s("v1")], vec![1.0, 2.0], Vec::new());
    let result = d1.log();
    assert!(d1.ptr_eq(&result));
    let expected = d2(
        0.0,
        vec![s("v0"), s("v1")],
        vec![1.0, 2.0],
        vec![-0.5, -1.0, -1.0, -2.0],
    );
    assert!(result == expected);
}

#[test]
fn grad_manifold() {
    let d1 = d2(
        2.0,
        vec![s("x"), s("y"), s("z")],
        vec![1.0, 2.0, 3.0],
        vec![2.0, 3.0, 4.0, 3.0, 5.0, 6.0, 4.0, 6.0, 7.0],
    );
    let result = d1.grad1_manifold(vec![s("y"), s("z")]);
    assert!(result[0].real_part() == fx(2.0));
    assert!(result[1].real_part() == fx(3.0));
    assert!(result[0].grad() == vec![fx(10.0), fx(12.0)]);
    assert!(result[1].grad() == vec![fx(12.0), fx(14.0)]);
    assert!(result[0].hess() == vec![fx(0.0); 4]);
    assert!(result[1].hess() == vec![fx(0.0); 4]);
}
