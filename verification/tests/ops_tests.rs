use dualnum::dual::Dual;
use dualnum::dual2::Dual2;
use dualnum::fixed::Fixed;
use dualnum::numeric::Numeric;
use dualnum::DualError;

fn fx(x: f64) -> Fixed {
    Fixed {
        m: (x * 1e12).round() as i128,
    }
}

fn s(x: &str) -> String {
    x.to_string()
}

#[test]
fn add_add_f64() {
    let d1 = Dual::new(fx(1.0), vec![s("v0"), s("v1")], vec![fx(1.0), fx(2.0)]).unwrap();
    let result = d1.add_scalar(fx(10.0)).add_scalar(fx(15.0));
    let expected = Dual::new(fx(26.0), vec![s("v0"), s("v1")], vec![fx(1.0), fx(2.0)]).unwrap();
    assert!(result == expected);
}

#[test]
fn add_add() {
    let d1 = Dual::new(fx(1.0), vec![s("v0"), s("v1")], vec![fx(1.0), fx(2.0)]).unwrap();
    let d2 = Dual::new(fx(2.0), vec![s("v0"), s("v2")], vec![fx(0.0), fx(3.0)]).unwrap();
    let expected = Dual::new(
        fx(3.0),
        vec![s("v0"), s("v1"), s("v2")],
        vec![fx(1.0), fx(2.0), fx(3.0)],
    )
    .unwrap();
    let result = d1.add(&d2);
    assert!(result == expected);
}

#[test]
fn add_f64_2() {
    let d1 = Dual2::new(
        fx(1.0),
        vec![s("v0"), s("v1")],
        vec![fx(1.0), fx(2.0)],
        Vec::new(),
    )
    .unwrap();
    let result = d1.add_scalar(fx(10.0)).add_scalar(fx(15.0));
    let expected = Dual2::new(
        fx(26.0),
        vec![s("v0"), s("v1")],
        vec![fx(1.0), fx(2.0)],
        Vec::new(),
    )
    .unwrap();
    assert!(result == expected);
}

#[test]
fn add2() {
    let d1 = Dual2::new(
        fx(1.0),
        vec![s("v0"), s("v1")],
        vec![fx(1.0), fx(2.0)],
        Vec::new(),
    )
    .unwrap();
    let d2 = Dual2::new(
        fx(2.0),
        vec![s("v0"), s("v2")],
        vec![fx(0.0), fx(3.0)],
        Vec::new(),
    )
    .unwrap();
    let expected = Dual2::new(
        fx(3.0),
        vec![s("v0"), s("v1"), s("v2")],
        vec![fx(1.0), fx(2.0), fx(3.0)],
        Vec::new(),
    )
    .unwrap();
    let result = d1.add(&d2);
    assert!(result == expected);
}

#[test]
fn test_enum() {
    let f = Numeric::Scalar(fx(2.0));
    let d = Numeric::Dual(Dual::new(fx(3.0), vec![s("x")], vec![]).unwrap());
    let r1 = f.add(&d).unwrap();
    let e1 = Numeric::Dual(Dual::new(fx(5.0), vec![s("x")], vec![]).unwrap());
    assert!(r1.eq_check(&e1).unwrap());

    let r2 = d.add(&d).unwrap();
    let e2 = Numeric::Dual(Dual::new(fx(6.0), vec![s("x")], vec![fx(2.0)]).unwrap());
    assert!(r2.eq_check(&e2).unwrap());
}

#[test]
fn test_enum_mismatch() {
    let d = Numeric::Dual2(Dual2::new(fx(2.0), vec![s("y")], vec![], vec![]).unwrap());
    let d2 = Numeric::Dual(Dual::new(fx(3.0), vec![s("x")], vec![]).unwrap());
    assert_eq!(d.add(&d2).unwrap_err(), DualError::TypeMismatch);
}

#[test]
fn from_dual_into_dual2() {
    let d1 = Dual::new(fx(2.5), vec![s("x"), s("y")], vec![]).unwrap();
    let d2 = Dual2::from_dual(&d1);
    let result = Dual2::new(fx(2.5), vec![s("x"), s("y")], Vec::new(), Vec::new()).unwrap();
    assert!(d2 == result);
}

#[test]
fn from_dual_into_f64() {
    let d1 = Dual::new(fx(2.5), vec![s("x"), s("y")], vec![]).unwrap();
    let v = d1.real_part();
    assert_eq!(v, fx(2.5));
}

#[test]
fn from_dual2_into_dual() {
    let d2 = Dual2::new(fx(2.0), vec![s("x"), s("y")], Vec::new(), Vec::new()).unwrap();
    let d1 = d2.first_order();
    let result = Dual::new(fx(2.0), vec![s("x"), s("y")], Vec::new()).unwrap();
    assert!(d1 == result);
}
