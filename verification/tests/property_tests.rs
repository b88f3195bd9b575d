use dualnum::dual::Dual;
use dualnum::dual2::Dual2;
use dualnum::fixed::Fixed;
use dualnum::numeric::Numeric;
use dualnum::DualError;

fn fx(x: f64) -> Fixed {
    Fixed {
        m: (x * 1e12).round() as i128,
    }
}

fn s(x: &str) -> String {
    x.to_string()
}

#[test]
fn construction_round_trip() {
    let d = Dual::new(
        fx(4.5),
        vec![s("u"), s("v"), s("u")],
        vec![fx(1.5), fx(-2.5)],
    )
    .unwrap();
    assert_eq!(d.real_part(), fx(4.5));
    let names = d.vars();
    assert_eq!(names, vec![s("u"), s("v")]);
    assert_eq!(d.grad1(&names), vec![fx(1.5), fx(-2.5)]);

    let defaulted = Dual::new(fx(1.0), vec![s("u"), s("v")], vec![]).unwrap();
    assert_eq!(defaulted.grad1(&defaulted.vars()), vec![fx(1.0), fx(1.0)]);
}

#[test]
fn addition_commutes() {
    let a = Dual::new(fx(1.0), vec![s("a"), s("b")], vec![fx(1.0), fx(2.0)]).unwrap();
    let b = Dual::new(fx(2.0), vec![s("b"), s("c")], vec![fx(4.0), fx(8.0)]).unwrap();
    assert!(a.add(&b) == b.add(&a));
    let a2 = Dual2::new(fx(1.0), vec![s("a"), s("b")], vec![], vec![]).unwrap();
    let b2 = Dual2::new(fx(2.0), vec![s("b"), s("c")], vec![], vec![]).unwrap();
    assert!(a2.add(&b2) == b2.add(&a2));
}

#[test]
fn multiplication_commutes() {
    let a = Dual::new(fx(1.5), vec![s("a"), s("b")], vec![fx(1.0), fx(2.0)]).unwrap();
    let b = Dual::new(fx(-2.0), vec![s("b"), s("c")], vec![fx(4.0), fx(8.0)]).unwrap();
    assert!(a.mul(&b) == b.mul(&a));
    let a2 = Dual2::new(fx(1.5), vec![s("a"), s("b")], vec![], vec![]).unwrap();
    let b2 = Dual2::new(fx(-2.0), vec![s("b"), s("c")], vec![], vec![]).unwrap();
    assert!(a2.mul(&b2) == b2.mul(&a2));
}

#[test]
fn addition_associates() {
    // distinct, overlapping, and identical variable sets
    let cases = vec![
        (vec![s("a")], vec![s("b")], vec![s("c")]),
        (vec![s("a"), s("b")], vec![s("b"), s("c")], vec![s("c"), s("a")]),
        (vec![s("a")], vec![s("a")], vec![s("a")]),
    ];
    for (va, vb, vc) in cases {
        let a = Dual::new(fx(1.0), va, vec![]).unwrap();
        let b = Dual::new(fx(2.0), vb, vec![]).unwrap();
        let c = Dual::new(fx(3.0), vc, vec![]).unwrap();
        assert!(a.add(&b).add(&c) == a.add(&b.add(&c)));
    }
}

#[test]
fn union_correctness() {
    let a = Dual::new(fx(1.0), vec![s("v0"), s("v1")], vec![fx(1.0), fx(2.0)]).unwrap();
    let b = Dual::new(fx(2.0), vec![s("v0"), s("v2")], vec![fx(0.0), fx(3.0)]).unwrap();
    let r = a.add(&b);
    assert_eq!(r.real_part(), fx(3.0));
    assert_eq!(r.vars(), vec![s("v0"), s("v1"), s("v2")]);
    assert_eq!(r.grad(), vec![fx(1.0), fx(2.0), fx(3.0)]);
}

#[test]
fn multiplicative_inverse() {
    // a reciprocal that is exact in twelve decimal digits
    let a = Dual2::new(
        fx(2.0),
        vec![s("a"), s("b")],
        vec![fx(1.5), fx(-0.5)],
        vec![],
    )
    .unwrap();
    let r = a.mul(&a.pow(-1));
    assert!(r == Dual2::from_scalar(fx(1.0)));
}

#[test]
fn second_order_exp_chain_rule() {
    let d = Dual2::new(
        fx(1.0),
        vec![s("v0"), s("v1")],
        vec![fx(1.0), fx(2.0)],
        vec![],
    )
    .unwrap();
    let r = d.exp();
    let e = 2.718281828459045_f64;
    assert!(r.real_part().close(fx(e)));
    let g = r.grad1(&vec![s("v0"), s("v1")]);
    assert!(g[0].close(fx(e)));
    assert!(g[1].close(fx(2.0 * e)));
    // externally visible Hessian, doubled from storage: [[e, 2e], [2e, 4e]]
    let h = r.grad2(&vec![s("v0"), s("v1")]);
    assert!(h[0].close(fx(e)));
    assert!(h[1].close(fx(2.0 * e)));
    assert!(h[2].close(fx(2.0 * e)));
    assert!(h[3].close(fx(4.0 * e)));
}

#[test]
fn reindex_idempotent() {
    let a = Dual::new(fx(1.5), vec![s("a"), s("b")], vec![fx(1.0), fx(2.0)]).unwrap();
    let t = Dual::new(fx(0.0), vec![s("b"), s("c")], vec![]).unwrap();
    let once = a.to_new_vars(&t.share_vars());
    let twice = once.to_new_vars(&t.share_vars());
    assert!(once == twice);
    // reindexing onto a value-equal registry returns an equal value
    let same = a.to_new_vars(&a.share_vars());
    assert!(same == a);
}

#[test]
fn sharing() {
    let x = Dual::new(fx(1.0), vec![s("a"), s("b")], vec![]).unwrap();
    let y = Dual::new(fx(1.0), vec![s("a"), s("b")], vec![]).unwrap();
    assert!(x == y);
    assert!(!x.ptr_eq(&y));
    let z = x.to_new_vars(&y.share_vars());
    assert!(z.ptr_eq(&y));
    assert!(z == x);
}

#[test]
fn manifold_extraction() {
    // stored Hessian is half the externally visible one
    let d = Dual2::new(
        fx(7.0),
        vec![s("x"), s("y"), s("z")],
        vec![fx(1.0), fx(2.0), fx(3.0)],
        vec![
            fx(1.0),
            fx(1.5),
            fx(2.0),
            fx(1.5),
            fx(2.5),
            fx(3.0),
            fx(2.0),
            fx(3.0),
            fx(3.5),
        ],
    )
    .unwrap();
    let r = d.grad1_manifold(vec![s("y"), s("z")]);
    assert_eq!(r.len(), 2);
    assert!(r[0].real_part() == fx(2.0));
    assert!(r[1].real_part() == fx(3.0));
    assert!(r[0].grad() == vec![fx(5.0), fx(6.0)]);
    assert!(r[1].grad() == vec![fx(6.0), fx(7.0)]);
    assert!(r[0].hess() == vec![fx(0.0); 4]);
    assert!(r[1].hess() == vec![fx(0.0); 4]);
}

#[test]
fn type_mismatch_is_always_raised() {
    let d = Numeric::Dual(Dual::new(fx(1.0), vec![s("x")], vec![]).unwrap());
    let d2 = Numeric::Dual2(Dual2::new(fx(2.0), vec![s("x")], vec![], vec![]).unwrap());
    assert_eq!(d.add(&d2).unwrap_err(), DualError::TypeMismatch);
    assert_eq!(d2.add(&d).unwrap_err(), DualError::TypeMismatch);
    assert_eq!(d.sub(&d2).unwrap_err(), DualError::TypeMismatch);
    assert_eq!(d.mul(&d2).unwrap_err(), DualError::TypeMismatch);
    assert_eq!(d2.mul(&d).unwrap_err(), DualError::TypeMismatch);
    assert_eq!(d.div(&d2).unwrap_err(), DualError::TypeMismatch);
    assert_eq!(d.eq_check(&d2).unwrap_err(), DualError::TypeMismatch);
    assert_eq!(d2.lt_check(&d).unwrap_err(), DualError::TypeMismatch);
}

#[test]
fn scalar_never_raises() {
    let f = Numeric::Scalar(fx(2.0));
    let d = Numeric::Dual(Dual::new(fx(1.0), vec![s("x")], vec![]).unwrap());
    let d2 = Numeric::Dual2(Dual2::new(fx(2.0), vec![s("x")], vec![], vec![]).unwrap());
    assert!(f.add(&d).is_ok());
    assert!(d.add(&f).is_ok());
    assert!(f.add(&d2).is_ok());
    assert!(d2.add(&f).is_ok());
    assert!(f.mul(&d).is_ok());
    assert!(d2.mul(&f).is_ok());
    assert!(f.sub(&d2).is_ok());
    assert!(d.sub(&f).is_ok());
    assert!(f.div(&d).is_ok());
    assert!(d2.div(&f).is_ok());
    assert!(f.eq_check(&d).is_ok());
    assert!(d2.lt_check(&f).is_ok());
    assert!(f.add(&Numeric::Scalar(fx(3.0))).is_ok());
}

#[test]
fn scalar_arithmetic_values() {
    assert_eq!(fx(1.5).add(fx(2.25)), fx(3.75));
    assert_eq!(fx(1.5).sub(fx(2.25)), fx(-0.75));
    assert_eq!(fx(1.5).mul(fx(2.0)), fx(3.0));
    assert_eq!(fx(3.0).div(fx(2.0)), fx(1.5));
    assert_eq!(fx(-1.5).abs(), fx(1.5));
    assert_eq!(fx(2.0).fpow(10), fx(1024.0));
    assert_eq!(fx(2.0).fpow(-2), fx(0.25));
    assert_eq!(fx(0.0).exp(), fx(1.0));
    assert_eq!(fx(1.0).ln(), fx(0.0));
    assert!(fx(-1.0).exp().close(fx(0.36787944117144233)));
    assert!(fx(2.0).ln().close(fx(0.6931471805599453)));
    assert!(fx(0.5).ln().close(fx(-0.6931471805599453)));
}

#[test]
fn fractional_power() {
    let a = Dual::new(fx(2.0), vec![s("a")], vec![]).unwrap();
    let r = a.pow_scalar(fx(0.5));
    assert!(r.real_part().close(fx(1.4142135623730951)));
    // d/da sqrt(a) = 1 / (2 sqrt(a))
    assert!(r.grad1(&vec![s("a")])[0].close(fx(0.35355339059327373)));
}

#[test]
fn dual2_vars_from_places_entries() {
    let base = Dual2::new(
        fx(0.0),
        vec![s("x"), s("y"), s("z")],
        vec![],
        vec![],
    )
    .unwrap();
    let d = Dual2::vars_from(
        &base,
        fx(5.0),
        vec![s("y"), s("z")],
        vec![fx(2.0), fx(3.0)],
        vec![fx(1.0), fx(1.5), fx(1.5), fx(2.0)],
    )
    .unwrap();
    assert_eq!(d.vars(), vec![s("x"), s("y"), s("z")]);
    assert!(d.grad() == vec![fx(0.0), fx(2.0), fx(3.0)]);
    // the supplied two-by-two block lands on the y/z rows and columns
    assert!(
        d.hess()
            == vec![
                fx(0.0),
                fx(0.0),
                fx(0.0),
                fx(0.0),
                fx(1.0),
                fx(1.5),
                fx(0.0),
                fx(1.5),
                fx(2.0),
            ]
    );
}

#[test]
fn dual2_sum_folds() {
    let xs = vec![
        Dual2::new(fx(1.0), vec![s("a")], vec![], vec![]).unwrap(),
        Dual2::new(fx(2.0), vec![s("b")], vec![], vec![]).unwrap(),
    ];
    let total = Dual2::sum(&xs);
    assert_eq!(total.real_part(), fx(3.0));
    assert_eq!(total.vars(), vec![s("a"), s("b")]);
}

#[test]
fn invalid_length_errors() {
    assert_eq!(
        Dual::new(fx(1.0), vec![s("a")], vec![fx(1.0), fx(2.0)]).unwrap_err(),
        DualError::InvalidLength
    );
    assert_eq!(
        Dual2::new(fx(1.0), vec![s("a"), s("b")], vec![], vec![fx(1.0)]).unwrap_err(),
        DualError::InvalidLength
    );
}

#[test]
fn grad_lookup_zero_fills() {
    let d = Dual::new(fx(1.0), vec![s("a")], vec![fx(5.0)]).unwrap();
    assert_eq!(d.grad1(&vec![s("q"), s("a")]), vec![fx(0.0), fx(5.0)]);
}
