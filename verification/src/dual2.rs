//! The second-order dual number: a scalar with a gradient and a Hessian over
//! named variables.
//!
//! The Hessian is stored row-major at the registry's dimension, under the
//! convention that the stored matrix carries an implicit factor of one half:
//! construction accepts it as given, the second-order product and chain rules
//! keep it consistent, and extraction doubles it back to the literal second
//! derivative. Operations mirror the first-order type with a Hessian update
//! added; every contract states the result as a pure function of the
//! operands' models.

use crate::dual::{common_vars, lookup_in, DualSpec};
use crate::fixed::{
    add_v, close_v, div_v, exp_v, fpow_v, half_v, imul_v, ln_v, mul_v, neg_v, seq_vals, sub_v,
    Fixed, SCALE,
};
use crate::vars::{arc_clone, arc_get, arc_ptr_eq, dedup_names, subset_names, NameSeq, Vars};
use crate::DualError;
use std::sync::Arc;
use vstd::prelude::*;

verus! {

/// A row-major flat matrix as a sequence of rows.
pub open spec fn hmat(h: Seq<int>, n: int) -> Seq<Seq<int>> {
    Seq::new(n as nat, |i: int| Seq::new(n as nat, |j: int| h[i * n + j]))
}

/// The mathematical value of a second-order dual number.
pub struct Dual2Spec {
    pub real: int,
    pub vars: NameSeq,
    pub grad: Seq<int>,
    pub hess: Seq<Seq<int>>,
}

/// Well-formedness of a model: a duplicate-free registry indexing the
/// gradient and a square Hessian one-to-one.
pub open spec fn wf2_model(d: Dual2Spec) -> bool {
    &&& d.vars.no_duplicates()
    &&& d.grad.len() == d.vars.len()
    &&& d.hess.len() == d.vars.len()
    &&& forall|i: int| 0 <= i < d.hess.len() ==> #[trigger] d.hess[i].len() == d.vars.len()
}

/// The sensitivity of a second-order model to a name.
pub open spec fn lookup2(d: Dual2Spec, x: Seq<char>) -> int {
    lookup_in(d.vars, d.grad, x)
}

/// The stored second-order entry for a pair of names, zero where either name
/// is absent from the registry.
pub open spec fn hlookup(d: Dual2Spec, x: Seq<char>, y: Seq<char>) -> int {
    if d.vars.contains(x) && d.vars.contains(y) {
        d.hess[d.vars.index_of(x)][d.vars.index_of(y)]
    } else {
        0
    }
}

/// In a duplicate-free registry, the second-order entry for the names at
/// positions `i` and `j` is exactly the stored entry there.
pub proof fn lemma_hlookup_at(d: Dual2Spec, i: int, j: int)
    requires
        wf2_model(d),
        0 <= i < d.vars.len(),
        0 <= j < d.vars.len(),
    ensures
        hlookup(d, d.vars[i], d.vars[j]) == d.hess[i][j],
{
    assert(d.vars.contains(d.vars[i]));
    assert(d.vars.contains(d.vars[j]));
    let a = d.vars.index_of(d.vars[i]);
    let b = d.vars.index_of(d.vars[j]);
    assert(d.vars[a] == d.vars[i]);
    assert(d.vars[b] == d.vars[j]);
    assert(a == i);
    assert(b == j);
}

/// Re-expression of a second-order model over a target registry: gradient
/// entries and Hessian rows and columns are permuted and zero-padded by the
/// same index map.
pub open spec fn reindex2_model(d: Dual2Spec, t: NameSeq) -> Dual2Spec {
    Dual2Spec {
        real: d.real,
        vars: t,
        grad: Seq::new(t.len(), |j: int| lookup2(d, t[j])),
        hess: Seq::new(t.len(), |i: int| Seq::new(t.len(), |j: int| hlookup(d, t[i], t[j]))),
    }
}

/// Re-expressing a second-order model over its own registry leaves it
/// unchanged.
pub proof fn lemma_reindex2_self(d: Dual2Spec)
    requires
        wf2_model(d),
    ensures
        reindex2_model(d, d.vars) == d,
{
    assert forall|j: int| 0 <= j < d.vars.len() implies lookup2(d, d.vars[j]) == d.grad[j] by {
        crate::dual::lemma_lookup_at(d.vars, d.grad, j);
    }
    assert(reindex2_model(d, d.vars).grad =~= d.grad);
    assert forall|i: int, j: int|
        0 <= i < d.vars.len() && 0 <= j < d.vars.len() implies hlookup(d, d.vars[i], d.vars[j])
        == d.hess[i][j] by {
        lemma_hlookup_at(d, i, j);
    }
    assert(reindex2_model(d, d.vars).hess =~~= d.hess);
}

/// Addition of two second-order models over the reconciled registry.
pub open spec fn add2_model(a: Dual2Spec, b: Dual2Spec) -> Dual2Spec {
    let u = common_vars(a.vars, b.vars);
    Dual2Spec {
        real: add_v(a.real, b.real),
        vars: u,
        grad: Seq::new(u.len(), |j: int| add_v(lookup2(a, u[j]), lookup2(b, u[j]))),
        hess: Seq::new(
            u.len(),
            |i: int|
                Seq::new(
                    u.len(),
                    |j: int| add_v(hlookup(a, u[i], u[j]), hlookup(b, u[i], u[j])),
                ),
        ),
    }
}

/// Subtraction of two second-order models over the reconciled registry.
pub open spec fn sub2_model(a: Dual2Spec, b: Dual2Spec) -> Dual2Spec {
    let u = common_vars(a.vars, b.vars);
    Dual2Spec {
        real: sub_v(a.real, b.real),
        vars: u,
        grad: Seq::new(u.len(), |j: int| sub_v(lookup2(a, u[j]), lookup2(b, u[j]))),
        hess: Seq::new(
            u.len(),
            |i: int|
                Seq::new(
                    u.len(),
                    |j: int| sub_v(hlookup(a, u[i], u[j]), hlookup(b, u[i], u[j])),
                ),
        ),
    }
}

/// Multiplication of two second-order models: the product rule on gradients,
/// and on Hessians the two scaled operand Hessians plus the symmetrized
/// outer product of the gradients, halved to keep the storage convention.
pub open spec fn mul2_model(a: Dual2Spec, b: Dual2Spec) -> Dual2Spec {
    let u = common_vars(a.vars, b.vars);
    Dual2Spec {
        real: mul_v(a.real, b.real),
        vars: u,
        grad: Seq::new(
            u.len(),
            |j: int| add_v(mul_v(lookup2(a, u[j]), b.real), mul_v(lookup2(b, u[j]), a.real)),
        ),
        hess: Seq::new(
            u.len(),
            |i: int|
                Seq::new(
                    u.len(),
                    |j: int|
                        add_v(
                            add_v(
                                mul_v(hlookup(a, u[i], u[j]), b.real),
                                mul_v(hlookup(b, u[i], u[j]), a.real),
                            ),
                            half_v(
                                add_v(
                                    mul_v(lookup2(a, u[i]), lookup2(b, u[j])),
                                    mul_v(lookup2(a, u[j]), lookup2(b, u[i])),
                                ),
                            ),
                        ),
                ),
        ),
    }
}

/// Negation of a second-order model.
pub open spec fn neg2_model(d: Dual2Spec) -> Dual2Spec {
    Dual2Spec {
        real: neg_v(d.real),
        vars: d.vars,
        grad: Seq::new(d.grad.len(), |j: int| neg_v(d.grad[j])),
        hess: Seq::new(
            d.hess.len(),
            |i: int| Seq::new(d.hess[i].len(), |j: int| neg_v(d.hess[i][j])),
        ),
    }
}

/// A scalar added to a second-order model.
pub open spec fn add2_scalar_model(d: Dual2Spec, s: int) -> Dual2Spec {
    Dual2Spec { real: add_v(d.real, s), vars: d.vars, grad: d.grad, hess: d.hess }
}

/// A scalar subtracted from a second-order model.
pub open spec fn sub2_scalar_model(d: Dual2Spec, s: int) -> Dual2Spec {
    Dual2Spec { real: sub_v(d.real, s), vars: d.vars, grad: d.grad, hess: d.hess }
}

/// A scalar minus a second-order model: gradient and Hessian flip sign.
pub open spec fn scalar_sub2_model(s: int, d: Dual2Spec) -> Dual2Spec {
    Dual2Spec {
        real: sub_v(s, d.real),
        vars: d.vars,
        grad: Seq::new(d.grad.len(), |j: int| neg_v(d.grad[j])),
        hess: Seq::new(
            d.hess.len(),
            |i: int| Seq::new(d.hess[i].len(), |j: int| neg_v(d.hess[i][j])),
        ),
    }
}

/// A second-order model scaled by a scalar.
pub open spec fn mul2_scalar_model(d: Dual2Spec, s: int) -> Dual2Spec {
    Dual2Spec {
        real: mul_v(d.real, s),
        vars: d.vars,
        grad: Seq::new(d.grad.len(), |j: int| mul_v(d.grad[j], s)),
        hess: Seq::new(
            d.hess.len(),
            |i: int| Seq::new(d.hess[i].len(), |j: int| mul_v(d.hess[i][j], s)),
        ),
    }
}

/// A second-order model divided by a scalar.
pub open spec fn div2_scalar_model(d: Dual2Spec, s: int) -> Dual2Spec {
    Dual2Spec {
        real: div_v(d.real, s),
        vars: d.vars,
        grad: Seq::new(d.grad.len(), |j: int| div_v(d.grad[j], s)),
        hess: Seq::new(
            d.hess.len(),
            |i: int| Seq::new(d.hess[i].len(), |j: int| div_v(d.hess[i][j], s)),
        ),
    }
}

/// A second-order model raised to an integer power: the chain rule scales
/// the gradient by `p * real^(p-1)`, and the Hessian adds the second-order
/// Taylor term: the gradient's outer product scaled by half of
/// `p * (p-1) * real^(p-2)`.
pub open spec fn pow2_model(d: Dual2Spec, p: int) -> Dual2Spec {
    let coeff = imul_v(fpow_v(d.real, p - 1), p);
    let coeff2 = half_v(imul_v(fpow_v(d.real, p - 2), p * (p - 1)));
    Dual2Spec {
        real: fpow_v(d.real, p),
        vars: d.vars,
        grad: Seq::new(d.grad.len(), |j: int| mul_v(d.grad[j], coeff)),
        hess: Seq::new(
            d.hess.len(),
            |i: int|
                Seq::new(
                    d.hess[i].len(),
                    |j: int|
                        add_v(
                            mul_v(d.hess[i][j], coeff),
                            mul_v(mul_v(d.grad[i], d.grad[j]), coeff2),
                        ),
                ),
        ),
    }
}

/// The exponential of a second-order model: gradient and adjusted Hessian
/// are scaled by the exponential of the real part, the Hessian after adding
/// half the gradient's outer product.
pub open spec fn exp2_model(d: Dual2Spec) -> Dual2Spec {
    let c = exp_v(d.real);
    Dual2Spec {
        real: c,
        vars: d.vars,
        grad: Seq::new(d.grad.len(), |j: int| mul_v(d.grad[j], c)),
        hess: Seq::new(
            d.hess.len(),
            |i: int|
                Seq::new(
                    d.hess[i].len(),
                    |j: int| mul_v(add_v(d.hess[i][j], half_v(mul_v(d.grad[i], d.grad[j]))), c),
                ),
        ),
    }
}

/// The natural logarithm of a second-order model: the gradient is scaled by
/// the reciprocal of the real part, and the Hessian subtracts half the
/// gradient's outer product scaled by the squared reciprocal.
pub open spec fn log2_model(d: Dual2Spec) -> Dual2Spec {
    let c = div_v(SCALE as int, d.real);
    Dual2Spec {
        real: ln_v(d.real),
        vars: d.vars,
        grad: Seq::new(d.grad.len(), |j: int| mul_v(d.grad[j], c)),
        hess: Seq::new(
            d.hess.len(),
            |i: int|
                Seq::new(
                    d.hess[i].len(),
                    |j: int|
                        sub_v(
                            mul_v(d.hess[i][j], c),
                            half_v(mul_v(mul_v(d.grad[i], d.grad[j]), mul_v(c, c))),
                        ),
                ),
        ),
    }
}

/// The absolute value of a second-order model, with the positive branch
/// taken at a real part of exactly zero.
pub open spec fn abs2_model(d: Dual2Spec) -> Dual2Spec {
    if d.real >= 0 {
        d
    } else {
        neg2_model(d)
    }
}

/// Tolerant equality of two second-order models: exact real parts, and
/// after reconciliation every gradient and Hessian entry within tolerance.
pub open spec fn eq2_model(a: Dual2Spec, b: Dual2Spec) -> bool {
    let u = common_vars(a.vars, b.vars);
    &&& a.real == b.real
    &&& forall|j: int|
        0 <= j < u.len() ==> close_v(lookup2(a, #[trigger] u[j]), lookup2(b, u[j]))
    &&& forall|i: int, j: int|
        0 <= i < u.len() && 0 <= j < u.len() ==> close_v(
            hlookup(a, #[trigger] u[i], #[trigger] u[j]),
            hlookup(b, u[i], u[j]),
        )
}

/// The additive identity: a zero scalar over the empty registry.
pub open spec fn zero2_model() -> Dual2Spec {
    Dual2Spec { real: 0, vars: Seq::empty(), grad: Seq::empty(), hess: Seq::empty() }
}

/// Summation of a sequence of second-order models: a left fold of addition
/// starting from the additive identity.
pub open spec fn sum2_models(s: Seq<Dual2Spec>) -> Dual2Spec
    decreases s.len(),
{
    if s.len() == 0 {
        zero2_model()
    } else {
        add2_model(sum2_models(s.drop_last()), s.last())
    }
}

/// The model a fresh second-order dual number is built from: the registry is
/// the deduplicated name list, an omitted gradient defaults to one per name,
/// and an omitted Hessian defaults to all zeros.
pub open spec fn new2_model(value: int, names: NameSeq, grad: Seq<int>, hess: Seq<int>) -> Dual2Spec {
    let vars = dedup_names(names);
    let n = vars.len() as int;
    Dual2Spec {
        real: value,
        vars: vars,
        grad: if grad.len() == 0 {
            Seq::new(vars.len(), |j: int| SCALE as int)
        } else {
            grad
        },
        hess: if hess.len() == 0 {
            Seq::new(vars.len(), |i: int| Seq::new(vars.len(), |j: int| 0))
        } else {
            hmat(hess, n)
        },
    }
}

/// The stored entry of a square matrix for a pair of names looked up in a
/// registry, zero where either name is absent.
pub open spec fn pair_lookup(s: NameSeq, h: Seq<Seq<int>>, x: Seq<char>, y: Seq<char>) -> int {
    if s.contains(x) && s.contains(y) {
        h[s.index_of(x)][s.index_of(y)]
    } else {
        0
    }
}

/// The model built by `vars_from`: the target registry `t` is adopted, and
/// the supplied gradient and Hessian entries are placed at the positions of
/// their names, zero elsewhere; an omitted gradient defaults to one per
/// supplied name and an omitted Hessian to all zeros.
pub open spec fn vars_from_model(
    t: NameSeq,
    value: int,
    s: NameSeq,
    g: Seq<int>,
    h: Seq<int>,
) -> Dual2Spec {
    let gg = if g.len() == 0 {
        Seq::new(s.len(), |i: int| SCALE as int)
    } else {
        g
    };
    let hh = if h.len() == 0 {
        Seq::new(s.len(), |i: int| Seq::new(s.len(), |j: int| 0))
    } else {
        hmat(h, s.len() as int)
    };
    Dual2Spec {
        real: value,
        vars: t,
        grad: Seq::new(t.len(), |k: int| lookup_in(s, gg, t[k])),
        hess: Seq::new(
            t.len(),
            |k: int| Seq::new(t.len(), |l: int| pair_lookup(s, hh, t[k], t[l])),
        ),
    }
}

/// The sequence of first-order-style values extracted by the manifold
/// decomposition: one value per requested name, whose own real part is that
/// name's gradient entry and whose gradient is the doubled Hessian row
/// restricted to the requested names, with a zero second-order component.
pub open spec fn manifold_model(d: Dual2Spec, t: NameSeq) -> Seq<Dual2Spec> {
    Seq::new(
        t.len(),
        |i: int|
            Dual2Spec {
                real: lookup2(d, t[i]),
                vars: t,
                grad: Seq::new(t.len(), |j: int| imul_v(hlookup(d, t[i], t[j]), 2)),
                hess: Seq::new(t.len(), |a: int| Seq::new(t.len(), |b: int| 0)),
            },
    )
}

/// The first-order projection of a second-order model: the Hessian is
/// dropped.
pub open spec fn first_order_of(d: Dual2Spec) -> DualSpec {
    DualSpec { real: d.real, vars: d.vars, grad: d.grad }
}

/// The second-order lift of a first-order model: the Hessian is zero-filled
/// at full dimension.
pub open spec fn second_order_of(d: DualSpec) -> Dual2Spec {
    Dual2Spec {
        real: d.real,
        vars: d.vars,
        grad: d.grad,
        hess: Seq::new(d.vars.len(), |i: int| Seq::new(d.vars.len(), |j: int| 0)),
    }
}

/// A second-order dual number: a scalar value, one partial derivative per
/// registered variable name, and a square Hessian stored row-major under the
/// half-storage convention.
#[derive(Debug)]
pub struct Dual2 {
    real: Fixed,
    vars: Arc<Vars>,
    grad: Vec<Fixed>,
    hess: Vec<Fixed>,
}

impl View for Dual2 {
    type V = Dual2Spec;

    closed spec fn view(&self) -> Dual2Spec {
        Dual2Spec {
            real: self.real@,
            vars: self.vars@,
            grad: seq_vals(self.grad@),
            hess: hmat(seq_vals(self.hess@), self.vars@.len() as int),
        }
    }
}

impl DeepView for Dual2 {
    type V = Dual2Spec;

    open spec fn deep_view(&self) -> Dual2Spec {
        self.view()
    }
}

/// A pair of valid grid positions names a flat index inside the matrix.
proof fn lemma_grid(i: int, j: int, n: int)
    requires
        0 <= i < n,
        0 <= j < n,
    ensures
        0 <= i * n + j < n * n,
        i * n + j <= n * n - n + j,
{
    assert(i * n + j < n * n && i * n + j <= n * n - n + j) by (nonlinear_arith)
        requires
            0 <= i < n,
            0 <= j < n,
    {
    }
}

/// A grid position in an earlier row lies before the current row's start.
proof fn lemma_grid_before(a: int, b: int, i: int, n: int)
    requires
        0 <= a < i,
        0 <= b < n,
    ensures
        0 <= a * n + b,
        a * n + b < i * n,
{
    assert(0 <= a * n + b && a * n + b < i * n) by (nonlinear_arith)
        requires
            0 <= a < i,
            0 <= b < n,
    {
    }
}

/// Finishing a row advances the flat length by exactly one row.
proof fn lemma_grid_row_end(i: int, n: int)
    ensures
        i * n + n == (i + 1) * n,
{
    assert(i * n + n == (i + 1) * n) by (nonlinear_arith) {
    }
}

/// An entrywise transformation of a scalar vector.
enum MapRule {
    Neg,
    MulBy,
    DivBy,
}

/// The exact outcome of one entry of an entrywise transformation.
spec fn map_val(rule: MapRule, x: int, s: int) -> int {
    match rule {
        MapRule::Neg => neg_v(x),
        MapRule::MulBy => mul_v(x, s),
        MapRule::DivBy => div_v(x, s),
    }
}

/// Apply an entrywise transformation to a scalar vector.
fn map_vec(v: &Vec<Fixed>, rule: MapRule, s: Fixed) -> (r: Vec<Fixed>)
    ensures
        r@.len() == v@.len(),
        forall|k: int| 0 <= k < v@.len() ==> seq_vals(r@)[k] == map_val(rule, seq_vals(v@)[k], s@),
{
    let mut out: Vec<Fixed> = Vec::new();
    let mut k: usize = 0;
    while k < v.len()
        invariant
            k <= v@.len(),
            out@.len() == k,
            forall|t: int| 0 <= t < k ==> seq_vals(out@)[t] == map_val(rule, seq_vals(v@)[t], s@),
        decreases v@.len() - k,
    {
        let e = match rule {
            MapRule::Neg => v[k].neg(),
            MapRule::MulBy => v[k].mul(s),
            MapRule::DivBy => v[k].div(s),
        };
        let ghost pre = out@;
        out.push(e);
        proof {
            assert(seq_vals(out@) =~= seq_vals(pre).push(e@));
        }
        k = k + 1;
    }
    out
}

/// An entrywise combination of two scalar vectors.
enum ZipRule {
    Plus,
    Minus,
}

/// The exact outcome of one entry of an entrywise combination.
spec fn zip_val(rule: ZipRule, x: int, y: int) -> int {
    match rule {
        ZipRule::Plus => add_v(x, y),
        ZipRule::Minus => sub_v(x, y),
    }
}

/// Combine two equally long scalar vectors entrywise.
fn zip_vec(x: &Vec<Fixed>, y: &Vec<Fixed>, rule: ZipRule) -> (r: Vec<Fixed>)
    requires
        x@.len() == y@.len(),
    ensures
        r@.len() == x@.len(),
        forall|k: int|
            0 <= k < x@.len() ==> seq_vals(r@)[k] == zip_val(
                rule,
                seq_vals(x@)[k],
                seq_vals(y@)[k],
            ),
{
    let mut out: Vec<Fixed> = Vec::new();
    let mut k: usize = 0;
    while k < x.len()
        invariant
            k <= x@.len(),
            y@.len() == x@.len(),
            out@.len() == k,
            forall|t: int|
                0 <= t < k ==> seq_vals(out@)[t] == zip_val(rule, seq_vals(x@)[t], seq_vals(y@)[t]),
        decreases x@.len() - k,
    {
        let e = match rule {
            ZipRule::Plus => x[k].add(y[k]),
            ZipRule::Minus => x[k].sub(y[k]),
        };
        let ghost pre = out@;
        out.push(e);
        proof {
            assert(seq_vals(out@) =~= seq_vals(pre).push(e@));
        }
        k = k + 1;
    }
    out
}

/// The unary second-order update rules: each combines a stored Hessian entry
/// with the matching gradient outer-product entry and one or two scalar
/// coefficients.
enum HessRule {
    Expo,
    Loga,
    Power,
}

/// The exact outcome of one Hessian entry under a unary update rule.
spec fn hess_entry(rule: HessRule, h: int, gi: int, gj: int, c: int, c2: int) -> int {
    match rule {
        HessRule::Expo => mul_v(add_v(h, half_v(mul_v(gi, gj))), c),
        HessRule::Loga => sub_v(mul_v(h, c), half_v(mul_v(mul_v(gi, gj), c2))),
        HessRule::Power => add_v(mul_v(h, c), mul_v(mul_v(gi, gj), c2)),
    }
}

/// Apply a unary second-order update rule across a flat Hessian.
fn unary_hess(h: &Vec<Fixed>, g: &Vec<Fixed>, n: usize, c: Fixed, c2: Fixed, rule: HessRule) -> (r:
    Vec<Fixed>)
    requires
        h@.len() == n * n,
        g@.len() == n,
    ensures
        r@.len() == n * n,
        forall|i: int, j: int|
            0 <= i < n && 0 <= j < n ==> seq_vals(r@)[i * n + j] == hess_entry(
                rule,
                seq_vals(h@)[i * n + j],
                seq_vals(g@)[i],
                seq_vals(g@)[j],
                c@,
                c2@,
            ),
{
    let hm = h.len();
    let mut out: Vec<Fixed> = Vec::new();
    let mut i: usize = 0;
    while i < n
        invariant
            i <= n,
            hm == n * n,
            h@.len() == n * n,
            g@.len() == n,
            out@.len() == i * n,
            forall|a: int, b: int|
                0 <= a < i && 0 <= b < n ==> seq_vals(out@)[a * n + b] == hess_entry(
                    rule,
                    seq_vals(h@)[a * n + b],
                    seq_vals(g@)[a],
                    seq_vals(g@)[b],
                    c@,
                    c2@,
                ),
        decreases n - i,
    {
        let mut j: usize = 0;
        while j < n
            invariant
                j <= n,
                i < n,
                hm == n * n,
                h@.len() == n * n,
                g@.len() == n,
                out@.len() == i * n + j,
                forall|a: int, b: int|
                    0 <= a < i && 0 <= b < n ==> seq_vals(out@)[a * n + b] == hess_entry(
                        rule,
                        seq_vals(h@)[a * n + b],
                        seq_vals(g@)[a],
                        seq_vals(g@)[b],
                        c@,
                        c2@,
                    ),
                forall|b: int|
                    0 <= b < j ==> seq_vals(out@)[i * n + b] == hess_entry(
                        rule,
                        seq_vals(h@)[i * n + b],
                        seq_vals(g@)[i as int],
                        seq_vals(g@)[b],
                        c@,
                        c2@,
                    ),
            decreases n - j,
        {
            proof {
                lemma_grid(i as int, j as int, n as int);
                assert(i * n + j < hm);
            }
            let hij = h[i * n + j];
            let cross = g[i].mul(g[j]);
            let e = match rule {
                HessRule::Expo => hij.add(cross.half()).mul(c),
                HessRule::Loga => hij.mul(c).sub(cross.mul(c2).half()),
                HessRule::Power => hij.mul(c).add(cross.mul(c2)),
            };
            let ghost pre = out@;
            out.push(e);
            proof {
                assert(seq_vals(out@) =~= seq_vals(pre).push(e@));
                assert forall|a: int, b: int|
                    0 <= a < i && 0 <= b < n implies seq_vals(out@)[a * n + b] == hess_entry(
                    rule,
                    seq_vals(h@)[a * n + b],
                    seq_vals(g@)[a],
                    seq_vals(g@)[b],
                    c@,
                    c2@,
                ) by {
                    lemma_grid_before(a, b, i as int, n as int);
                    assert(seq_vals(out@)[a * n + b] == seq_vals(pre)[a * n + b]);
                }
            }
            j = j + 1;
        }
        proof {
            lemma_grid_row_end(i as int, n as int);
        }
        i = i + 1;
    }
    out
}

/// The flat Hessian of the second-order product rule: the two operand
/// Hessians scaled by the opposite real parts, plus the symmetrized, halved
/// outer product of the gradients.
fn mul_hess(
    xh: &Vec<Fixed>,
    yh: &Vec<Fixed>,
    xg: &Vec<Fixed>,
    yg: &Vec<Fixed>,
    n: usize,
    xr: Fixed,
    yr: Fixed,
) -> (r: Vec<Fixed>)
    requires
        xh@.len() == n * n,
        yh@.len() == n * n,
        xg@.len() == n,
        yg@.len() == n,
    ensures
        r@.len() == n * n,
        forall|i: int, j: int|
            0 <= i < n && 0 <= j < n ==> seq_vals(r@)[i * n + j] == add_v(
                add_v(
                    mul_v(seq_vals(xh@)[i * n + j], yr@),
                    mul_v(seq_vals(yh@)[i * n + j], xr@),
                ),
                half_v(
                    add_v(
                        mul_v(seq_vals(xg@)[i], seq_vals(yg@)[j]),
                        mul_v(seq_vals(xg@)[j], seq_vals(yg@)[i]),
                    ),
                ),
            ),
{
    let xm = xh.len();
    let ym = yh.len();
    let mut out: Vec<Fixed> = Vec::new();
    let mut i: usize = 0;
    while i < n
        invariant
            i <= n,
            xm == n * n,
            ym == n * n,
            xh@.len() == n * n,
            yh@.len() == n * n,
            xg@.len() == n,
            yg@.len() == n,
            out@.len() == i * n,
            forall|a: int, b: int|
                0 <= a < i && 0 <= b < n ==> seq_vals(out@)[a * n + b] == add_v(
                    add_v(
                        mul_v(seq_vals(xh@)[a * n + b], yr@),
                        mul_v(seq_vals(yh@)[a * n + b], xr@),
                    ),
                    half_v(
                        add_v(
                            mul_v(seq_vals(xg@)[a], seq_vals(yg@)[b]),
                            mul_v(seq_vals(xg@)[b], seq_vals(yg@)[a]),
                        ),
                    ),
                ),
        decreases n - i,
    {
        let mut j: usize = 0;
        while j < n
            invariant
                j <= n,
                i < n,
                xm == n * n,
                ym == n * n,
                xh@.len() == n * n,
                yh@.len() == n * n,
                xg@.len() == n,
                yg@.len() == n,
                out@.len() == i * n + j,
                forall|a: int, b: int|
                    0 <= a < i && 0 <= b < n ==> seq_vals(out@)[a * n + b] == add_v(
                        add_v(
                            mul_v(seq_vals(xh@)[a * n + b], yr@),
                            mul_v(seq_vals(yh@)[a * n + b], xr@),
                        ),
                        half_v(
                            add_v(
                                mul_v(seq_vals(xg@)[a], seq_vals(yg@)[b]),
                                mul_v(seq_vals(xg@)[b], seq_vals(yg@)[a]),
                            ),
                        ),
                    ),
                forall|b: int|
                    0 <= b < j ==> seq_vals(out@)[i * n + b] == add_v(
                        add_v(
                            mul_v(seq_vals(xh@)[i * n + b], yr@),
                            mul_v(seq_vals(yh@)[i * n + b], xr@),
                        ),
                        half_v(
                            add_v(
                                mul_v(seq_vals(xg@)[i as int], seq_vals(yg@)[b]),
                                mul_v(seq_vals(xg@)[b], seq_vals(yg@)[i as int]),
                            ),
                        ),
                    ),
            decreases n - j,
        {
            proof {
                lemma_grid(i as int, j as int, n as int);
                assert(i * n + j < xm);
                assert(i * n + j < ym);
            }
            let base = xh[i * n + j].mul(yr).add(yh[i * n + j].mul(xr));
            let cross = xg[i].mul(yg[j]).add(xg[j].mul(yg[i])).half();
            let e = base.add(cross);
            let ghost pre = out@;
            out.push(e);
            proof {
                assert(seq_vals(out@) =~= seq_vals(pre).push(e@));
                assert forall|a: int, b: int|
                    0 <= a < i && 0 <= b < n implies seq_vals(out@)[a * n + b] == add_v(
                    add_v(
                        mul_v(seq_vals(xh@)[a * n + b], yr@),
                        mul_v(seq_vals(yh@)[a * n + b], xr@),
                    ),
                    half_v(
                        add_v(
                            mul_v(seq_vals(xg@)[a], seq_vals(yg@)[b]),
                            mul_v(seq_vals(xg@)[b], seq_vals(yg@)[a]),
                        ),
                    ),
                ) by {
                    lemma_grid_before(a, b, i as int, n as int);
                    assert(seq_vals(out@)[a * n + b] == seq_vals(pre)[a * n + b]);
                }
            }
            j = j + 1;
        }
        proof {
            lemma_grid_row_end(i as int, n as int);
        }
        i = i + 1;
    }
    out
}

/// Read a flat row-major matrix at a grid position.
fn grid_at(h: &Vec<Fixed>, n: usize, i: usize, j: usize) -> (r: Fixed)
    requires
        h@.len() == n * n,
        i < n,
        j < n,
    ensures
        r@ == hmat(seq_vals(h@), n as int)[i as int][j as int],
{
    let m = h.len();
    proof {
        lemma_grid(i as int, j as int, n as int);
        assert(i * n + j < m);
    }
    h[i * n + j]
}

/// Copy a vector of scalars; the entries are plain values.
fn copy_fixed(g: &Vec<Fixed>) -> (r: Vec<Fixed>)
    ensures
        r@ == g@,
{
    let mut out: Vec<Fixed> = Vec::new();
    let mut i: usize = 0;
    while i < g.len()
        invariant
            i <= g@.len(),
            out@ == g@.take(i as int),
        decreases g@.len() - i,
    {
        out.push(g[i]);
        proof {
            assert(g@.take(i + 1) =~= g@.take(i as int).push(g@[i as int]));
        }
        i = i + 1;
    }
    proof {
        assert(g@.take(g@.len() as int) =~= g@);
    }
    out
}

impl Dual2 {
    #[verifier::type_invariant]
    closed spec fn type_inv(self) -> bool {
        &&& self@.vars.no_duplicates()
        &&& self.grad@.len() == self@.vars.len()
        &&& self.hess@.len() == self@.vars.len() * self@.vars.len()
    }

    /// Construct a second-order dual number from a scalar, a list of names,
    /// an optional gradient, and an optional row-major Hessian. Names are
    /// deduplicated keeping first occurrences; an empty gradient defaults to
    /// one per variable and an empty Hessian to all zeros; any other length
    /// mismatch is rejected with `InvalidLength`.
    pub fn new(value: Fixed, vars: Vec<String>, grad: Vec<Fixed>, hess: Vec<Fixed>) -> (r: Result<
        Dual2,
        DualError,
    >)
        ensures
            match r {
                Ok(d) => {
                    let nv = dedup_names(vars.deep_view()).len();
                    &&& (grad@.len() == 0 || grad@.len() == nv)
                    &&& (hess@.len() == 0 || hess@.len() == nv * nv)
                    &&& d@ == new2_model(
                        value@,
                        vars.deep_view(),
                        seq_vals(grad@),
                        seq_vals(hess@),
                    )
                    &&& wf2_model(d@)
                },
                Err(e) => {
                    let nv = dedup_names(vars.deep_view()).len();
                    e == DualError::InvalidLength && ((grad@.len() != 0 && grad@.len() != nv) || (
                    hess@.len() != 0 && hess@.len() != nv * nv) || nv * nv > usize::MAX)
                },
            },
    {
        let vs = Vars::from_names(vars);
        let n = vs.len();
        let grad_ok = grad.len() == 0 || grad.len() == n;
        let nn = match n.checked_mul(n) {
            Some(p) => p,
            None => {
                return Err(DualError::InvalidLength);
            },
        };
        let hess_ok = hess.len() == 0 || hess.len() == nn;
        if !grad_ok || !hess_ok {
            return Err(DualError::InvalidLength);
        }
        let g = if grad.len() == 0 {
            let mut ones: Vec<Fixed> = Vec::new();
            let mut i: usize = 0;
            while i < n
                invariant
                    i <= n,
                    ones@.len() == i,
                    forall|j: int| 0 <= j < i ==> ones@[j]@ == SCALE as int,
                decreases n - i,
            {
                ones.push(Fixed::one());
                i = i + 1;
            }
            ones
        } else {
            grad
        };
        let ghost hess_given = hess@.len() > 0;
        let h = if hess.len() == 0 {
            let mut zs: Vec<Fixed> = Vec::new();
            let mut i: usize = 0;
            while i < nn
                invariant
                    i <= nn,
                    zs@.len() == i,
                    forall|j: int| 0 <= j < i ==> zs@[j]@ == 0,
                decreases nn - i,
            {
                zs.push(Fixed::zero());
                i = i + 1;
            }
            zs
        } else {
            hess
        };
        let d = Dual2 { real: value, vars: Arc::new(vs), grad: g, hess: h };
        proof {
            let m = new2_model(value@, vars.deep_view(), seq_vals(grad@), seq_vals(hess@));
            assert(d@.grad =~= m.grad);
            if hess_given {
                assert(d@.hess =~~= m.hess);
            } else {
                assert forall|i: int| 0 <= i < n implies #[trigger] d@.hess[i] =~= m.hess[i] by {
                    assert forall|j: int| 0 <= j < n implies #[trigger] d@.hess[i][j]
                        == m.hess[i][j] by {
                        lemma_grid(i, j, n as int);
                    }
                }
                assert(d@.hess =~= m.hess);
            }
        }
        Ok(d)
    }

    /// The scalar value.
    pub fn real_part(&self) -> (r: Fixed)
        ensures
            r@ == self@.real,
    {
        self.real
    }

    /// The ordered variable names.
    pub fn vars(&self) -> (r: Vec<String>)
        ensures
            r.deep_view() == self@.vars,
    {
        arc_get(&self.vars).to_vec()
    }

    /// The number of registered variables.
    pub fn num_vars(&self) -> (n: usize)
        ensures
            n == self@.vars.len(),
    {
        arc_get(&self.vars).len()
    }

    /// The raw gradient, ordered as the registry.
    pub fn grad(&self) -> (r: Vec<Fixed>)
        ensures
            seq_vals(r@) == self@.grad,
    {
        copy_fixed(&self.grad)
    }

    /// The raw stored Hessian, row-major at the registry's dimension.
    pub fn hess(&self) -> (r: Vec<Fixed>)
        ensures
            r@.len() == self@.vars.len() * self@.vars.len(),
            hmat(seq_vals(r@), self@.vars.len() as int) == self@.hess,
    {
        proof {
            use_type_invariant(self);
        }
        copy_fixed(&self.hess)
    }

    /// An identical value sharing this value's registry allocation.
    pub fn duplicate(&self) -> (r: Dual2)
        ensures
            r@ == self@,
    {
        proof {
            use_type_invariant(self);
        }
        Dual2 {
            real: self.real,
            vars: arc_clone(&self.vars),
            grad: copy_fixed(&self.grad),
            hess: copy_fixed(&self.hess),
        }
    }

    /// A shared handle to this value's registry allocation.
    pub fn share_vars(&self) -> (r: Arc<Vars>)
        ensures
            r@ == self@.vars,
            self@.vars.no_duplicates(),
    {
        proof {
            use_type_invariant(self);
        }
        arc_clone(&self.vars)
    }

    /// Whether the two values share one registry allocation.
    pub fn ptr_eq(&self, other: &Dual2) -> (r: bool)
        ensures
            r ==> self@.vars == other@.vars,
    {
        arc_ptr_eq(&self.vars, &other.vars)
    }

    /// Classify how this value's registry relates to another registry.
    fn vars_cmp(&self, arc_vars: &Arc<Vars>) -> (r: crate::dual::VarsRelationship)
        ensures
            match r {
                crate::dual::VarsRelationship::ArcEquivalent => self@.vars == (*arc_vars)@,
                crate::dual::VarsRelationship::ValueEquivalent => self@.vars == (*arc_vars)@,
                crate::dual::VarsRelationship::Superset => subset_names((*arc_vars)@, self@.vars)
                    && self@.vars != (*arc_vars)@,
                crate::dual::VarsRelationship::Subset => subset_names(self@.vars, (*arc_vars)@)
                    && !subset_names((*arc_vars)@, self@.vars),
                crate::dual::VarsRelationship::Difference => !subset_names(
                    self@.vars,
                    (*arc_vars)@,
                ) && !subset_names((*arc_vars)@, self@.vars),
            },
    {
        if arc_ptr_eq(&self.vars, arc_vars) {
            crate::dual::VarsRelationship::ArcEquivalent
        } else if arc_get(&self.vars).value_eq(arc_get(arc_vars)) {
            crate::dual::VarsRelationship::ValueEquivalent
        } else if arc_get(arc_vars).is_subset_of(arc_get(&self.vars)) {
            crate::dual::VarsRelationship::Superset
        } else if arc_get(&self.vars).is_subset_of(arc_get(arc_vars)) {
            crate::dual::VarsRelationship::Subset
        } else {
            crate::dual::VarsRelationship::Difference
        }
    }

    /// Re-express this value over a target registry: gradient entries and
    /// Hessian rows and columns are permuted and zero-padded by the same
    /// index map, and the result shares the target's allocation.
    pub fn to_new_vars(&self, new_vars: &Arc<Vars>) -> (r: Dual2)
        requires
            (*new_vars)@.no_duplicates(),
        ensures
            r@ == reindex2_model(self@, (*new_vars)@),
    {
        proof {
            use_type_invariant(self);
        }
        let rel = self.vars_cmp(new_vars);
        let fast = match rel {
            crate::dual::VarsRelationship::ArcEquivalent => true,
            crate::dual::VarsRelationship::ValueEquivalent => true,
            _ => false,
        };
        if fast {
            let r = Dual2 {
                real: self.real,
                vars: arc_clone(new_vars),
                grad: copy_fixed(&self.grad),
                hess: copy_fixed(&self.hess),
            };
            proof {
                lemma_reindex2_self(self@);
            }
            r
        } else {
            let vs = arc_get(new_vars);
            let n = vs.len();
            let selfn = arc_get(&self.vars).len();
            let mut g: Vec<Fixed> = Vec::new();
            let mut j: usize = 0;
            while j < n
                invariant
                    j <= n,
                    n == (*new_vars)@.len(),
                    *vs == **new_vars,
                    self.type_inv(),
                    g@.len() == j,
                    forall|k: int| 0 <= k < j ==> g@[k]@ == lookup2(self@, (*new_vars)@[k]),
                decreases n - j,
            {
                let name = vs.name_at(j);
                let entry = match arc_get(&self.vars).index_of(name) {
                    Some(i) => {
                        proof {
                            assert(self@.vars.contains(name@));
                            let w = self@.vars.index_of(name@);
                            assert(self@.vars[w] == name@);
                            assert(w == i);
                        }
                        self.grad[i]
                    },
                    None => Fixed::zero(),
                };
                g.push(entry);
                j = j + 1;
            }
            let mut h: Vec<Fixed> = Vec::new();
            let mut i: usize = 0;
            while i < n
                invariant
                    i <= n,
                    n == (*new_vars)@.len(),
                    *vs == **new_vars,
                    self.type_inv(),
                    selfn == self@.vars.len(),
                    h@.len() == i * n,
                    forall|a: int, b: int|
                        0 <= a < i && 0 <= b < n ==> seq_vals(h@)[a * n + b] == hlookup(
                            self@,
                            (*new_vars)@[a],
                            (*new_vars)@[b],
                        ),
                decreases n - i,
            {
                let row_name = vs.name_at(i);
                let row_idx = arc_get(&self.vars).index_of(row_name);
                let mut j2: usize = 0;
                while j2 < n
                    invariant
                        j2 <= n,
                        i < n,
                        n == (*new_vars)@.len(),
                        *vs == **new_vars,
                        self.type_inv(),
                        selfn == self@.vars.len(),
                        match row_idx {
                            Some(ri) => ri < self@.vars.len() && self@.vars[ri as int]
                                == (*new_vars)@[i as int],
                            None => !self@.vars.contains((*new_vars)@[i as int]),
                        },
                        h@.len() == i * n + j2,
                        forall|a: int, b: int|
                            0 <= a < i && 0 <= b < n ==> seq_vals(h@)[a * n + b] == hlookup(
                                self@,
                                (*new_vars)@[a],
                                (*new_vars)@[b],
                            ),
                        forall|b: int|
                            0 <= b < j2 ==> seq_vals(h@)[i * n + b] == hlookup(
                                self@,
                                (*new_vars)@[i as int],
                                (*new_vars)@[b],
                            ),
                    decreases n - j2,
                {
                    let col_name = vs.name_at(j2);
                    let entry = match row_idx {
                        Some(ri) => {
                            match arc_get(&self.vars).index_of(col_name) {
                                Some(ci) => {
                                    proof {
                                        let x = (*new_vars)@[i as int];
                                        let y = (*new_vars)@[j2 as int];
                                        assert(self@.vars.contains(x));
                                        assert(self@.vars.contains(y));
                                        let wx = self@.vars.index_of(x);
                                        let wy = self@.vars.index_of(y);
                                        assert(self@.vars[wx] == x);
                                        assert(self@.vars[wy] == y);
                                        assert(wx == ri as int);
                                        assert(wy == ci as int);
                                        lemma_grid(ri as int, ci as int, selfn as int);
                                    }
                                    grid_at(&self.hess, selfn, ri, ci)
                                },
                                None => Fixed::zero(),
                            }
                        },
                        None => Fixed::zero(),
                    };
                    let ghost pre = h@;
                    h.push(entry);
                    proof {
                        assert(seq_vals(h@) =~= seq_vals(pre).push(entry@));
                        assert(entry@ == hlookup(
                            self@,
                            (*new_vars)@[i as int],
                            (*new_vars)@[j2 as int],
                        ));
                        assert forall|a: int, b: int|
                            0 <= a < i && 0 <= b < n implies seq_vals(h@)[a * n + b] == hlookup(
                            self@,
                            (*new_vars)@[a],
                            (*new_vars)@[b],
                        ) by {
                            lemma_grid(a, b, n as int);
                            assert(a * n + b <= (i as int - 1) * n + b) by (nonlinear_arith)
                                requires
                                    a <= i as int - 1,
                                    0 <= b < n,
                                    0 <= a,
                            {
                            }
                            assert((i as int - 1) * n + b < i * n) by (nonlinear_arith)
                                requires
                                    0 <= b < n,
                                    0 < i,
                            {
                            }
                            assert(seq_vals(h@)[a * n + b] == seq_vals(pre)[a * n + b]);
                        }
                    }
                    j2 = j2 + 1;
                }
                proof {
                    assert(i * n + n == (i + 1) * n) by (nonlinear_arith)
                        requires
                            true,
                    {
                    }
                }
                i = i + 1;
            }
            let r = Dual2 { real: self.real, vars: arc_clone(new_vars), grad: g, hess: h };
            proof {
                assert(n * n == (*new_vars)@.len() * (*new_vars)@.len());
                assert(r@.grad =~= reindex2_model(self@, (*new_vars)@).grad);
                assert forall|a: int, b: int|
                    0 <= a < n && 0 <= b < n implies r@.hess[a][b] == reindex2_model(
                    self@,
                    (*new_vars)@,
                ).hess[a][b] by {
                    lemma_grid(a, b, n as int);
                }
                assert(r@.hess =~~= reindex2_model(self@, (*new_vars)@).hess);
            }
            r
        }
    }

    /// Express two values over their reconciled registry, choosing the
    /// cheapest path as the first-order type does.
    pub fn to_union_vars(&self, other: &Dual2) -> (r: (Dual2, Dual2))
        ensures
            r.0@ == reindex2_model(self@, common_vars(self@.vars, other@.vars)),
            r.1@ == reindex2_model(other@, common_vars(self@.vars, other@.vars)),
    {
        proof {
            use_type_invariant(self);
            use_type_invariant(other);
        }
        let rel = self.vars_cmp(&other.vars);
        match rel {
            crate::dual::VarsRelationship::ArcEquivalent => {
                proof {
                    lemma_reindex2_self(self@);
                    lemma_reindex2_self(other@);
                }
                (self.duplicate(), other.duplicate())
            },
            crate::dual::VarsRelationship::ValueEquivalent => {
                proof {
                    lemma_reindex2_self(self@);
                }
                (self.duplicate(), other.to_new_vars(&self.vars))
            },
            crate::dual::VarsRelationship::Superset => {
                proof {
                    lemma_reindex2_self(self@);
                }
                (self.duplicate(), other.to_new_vars(&self.vars))
            },
            crate::dual::VarsRelationship::Subset => {
                proof {
                    lemma_reindex2_self(other@);
                }
                (self.to_new_vars(&other.vars), other.duplicate())
            },
            crate::dual::VarsRelationship::Difference => {
                let u = Arc::new(arc_get(&self.vars).union(arc_get(&other.vars)));
                (self.to_new_vars(&u), other.to_new_vars(&u))
            },
        }
    }

    /// Add two second-order dual numbers: real parts, reconciled gradients,
    /// and reconciled Hessians add elementwise.
    pub fn add(&self, other: &Dual2) -> (r: Dual2)
        ensures
            r@ == add2_model(self@, other@),
    {
        let (x, y) = self.to_union_vars(other);
        proof {
            use_type_invariant(&x);
            use_type_invariant(&y);
        }
        let ghost xm = x@;
        let ghost ym = y@;
        let n = x.grad.len();
        let g = zip_vec(&x.grad, &y.grad, ZipRule::Plus);
        let h = zip_vec(&x.hess, &y.hess, ZipRule::Plus);
        let r = Dual2 { real: x.real.add(y.real), vars: x.vars, grad: g, hess: h };
        proof {
            let m = add2_model(self@, other@);
            let u = common_vars(self@.vars, other@.vars);
            assert(r@.grad =~= m.grad);
            assert forall|i: int| 0 <= i < n implies #[trigger] r@.hess[i] =~= m.hess[i] by {
                assert forall|j: int| 0 <= j < n implies #[trigger] r@.hess[i][j] == m.hess[i][j] by {
                    lemma_grid(i, j, n as int);
                    assert(seq_vals(x.hess@)[i * n + j] == x@.hess[i][j]);
                    assert(seq_vals(y.hess@)[i * n + j] == y@.hess[i][j]);
                    assert(x@.hess[i][j] == hlookup(self@, u[i], u[j]));
                    assert(y@.hess[i][j] == hlookup(other@, u[i], u[j]));
                }
            }
            assert(r@.hess =~= m.hess);
        }
        r
    }

    /// Subtract two second-order dual numbers elementwise after
    /// reconciliation.
    pub fn sub(&self, other: &Dual2) -> (r: Dual2)
        ensures
            r@ == sub2_model(self@, other@),
    {
        let (x, y) = self.to_union_vars(other);
        proof {
            use_type_invariant(&x);
            use_type_invariant(&y);
        }
        let n = x.grad.len();
        let g = zip_vec(&x.grad, &y.grad, ZipRule::Minus);
        let h = zip_vec(&x.hess, &y.hess, ZipRule::Minus);
        let r = Dual2 { real: x.real.sub(y.real), vars: x.vars, grad: g, hess: h };
        proof {
            let m = sub2_model(self@, other@);
            let u = common_vars(self@.vars, other@.vars);
            assert(r@.grad =~= m.grad);
            assert forall|i: int| 0 <= i < n implies #[trigger] r@.hess[i] =~= m.hess[i] by {
                assert forall|j: int| 0 <= j < n implies #[trigger] r@.hess[i][j] == m.hess[i][j] by {
                    lemma_grid(i, j, n as int);
                    assert(seq_vals(x.hess@)[i * n + j] == x@.hess[i][j]);
                    assert(seq_vals(y.hess@)[i * n + j] == y@.hess[i][j]);
                    assert(x@.hess[i][j] == hlookup(self@, u[i], u[j]));
                    assert(y@.hess[i][j] == hlookup(other@, u[i], u[j]));
                }
            }
            assert(r@.hess =~= m.hess);
        }
        r
    }

    /// Multiply two second-order dual numbers: the product rule on
    /// gradients, and on Hessians the scaled operand Hessians plus the
    /// symmetrized, halved outer product of the gradients.
    pub fn mul(&self, other: &Dual2) -> (r: Dual2)
        ensures
            r@ == mul2_model(self@, other@),
    {
        let (x, y) = self.to_union_vars(other);
        proof {
            use_type_invariant(&x);
            use_type_invariant(&y);
        }
        let n = x.grad.len();
        let mut g: Vec<Fixed> = Vec::new();
        let mut j: usize = 0;
        while j < n
            invariant
                j <= n,
                n == x.grad@.len(),
                y.grad@.len() == n,
                g@.len() == j,
                forall|k: int|
                    0 <= k < j ==> seq_vals(g@)[k] == add_v(
                        mul_v(seq_vals(x.grad@)[k], y.real@),
                        mul_v(seq_vals(y.grad@)[k], x.real@),
                    ),
            decreases n - j,
        {
            let e = x.grad[j].mul(y.real).add(y.grad[j].mul(x.real));
            let ghost pre = g@;
            g.push(e);
            proof {
                assert(seq_vals(g@) =~= seq_vals(pre).push(e@));
            }
            j = j + 1;
        }
        let h = mul_hess(&x.hess, &y.hess, &x.grad, &y.grad, n, x.real, y.real);
        let r = Dual2 { real: x.real.mul(y.real), vars: x.vars, grad: g, hess: h };
        proof {
            let m = mul2_model(self@, other@);
            let u = common_vars(self@.vars, other@.vars);
            assert(r@.grad =~= m.grad);
            assert forall|i: int| 0 <= i < n implies #[trigger] r@.hess[i] =~= m.hess[i] by {
                assert forall|j2: int| 0 <= j2 < n implies #[trigger] r@.hess[i][j2]
                    == m.hess[i][j2] by {
                    lemma_grid(i, j2, n as int);
                    assert(seq_vals(x.hess@)[i * n + j2] == x@.hess[i][j2]);
                    assert(seq_vals(y.hess@)[i * n + j2] == y@.hess[i][j2]);
                    assert(x@.hess[i][j2] == hlookup(self@, u[i], u[j2]));
                    assert(y@.hess[i][j2] == hlookup(other@, u[i], u[j2]));
                    assert(seq_vals(x.grad@)[i] == x@.grad[i]);
                    assert(seq_vals(x.grad@)[j2] == x@.grad[j2]);
                    assert(seq_vals(y.grad@)[i] == y@.grad[i]);
                    assert(seq_vals(y.grad@)[j2] == y@.grad[j2]);
                }
            }
            assert(r@.hess =~= m.hess);
        }
        r
    }

    /// Divide two second-order dual numbers: multiplication by the
    /// reciprocal, inheriting the power rule's Hessian term.
    pub fn div(&self, other: &Dual2) -> (r: Dual2)
        ensures
            r@ == mul2_model(self@, pow2_model(other@, -1)),
    {
        self.mul(&other.pow(-1))
    }

    /// Negate: the real part, every gradient entry, and every Hessian entry
    /// flip sign; the registry stays shared.
    pub fn neg(&self) -> (r: Dual2)
        ensures
            r@ == neg2_model(self@),
    {
        proof {
            use_type_invariant(self);
        }
        let n = self.grad.len();
        let g = map_vec(&self.grad, MapRule::Neg, Fixed::zero());
        let h = map_vec(&self.hess, MapRule::Neg, Fixed::zero());
        let r = Dual2 { real: self.real.neg(), vars: arc_clone(&self.vars), grad: g, hess: h };
        proof {
            let m = neg2_model(self@);
            assert(r@.grad =~= m.grad);
            assert forall|i: int| 0 <= i < n implies #[trigger] r@.hess[i] =~= m.hess[i] by {
                assert forall|j: int| 0 <= j < n implies #[trigger] r@.hess[i][j] == m.hess[i][j] by {
                    lemma_grid(i, j, n as int);
                }
            }
            assert(r@.hess =~= m.hess);
        }
        r
    }

    /// Add a plain scalar: only the real part moves.
    pub fn add_scalar(&self, s: Fixed) -> (r: Dual2)
        ensures
            r@ == add2_scalar_model(self@, s@),
    {
        proof {
            use_type_invariant(self);
        }
        Dual2 {
            real: self.real.add(s),
            vars: arc_clone(&self.vars),
            grad: copy_fixed(&self.grad),
            hess: copy_fixed(&self.hess),
        }
    }

    /// Subtract a plain scalar: only the real part moves.
    pub fn sub_scalar(&self, s: Fixed) -> (r: Dual2)
        ensures
            r@ == sub2_scalar_model(self@, s@),
    {
        proof {
            use_type_invariant(self);
        }
        Dual2 {
            real: self.real.sub(s),
            vars: arc_clone(&self.vars),
            grad: copy_fixed(&self.grad),
            hess: copy_fixed(&self.hess),
        }
    }

    /// A plain scalar minus this value: gradient and Hessian flip sign.
    pub fn scalar_sub(&self, s: Fixed) -> (r: Dual2)
        ensures
            r@ == scalar_sub2_model(s@, self@),
    {
        proof {
            use_type_invariant(self);
        }
        let n = self.grad.len();
        let g = map_vec(&self.grad, MapRule::Neg, Fixed::zero());
        let h = map_vec(&self.hess, MapRule::Neg, Fixed::zero());
        let r = Dual2 { real: s.sub(self.real), vars: arc_clone(&self.vars), grad: g, hess: h };
        proof {
            let m = scalar_sub2_model(s@, self@);
            assert(r@.grad =~= m.grad);
            assert forall|i: int| 0 <= i < n implies #[trigger] r@.hess[i] =~= m.hess[i] by {
                assert forall|j: int| 0 <= j < n implies #[trigger] r@.hess[i][j] == m.hess[i][j] by {
                    lemma_grid(i, j, n as int);
                }
            }
            assert(r@.hess =~= m.hess);
        }
        r
    }

    /// Scale by a plain scalar: real part, gradient, and Hessian are all
    /// multiplied by it.
    pub fn mul_scalar(&self, s: Fixed) -> (r: Dual2)
        ensures
            r@ == mul2_scalar_model(self@, s@),
    {
        proof {
            use_type_invariant(self);
        }
        let n = self.grad.len();
        let g = map_vec(&self.grad, MapRule::MulBy, s);
        let h = map_vec(&self.hess, MapRule::MulBy, s);
        let r = Dual2 { real: self.real.mul(s), vars: arc_clone(&self.vars), grad: g, hess: h };
        proof {
            let m = mul2_scalar_model(self@, s@);
            assert(r@.grad =~= m.grad);
            assert forall|i: int| 0 <= i < n implies #[trigger] r@.hess[i] =~= m.hess[i] by {
                assert forall|j: int| 0 <= j < n implies #[trigger] r@.hess[i][j] == m.hess[i][j] by {
                    lemma_grid(i, j, n as int);
                }
            }
            assert(r@.hess =~= m.hess);
        }
        r
    }

    /// Divide by a plain scalar: real part, gradient, and Hessian are all
    /// divided by it.
    pub fn div_scalar(&self, s: Fixed) -> (r: Dual2)
        ensures
            r@ == div2_scalar_model(self@, s@),
    {
        proof {
            use_type_invariant(self);
        }
        let n = self.grad.len();
        let g = map_vec(&self.grad, MapRule::DivBy, s);
        let h = map_vec(&self.hess, MapRule::DivBy, s);
        let r = Dual2 { real: self.real.div(s), vars: arc_clone(&self.vars), grad: g, hess: h };
        proof {
            let m = div2_scalar_model(self@, s@);
            assert(r@.grad =~= m.grad);
            assert forall|i: int| 0 <= i < n implies #[trigger] r@.hess[i] =~= m.hess[i] by {
                assert forall|j: int| 0 <= j < n implies #[trigger] r@.hess[i][j] == m.hess[i][j] by {
                    lemma_grid(i, j, n as int);
                }
            }
            assert(r@.hess =~= m.hess);
        }
        r
    }

    /// A plain scalar divided by this value: the reciprocal scaled by the
    /// scalar.
    pub fn scalar_div(&self, s: Fixed) -> (r: Dual2)
        ensures
            r@ == mul2_scalar_model(pow2_model(self@, -1), s@),
    {
        self.pow(-1).mul_scalar(s)
    }

    /// Raise to an integer power: the chain rule scales the gradient by
    /// `p * real^(p-1)` and adds the second-order Taylor term to the
    /// Hessian.
    pub fn pow(&self, p: i32) -> (r: Dual2)
        ensures
            r@ == pow2_model(self@, p as int),
    {
        proof {
            use_type_invariant(self);
        }
        let n = self.grad.len();
        let c = self.real.fpow((p as i64) - 1).scale_by(p as i64);
        proof {
            assert(i64::MIN <= (p as int) * ((p as int) - 1) <= i64::MAX) by (nonlinear_arith)
                requires
                    -0x8000_0000 <= p as int <= 0x7fff_ffff,
            {
            }
        }
        let k: i64 = (p as i64) * ((p as i64) - 1);
        let c2 = self.real.fpow((p as i64) - 2).scale_by(k).half();
        let g = map_vec(&self.grad, MapRule::MulBy, c);
        let h = unary_hess(&self.hess, &self.grad, n, c, c2, HessRule::Power);
        let r = Dual2 {
            real: self.real.fpow(p as i64),
            vars: arc_clone(&self.vars),
            grad: g,
            hess: h,
        };
        proof {
            let m = pow2_model(self@, p as int);
            assert(r@.grad =~= m.grad);
            assert forall|i: int| 0 <= i < n implies #[trigger] r@.hess[i] =~= m.hess[i] by {
                assert forall|j: int| 0 <= j < n implies #[trigger] r@.hess[i][j] == m.hess[i][j] by {
                    lemma_grid(i, j, n as int);
                }
            }
            assert(r@.hess =~= m.hess);
        }
        r
    }

    /// Raise to an arbitrary scalar exponent through the exponential of the
    /// scaled logarithm, for use where the exponent is not a whole number;
    /// the real part must be positive for the logarithm to be meaningful.
    pub fn pow_scalar(&self, p: Fixed) -> (r: Dual2)
        ensures
            r@ == exp2_model(mul2_scalar_model(log2_model(self@), p@)),
    {
        self.log().mul_scalar(p).exp()
    }

    /// The exponential: gradient and adjusted Hessian are scaled by the
    /// exponential of the real part.
    pub fn exp(&self) -> (r: Dual2)
        ensures
            r@ == exp2_model(self@),
    {
        proof {
            use_type_invariant(self);
        }
        let n = self.grad.len();
        let c = self.real.exp();
        let g = map_vec(&self.grad, MapRule::MulBy, c);
        let h = unary_hess(&self.hess, &self.grad, n, c, Fixed::zero(), HessRule::Expo);
        let r = Dual2 { real: c, vars: arc_clone(&self.vars), grad: g, hess: h };
        proof {
            let m = exp2_model(self@);
            assert(r@.grad =~= m.grad);
            assert forall|i: int| 0 <= i < n implies #[trigger] r@.hess[i] =~= m.hess[i] by {
                assert forall|j: int| 0 <= j < n implies #[trigger] r@.hess[i][j] == m.hess[i][j] by {
                    lemma_grid(i, j, n as int);
                }
            }
            assert(r@.hess =~= m.hess);
        }
        r
    }

    /// The natural logarithm: the gradient is scaled by the reciprocal of
    /// the real part and the Hessian subtracts half the gradient's outer
    /// product scaled by the squared reciprocal.
    pub fn log(&self) -> (r: Dual2)
        ensures
            r@ == log2_model(self@),
    {
        proof {
            use_type_invariant(self);
        }
        let n = self.grad.len();
        let c = Fixed::one().div(self.real);
        let c2 = c.mul(c);
        let g = map_vec(&self.grad, MapRule::MulBy, c);
        let h = unary_hess(&self.hess, &self.grad, n, c, c2, HessRule::Loga);
        let r = Dual2 { real: self.real.ln(), vars: arc_clone(&self.vars), grad: g, hess: h };
        proof {
            let m = log2_model(self@);
            assert(r@.grad =~= m.grad);
            assert forall|i: int| 0 <= i < n implies #[trigger] r@.hess[i] =~= m.hess[i] by {
                assert forall|j: int| 0 <= j < n implies #[trigger] r@.hess[i][j] == m.hess[i][j] by {
                    lemma_grid(i, j, n as int);
                }
            }
            assert(r@.hess =~= m.hess);
        }
        r
    }

    /// The absolute value, with the positive branch taken at a real part of
    /// exactly zero.
    pub fn abs(&self) -> (r: Dual2)
        ensures
            r@ == abs2_model(self@),
    {
        if self.real.is_negative() {
            self.neg()
        } else {
            self.duplicate()
        }
    }

    /// The additive identity: a zero scalar over the empty registry.
    pub fn zero() -> (r: Dual2)
        ensures
            r@ == zero2_model(),
    {
        let names: Vec<String> = Vec::new();
        proof {
            assert(names.deep_view() =~= Seq::<Seq<char>>::empty());
        }
        let r = Dual2 {
            real: Fixed::zero(),
            vars: Arc::new(Vars::from_names(names)),
            grad: Vec::new(),
            hess: Vec::new(),
        };
        proof {
            assert(r@.vars =~= Seq::<Seq<char>>::empty());
            assert(r@.grad =~= Seq::<int>::empty());
            assert(r@.hess =~= Seq::<Seq<int>>::empty());
        }
        r
    }

    /// The multiplicative identity: a unit scalar over the empty registry.
    pub fn one() -> (r: Dual2)
        ensures
            r@.real == SCALE as int,
            r@.vars == Seq::<Seq<char>>::empty(),
            r@.grad == Seq::<int>::empty(),
            r@.hess == Seq::<Seq<int>>::empty(),
    {
        let names: Vec<String> = Vec::new();
        proof {
            assert(names.deep_view() =~= Seq::<Seq<char>>::empty());
        }
        let r = Dual2 {
            real: Fixed::one(),
            vars: Arc::new(Vars::from_names(names)),
            grad: Vec::new(),
            hess: Vec::new(),
        };
        proof {
            assert(r@.vars =~= Seq::<Seq<char>>::empty());
            assert(r@.grad =~= Seq::<int>::empty());
            assert(r@.hess =~= Seq::<Seq<int>>::empty());
        }
        r
    }

    /// Lift a plain scalar: an empty registry, gradient, and Hessian.
    pub fn from_scalar(s: Fixed) -> (r: Dual2)
        ensures
            r@ == (Dual2Spec {
                real: s@,
                vars: Seq::<Seq<char>>::empty(),
                grad: Seq::<int>::empty(),
                hess: Seq::<Seq<int>>::empty(),
            }),
    {
        let z = Dual2::zero();
        proof {
            use_type_invariant(&z);
            assert(z@.vars.len() == 0);
            assert(z@.vars.no_duplicates());
        }
        let r = Dual2 { real: s, vars: z.vars, grad: Vec::new(), hess: Vec::new() };
        proof {
            assert(r@.grad =~= Seq::<int>::empty());
            assert(r@.hess =~= Seq::<Seq<int>>::empty());
        }
        r
    }

    /// Lift a first-order dual number: gradient and registry are kept and
    /// the Hessian is zero-filled at full dimension.
    pub fn from_dual(d: &crate::dual::Dual) -> (r: Dual2)
        ensures
            r@ == second_order_of(d@),
    {
        let vs = d.share_vars();
        let g = d.grad();
        let n = g.len();
        proof {
            assert(seq_vals(g@).len() == g@.len());
        }
        let mut h: Vec<Fixed> = Vec::new();
        let mut i: usize = 0;
        while i < n
            invariant
                i <= n,
                h@.len() == i * n,
                forall|k: int| 0 <= k < h@.len() ==> seq_vals(h@)[k] == 0,
            decreases n - i,
        {
            let mut j: usize = 0;
            while j < n
                invariant
                    j <= n,
                    i < n,
                    h@.len() == i * n + j,
                    forall|k: int| 0 <= k < h@.len() ==> seq_vals(h@)[k] == 0,
                decreases n - j,
            {
                let ghost pre = h@;
                h.push(Fixed::zero());
                proof {
                    assert(seq_vals(h@) =~= seq_vals(pre).push(0));
                }
                j = j + 1;
            }
            proof {
                lemma_grid_row_end(i as int, n as int);
            }
            i = i + 1;
        }
        let r = Dual2 { real: d.real_part(), vars: vs, grad: g, hess: h };
        proof {
            let m = second_order_of(d@);
            assert(r@.grad =~= m.grad);
            assert forall|a: int| 0 <= a < n implies #[trigger] r@.hess[a] =~= m.hess[a] by {
                assert forall|b: int| 0 <= b < n implies #[trigger] r@.hess[a][b] == m.hess[a][b] by {
                    lemma_grid(a, b, n as int);
                }
            }
            assert(r@.hess =~= m.hess);
        }
        r
    }

    /// The first-order projection: the Hessian is dropped, gradient and
    /// registry are kept.
    pub fn first_order(&self) -> (r: crate::dual::Dual)
        ensures
            r@ == first_order_of(self@),
    {
        proof {
            use_type_invariant(self);
        }
        crate::dual::Dual::from_raw(self.real, arc_clone(&self.vars), copy_fixed(&self.grad))
    }

    /// The sensitivity to each requested name, zero where this value never
    /// depended on it.
    pub fn grad1(&self, names: &Vec<String>) -> (r: Vec<Fixed>)
        ensures
            r@.len() == names.deep_view().len(),
            forall|j: int|
                0 <= j < r@.len() ==> r@[j]@ == lookup2(self@, names.deep_view()[j]),
    {
        proof {
            use_type_invariant(self);
        }
        let n = names.len();
        let mut g: Vec<Fixed> = Vec::new();
        let mut j: usize = 0;
        while j < n
            invariant
                j <= n,
                n == names.deep_view().len(),
                n == names@.len(),
                self.type_inv(),
                g@.len() == j,
                forall|k: int| 0 <= k < j ==> g@[k]@ == lookup2(self@, names.deep_view()[k]),
            decreases n - j,
        {
            let entry = match arc_get(&self.vars).index_of(&names[j]) {
                Some(i) => {
                    proof {
                        assert(self@.vars.contains(names.deep_view()[j as int]));
                        let w = self@.vars.index_of(names.deep_view()[j as int]);
                        assert(self@.vars[w] == names.deep_view()[j as int]);
                        assert(w == i);
                    }
                    self.grad[i]
                },
                None => Fixed::zero(),
            };
            g.push(entry);
            j = j + 1;
        }
        g
    }

    /// The externally visible Hessian over the requested names, row-major:
    /// each entry is the stored second-order entry for that pair of names,
    /// zero where either is absent, doubled to undo the storage convention.
    pub fn grad2(&self, names: &Vec<String>) -> (r: Vec<Fixed>)
        ensures
            r@.len() == names.deep_view().len() * names.deep_view().len(),
            forall|i: int, j: int|
                0 <= i < names.deep_view().len() && 0 <= j < names.deep_view().len()
                    ==> seq_vals(r@)[i * names.deep_view().len() + j] == imul_v(
                    hlookup(self@, names.deep_view()[i], names.deep_view()[j]),
                    2,
                ),
    {
        proof {
            use_type_invariant(self);
        }
        let ghost dv = names.deep_view();
        let m = names.len();
        let selfn = arc_get(&self.vars).len();
        let mut out: Vec<Fixed> = Vec::new();
        let mut i: usize = 0;
        while i < m
            invariant
                i <= m,
                m == dv.len(),
                m == names@.len(),
                dv == names.deep_view(),
                self.type_inv(),
                selfn == self@.vars.len(),
                out@.len() == i * m,
                forall|a: int, b: int|
                    0 <= a < i && 0 <= b < m ==> seq_vals(out@)[a * m + b] == imul_v(
                        hlookup(self@, dv[a], dv[b]),
                        2,
                    ),
            decreases m - i,
        {
            let row_idx = arc_get(&self.vars).index_of(&names[i]);
            let mut j: usize = 0;
            while j < m
                invariant
                    j <= m,
                    i < m,
                    m == dv.len(),
                    m == names@.len(),
                    dv == names.deep_view(),
                    self.type_inv(),
                    selfn == self@.vars.len(),
                    match row_idx {
                        Some(ri) => ri < self@.vars.len() && self@.vars[ri as int] == dv[i as int],
                        None => !self@.vars.contains(dv[i as int]),
                    },
                    out@.len() == i * m + j,
                    forall|a: int, b: int|
                        0 <= a < i && 0 <= b < m ==> seq_vals(out@)[a * m + b] == imul_v(
                            hlookup(self@, dv[a], dv[b]),
                            2,
                        ),
                    forall|b: int|
                        0 <= b < j ==> seq_vals(out@)[i * m + b] == imul_v(
                            hlookup(self@, dv[i as int], dv[b]),
                            2,
                        ),
                decreases m - j,
            {
                let entry = match row_idx {
                    Some(ri) => {
                        match arc_get(&self.vars).index_of(&names[j]) {
                            Some(ci) => {
                                proof {
                                    let x = dv[i as int];
                                    let y = dv[j as int];
                                    assert(self@.vars.contains(x));
                                    assert(self@.vars.contains(y));
                                    let wx = self@.vars.index_of(x);
                                    let wy = self@.vars.index_of(y);
                                    assert(self@.vars[wx] == x);
                                    assert(self@.vars[wy] == y);
                                    assert(wx == ri as int);
                                    assert(wy == ci as int);
                                }
                                grid_at(&self.hess, selfn, ri, ci).scale_by(2)
                            },
                            None => Fixed::zero(),
                        }
                    },
                    None => Fixed::zero(),
                };
                let ghost pre = out@;
                out.push(entry);
                proof {
                    assert(seq_vals(out@) =~= seq_vals(pre).push(entry@));
                    assert(entry@ == imul_v(hlookup(self@, dv[i as int], dv[j as int]), 2));
                    assert forall|a: int, b: int|
                        0 <= a < i && 0 <= b < m implies seq_vals(out@)[a * m + b] == imul_v(
                        hlookup(self@, dv[a], dv[b]),
                        2,
                    ) by {
                        lemma_grid_before(a, b, i as int, m as int);
                        assert(seq_vals(out@)[a * m + b] == seq_vals(pre)[a * m + b]);
                    }
                }
                j = j + 1;
            }
            proof {
                lemma_grid_row_end(i as int, m as int);
            }
            i = i + 1;
        }
        out
    }

    /// The gradient re-expressed as first-order values over the requested
    /// names (deduplicated keeping first occurrences): one value per name,
    /// whose own real part is that name's gradient entry and whose own
    /// gradient is the doubled Hessian row restricted to those names, with a
    /// zero second-order component.
    pub fn grad1_manifold(&self, names: Vec<String>) -> (r: Vec<Dual2>)
        ensures
            r.deep_view() == manifold_model(self@, dedup_names(names.deep_view())),
    {
        proof {
            use_type_invariant(self);
        }
        let vs = Arc::new(Vars::from_names(names));
        let ghost t = (*vs)@;
        let m = arc_get(&vs).len();
        let selfn = arc_get(&self.vars).len();
        let mut zeros: Vec<Fixed> = Vec::new();
        let mut zi: usize = 0;
        while zi < m
            invariant
                zi <= m,
                zeros@.len() == zi * m,
                forall|k: int| 0 <= k < zeros@.len() ==> seq_vals(zeros@)[k] == 0,
            decreases m - zi,
        {
            let mut zj: usize = 0;
            while zj < m
                invariant
                    zj <= m,
                    zi < m,
                    zeros@.len() == zi * m + zj,
                    forall|k: int| 0 <= k < zeros@.len() ==> seq_vals(zeros@)[k] == 0,
                decreases m - zj,
            {
                let ghost pre = zeros@;
                zeros.push(Fixed::zero());
                proof {
                    assert(seq_vals(zeros@) =~= seq_vals(pre).push(0));
                }
                zj = zj + 1;
            }
            proof {
                lemma_grid_row_end(zi as int, m as int);
            }
            zi = zi + 1;
        }
        let mut out: Vec<Dual2> = Vec::new();
        let mut i: usize = 0;
        while i < m
            invariant
                i <= m,
                m == t.len(),
                t == (*vs)@,
                t.no_duplicates(),
                self.type_inv(),
                selfn == self@.vars.len(),
                zeros@.len() == m * m,
                forall|k: int| 0 <= k < zeros@.len() ==> seq_vals(zeros@)[k] == 0,
                out@.len() == i,
                forall|k: int|
                    0 <= k < i ==> out.deep_view()[k] == manifold_model(self@, t)[k],
            decreases m - i,
        {
            let name_i = arc_get(&vs).name_at(i);
            let value = match arc_get(&self.vars).index_of(name_i) {
                Some(ri) => {
                    proof {
                        assert(self@.vars.contains(t[i as int]));
                        let w = self@.vars.index_of(t[i as int]);
                        assert(self@.vars[w] == t[i as int]);
                        assert(w == ri);
                    }
                    self.grad[ri]
                },
                None => Fixed::zero(),
            };
            let row = {
                let row_idx = arc_get(&self.vars).index_of(name_i);
                let mut g: Vec<Fixed> = Vec::new();
                let mut j: usize = 0;
                while j < m
                    invariant
                        j <= m,
                        i < m,
                        m == t.len(),
                        t == (*vs)@,
                        self.type_inv(),
                        selfn == self@.vars.len(),
                        match row_idx {
                            Some(ri) => ri < self@.vars.len() && self@.vars[ri as int]
                                == t[i as int],
                            None => !self@.vars.contains(t[i as int]),
                        },
                        g@.len() == j,
                        forall|b: int|
                            0 <= b < j ==> g@[b]@ == imul_v(
                                hlookup(self@, t[i as int], t[b]),
                                2,
                            ),
                    decreases m - j,
                {
                    let entry = match row_idx {
                        Some(ri) => {
                            match arc_get(&self.vars).index_of(arc_get(&vs).name_at(j)) {
                                Some(ci) => {
                                    proof {
                                        let x = t[i as int];
                                        let y = t[j as int];
                                        assert(self@.vars.contains(x));
                                        assert(self@.vars.contains(y));
                                        let wx = self@.vars.index_of(x);
                                        let wy = self@.vars.index_of(y);
                                        assert(self@.vars[wx] == x);
                                        assert(self@.vars[wy] == y);
                                        assert(wx == ri as int);
                                        assert(wy == ci as int);
                                    }
                                    grid_at(&self.hess, selfn, ri, ci).scale_by(2)
                                },
                                None => Fixed::zero(),
                            }
                        },
                        None => Fixed::zero(),
                    };
                    g.push(entry);
                    j = j + 1;
                }
                g
            };
            let elem = Dual2 {
                real: value,
                vars: arc_clone(&vs),
                grad: row,
                hess: copy_fixed(&zeros),
            };
            let ghost predv = out.deep_view();
            proof {
                let entry = manifold_model(self@, t)[i as int];
                assert(elem@.grad =~= entry.grad);
                assert forall|a: int| 0 <= a < m implies #[trigger] elem@.hess[a]
                    =~= entry.hess[a] by {
                    assert forall|b: int| 0 <= b < m implies #[trigger] elem@.hess[a][b]
                        == entry.hess[a][b] by {
                        lemma_grid(a, b, m as int);
                    }
                }
                assert(elem@.hess =~= entry.hess);
                assert(elem@ == entry);
            }
            out.push(elem);
            proof {
                assert(out.deep_view() =~= predv.push(manifold_model(self@, t)[i as int]));
            }
            i = i + 1;
        }
        proof {
            assert(out.deep_view() =~= manifold_model(self@, t));
        }
        out
    }

    /// Build a second-order dual number over another value's registry: the
    /// supplied gradient and Hessian entries are placed at the positions of
    /// the supplied names, zero elsewhere; an empty gradient defaults to one
    /// per supplied name and an empty Hessian to zeros. The supplied names
    /// must be distinct and all registered by `other`; a gradient or Hessian
    /// of any other length is rejected with `InvalidLength`.
    pub fn vars_from(
        other: &Dual2,
        value: Fixed,
        vars: Vec<String>,
        grad: Vec<Fixed>,
        hess: Vec<Fixed>,
    ) -> (r: Result<Dual2, DualError>)
        requires
            vars.deep_view().no_duplicates(),
            subset_names(vars.deep_view(), other@.vars),
        ensures
            match r {
                Ok(d) => {
                    let sn = vars.deep_view().len();
                    &&& (grad@.len() == 0 || grad@.len() == sn)
                    &&& (hess@.len() == 0 || hess@.len() == sn * sn)
                    &&& d@ == vars_from_model(
                        other@.vars,
                        value@,
                        vars.deep_view(),
                        seq_vals(grad@),
                        seq_vals(hess@),
                    )
                },
                Err(e) => {
                    let sn = vars.deep_view().len();
                    e == DualError::InvalidLength && ((grad@.len() != 0 && grad@.len() != sn) || (
                    hess@.len() != 0 && hess@.len() != sn * sn) || sn * sn > usize::MAX)
                },
            },
    {
        proof {
            use_type_invariant(other);
        }
        let ghost s = vars.deep_view();
        let ghost t = other@.vars;
        let sn = vars.len();
        let snn = match sn.checked_mul(sn) {
            Some(p) => p,
            None => {
                return Err(DualError::InvalidLength);
            },
        };
        if !(grad.len() == 0 || grad.len() == sn) || !(hess.len() == 0 || hess.len() == snn) {
            return Err(DualError::InvalidLength);
        }
        let ghost m = vars_from_model(t, value@, s, seq_vals(grad@), seq_vals(hess@));
        let n = arc_get(&other.vars).len();
        let mut g: Vec<Fixed> = Vec::new();
        let mut k: usize = 0;
        while k < n
            invariant
                k <= n,
                n == t.len(),
                t == other@.vars,
                s == vars.deep_view(),
                s.no_duplicates(),
                sn == s.len(),
                sn == vars@.len(),
                grad@.len() == 0 || grad@.len() == sn,
                m == vars_from_model(t, value@, s, seq_vals(grad@), seq_vals(hess@)),
                other.type_inv(),
                g@.len() == k,
                forall|w: int| 0 <= w < k ==> g@[w]@ == m.grad[w],
            decreases n - k,
        {
            let name = arc_get(&other.vars).name_at(k);
            let entry = match crate::vars::names_index_of(&vars, name) {
                Some(i) => {
                    proof {
                        assert(s.contains(t[k as int]));
                        let w = s.index_of(t[k as int]);
                        assert(s[w] == t[k as int]);
                        assert(w == i);
                    }
                    if grad.len() == 0 {
                        proof {
                            assert(m.grad[k as int] == SCALE as int);
                        }
                        Fixed::one()
                    } else {
                        proof {
                            assert(m.grad[k as int] == seq_vals(grad@)[i as int]);
                        }
                        grad[i]
                    }
                },
                None => {
                    proof {
                        assert(m.grad[k as int] == 0);
                    }
                    Fixed::zero()
                },
            };
            g.push(entry);
            k = k + 1;
        }
        let mut h: Vec<Fixed> = Vec::new();
        let mut i: usize = 0;
        while i < n
            invariant
                i <= n,
                n == t.len(),
                t == other@.vars,
                s == vars.deep_view(),
                s.no_duplicates(),
                sn == s.len(),
                sn == vars@.len(),
                hess@.len() == 0 || hess@.len() == sn * sn,
                m == vars_from_model(t, value@, s, seq_vals(grad@), seq_vals(hess@)),
                other.type_inv(),
                h@.len() == i * n,
                forall|a: int, b: int|
                    0 <= a < i && 0 <= b < n ==> seq_vals(h@)[a * n + b] == m.hess[a][b],
            decreases n - i,
        {
            let row_name = arc_get(&other.vars).name_at(i);
            let row_idx = crate::vars::names_index_of(&vars, row_name);
            let mut j: usize = 0;
            while j < n
                invariant
                    j <= n,
                    i < n,
                    n == t.len(),
                    t == other@.vars,
                    s == vars.deep_view(),
                    s.no_duplicates(),
                    sn == s.len(),
                    sn == vars@.len(),
                    hess@.len() == 0 || hess@.len() == sn * sn,
                    m == vars_from_model(t, value@, s, seq_vals(grad@), seq_vals(hess@)),
                    other.type_inv(),
                    match row_idx {
                        Some(ri) => ri < s.len() && s[ri as int] == t[i as int],
                        None => !s.contains(t[i as int]),
                    },
                    h@.len() == i * n + j,
                    forall|a: int, b: int|
                        0 <= a < i && 0 <= b < n ==> seq_vals(h@)[a * n + b] == m.hess[a][b],
                    forall|b: int|
                        0 <= b < j ==> seq_vals(h@)[i * n + b] == m.hess[i as int][b],
                decreases n - j,
            {
                let entry = match row_idx {
                    Some(ri) => {
                        match crate::vars::names_index_of(&vars, arc_get(&other.vars).name_at(j)) {
                            Some(ci) => {
                                proof {
                                    let x = t[i as int];
                                    let y = t[j as int];
                                    assert(s.contains(x));
                                    assert(s.contains(y));
                                    let wx = s.index_of(x);
                                    let wy = s.index_of(y);
                                    assert(s[wx] == x);
                                    assert(s[wy] == y);
                                    assert(wx == ri as int);
                                    assert(wy == ci as int);
                                }
                                if hess.len() == 0 {
                                    proof {
                                        assert(m.hess[i as int][j as int] == 0);
                                    }
                                    Fixed::zero()
                                } else {
                                    proof {
                                        lemma_grid(ri as int, ci as int, sn as int);
                                        assert(m.hess[i as int][j as int] == hmat(
                                            seq_vals(hess@),
                                            sn as int,
                                        )[ri as int][ci as int]);
                                    }
                                    grid_at(&hess, sn, ri, ci)
                                }
                            },
                            None => {
                                proof {
                                    assert(m.hess[i as int][j as int] == 0);
                                }
                                Fixed::zero()
                            },
                        }
                    },
                    None => {
                        proof {
                            assert(m.hess[i as int][j as int] == 0);
                        }
                        Fixed::zero()
                    },
                };
                let ghost pre = h@;
                h.push(entry);
                proof {
                    assert(seq_vals(h@) =~= seq_vals(pre).push(entry@));
                    assert(entry@ == m.hess[i as int][j as int]);
                    assert forall|a: int, b: int|
                        0 <= a < i && 0 <= b < n implies seq_vals(h@)[a * n + b]
                        == m.hess[a][b] by {
                        lemma_grid_before(a, b, i as int, n as int);
                        assert(seq_vals(h@)[a * n + b] == seq_vals(pre)[a * n + b]);
                    }
                }
                j = j + 1;
            }
            proof {
                lemma_grid_row_end(i as int, n as int);
            }
            i = i + 1;
        }
        let d = Dual2 { real: value, vars: arc_clone(&other.vars), grad: g, hess: h };
        proof {
            assert(d@.grad =~= m.grad);
            assert forall|a: int| 0 <= a < n implies #[trigger] d@.hess[a] =~= m.hess[a] by {
                assert forall|b: int| 0 <= b < n implies #[trigger] d@.hess[a][b]
                    == m.hess[a][b] by {
                    lemma_grid(a, b, n as int);
                }
            }
            assert(d@.hess =~= m.hess);
        }
        Ok(d)
    }

    /// Whether this value tolerantly equals the additive identity.
    pub fn is_zero(&self) -> (r: bool)
        ensures
            r == eq2_model(self@, zero2_model()),
    {
        let z = Dual2::zero();
        *self == z
    }

    /// Whether the real part is strictly positive.
    pub fn is_positive(&self) -> (r: bool)
        ensures
            r == (self@.real > 0),
    {
        self.real.is_positive()
    }

    /// Whether the real part is strictly negative.
    pub fn is_negative(&self) -> (r: bool)
        ensures
            r == (self@.real < 0),
    {
        self.real.is_negative()
    }

    /// Sum a sequence of second-order dual numbers: a left fold of addition
    /// starting from the additive identity.
    pub fn sum(xs: &Vec<Dual2>) -> (r: Dual2)
        ensures
            r@ == sum2_models(xs.deep_view()),
    {
        let mut acc = Dual2::zero();
        let mut i: usize = 0;
        while i < xs.len()
            invariant
                i <= xs@.len(),
                xs.deep_view().len() == xs@.len(),
                acc@ == sum2_models(xs.deep_view().take(i as int)),
            decreases xs@.len() - i,
        {
            proof {
                assert(xs.deep_view().take(i + 1).drop_last() =~= xs.deep_view().take(i as int));
                assert(xs.deep_view().take(i + 1).last() == xs.deep_view()[i as int]);
            }
            acc = acc.add(&xs[i]);
            i = i + 1;
        }
        proof {
            assert(xs.deep_view().take(xs@.len() as int) =~= xs.deep_view());
        }
        acc
    }
}

impl Default for Dual2 {
    /// The default value is the additive identity.
    fn default() -> (r: Dual2)
        ensures
            r@ == zero2_model(),
    {
        Dual2::zero()
    }
}

impl PartialEq for Dual2 {
    /// Tolerant equality: exact real parts and, after reconciliation, every
    /// gradient and Hessian entry within tolerance.
    fn eq(&self, other: &Dual2) -> (r: bool) {
        let (x, y) = self.to_union_vars(other);
        proof {
            use_type_invariant(&x);
            use_type_invariant(&y);
        }
        let ghost u = common_vars(self@.vars, other@.vars);
        if !x.real.eq_exact(y.real) {
            return false;
        }
        let n = x.grad.len();
        let mut j: usize = 0;
        while j < n
            invariant
                j <= n,
                n == x.grad@.len(),
                x@ == reindex2_model(self@, u),
                y@ == reindex2_model(other@, u),
                u == common_vars(self@.vars, other@.vars),
                y.grad@.len() == n,
                n == u.len(),
                forall|k: int|
                    0 <= k < j ==> close_v(lookup2(self@, #[trigger] u[k]), lookup2(other@, u[k])),
            decreases n - j,
        {
            let near = x.grad[j].close(y.grad[j]);
            proof {
                assert(x@.grad[j as int] == lookup2(self@, u[j as int]));
                assert(y@.grad[j as int] == lookup2(other@, u[j as int]));
                assert(x@.grad[j as int] == seq_vals(x.grad@)[j as int]);
                assert(y@.grad[j as int] == seq_vals(y.grad@)[j as int]);
            }
            if !near {
                proof {
                    assert(!close_v(lookup2(self@, u[j as int]), lookup2(other@, u[j as int])));
                }
                return false;
            }
            j = j + 1;
        }
        let nn = x.hess.len();
        let mut i: usize = 0;
        while i < n
            invariant
                i <= n,
                n == x.grad@.len(),
                x@ == reindex2_model(self@, u),
                y@ == reindex2_model(other@, u),
                u == common_vars(self@.vars, other@.vars),
                n == u.len(),
                x.hess@.len() == n * n,
                y.hess@.len() == n * n,
                forall|a: int, b: int|
                    0 <= a < i && 0 <= b < n ==> close_v(
                        hlookup(self@, #[trigger] u[a], #[trigger] u[b]),
                        hlookup(other@, u[a], u[b]),
                    ),
            decreases n - i,
        {
            let mut j2: usize = 0;
            while j2 < n
                invariant
                    j2 <= n,
                    i < n,
                    n == x.grad@.len(),
                    x@ == reindex2_model(self@, u),
                    y@ == reindex2_model(other@, u),
                    u == common_vars(self@.vars, other@.vars),
                    n == u.len(),
                    x.hess@.len() == n * n,
                    y.hess@.len() == n * n,
                    forall|a: int, b: int|
                        0 <= a < i && 0 <= b < n ==> close_v(
                            hlookup(self@, #[trigger] u[a], #[trigger] u[b]),
                            hlookup(other@, u[a], u[b]),
                        ),
                    forall|b: int|
                        0 <= b < j2 ==> close_v(
                            hlookup(self@, u[i as int], #[trigger] u[b]),
                            hlookup(other@, u[i as int], u[b]),
                        ),
                decreases n - j2,
            {
                let near = grid_at(&x.hess, n, i, j2).close(grid_at(&y.hess, n, i, j2));
                proof {
                    assert(x@.hess[i as int][j2 as int] == hlookup(
                        self@,
                        u[i as int],
                        u[j2 as int],
                    ));
                    assert(y@.hess[i as int][j2 as int] == hlookup(
                        other@,
                        u[i as int],
                        u[j2 as int],
                    ));
                }
                if !near {
                    proof {
                        assert(!close_v(
                            hlookup(self@, u[i as int], u[j2 as int]),
                            hlookup(other@, u[i as int], u[j2 as int]),
                        ));
                    }
                    return false;
                }
                j2 = j2 + 1;
            }
            i = i + 1;
        }
        true
    }
}

impl vstd::std_specs::cmp::PartialEqSpecImpl for Dual2 {
    open spec fn obeys_eq_spec() -> bool {
        true
    }

    open spec fn eq_spec(&self, other: &Dual2) -> bool {
        eq2_model(self@, other@)
    }
}

impl PartialOrd for Dual2 {
    /// Total order by real part only: gradients and Hessians play no role.
    fn partial_cmp(&self, other: &Dual2) -> (r: Option<core::cmp::Ordering>) {
        if self.real.m == other.real.m {
            Some(core::cmp::Ordering::Equal)
        } else if self.real.m < other.real.m {
            Some(core::cmp::Ordering::Less)
        } else {
            Some(core::cmp::Ordering::Greater)
        }
    }
}

impl vstd::std_specs::cmp::PartialOrdSpecImpl for Dual2 {
    open spec fn obeys_partial_cmp_spec() -> bool {
        true
    }

    open spec fn partial_cmp_spec(&self, other: &Dual2) -> Option<core::cmp::Ordering> {
        if self@.real == other@.real {
            Some(core::cmp::Ordering::Equal)
        } else if self@.real < other@.real {
            Some(core::cmp::Ordering::Less)
        } else {
            Some(core::cmp::Ordering::Greater)
        }
    }
}

} // verus!
