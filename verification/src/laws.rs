//! Algebraic laws of the dual-number arithmetic, stated over the models that
//! the executable operations are specified against and proved once and for
//! all.

use crate::dual::{
    add_model, common_vars, eq_model, lemma_lookup_at, lookup, mul_model, new_model,
    reindex_model, wf_model, DualSpec,
};
use crate::dual2::{
    add2_model, eq2_model, hlookup, lemma_hlookup_at, lookup2, mul2_model, reindex2_model,
    wf2_model, Dual2Spec,
};
use crate::fixed::{add_v, close_v, in_range, mul_v, SCALE};
use crate::vars::{dedup_names, lemma_dedup_names, subset_names, union_names, NameSeq};
use vstd::prelude::*;
use vstd::seq_lib::lemma_seq_concat_contains_all_elements;

verus! {

/// The reconciled registry of two duplicate-free registries is itself
/// duplicate-free and holds exactly the names of both.
pub proof fn lemma_common_props(va: NameSeq, vb: NameSeq)
    requires
        va.no_duplicates(),
        vb.no_duplicates(),
    ensures
        common_vars(va, vb).no_duplicates(),
        forall|x: Seq<char>|
            common_vars(va, vb).contains(x) <==> va.contains(x) || vb.contains(x),
{
    if subset_names(vb, va) {
        assert forall|x: Seq<char>| vb.contains(x) implies va.contains(x) by {
            let i = choose|i: int| 0 <= i < vb.len() && vb[i] == x;
            assert(va.contains(vb[i]));
        }
    } else if subset_names(va, vb) {
        assert forall|x: Seq<char>| va.contains(x) implies vb.contains(x) by {
            let i = choose|i: int| 0 <= i < va.len() && va[i] == x;
            assert(vb.contains(va[i]));
        }
    } else {
        lemma_dedup_names(va + vb);
        assert forall|x: Seq<char>|
            union_names(va, vb).contains(x) <==> va.contains(x) || vb.contains(x) by {
            lemma_seq_concat_contains_all_elements(va, vb, x);
        }
    }
}

/// The sensitivity of a sum to any name: the saturating sum of the operands'
/// sensitivities for reconciled names, zero for names outside both
/// registries.
pub proof fn lemma_add_lookup(a: DualSpec, b: DualSpec, x: Seq<char>)
    requires
        wf_model(a),
        wf_model(b),
    ensures
        wf_model(add_model(a, b)),
        lookup(add_model(a, b), x) == if common_vars(a.vars, b.vars).contains(x) {
            add_v(lookup(a, x), lookup(b, x))
        } else {
            0
        },
{
    lemma_common_props(a.vars, b.vars);
    let u = common_vars(a.vars, b.vars);
    if u.contains(x) {
        let i = u.index_of(x);
        assert(u[i] == x);
        assert(add_model(a, b).grad[i] == add_v(lookup(a, u[i]), lookup(b, u[i])));
    }
}

/// The sensitivity of a product to any name, by the product rule.
pub proof fn lemma_mul_lookup(a: DualSpec, b: DualSpec, x: Seq<char>)
    requires
        wf_model(a),
        wf_model(b),
    ensures
        wf_model(mul_model(a, b)),
        lookup(mul_model(a, b), x) == if common_vars(a.vars, b.vars).contains(x) {
            add_v(mul_v(lookup(a, x), b.real), mul_v(lookup(b, x), a.real))
        } else {
            0
        },
{
    lemma_common_props(a.vars, b.vars);
    let u = common_vars(a.vars, b.vars);
    if u.contains(x) {
        let i = u.index_of(x);
        assert(u[i] == x);
        assert(mul_model(a, b).grad[i] == add_v(
            mul_v(lookup(a, u[i]), b.real),
            mul_v(lookup(b, u[i]), a.real),
        ));
    }
}

/// A sensitivity to a name outside a model's registry is zero.
proof fn lemma_lookup_absent(d: DualSpec, x: Seq<char>)
    requires
        !d.vars.contains(x),
    ensures
        lookup(d, x) == 0,
{
}

/// Commutativity of addition: `A + B` tolerantly equals `B + A` for all
/// well-formed first-order values; the reconciled registries may list the
/// names in different orders, but every sensitivity agrees exactly.
pub proof fn lemma_add_commutative(a: DualSpec, b: DualSpec)
    requires
        wf_model(a),
        wf_model(b),
    ensures
        eq_model(add_model(a, b), add_model(b, a)),
{
    let x = add_model(a, b);
    let y = add_model(b, a);
    lemma_common_props(a.vars, b.vars);
    lemma_common_props(b.vars, a.vars);
    assert(wf_model(x)) by {
        lemma_add_lookup(a, b, a.vars[0]);
    }
    assert(wf_model(y)) by {
        lemma_add_lookup(b, a, a.vars[0]);
    }
    lemma_common_props(x.vars, y.vars);
    let w = common_vars(x.vars, y.vars);
    assert forall|j: int| 0 <= j < w.len() implies close_v(
        lookup(x, #[trigger] w[j]),
        lookup(y, w[j]),
    ) by {
        let n = w[j];
        lemma_add_lookup(a, b, n);
        lemma_add_lookup(b, a, n);
    }
}

/// Commutativity of multiplication: `A * B` tolerantly equals `B * A` for
/// all well-formed first-order values.
pub proof fn lemma_mul_commutative(a: DualSpec, b: DualSpec)
    requires
        wf_model(a),
        wf_model(b),
    ensures
        eq_model(mul_model(a, b), mul_model(b, a)),
{
    let x = mul_model(a, b);
    let y = mul_model(b, a);
    lemma_common_props(a.vars, b.vars);
    lemma_common_props(b.vars, a.vars);
    assert(wf_model(x)) by {
        lemma_mul_lookup(a, b, a.vars[0]);
    }
    assert(wf_model(y)) by {
        lemma_mul_lookup(b, a, a.vars[0]);
    }
    lemma_common_props(x.vars, y.vars);
    let w = common_vars(x.vars, y.vars);
    assert forall|j: int| 0 <= j < w.len() implies close_v(
        lookup(x, #[trigger] w[j]),
        lookup(y, w[j]),
    ) by {
        let n = w[j];
        lemma_mul_lookup(a, b, n);
        lemma_mul_lookup(b, a, n);
    }
}

/// Associativity of addition within tolerance: `(A + B) + C` tolerantly
/// equals `A + (B + C)` whenever the exact sums of real parts and of each
/// name's sensitivities stay within the representable range, so that
/// saturation plays no role. This covers operands with identical,
/// overlapping, and disjoint registries alike.
pub proof fn lemma_add_associative(a: DualSpec, b: DualSpec, c: DualSpec)
    requires
        wf_model(a),
        wf_model(b),
        wf_model(c),
        in_range(a.real + b.real),
        in_range(b.real + c.real),
        in_range(a.real + b.real + c.real),
        forall|x: Seq<char>|
            in_range(#[trigger] lookup(a, x) + lookup(b, x)) && in_range(
                lookup(b, x) + lookup(c, x),
            ) && in_range(lookup(a, x) + lookup(b, x) + lookup(c, x)),
    ensures
        eq_model(add_model(add_model(a, b), c), add_model(a, add_model(b, c))),
{
    let ab = add_model(a, b);
    let bc = add_model(b, c);
    let x = add_model(ab, c);
    let y = add_model(a, bc);
    assert(wf_model(ab)) by {
        lemma_add_lookup(a, b, a.vars[0]);
    }
    assert(wf_model(bc)) by {
        lemma_add_lookup(b, c, a.vars[0]);
    }
    assert(wf_model(x)) by {
        lemma_add_lookup(ab, c, a.vars[0]);
    }
    assert(wf_model(y)) by {
        lemma_add_lookup(a, bc, a.vars[0]);
    }
    lemma_common_props(a.vars, b.vars);
    lemma_common_props(b.vars, c.vars);
    lemma_common_props(ab.vars, c.vars);
    lemma_common_props(a.vars, bc.vars);
    lemma_common_props(x.vars, y.vars);
    let w = common_vars(x.vars, y.vars);
    assert forall|j: int| 0 <= j < w.len() implies close_v(
        lookup(x, #[trigger] w[j]),
        lookup(y, w[j]),
    ) by {
        let n = w[j];
        lemma_add_lookup(ab, c, n);
        lemma_add_lookup(a, bc, n);
        lemma_add_lookup(a, b, n);
        lemma_add_lookup(b, c, n);
        assert(in_range(lookup(a, n) + lookup(b, n)));
        if !a.vars.contains(n) {
            lemma_lookup_absent(a, n);
        }
        if !b.vars.contains(n) {
            lemma_lookup_absent(b, n);
        }
        if !c.vars.contains(n) {
            lemma_lookup_absent(c, n);
        }
        assert(lookup(x, n) == lookup(y, n));
    }
}

/// Reindexing is idempotent: re-expressing a value over a target registry a
/// second time changes nothing, and reindexing a value already expressed
/// over the target registry returns it exactly.
pub proof fn lemma_reindex_idempotent(d: DualSpec, t: NameSeq)
    requires
        wf_model(d),
        t.no_duplicates(),
    ensures
        reindex_model(reindex_model(d, t), t) == reindex_model(d, t),
        d.vars == t ==> reindex_model(d, t) == d,
{
    let r = reindex_model(d, t);
    assert forall|j: int| 0 <= j < t.len() implies lookup(r, t[j]) == r.grad[j] by {
        lemma_lookup_at(r.vars, r.grad, j);
    }
    assert(reindex_model(r, t).grad =~= r.grad);
    if d.vars == t {
        crate::dual::lemma_reindex_self(d);
    }
}

/// Reindexing is idempotent for second-order values as well: both the
/// gradient and the Hessian are unchanged by a second re-expression over the
/// same target registry.
pub proof fn lemma_reindex2_idempotent(d: Dual2Spec, t: NameSeq)
    requires
        wf2_model(d),
        t.no_duplicates(),
    ensures
        reindex2_model(reindex2_model(d, t), t) == reindex2_model(d, t),
        d.vars == t ==> reindex2_model(d, t) == d,
{
    let r = reindex2_model(d, t);
    assert forall|j: int| 0 <= j < t.len() implies lookup2(r, t[j]) == r.grad[j] by {
        lemma_lookup_at(r.vars, r.grad, j);
    }
    assert(reindex2_model(r, t).grad =~= r.grad);
    assert forall|i: int, j: int|
        0 <= i < t.len() && 0 <= j < t.len() implies hlookup(r, t[i], t[j]) == r.hess[i][j] by {
        lemma_hlookup_at(r, i, j);
    }
    assert(reindex2_model(r, t).hess =~~= r.hess);
    if d.vars == t {
        crate::dual2::lemma_reindex2_self(d);
    }
}

/// Construction reproduces its inputs: a value built from a scalar, names,
/// and an optional gradient carries exactly that scalar, the deduplicated
/// names in first-occurrence order, and — read back through its own registry
/// — the supplied gradient, defaulted to one per variable when omitted.
pub proof fn lemma_construction_round_trip(value: int, names: NameSeq, grad: Seq<int>)
    requires
        grad.len() == 0 || grad.len() == dedup_names(names).len(),
    ensures
        new_model(value, names, grad).real == value,
        new_model(value, names, grad).vars == dedup_names(names),
        wf_model(new_model(value, names, grad)),
        forall|j: int|
            0 <= j < dedup_names(names).len() ==> lookup(
                new_model(value, names, grad),
                #[trigger] dedup_names(names)[j],
            ) == if grad.len() == 0 {
                SCALE as int
            } else {
                grad[j]
            },
{
    lemma_dedup_names(names);
    let d = new_model(value, names, grad);
    assert forall|j: int| 0 <= j < dedup_names(names).len() implies lookup(
        d,
        #[trigger] dedup_names(names)[j],
    ) == if grad.len() == 0 {
        SCALE as int
    } else {
        grad[j]
    } by {
        lemma_lookup_at(d.vars, d.grad, j);
    }
}

/// A scalar times its reciprocal power lies within tolerance of one, for
/// nonzero real parts of magnitude up to nine thousand. Beyond that bound
/// the fixed-point reciprocal is too coarse for the product to land within
/// tolerance, so those inputs are left out.
pub proof fn lemma_reciprocal_close(r: int)
    requires
        1 <= r <= 9_000 * (SCALE as int) || -9_000 * (SCALE as int) <= r <= -1,
    ensures
        close_v(mul_v(r, crate::fixed::fpow_v(r, -1)), SCALE as int),
{
    let s = SCALE as int;
    assert(crate::fixed::pow_pos_v(r, 0) == s);
    assert(crate::fixed::pow_pos_v(r, 1) == mul_v(s, r));
    assert(in_range(s * r)) by (nonlinear_arith)
        requires
            -9_000_000_000_000_000 <= r <= 9_000_000_000_000_000,
            s == 1_000_000_000_000,
    {
    }
    vstd::arithmetic::div_mod::lemma_fundamental_div_mod_converse(s * r, s, r, 0);
    assert(mul_v(s, r) == r);
    assert(crate::fixed::fpow_v(r, -1) == crate::fixed::div_v(s, r));
    let rp = if r > 0 { r } else { -r };
    let q = (s * s) / rp;
    vstd::arithmetic::div_mod::lemma_fundamental_div_mod(s * s, rp);
    vstd::arithmetic::div_mod::lemma_mod_bound(s * s, rp);
    let rem = (s * s) % rp;
    assert(rp * q == s * s - rem);
    vstd::arithmetic::div_mod::lemma_div_pos_is_pos(s * s, rp);
    vstd::arithmetic::div_mod::lemma_div_nonincreasing(s * s, rp);
    assert(0 <= q <= s * s);
    let prod = rp * q;
    assert(s * s - rp < prod <= s * s);
    if r > 0 {
        assert(crate::fixed::div_v(s, r) == q);
        assert(mul_v(r, q) == prod / s);
    } else {
        assert(crate::fixed::div_v(s, r) == -q);
        assert(r * (-q) == rp * q) by (nonlinear_arith)
            requires
                rp == -r,
        {
        }
        assert(mul_v(r, -q) == prod / s);
    }
    vstd::arithmetic::div_mod::lemma_fundamental_div_mod_converse(s * s, s, s, 0);
    vstd::arithmetic::div_mod::lemma_div_is_ordered(prod, s * s, s);
    assert((s * s) / s == s);
    let low = s * s - 9_000 * s;
    assert(low <= prod) by (nonlinear_arith)
        requires
            prod > s * s - rp,
            rp <= 9_000 * s,
            low == s * s - 9_000 * s,
    {
    }
    vstd::arithmetic::div_mod::lemma_div_is_ordered(low, prod, s);
    assert(low == s * (s - 9_000) + 0) by (nonlinear_arith)
        requires
            low == s * s - 9_000 * s,
    {
    }
    vstd::arithmetic::div_mod::lemma_fundamental_div_mod_converse(low, s, s - 9_000, 0);
    assert(low / s == s - 9_000);
    assert(s - 9_000 <= prod / s <= s);
}

/// The real part of a second-order value multiplied by its own reciprocal
/// power lies within tolerance of the unit scalar, for nonzero real parts of
/// magnitude up to nine thousand.
pub proof fn lemma_inverse_real_part(a: Dual2Spec)
    requires
        wf2_model(a),
        1 <= a.real <= 9_000 * (SCALE as int) || -9_000 * (SCALE as int) <= a.real <= -1,
    ensures
        close_v(
            mul2_model(a, crate::dual2::pow2_model(a, -1)).real,
            SCALE as int,
        ),
{
    lemma_reciprocal_close(a.real);
}

/// The second-order entry of a sum for any pair of names: the saturating
/// sum of the operands' entries for reconciled names, zero outside.
pub proof fn lemma_add2_hlookup(a: Dual2Spec, b: Dual2Spec, x: Seq<char>, y: Seq<char>)
    requires
        wf2_model(a),
        wf2_model(b),
    ensures
        wf2_model(add2_model(a, b)),
        lookup2(add2_model(a, b), x) == if common_vars(a.vars, b.vars).contains(x) {
            add_v(lookup2(a, x), lookup2(b, x))
        } else {
            0
        },
        hlookup(add2_model(a, b), x, y) == if common_vars(a.vars, b.vars).contains(x)
            && common_vars(a.vars, b.vars).contains(y) {
            add_v(hlookup(a, x, y), hlookup(b, x, y))
        } else {
            0
        },
{
    lemma_common_props(a.vars, b.vars);
    let u = common_vars(a.vars, b.vars);
    if u.contains(x) {
        let i = u.index_of(x);
        assert(u[i] == x);
        assert(add2_model(a, b).grad[i] == add_v(lookup2(a, u[i]), lookup2(b, u[i])));
        if u.contains(y) {
            let j = u.index_of(y);
            assert(u[j] == y);
            assert(add2_model(a, b).hess[i][j] == add_v(
                hlookup(a, u[i], u[j]),
                hlookup(b, u[i], u[j]),
            ));
        }
    }
}

/// Commutativity of second-order addition: `A + B` tolerantly equals
/// `B + A`, gradient and Hessian entries alike.
pub proof fn lemma_add2_commutative(a: Dual2Spec, b: Dual2Spec)
    requires
        wf2_model(a),
        wf2_model(b),
    ensures
        eq2_model(add2_model(a, b), add2_model(b, a)),
{
    let x = add2_model(a, b);
    let y = add2_model(b, a);
    lemma_common_props(a.vars, b.vars);
    lemma_common_props(b.vars, a.vars);
    assert(wf2_model(x)) by {
        lemma_add2_hlookup(a, b, a.vars[0], a.vars[0]);
    }
    assert(wf2_model(y)) by {
        lemma_add2_hlookup(b, a, a.vars[0], a.vars[0]);
    }
    lemma_common_props(x.vars, y.vars);
    let w = common_vars(x.vars, y.vars);
    assert forall|j: int| 0 <= j < w.len() implies close_v(
        lookup2(x, #[trigger] w[j]),
        lookup2(y, w[j]),
    ) by {
        lemma_add2_hlookup(a, b, w[j], w[j]);
        lemma_add2_hlookup(b, a, w[j], w[j]);
    }
    assert forall|i: int, j: int| 0 <= i < w.len() && 0 <= j < w.len() implies close_v(
        hlookup(x, #[trigger] w[i], #[trigger] w[j]),
        hlookup(y, w[i], w[j]),
    ) by {
        lemma_add2_hlookup(a, b, w[i], w[j]);
        lemma_add2_hlookup(b, a, w[i], w[j]);
    }
}

/// The second-order entry of a product for any pair of names, by the
/// second-order product rule.
pub proof fn lemma_mul2_hlookup(a: Dual2Spec, b: Dual2Spec, x: Seq<char>, y: Seq<char>)
    requires
        wf2_model(a),
        wf2_model(b),
    ensures
        wf2_model(mul2_model(a, b)),
        lookup2(mul2_model(a, b), x) == if common_vars(a.vars, b.vars).contains(x) {
            add_v(mul_v(lookup2(a, x), b.real), mul_v(lookup2(b, x), a.real))
        } else {
            0
        },
        hlookup(mul2_model(a, b), x, y) == if common_vars(a.vars, b.vars).contains(x)
            && common_vars(a.vars, b.vars).contains(y) {
            add_v(
                add_v(mul_v(hlookup(a, x, y), b.real), mul_v(hlookup(b, x, y), a.real)),
                crate::fixed::half_v(
                    add_v(
                        mul_v(lookup2(a, x), lookup2(b, y)),
                        mul_v(lookup2(a, y), lookup2(b, x)),
                    ),
                ),
            )
        } else {
            0
        },
{
    lemma_common_props(a.vars, b.vars);
    let u = common_vars(a.vars, b.vars);
    if u.contains(x) {
        let i = u.index_of(x);
        assert(u[i] == x);
        assert(mul2_model(a, b).grad[i] == add_v(
            mul_v(lookup2(a, u[i]), b.real),
            mul_v(lookup2(b, u[i]), a.real),
        ));
        if u.contains(y) {
            let j = u.index_of(y);
            assert(u[j] == y);
            assert(mul2_model(a, b).hess[i][j] == add_v(
                add_v(mul_v(hlookup(a, u[i], u[j]), b.real), mul_v(hlookup(b, u[i], u[j]), a.real)),
                crate::fixed::half_v(
                    add_v(
                        mul_v(lookup2(a, u[i]), lookup2(b, u[j])),
                        mul_v(lookup2(a, u[j]), lookup2(b, u[i])),
                    ),
                ),
            ));
        }
    }
}

/// Commutativity of second-order multiplication: `A * B` tolerantly equals
/// `B * A`, gradient and Hessian entries alike.
pub proof fn lemma_mul2_commutative(a: Dual2Spec, b: Dual2Spec)
    requires
        wf2_model(a),
        wf2_model(b),
    ensures
        eq2_model(mul2_model(a, b), mul2_model(b, a)),
{
    let x = mul2_model(a, b);
    let y = mul2_model(b, a);
    lemma_common_props(a.vars, b.vars);
    lemma_common_props(b.vars, a.vars);
    assert(wf2_model(x)) by {
        lemma_mul2_hlookup(a, b, a.vars[0], a.vars[0]);
    }
    assert(wf2_model(y)) by {
        lemma_mul2_hlookup(b, a, a.vars[0], a.vars[0]);
    }
    lemma_common_props(x.vars, y.vars);
    let w = common_vars(x.vars, y.vars);
    assert forall|j: int| 0 <= j < w.len() implies close_v(
        lookup2(x, #[trigger] w[j]),
        lookup2(y, w[j]),
    ) by {
        lemma_mul2_hlookup(a, b, w[j], w[j]);
        lemma_mul2_hlookup(b, a, w[j], w[j]);
    }
    assert forall|i: int, j: int| 0 <= i < w.len() && 0 <= j < w.len() implies close_v(
        hlookup(x, #[trigger] w[i], #[trigger] w[j]),
        hlookup(y, w[i], w[j]),
    ) by {
        lemma_mul2_hlookup(a, b, w[i], w[j]);
        lemma_mul2_hlookup(b, a, w[i], w[j]);
    }
}

} // verus!
