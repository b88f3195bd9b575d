//! The first-order dual number: a scalar with a gradient over named
//! variables.
//!
//! Every operation first reconciles the two operands' registries onto a
//! common one (picking the cheapest path through the relationship
//! classifier), then combines real parts and gradients elementwise. Each
//! contract states the result as a pure function of the operands' models.

use crate::fixed::{
    add_v, close_v, div_v, exp_v, fpow_v, imul_v, ln_v, mul_v, neg_v, seq_vals, sub_v, Fixed,
    SCALE,
};
use crate::vars::{
    arc_clone, arc_get, arc_ptr_eq, dedup_names, subset_names, union_names, NameSeq, Vars,
};
use crate::DualError;
use std::sync::Arc;
use vstd::prelude::*;

verus! {

/// The mathematical value of a first-order dual number: a real part, an
/// ordered duplicate-free registry, and one gradient entry per name.
pub struct DualSpec {
    pub real: int,
    pub vars: NameSeq,
    pub grad: Seq<int>,
}

/// Well-formedness of a model: a duplicate-free registry indexing the
/// gradient one-to-one.
pub open spec fn wf_model(d: DualSpec) -> bool {
    d.vars.no_duplicates() && d.grad.len() == d.vars.len()
}

/// The sensitivity of a value to a name: the gradient entry at the name's
/// position, or zero when the registry lacks the name.
pub open spec fn lookup_in(vars: NameSeq, grad: Seq<int>, x: Seq<char>) -> int {
    if vars.contains(x) {
        grad[vars.index_of(x)]
    } else {
        0
    }
}

/// The sensitivity of a first-order model to a name.
pub open spec fn lookup(d: DualSpec, x: Seq<char>) -> int {
    lookup_in(d.vars, d.grad, x)
}

/// In a duplicate-free registry, the sensitivity to the name at position `j`
/// is exactly gradient entry `j`.
pub proof fn lemma_lookup_at(vars: NameSeq, grad: Seq<int>, j: int)
    requires
        vars.no_duplicates(),
        grad.len() == vars.len(),
        0 <= j < vars.len(),
    ensures
        lookup_in(vars, grad, vars[j]) == grad[j],
{
    assert(vars.contains(vars[j]));
    let i = vars.index_of(vars[j]);
    assert(vars[i] == vars[j]);
    assert(i == j);
}

/// The registry a pair of operands is reconciled onto: the left registry
/// when it covers the right one, the right when it covers the left, and
/// their union otherwise.
pub open spec fn common_vars(a: NameSeq, b: NameSeq) -> NameSeq {
    if subset_names(b, a) {
        a
    } else if subset_names(a, b) {
        b
    } else {
        union_names(a, b)
    }
}

/// Re-expression of a model over a target registry: the real part is kept
/// and each gradient entry is the sensitivity to the target name, zero where
/// the value never depended on it.
pub open spec fn reindex_model(d: DualSpec, t: NameSeq) -> DualSpec {
    DualSpec { real: d.real, vars: t, grad: Seq::new(t.len(), |j: int| lookup(d, t[j])) }
}

/// Re-expressing a model over its own registry leaves it unchanged.
pub proof fn lemma_reindex_self(d: DualSpec)
    requires
        wf_model(d),
    ensures
        reindex_model(d, d.vars) == d,
{
    assert forall|j: int| 0 <= j < d.vars.len() implies lookup(d, d.vars[j]) == d.grad[j] by {
        lemma_lookup_at(d.vars, d.grad, j);
    }
    assert(reindex_model(d, d.vars).grad =~= d.grad);
}

/// Addition of two models over the reconciled registry.
pub open spec fn add_model(a: DualSpec, b: DualSpec) -> DualSpec {
    let u = common_vars(a.vars, b.vars);
    DualSpec {
        real: add_v(a.real, b.real),
        vars: u,
        grad: Seq::new(u.len(), |j: int| add_v(lookup(a, u[j]), lookup(b, u[j]))),
    }
}

/// Subtraction of two models over the reconciled registry.
pub open spec fn sub_model(a: DualSpec, b: DualSpec) -> DualSpec {
    let u = common_vars(a.vars, b.vars);
    DualSpec {
        real: sub_v(a.real, b.real),
        vars: u,
        grad: Seq::new(u.len(), |j: int| sub_v(lookup(a, u[j]), lookup(b, u[j]))),
    }
}

/// Multiplication of two models: the product rule applied entrywise over the
/// reconciled registry.
pub open spec fn mul_model(a: DualSpec, b: DualSpec) -> DualSpec {
    let u = common_vars(a.vars, b.vars);
    DualSpec {
        real: mul_v(a.real, b.real),
        vars: u,
        grad: Seq::new(
            u.len(),
            |j: int| add_v(mul_v(lookup(a, u[j]), b.real), mul_v(lookup(b, u[j]), a.real)),
        ),
    }
}

/// Negation of a model.
pub open spec fn neg_model(d: DualSpec) -> DualSpec {
    DualSpec { real: neg_v(d.real), vars: d.vars, grad: Seq::new(d.grad.len(), |j: int| neg_v(d.grad[j])) }
}

/// A scalar added to a model: the gradient and registry are untouched.
pub open spec fn add_scalar_model(d: DualSpec, s: int) -> DualSpec {
    DualSpec { real: add_v(d.real, s), vars: d.vars, grad: d.grad }
}

/// A scalar subtracted from a model.
pub open spec fn sub_scalar_model(d: DualSpec, s: int) -> DualSpec {
    DualSpec { real: sub_v(d.real, s), vars: d.vars, grad: d.grad }
}

/// A model multiplied by a scalar: the real part and every gradient entry
/// are scaled.
pub open spec fn mul_scalar_model(d: DualSpec, s: int) -> DualSpec {
    DualSpec {
        real: mul_v(d.real, s),
        vars: d.vars,
        grad: Seq::new(d.grad.len(), |j: int| mul_v(d.grad[j], s)),
    }
}

/// A model divided by a scalar.
pub open spec fn div_scalar_model(d: DualSpec, s: int) -> DualSpec {
    DualSpec {
        real: div_v(d.real, s),
        vars: d.vars,
        grad: Seq::new(d.grad.len(), |j: int| div_v(d.grad[j], s)),
    }
}

/// A model raised to an integer power: the single-variable chain rule with
/// derivative factor `p * real^(p-1)` broadcast across the gradient.
pub open spec fn pow_model(d: DualSpec, p: int) -> DualSpec {
    let coeff = imul_v(fpow_v(d.real, p - 1), p);
    DualSpec {
        real: fpow_v(d.real, p),
        vars: d.vars,
        grad: Seq::new(d.grad.len(), |j: int| mul_v(d.grad[j], coeff)),
    }
}

/// The exponential of a model: the chain rule scales the gradient by the
/// exponential of the real part.
pub open spec fn exp_model(d: DualSpec) -> DualSpec {
    let c = exp_v(d.real);
    DualSpec {
        real: c,
        vars: d.vars,
        grad: Seq::new(d.grad.len(), |j: int| mul_v(d.grad[j], c)),
    }
}

/// The natural logarithm of a model: the chain rule scales the gradient by
/// the reciprocal of the real part.
pub open spec fn log_model(d: DualSpec) -> DualSpec {
    let c = div_v(SCALE as int, d.real);
    DualSpec {
        real: ln_v(d.real),
        vars: d.vars,
        grad: Seq::new(d.grad.len(), |j: int| mul_v(d.grad[j], c)),
    }
}

/// The absolute value of a model. At a real part of exactly zero the
/// positive branch is taken, fixing the derivative factor to plus one.
pub open spec fn abs_model(d: DualSpec) -> DualSpec {
    if d.real >= 0 {
        d
    } else {
        neg_model(d)
    }
}

/// A scalar minus a model: the gradient is negated.
pub open spec fn scalar_sub_model(s: int, d: DualSpec) -> DualSpec {
    DualSpec {
        real: sub_v(s, d.real),
        vars: d.vars,
        grad: Seq::new(d.grad.len(), |j: int| neg_v(d.grad[j])),
    }
}

/// The additive identity: a zero scalar over the empty registry.
pub open spec fn zero_model() -> DualSpec {
    DualSpec { real: 0, vars: Seq::empty(), grad: Seq::empty() }
}

/// Summation of a sequence of models: a left fold of addition starting from
/// the additive identity, so the accumulator's registry grows by union as
/// each term is absorbed.
pub open spec fn sum_models(s: Seq<DualSpec>) -> DualSpec
    decreases s.len(),
{
    if s.len() == 0 {
        zero_model()
    } else {
        add_model(sum_models(s.drop_last()), s.last())
    }
}

/// The elementwise products of two equally long sequences of models.
pub open spec fn products_of(a: Seq<DualSpec>, b: Seq<DualSpec>) -> Seq<DualSpec> {
    Seq::new(a.len(), |i: int| mul_model(a[i], b[i]))
}

/// Tolerant equality of two models: exact real parts, and after
/// reconciliation every sensitivity within tolerance; a name absent from one
/// side counts as a zero sensitivity there.
pub open spec fn eq_model(a: DualSpec, b: DualSpec) -> bool {
    let u = common_vars(a.vars, b.vars);
    a.real == b.real && forall|j: int|
        0 <= j < u.len() ==> close_v(lookup(a, #[trigger] u[j]), lookup(b, u[j]))
}

/// The model a fresh dual number is built from: the registry is the
/// deduplicated name list; an omitted gradient defaults to one per name.
pub open spec fn new_model(value: int, names: NameSeq, grad: Seq<int>) -> DualSpec {
    let vars = dedup_names(names);
    DualSpec {
        real: value,
        vars: vars,
        grad: if grad.len() == 0 {
            Seq::new(vars.len(), |j: int| SCALE as int)
        } else {
            grad
        },
    }
}

/// How two registries relate, so that reconciliation can pick the cheapest
/// path. `ArcEquivalent` means the operands share one registry allocation;
/// `ValueEquivalent` means distinct allocations holding the same names in
/// the same order; `Superset` and `Subset` compare the name sets; and
/// `Difference` means neither side covers the other.
#[derive(Clone, Copy, PartialEq, Eq, Structural, Debug)]
pub enum VarsRelationship {
    ArcEquivalent,
    ValueEquivalent,
    Superset,
    Subset,
    Difference,
}

/// A first-order dual number: a scalar value plus one partial derivative per
/// registered variable name.
#[derive(Debug)]
pub struct Dual {
    real: Fixed,
    vars: Arc<Vars>,
    grad: Vec<Fixed>,
}

impl View for Dual {
    type V = DualSpec;

    closed spec fn view(&self) -> DualSpec {
        DualSpec { real: self.real@, vars: self.vars@, grad: seq_vals(self.grad@) }
    }
}

/// Copy a gradient vector; the scalar entries are plain values.
fn copy_grad(g: &Vec<Fixed>) -> (r: Vec<Fixed>)
    ensures
        r@ == g@,
{
    let mut out: Vec<Fixed> = Vec::new();
    let mut i: usize = 0;
    while i < g.len()
        invariant
            i <= g@.len(),
            out@ == g@.take(i as int),
        decreases g@.len() - i,
    {
        out.push(g[i]);
        proof {
            assert(g@.take(i + 1) =~= g@.take(i as int).push(g@[i as int]));
        }
        i = i + 1;
    }
    proof {
        assert(g@.take(g@.len() as int) =~= g@);
    }
    out
}

impl Dual {
    #[verifier::type_invariant]
    closed spec fn type_inv(self) -> bool {
        wf_model(self@)
    }

    /// Construct a dual number from a scalar, a list of variable names, and
    /// an optional gradient. The names are deduplicated keeping first
    /// occurrences; an empty gradient defaults to one per variable, and a
    /// non-empty gradient whose length differs from the deduplicated count
    /// is rejected with `InvalidLength`.
    pub fn new(value: Fixed, vars: Vec<String>, grad: Vec<Fixed>) -> (r: Result<Dual, DualError>)
        ensures
            match r {
                Ok(d) => (grad@.len() == 0 || grad@.len() == dedup_names(
                    vars.deep_view(),
                ).len()) && d@ == new_model(value@, vars.deep_view(), seq_vals(grad@)) && wf_model(
                    d@,
                ),
                Err(e) => e == DualError::InvalidLength && grad@.len() != 0 && grad@.len()
                    != dedup_names(vars.deep_view()).len(),
            },
    {
        let vs = Vars::from_names(vars);
        if grad.len() == 0 {
            let n = vs.len();
            let mut ones: Vec<Fixed> = Vec::new();
            let mut i: usize = 0;
            while i < n
                invariant
                    i <= n,
                    ones@.len() == i,
                    forall|j: int| 0 <= j < i ==> ones@[j]@ == SCALE as int,
                decreases n - i,
            {
                ones.push(Fixed::one());
                i = i + 1;
            }
            let d = Dual { real: value, vars: Arc::new(vs), grad: ones };
            proof {
                assert(seq_vals(d.grad@) =~= Seq::new(d.vars@.len(), |j: int| SCALE as int));
            }
            Ok(d)
        } else if grad.len() == vs.len() {
            let d = Dual { real: value, vars: Arc::new(vs), grad };
            Ok(d)
        } else {
            Err(DualError::InvalidLength)
        }
    }

    /// Construct a dual number as `new` does, then re-express it over
    /// another value's registry, zero-padding sensitivities the registry
    /// lacks and sharing its allocation.
    pub fn new_from(other: &Dual, value: Fixed, vars: Vec<String>, grad: Vec<Fixed>) -> (r: Result<
        Dual,
        DualError,
    >)
        ensures
            match r {
                Ok(d) => (grad@.len() == 0 || grad@.len() == dedup_names(vars.deep_view()).len())
                    && d@ == reindex_model(
                    new_model(value@, vars.deep_view(), seq_vals(grad@)),
                    other@.vars,
                ),
                Err(e) => e == DualError::InvalidLength && grad@.len() != 0 && grad@.len()
                    != dedup_names(vars.deep_view()).len(),
            },
    {
        proof {
            use_type_invariant(other);
        }
        match Dual::new(value, vars, grad) {
            Ok(d) => Ok(d.to_new_vars(&other.vars)),
            Err(e) => Err(e),
        }
    }

    /// The scalar value.
    pub fn real_part(&self) -> (r: Fixed)
        ensures
            r@ == self@.real,
    {
        self.real
    }

    /// The ordered variable names.
    pub fn vars(&self) -> (r: Vec<String>)
        ensures
            r.deep_view() == self@.vars,
    {
        arc_get(&self.vars).to_vec()
    }

    /// The number of registered variables.
    pub fn num_vars(&self) -> (n: usize)
        ensures
            n == self@.vars.len(),
    {
        arc_get(&self.vars).len()
    }

    /// The raw gradient, ordered as the registry.
    pub fn grad(&self) -> (r: Vec<Fixed>)
        ensures
            seq_vals(r@) == self@.grad,
            self@.grad.len() == self@.vars.len(),
    {
        proof {
            use_type_invariant(self);
        }
        copy_grad(&self.grad)
    }

    /// An identical value sharing this value's registry allocation.
    pub fn duplicate(&self) -> (r: Dual)
        ensures
            r@ == self@,
    {
        proof {
            use_type_invariant(self);
        }
        Dual { real: self.real, vars: arc_clone(&self.vars), grad: copy_grad(&self.grad) }
    }

    /// Whether the two values share one registry allocation; a true result
    /// guarantees equal registries, and performance-sensitive callers use it
    /// to skip reconciliation.
    pub fn ptr_eq(&self, other: &Dual) -> (r: bool)
        ensures
            r ==> self@.vars == other@.vars,
    {
        arc_ptr_eq(&self.vars, &other.vars)
    }

    /// Classify how this value's registry relates to another registry.
    fn vars_cmp(&self, arc_vars: &Arc<Vars>) -> (r: VarsRelationship)
        ensures
            match r {
                VarsRelationship::ArcEquivalent => self@.vars == (*arc_vars)@,
                VarsRelationship::ValueEquivalent => self@.vars == (*arc_vars)@,
                VarsRelationship::Superset => subset_names((*arc_vars)@, self@.vars) && self@.vars
                    != (*arc_vars)@,
                VarsRelationship::Subset => subset_names(self@.vars, (*arc_vars)@)
                    && !subset_names((*arc_vars)@, self@.vars),
                VarsRelationship::Difference => !subset_names(self@.vars, (*arc_vars)@)
                    && !subset_names((*arc_vars)@, self@.vars),
            },
    {
        if arc_ptr_eq(&self.vars, arc_vars) {
            VarsRelationship::ArcEquivalent
        } else if arc_get(&self.vars).value_eq(arc_get(arc_vars)) {
            VarsRelationship::ValueEquivalent
        } else if arc_get(arc_vars).is_subset_of(arc_get(&self.vars)) {
            VarsRelationship::Superset
        } else if arc_get(&self.vars).is_subset_of(arc_get(arc_vars)) {
            VarsRelationship::Subset
        } else {
            VarsRelationship::Difference
        }
    }

    /// Re-express this value over a target registry: the gradient is
    /// permuted and zero-padded to the target order, and the result shares
    /// the target's allocation.
    pub fn to_new_vars(&self, new_vars: &Arc<Vars>) -> (r: Dual)
        requires
            (*new_vars)@.no_duplicates(),
        ensures
            r@ == reindex_model(self@, (*new_vars)@),
    {
        proof {
            use_type_invariant(self);
        }
        let rel = self.vars_cmp(new_vars);
        let fast = match rel {
            VarsRelationship::ArcEquivalent => true,
            VarsRelationship::ValueEquivalent => true,
            _ => false,
        };
        if fast {
            let r = Dual {
                real: self.real,
                vars: arc_clone(new_vars),
                grad: copy_grad(&self.grad),
            };
            proof {
                lemma_reindex_self(self@);
            }
            r
        } else {
            let vs = arc_get(new_vars);
            let n = vs.len();
            let mut g: Vec<Fixed> = Vec::new();
            let mut j: usize = 0;
            while j < n
                invariant
                    j <= n,
                    n == (*new_vars)@.len(),
                    *vs == **new_vars,
                    wf_model(self@),
                    g@.len() == j,
                    forall|k: int| 0 <= k < j ==> g@[k]@ == lookup(self@, (*new_vars)@[k]),
                decreases n - j,
            {
                let name = vs.name_at(j);
                let entry = match arc_get(&self.vars).index_of(name) {
                    Some(i) => {
                        proof {
                            assert(self@.vars.contains(name@));
                            let w = self@.vars.index_of(name@);
                            assert(self@.vars[w] == name@);
                            assert(w == i);
                        }
                        self.grad[i]
                    },
                    None => Fixed::zero(),
                };
                g.push(entry);
                j = j + 1;
            }
            let r = Dual { real: self.real, vars: arc_clone(new_vars), grad: g };
            proof {
                assert(r@.grad =~= reindex_model(self@, (*new_vars)@).grad);
            }
            r
        }
    }

    /// Express two values over their reconciled registry, choosing the
    /// cheapest path: operands already sharing or equal registries are kept,
    /// one covering registry is reused, and otherwise both are re-expressed
    /// over the union registry.
    pub fn to_union_vars(&self, other: &Dual) -> (r: (Dual, Dual))
        ensures
            r.0@ == reindex_model(self@, common_vars(self@.vars, other@.vars)),
            r.1@ == reindex_model(other@, common_vars(self@.vars, other@.vars)),
    {
        proof {
            use_type_invariant(self);
            use_type_invariant(other);
        }
        let rel = self.vars_cmp(&other.vars);
        match rel {
            VarsRelationship::ArcEquivalent => {
                proof {
                    lemma_reindex_self(self@);
                    lemma_reindex_self(other@);
                }
                (self.duplicate(), other.duplicate())
            },
            VarsRelationship::ValueEquivalent => {
                proof {
                    lemma_reindex_self(self@);
                }
                (self.duplicate(), other.to_new_vars(&self.vars))
            },
            VarsRelationship::Superset => {
                proof {
                    lemma_reindex_self(self@);
                }
                (self.duplicate(), other.to_new_vars(&self.vars))
            },
            VarsRelationship::Subset => {
                proof {
                    lemma_reindex_self(other@);
                }
                (self.to_new_vars(&other.vars), other.duplicate())
            },
            VarsRelationship::Difference => {
                let u = Arc::new(arc_get(&self.vars).union(arc_get(&other.vars)));
                (self.to_new_vars(&u), other.to_new_vars(&u))
            },
        }
    }

    /// Add two dual numbers: real parts and reconciled gradients add
    /// elementwise.
    pub fn add(&self, other: &Dual) -> (r: Dual)
        ensures
            r@ == add_model(self@, other@),
    {
        let (x, y) = self.to_union_vars(other);
        proof {
            use_type_invariant(&x);
            use_type_invariant(&y);
        }
        let n = x.grad.len();
        let mut g: Vec<Fixed> = Vec::new();
        let mut j: usize = 0;
        while j < n
            invariant
                j <= n,
                n == x.grad@.len(),
                y.grad@.len() == n,
                g@.len() == j,
                forall|k: int| 0 <= k < j ==> g@[k]@ == add_v(x@.grad[k], y@.grad[k]),
            decreases n - j,
        {
            g.push(x.grad[j].add(y.grad[j]));
            j = j + 1;
        }
        let r = Dual { real: x.real.add(y.real), vars: x.vars, grad: g };
        proof {
            assert(r@.grad =~= add_model(self@, other@).grad);
        }
        r
    }

    /// Subtract two dual numbers: real parts and reconciled gradients
    /// subtract elementwise.
    pub fn sub(&self, other: &Dual) -> (r: Dual)
        ensures
            r@ == sub_model(self@, other@),
    {
        let (x, y) = self.to_union_vars(other);
        proof {
            use_type_invariant(&x);
            use_type_invariant(&y);
        }
        let n = x.grad.len();
        let mut g: Vec<Fixed> = Vec::new();
        let mut j: usize = 0;
        while j < n
            invariant
                j <= n,
                n == x.grad@.len(),
                y.grad@.len() == n,
                g@.len() == j,
                forall|k: int| 0 <= k < j ==> g@[k]@ == sub_v(x@.grad[k], y@.grad[k]),
            decreases n - j,
        {
            g.push(x.grad[j].sub(y.grad[j]));
            j = j + 1;
        }
        let r = Dual { real: x.real.sub(y.real), vars: x.vars, grad: g };
        proof {
            assert(r@.grad =~= sub_model(self@, other@).grad);
        }
        r
    }

    /// Multiply two dual numbers: the product rule combines the reconciled
    /// gradients with the operands' real parts.
    pub fn mul(&self, other: &Dual) -> (r: Dual)
        ensures
            r@ == mul_model(self@, other@),
    {
        let (x, y) = self.to_union_vars(other);
        proof {
            use_type_invariant(&x);
            use_type_invariant(&y);
        }
        let n = x.grad.len();
        let mut g: Vec<Fixed> = Vec::new();
        let mut j: usize = 0;
        while j < n
            invariant
                j <= n,
                n == x.grad@.len(),
                y.grad@.len() == n,
                x@.real == self@.real,
                y@.real == other@.real,
                g@.len() == j,
                forall|k: int|
                    0 <= k < j ==> g@[k]@ == add_v(
                        mul_v(x@.grad[k], other@.real),
                        mul_v(y@.grad[k], self@.real),
                    ),
            decreases n - j,
        {
            g.push(x.grad[j].mul(y.real).add(y.grad[j].mul(x.real)));
            j = j + 1;
        }
        let r = Dual { real: x.real.mul(y.real), vars: x.vars, grad: g };
        proof {
            assert(r@.grad =~= mul_model(self@, other@).grad);
        }
        r
    }

    /// Divide two dual numbers: multiplication by the reciprocal, inheriting
    /// the power rule's gradient term.
    pub fn div(&self, other: &Dual) -> (r: Dual)
        ensures
            r@ == mul_model(self@, pow_model(other@, -1)),
    {
        self.mul(&other.pow(-1))
    }

    /// Negate a dual number: the real part and every gradient entry flip
    /// sign; the registry is unchanged and stays shared.
    pub fn neg(&self) -> (r: Dual)
        ensures
            r@ == neg_model(self@),
    {
        proof {
            use_type_invariant(self);
        }
        let n = self.grad.len();
        let mut g: Vec<Fixed> = Vec::new();
        let mut j: usize = 0;
        while j < n
            invariant
                j <= n,
                n == self.grad@.len(),
                g@.len() == j,
                forall|k: int| 0 <= k < j ==> g@[k]@ == neg_v(self@.grad[k]),
            decreases n - j,
        {
            g.push(self.grad[j].neg());
            j = j + 1;
        }
        let r = Dual { real: self.real.neg(), vars: arc_clone(&self.vars), grad: g };
        proof {
            assert(r@.grad =~= neg_model(self@).grad);
        }
        r
    }

    /// Add a plain scalar: only the real part moves.
    pub fn add_scalar(&self, s: Fixed) -> (r: Dual)
        ensures
            r@ == add_scalar_model(self@, s@),
    {
        proof {
            use_type_invariant(self);
        }
        Dual { real: self.real.add(s), vars: arc_clone(&self.vars), grad: copy_grad(&self.grad) }
    }

    /// Subtract a plain scalar: only the real part moves.
    pub fn sub_scalar(&self, s: Fixed) -> (r: Dual)
        ensures
            r@ == sub_scalar_model(self@, s@),
    {
        proof {
            use_type_invariant(self);
        }
        Dual { real: self.real.sub(s), vars: arc_clone(&self.vars), grad: copy_grad(&self.grad) }
    }

    /// A plain scalar minus this value: the gradient flips sign.
    pub fn scalar_sub(&self, s: Fixed) -> (r: Dual)
        ensures
            r@ == scalar_sub_model(s@, self@),
    {
        let negated = self.neg();
        proof {
            use_type_invariant(&negated);
        }
        let r = Dual {
            real: s.sub(self.real),
            vars: negated.vars,
            grad: negated.grad,
        };
        proof {
            assert(r@.grad =~= scalar_sub_model(s@, self@).grad);
        }
        r
    }

    /// Scale by a plain scalar: the real part and every gradient entry are
    /// multiplied by it.
    pub fn mul_scalar(&self, s: Fixed) -> (r: Dual)
        ensures
            r@ == mul_scalar_model(self@, s@),
    {
        proof {
            use_type_invariant(self);
        }
        let n = self.grad.len();
        let mut g: Vec<Fixed> = Vec::new();
        let mut j: usize = 0;
        while j < n
            invariant
                j <= n,
                n == self.grad@.len(),
                g@.len() == j,
                forall|k: int| 0 <= k < j ==> g@[k]@ == mul_v(self@.grad[k], s@),
            decreases n - j,
        {
            g.push(self.grad[j].mul(s));
            j = j + 1;
        }
        let r = Dual { real: self.real.mul(s), vars: arc_clone(&self.vars), grad: g };
        proof {
            assert(r@.grad =~= mul_scalar_model(self@, s@).grad);
        }
        r
    }

    /// Divide by a plain scalar: the real part and every gradient entry are
    /// divided by it.
    pub fn div_scalar(&self, s: Fixed) -> (r: Dual)
        ensures
            r@ == div_scalar_model(self@, s@),
    {
        proof {
            use_type_invariant(self);
        }
        let n = self.grad.len();
        let mut g: Vec<Fixed> = Vec::new();
        let mut j: usize = 0;
        while j < n
            invariant
                j <= n,
                n == self.grad@.len(),
                g@.len() == j,
                forall|k: int| 0 <= k < j ==> g@[k]@ == div_v(self@.grad[k], s@),
            decreases n - j,
        {
            g.push(self.grad[j].div(s));
            j = j + 1;
        }
        let r = Dual { real: self.real.div(s), vars: arc_clone(&self.vars), grad: g };
        proof {
            assert(r@.grad =~= div_scalar_model(self@, s@).grad);
        }
        r
    }

    /// A plain scalar divided by this value: the reciprocal scaled by the
    /// scalar.
    pub fn scalar_div(&self, s: Fixed) -> (r: Dual)
        ensures
            r@ == mul_scalar_model(pow_model(self@, -1), s@),
    {
        self.pow(-1).mul_scalar(s)
    }

    /// Raise to an integer power: the single-variable chain rule broadcasts
    /// the derivative factor `p * real^(p-1)` across the gradient.
    pub fn pow(&self, p: i32) -> (r: Dual)
        ensures
            r@ == pow_model(self@, p as int),
    {
        proof {
            use_type_invariant(self);
        }
        let coeff = self.real.fpow((p as i64) - 1).scale_by(p as i64);
        let n = self.grad.len();
        let mut g: Vec<Fixed> = Vec::new();
        let mut j: usize = 0;
        while j < n
            invariant
                j <= n,
                n == self.grad@.len(),
                coeff@ == imul_v(fpow_v(self@.real, p - 1), p as int),
                g@.len() == j,
                forall|k: int| 0 <= k < j ==> g@[k]@ == mul_v(self@.grad[k], coeff@),
            decreases n - j,
        {
            g.push(self.grad[j].mul(coeff));
            j = j + 1;
        }
        let r = Dual { real: self.real.fpow(p as i64), vars: arc_clone(&self.vars), grad: g };
        proof {
            assert(r@.grad =~= pow_model(self@, p as int).grad);
        }
        r
    }

    /// Raise to an arbitrary scalar exponent through the exponential of the
    /// scaled logarithm, for use where the exponent is not a whole number;
    /// the real part must be positive for the logarithm to be meaningful.
    pub fn pow_scalar(&self, p: Fixed) -> (r: Dual)
        ensures
            r@ == exp_model(mul_scalar_model(log_model(self@), p@)),
    {
        self.log().mul_scalar(p).exp()
    }

    /// The exponential: the chain rule scales every gradient entry by the
    /// exponential of the real part.
    pub fn exp(&self) -> (r: Dual)
        ensures
            r@ == exp_model(self@),
    {
        proof {
            use_type_invariant(self);
        }
        let c = self.real.exp();
        let n = self.grad.len();
        let mut g: Vec<Fixed> = Vec::new();
        let mut j: usize = 0;
        while j < n
            invariant
                j <= n,
                n == self.grad@.len(),
                c@ == exp_v(self@.real),
                g@.len() == j,
                forall|k: int| 0 <= k < j ==> g@[k]@ == mul_v(self@.grad[k], c@),
            decreases n - j,
        {
            g.push(self.grad[j].mul(c));
            j = j + 1;
        }
        let r = Dual { real: c, vars: arc_clone(&self.vars), grad: g };
        proof {
            assert(r@.grad =~= exp_model(self@).grad);
        }
        r
    }

    /// The natural logarithm: the chain rule scales every gradient entry by
    /// the reciprocal of the real part.
    pub fn log(&self) -> (r: Dual)
        ensures
            r@ == log_model(self@),
    {
        proof {
            use_type_invariant(self);
        }
        let c = Fixed::one().div(self.real);
        let n = self.grad.len();
        let mut g: Vec<Fixed> = Vec::new();
        let mut j: usize = 0;
        while j < n
            invariant
                j <= n,
                n == self.grad@.len(),
                c@ == div_v(SCALE as int, self@.real),
                g@.len() == j,
                forall|k: int| 0 <= k < j ==> g@[k]@ == mul_v(self@.grad[k], c@),
            decreases n - j,
        {
            g.push(self.grad[j].mul(c));
            j = j + 1;
        }
        let r = Dual { real: self.real.ln(), vars: arc_clone(&self.vars), grad: g };
        proof {
            assert(r@.grad =~= log_model(self@).grad);
        }
        r
    }

    /// The absolute value, with the positive branch taken at a real part of
    /// exactly zero.
    pub fn abs(&self) -> (r: Dual)
        ensures
            r@ == abs_model(self@),
    {
        if self.real.is_negative() {
            self.neg()
        } else {
            self.duplicate()
        }
    }

    /// The sensitivity to each requested name, zero where this value never
    /// depended on it.
    pub fn grad1(&self, names: &Vec<String>) -> (r: Vec<Fixed>)
        ensures
            r@.len() == names.deep_view().len(),
            forall|j: int|
                0 <= j < r@.len() ==> r@[j]@ == lookup(self@, names.deep_view()[j]),
    {
        proof {
            use_type_invariant(self);
        }
        let n = names.len();
        let mut g: Vec<Fixed> = Vec::new();
        let mut j: usize = 0;
        while j < n
            invariant
                j <= n,
                n == names.deep_view().len(),
                n == names@.len(),
                wf_model(self@),
                g@.len() == j,
                forall|k: int| 0 <= k < j ==> g@[k]@ == lookup(self@, names.deep_view()[k]),
            decreases n - j,
        {
            let entry = match arc_get(&self.vars).index_of(&names[j]) {
                Some(i) => {
                    proof {
                        assert(self@.vars.contains(names.deep_view()[j as int]));
                        let w = self@.vars.index_of(names.deep_view()[j as int]);
                        assert(self@.vars[w] == names.deep_view()[j as int]);
                        assert(w == i);
                    }
                    self.grad[i]
                },
                None => Fixed::zero(),
            };
            g.push(entry);
            j = j + 1;
        }
        g
    }

    /// A shared handle to this value's registry allocation.
    pub fn share_vars(&self) -> (r: Arc<Vars>)
        ensures
            r@ == self@.vars,
            self@.vars.no_duplicates(),
    {
        proof {
            use_type_invariant(self);
        }
        arc_clone(&self.vars)
    }

    /// Assemble a dual number from already-validated parts.
    pub(crate) fn from_raw(value: Fixed, vars: Arc<Vars>, grad: Vec<Fixed>) -> (r: Dual)
        requires
            vars@.no_duplicates(),
            grad@.len() == vars@.len(),
        ensures
            r@ == (DualSpec { real: value@, vars: vars@, grad: seq_vals(grad@) }),
    {
        Dual { real: value, vars, grad }
    }

    /// Lift a plain scalar: an empty registry and an empty gradient.
    pub fn from_scalar(s: Fixed) -> (r: Dual)
        ensures
            r@ == (DualSpec { real: s@, vars: Seq::<Seq<char>>::empty(), grad: Seq::<int>::empty() }),
    {
        let z = Dual::zero();
        proof {
            use_type_invariant(&z);
        }
        let r = Dual { real: s, vars: z.vars, grad: Vec::new() };
        proof {
            assert(r@.grad =~= Seq::<int>::empty());
        }
        r
    }

    /// The additive identity: a zero scalar over the empty registry.
    pub fn zero() -> (r: Dual)
        ensures
            r@ == zero_model(),
    {
        let names: Vec<String> = Vec::new();
        proof {
            assert(names.deep_view() =~= Seq::<Seq<char>>::empty());
        }
        let r = Dual { real: Fixed::zero(), vars: Arc::new(Vars::from_names(names)), grad: Vec::new() };
        proof {
            assert(r@.vars =~= Seq::<Seq<char>>::empty());
            assert(r@.grad =~= Seq::<int>::empty());
        }
        r
    }

    /// The multiplicative identity: a unit scalar over the empty registry.
    pub fn one() -> (r: Dual)
        ensures
            r@.real == SCALE as int,
            r@.vars == Seq::<Seq<char>>::empty(),
            r@.grad == Seq::<int>::empty(),
    {
        let names: Vec<String> = Vec::new();
        proof {
            assert(names.deep_view() =~= Seq::<Seq<char>>::empty());
        }
        let r = Dual { real: Fixed::one(), vars: Arc::new(Vars::from_names(names)), grad: Vec::new() };
        proof {
            assert(r@.vars =~= Seq::<Seq<char>>::empty());
            assert(r@.grad =~= Seq::<int>::empty());
        }
        r
    }

    /// Whether this value tolerantly equals the additive identity.
    pub fn is_zero(&self) -> (r: bool)
        ensures
            r == eq_model(self@, zero_model()),
    {
        let z = Dual::zero();
        *self == z
    }

    /// The dot product of two equally long sequences of dual numbers: the
    /// elementwise products summed from the additive identity.
    pub fn dot(xs: &Vec<Dual>, ys: &Vec<Dual>) -> (r: Dual)
        requires
            xs@.len() == ys@.len(),
        ensures
            r@ == sum_models(products_of(xs.deep_view(), ys.deep_view())),
    {
        let ghost ps = products_of(xs.deep_view(), ys.deep_view());
        let mut acc = Dual::zero();
        let mut i: usize = 0;
        while i < xs.len()
            invariant
                i <= xs@.len(),
                ys@.len() == xs@.len(),
                xs.deep_view().len() == xs@.len(),
                ys.deep_view().len() == ys@.len(),
                ps == products_of(xs.deep_view(), ys.deep_view()),
                acc@ == sum_models(ps.take(i as int)),
            decreases xs@.len() - i,
        {
            proof {
                assert(ps.take(i + 1).drop_last() =~= ps.take(i as int));
                assert(ps.take(i + 1).last() == ps[i as int]);
            }
            acc = acc.add(&xs[i].mul(&ys[i]));
            i = i + 1;
        }
        proof {
            assert(ps.take(xs@.len() as int) =~= ps);
        }
        acc
    }

    /// Sum a sequence of dual numbers: a left fold of addition starting from
    /// the additive identity, so the accumulator's registry grows by union
    /// as each term is absorbed.
    pub fn sum(xs: &Vec<Dual>) -> (r: Dual)
        ensures
            r@ == sum_models(xs.deep_view()),
    {
        let mut acc = Dual::zero();
        let mut i: usize = 0;
        while i < xs.len()
            invariant
                i <= xs@.len(),
                xs.deep_view().len() == xs@.len(),
                acc@ == sum_models(xs.deep_view().take(i as int)),
            decreases xs@.len() - i,
        {
            proof {
                assert(xs.deep_view().take(i + 1).drop_last() =~= xs.deep_view().take(i as int));
                assert(xs.deep_view().take(i + 1).last() == xs.deep_view()[i as int]);
            }
            acc = acc.add(&xs[i]);
            i = i + 1;
        }
        proof {
            assert(xs.deep_view().take(xs@.len() as int) =~= xs.deep_view());
        }
        acc
    }
}

impl DeepView for Dual {
    type V = DualSpec;

    open spec fn deep_view(&self) -> DualSpec {
        self.view()
    }
}

impl PartialEq for Dual {
    /// Tolerant equality: exact real parts and, after reconciliation, every
    /// sensitivity within tolerance.
    fn eq(&self, other: &Dual) -> (r: bool) {
        let (x, y) = self.to_union_vars(other);
        proof {
            use_type_invariant(&x);
            use_type_invariant(&y);
        }
        if !x.real.eq_exact(y.real) {
            return false;
        }
        let n = x.grad.len();
        let mut j: usize = 0;
        while j < n
            invariant
                j <= n,
                n == x.grad@.len(),
                y.grad@.len() == n,
                x@.grad.len() == n,
                y@.grad.len() == n,
                x@.grad == Seq::new(
                    common_vars(self@.vars, other@.vars).len(),
                    |k: int| lookup(self@, common_vars(self@.vars, other@.vars)[k]),
                ),
                y@.grad == Seq::new(
                    common_vars(self@.vars, other@.vars).len(),
                    |k: int| lookup(other@, common_vars(self@.vars, other@.vars)[k]),
                ),
                n == common_vars(self@.vars, other@.vars).len(),
                forall|k: int|
                    0 <= k < j ==> close_v(
                        lookup(self@, #[trigger] common_vars(self@.vars, other@.vars)[k]),
                        lookup(other@, common_vars(self@.vars, other@.vars)[k]),
                    ),
            decreases n - j,
        {
            let near = x.grad[j].close(y.grad[j]);
            proof {
                let u = common_vars(self@.vars, other@.vars);
                assert(x@.grad[j as int] == lookup(self@, u[j as int]));
                assert(y@.grad[j as int] == lookup(other@, u[j as int]));
                assert(x@.grad[j as int] == seq_vals(x.grad@)[j as int]);
                assert(y@.grad[j as int] == seq_vals(y.grad@)[j as int]);
            }
            if !near {
                proof {
                    let u = common_vars(self@.vars, other@.vars);
                    assert(!close_v(lookup(self@, u[j as int]), lookup(other@, u[j as int])));
                }
                return false;
            }
            j = j + 1;
        }
        true
    }
}

impl vstd::std_specs::cmp::PartialEqSpecImpl for Dual {
    open spec fn obeys_eq_spec() -> bool {
        true
    }

    open spec fn eq_spec(&self, other: &Dual) -> bool {
        eq_model(self@, other@)
    }
}

impl PartialOrd for Dual {
    /// Total order by real part only: gradients play no role. This is a
    /// scalar-comparison convenience, not an order on multivariate values.
    fn partial_cmp(&self, other: &Dual) -> (r: Option<core::cmp::Ordering>) {
        if self.real.m == other.real.m {
            Some(core::cmp::Ordering::Equal)
        } else if self.real.m < other.real.m {
            Some(core::cmp::Ordering::Less)
        } else {
            Some(core::cmp::Ordering::Greater)
        }
    }
}

impl vstd::std_specs::cmp::PartialOrdSpecImpl for Dual {
    open spec fn obeys_partial_cmp_spec() -> bool {
        true
    }

    open spec fn partial_cmp_spec(&self, other: &Dual) -> Option<core::cmp::Ordering> {
        if self@.real == other@.real {
            Some(core::cmp::Ordering::Equal)
        } else if self@.real < other@.real {
            Some(core::cmp::Ordering::Less)
        } else {
            Some(core::cmp::Ordering::Greater)
        }
    }
}

} // verus!
