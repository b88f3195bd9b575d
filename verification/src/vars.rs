//! The variable registry: an ordered, duplicate-free list of variable names.
//!
//! Every dual number indexes its derivative vector (and Hessian matrix) by a
//! registry. Registries are shared behind reference-counted handles so that
//! the common fast paths can compare handles by identity, but all contracts
//! are stated over the registry's value: the sequence of names it holds.

use std::sync::Arc;
use vstd::prelude::*;

verus! {

/// The names of a registry in spec form: each name is its character sequence.
pub type NameSeq = Seq<Seq<char>>;

/// Deduplication keeping the first occurrence of each name, in order.
pub open spec fn dedup_names(s: NameSeq) -> NameSeq
    decreases s.len(),
{
    if s.len() == 0 {
        Seq::empty()
    } else {
        let pre = dedup_names(s.drop_last());
        if pre.contains(s.last()) {
            pre
        } else {
            pre.push(s.last())
        }
    }
}

/// The union registry: all names of `a` in order, followed by the names of
/// `b` that `a` lacks, in `b`'s order.
pub open spec fn union_names(a: NameSeq, b: NameSeq) -> NameSeq {
    dedup_names(a + b)
}

/// Whether every name of `a` also occurs in `b`.
pub open spec fn subset_names(a: NameSeq, b: NameSeq) -> bool {
    forall|i: int| 0 <= i < a.len() ==> b.contains(#[trigger] a[i])
}

/// Deduplication yields a duplicate-free sequence holding exactly the names
/// of its input.
pub proof fn lemma_dedup_names(s: NameSeq)
    ensures
        dedup_names(s).no_duplicates(),
        forall|x: Seq<char>| dedup_names(s).contains(x) <==> s.contains(x),
    decreases s.len(),
{
    if s.len() == 0 {
    } else {
        lemma_dedup_names(s.drop_last());
        let pre = dedup_names(s.drop_last());
        assert forall|x: Seq<char>| s.contains(x) implies dedup_names(s).contains(x) by {
            let i = choose|i: int| 0 <= i < s.len() && s[i] == x;
            if i < s.len() - 1 {
                assert(s.drop_last()[i] == x);
                assert(s.drop_last().contains(x));
                if !pre.contains(s.last()) {
                    let j = choose|j: int| 0 <= j < pre.len() && pre[j] == x;
                    assert(pre.push(s.last())[j] == x);
                }
            } else {
                if pre.contains(s.last()) {
                } else {
                    assert(pre.push(s.last()).last() == x);
                }
            }
        }
        assert forall|x: Seq<char>| dedup_names(s).contains(x) implies s.contains(x) by {
            if !pre.contains(s.last()) {
                let j = choose|j: int| 0 <= j < dedup_names(s).len() && dedup_names(s)[j] == x;
                if j < pre.len() {
                    assert(pre.contains(x));
                    assert(s.drop_last().contains(x));
                    let i = choose|i: int| 0 <= i < s.drop_last().len() && s.drop_last()[i] == x;
                    assert(s[i] == x);
                } else {
                    assert(x == s.last());
                }
            } else {
                assert(dedup_names(s) == pre);
                assert(pre.contains(x));
                assert(s.drop_last().contains(x));
                let i = choose|i: int| 0 <= i < s.drop_last().len() && s.drop_last()[i] == x;
                assert(s[i] == x);
            }
        }
        if !pre.contains(s.last()) {
            assert(dedup_names(s) == pre.push(s.last()));
            assert forall|i: int, j: int|
                0 <= i < j < pre.push(s.last()).len() implies pre.push(s.last())[i] != pre.push(
                s.last(),
            )[j] by {
                if j < pre.len() {
                } else {
                    assert(pre.push(s.last())[i] == pre[i]);
                    assert(pre.contains(pre[i]));
                }
            }
        }
    }
}

/// The shape of the union registry: all names of `a` in their original
/// order, followed by exactly the names of `b` that `a` lacks, in `b`'s
/// order.
pub proof fn lemma_union_shape(a: NameSeq, b: NameSeq)
    requires
        a.no_duplicates(),
        b.no_duplicates(),
    ensures
        union_names(a, b) == a + b.filter(|x: Seq<char>| !a.contains(x)),
    decreases b.len(),
{
    reveal(Seq::filter);
    if b.len() == 0 {
        assert(a + b =~= a);
        lemma_dedup_of_distinct(a);
        assert(b.filter(|x: Seq<char>| !a.contains(x)) =~= b);
        assert(a + b.filter(|x: Seq<char>| !a.contains(x)) =~= a);
    } else {
        let l = b.last();
        let b0 = b.drop_last();
        assert(b0.no_duplicates());
        lemma_union_shape(a, b0);
        assert((a + b).drop_last() =~= a + b0);
        assert((a + b).len() > 0);
        assert((a + b).last() == l);
        lemma_dedup_names(a + b0);
        vstd::seq_lib::lemma_seq_concat_contains_all_elements(a, b0, l);
        if b0.contains(l) {
            let i = choose|i: int| 0 <= i < b0.len() && b0[i] == l;
            assert(b[i] == b[b.len() - 1]);
            assert(false);
        }
        if a.contains(l) {
            assert(dedup_names(a + b0).contains(l));
            assert(union_names(a, b) == dedup_names(a + b0));
            assert(b.filter(|x: Seq<char>| !a.contains(x)) == b0.filter(
                |x: Seq<char>| !a.contains(x),
            ));
        } else {
            assert(!dedup_names(a + b0).contains(l));
            assert(union_names(a, b) == dedup_names(a + b0).push(l));
            assert(b.filter(|x: Seq<char>| !a.contains(x)) == b0.filter(
                |x: Seq<char>| !a.contains(x),
            ).push(l));
            assert((a + b0.filter(|x: Seq<char>| !a.contains(x))).push(l) =~= a + b0.filter(
                |x: Seq<char>| !a.contains(x),
            ).push(l));
        }
    }
}

/// A duplicate-free sequence deduplicates to itself.
pub proof fn lemma_dedup_of_distinct(s: NameSeq)
    requires
        s.no_duplicates(),
    ensures
        dedup_names(s) == s,
    decreases s.len(),
{
    if s.len() == 0 {
        assert(dedup_names(s) =~= s);
    } else {
        assert(s.drop_last().no_duplicates());
        lemma_dedup_of_distinct(s.drop_last());
        if dedup_names(s.drop_last()).contains(s.last()) {
            let i = choose|i: int|
                0 <= i < s.drop_last().len() && s.drop_last()[i] == s.last();
            assert(s[i] == s[s.len() - 1]);
            assert(false);
        }
        assert(s.drop_last().push(s.last()) =~= s);
    }
}

/// An ordered, duplicate-free registry of variable names.
#[derive(Debug)]
pub struct Vars {
    names: Vec<String>,
}

impl View for Vars {
    type V = NameSeq;

    closed spec fn view(&self) -> NameSeq {
        self.names.deep_view()
    }
}

/// Whether a list of names holds one whose characters equal `x`.
fn names_contain(names: &Vec<String>, x: &String) -> (r: bool)
    ensures
        r == names.deep_view().contains(x@),
{
    let mut i: usize = 0;
    while i < names.len()
        invariant
            i <= names.deep_view().len(),
            names.deep_view().len() == names@.len(),
            forall|j: int| 0 <= j < i ==> names.deep_view()[j] != x@,
        decreases names@.len() - i,
    {
        if names[i] == *x {
            assert(names.deep_view()[i as int] == x@);
            return true;
        }
        i = i + 1;
    }
    false
}

/// The position of a name in a list of names, or `None` when absent.
pub fn names_index_of(names: &Vec<String>, x: &String) -> (r: Option<usize>)
    ensures
        match r {
            Some(i) => i < names.deep_view().len() && names.deep_view()[i as int] == x@,
            None => !names.deep_view().contains(x@),
        },
{
    let mut i: usize = 0;
    while i < names.len()
        invariant
            i <= names.deep_view().len(),
            names.deep_view().len() == names@.len(),
            forall|j: int| 0 <= j < i ==> names.deep_view()[j] != x@,
        decreases names@.len() - i,
    {
        if names[i] == *x {
            assert(names.deep_view()[i as int] == x@);
            return Some(i);
        }
        i = i + 1;
    }
    None
}

impl Vars {
    /// Build a registry from a list of names, keeping the first occurrence
    /// of each name in order.
    pub fn from_names(names: Vec<String>) -> (r: Vars)
        ensures
            r@ == dedup_names(names.deep_view()),
            r@.no_duplicates(),
    {
        let dv = Ghost(names.deep_view());
        let mut out: Vec<String> = Vec::new();
        let mut i: usize = 0;
        proof {
            assert(out.deep_view() =~= dedup_names(dv@.take(0)));
        }
        while i < names.len()
            invariant
                i <= names@.len(),
                dv@ == names.deep_view(),
                dv@.len() == names@.len(),
                out.deep_view() == dedup_names(dv@.take(i as int)),
            decreases names@.len() - i,
        {
            proof {
                assert(dv@.take(i + 1).drop_last() =~= dv@.take(i as int));
                assert(dv@.take(i + 1).last() == dv@[i as int]);
            }
            if !names_contain(&out, &names[i]) {
                let ghost pre = out.deep_view();
                out.push(names[i].clone());
                proof {
                    assert(out.deep_view() =~= pre.push(dv@[i as int]));
                }
            }
            i = i + 1;
        }
        proof {
            assert(dv@.take(names@.len() as int) =~= dv@);
            lemma_dedup_names(dv@);
        }
        Vars { names: out }
    }

    /// The number of names in the registry.
    pub fn len(&self) -> (n: usize)
        ensures
            n == self@.len(),
    {
        self.names.len()
    }

    /// The name at a position, by reference.
    pub fn name_at(&self, i: usize) -> (r: &String)
        requires
            i < self@.len(),
        ensures
            r@ == self@[i as int],
    {
        &self.names[i]
    }

    /// A copy of the ordered name list.
    pub fn to_vec(&self) -> (r: Vec<String>)
        ensures
            r.deep_view() == self@,
    {
        let r = self.names.clone();
        proof {
            assert(r.deep_view() =~= self.names.deep_view());
        }
        r
    }

    /// Whether the registry holds a name.
    pub fn contains(&self, name: &String) -> (r: bool)
        ensures
            r == self@.contains(name@),
    {
        names_contain(&self.names, name)
    }

    /// The position of a name, or `None` when the registry lacks it.
    pub fn index_of(&self, name: &String) -> (r: Option<usize>)
        ensures
            match r {
                Some(i) => i < self@.len() && self@[i as int] == name@,
                None => !self@.contains(name@),
            },
    {
        let mut i: usize = 0;
        while i < self.names.len()
            invariant
                i <= self@.len(),
                self@.len() == self.names@.len(),
                forall|j: int| 0 <= j < i ==> self@[j] != name@,
            decreases self.names@.len() - i,
        {
            if self.names[i] == *name {
                assert(self@[i as int] == name@);
                return Some(i);
            }
            i = i + 1;
        }
        None
    }

    /// Whether two registries hold the same names in the same order.
    pub fn value_eq(&self, other: &Vars) -> (r: bool)
        ensures
            r == (self@ == other@),
    {
        if self.names.len() != other.names.len() {
            proof {
                assert(self@.len() == self.names@.len());
                assert(other@.len() == other.names@.len());
            }
            return false;
        }
        let mut i: usize = 0;
        while i < self.names.len()
            invariant
                i <= self.names@.len(),
                self@.len() == self.names@.len(),
                other@.len() == other.names@.len(),
                self.names@.len() == other.names@.len(),
                forall|j: int| 0 <= j < i ==> self@[j] == other@[j],
            decreases self.names@.len() - i,
        {
            if self.names[i] != other.names[i] {
                assert(self@[i as int] != other@[i as int]);
                return false;
            }
            i = i + 1;
        }
        proof {
            assert(self@ =~= other@);
        }
        true
    }

    /// Whether every name of this registry occurs in `other`.
    pub fn is_subset_of(&self, other: &Vars) -> (r: bool)
        ensures
            r == subset_names(self@, other@),
    {
        let mut i: usize = 0;
        while i < self.names.len()
            invariant
                i <= self.names@.len(),
                self@.len() == self.names@.len(),
                forall|j: int| 0 <= j < i ==> other@.contains(#[trigger] self@[j]),
            decreases self.names@.len() - i,
        {
            if !other.contains(&self.names[i]) {
                assert(!other@.contains(self@[i as int]));
                return false;
            }
            i = i + 1;
        }
        true
    }

    /// The union registry: all names of this registry in order, then the
    /// names unique to `other` in `other`'s order.
    pub fn union(&self, other: &Vars) -> (r: Vars)
        ensures
            r@ == union_names(self@, other@),
            r@.no_duplicates(),
    {
        let mut combined: Vec<String> = self.names.clone();
        proof {
            assert(combined.deep_view() =~= self.names.deep_view());
            assert(combined.deep_view() + other.names.deep_view().take(0) =~= combined.deep_view());
        }
        let ghost base = combined.deep_view();
        let mut i: usize = 0;
        while i < other.names.len()
            invariant
                i <= other.names@.len(),
                other@.len() == other.names@.len(),
                base == self@,
                combined.deep_view() == base + other@.take(i as int),
            decreases other.names@.len() - i,
        {
            let ghost pre = combined.deep_view();
            combined.push(other.names[i].clone());
            proof {
                assert(combined.deep_view() =~= pre.push(other@[i as int]));
                assert(base + other@.take(i + 1) =~= pre.push(other@[i as int]));
            }
            i = i + 1;
        }
        proof {
            assert(other@.take(other@.len() as int) =~= other@);
        }
        Vars::from_names(combined)
    }
}

/// Relies on std's `Arc::clone`: the returned handle refers to the same
/// registry value (indeed the same allocation) as the argument.
#[verifier::external_body]
pub fn arc_clone(a: &Arc<Vars>) -> (r: Arc<Vars>)
    ensures
        r == *a,
{
    Arc::clone(a)
}

/// Relies on std's `Arc::ptr_eq`: a true result means both handles point at
/// the same allocation, hence hold equal registry values.
#[verifier::external_body]
pub fn arc_ptr_eq(a: &Arc<Vars>, b: &Arc<Vars>) -> (r: bool)
    ensures
        r ==> *a == *b,
{
    Arc::ptr_eq(a, b)
}

/// Relies on std's `Deref` for `Arc`: borrowing the registry inside a handle.
#[verifier::external_body]
pub fn arc_get<'a>(a: &'a Arc<Vars>) -> (r: &'a Vars)
    ensures
        *r == **a,
{
    &**a
}

} // verus!
