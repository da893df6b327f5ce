//! The lexicographic order of sequences of ordered values.
use core::cmp::Ordering;
use vstd::laws_cmp::{obeys_cmp, obeys_cmp_ord, obeys_cmp_partial_ord, obeys_partial_cmp_spec_properties};
use vstd::laws_eq::{obeys_concrete_eq, obeys_eq_spec_properties};
use vstd::prelude::*;
use vstd::std_specs::cmp::{PartialEqSpec, PartialOrdSpec};

verus! {

/// `a` comes before `b` in the order of their type.
pub open spec fn item_lt<T: PartialOrd>(a: T, b: T) -> bool {
    a.partial_cmp_spec(&b) == Some(Ordering::Less)
}

/// Comparing from index `i` on, `a` comes before `b`: at the first index where they differ,
/// `a`'s value comes first.
pub open spec fn lex_lt_from<T: PartialOrd>(a: Seq<T>, b: Seq<T>, i: int) -> bool
    decreases a.len() - i,
{
    if i < 0 || i >= a.len() || i >= b.len() {
        false
    } else if item_lt(a[i], b[i]) {
        true
    } else if a[i] == b[i] {
        lex_lt_from(a, b, i + 1)
    } else {
        false
    }
}

/// `a` comes before `b` in lexicographic order.
pub open spec fn lex_lt<T: PartialOrd>(a: Seq<T>, b: Seq<T>) -> bool {
    lex_lt_from(a, b, 0)
}

/// The type's `==` is equality and its order is a total order.
pub open spec fn well_ordered<T: Ord>() -> bool {
    obeys_concrete_eq::<T>() && obeys_cmp::<T>()
}

/// The order of a well-ordered type is irreflexive, and transitive, and it compares values by
/// `partial_cmp`.
proof fn lemma_item_order<T: Ord>()
    requires
        well_ordered::<T>(),
    ensures
        T::obeys_partial_cmp_spec(),
        forall|a: T| !#[trigger] item_lt(a, a),
        forall|a: T, b: T, c: T| #[trigger] item_lt(a, b) && #[trigger] item_lt(b, c) ==> item_lt(a, c),
{
    reveal(obeys_concrete_eq);
    reveal(obeys_cmp_partial_ord);
    reveal(obeys_partial_cmp_spec_properties);
    reveal(obeys_cmp_ord);
    reveal(obeys_eq_spec_properties);
    assert forall|a: T| !#[trigger] item_lt(a, a) by {
        assert(a.eq_spec(&a));
    }
}

/// Lexicographic order is irreflexive.
pub proof fn lemma_lex_irreflexive<T: Ord>(a: Seq<T>, i: int)
    requires
        well_ordered::<T>(),
    ensures
        !lex_lt_from(a, a, i),
    decreases a.len() - i,
{
    lemma_item_order::<T>();
    if 0 <= i < a.len() {
        lemma_lex_irreflexive(a, i + 1);
    }
}

/// Lexicographic order is transitive.
pub proof fn lemma_lex_transitive<T: Ord>(a: Seq<T>, b: Seq<T>, c: Seq<T>, i: int)
    requires
        well_ordered::<T>(),
        lex_lt_from(a, b, i),
        lex_lt_from(b, c, i),
    ensures
        lex_lt_from(a, c, i),
    decreases a.len() - i,
{
    lemma_item_order::<T>();
    if !item_lt(a[i], b[i]) && !item_lt(b[i], c[i]) {
        lemma_lex_transitive(a, b, c, i + 1);
    }
}

/// Compares two values by the type's order.
pub fn item_less<T: Ord>(a: &T, b: &T) -> (lt: bool)
    requires
        well_ordered::<T>(),
    ensures
        lt == item_lt(*a, *b),
{
    proof {
        lemma_item_order::<T>();
    }
    a.lt(b)
}

/// Compares two values for equality.
pub fn item_equal<T: Ord>(a: &T, b: &T) -> (eq: bool)
    requires
        well_ordered::<T>(),
    ensures
        eq == (*a == *b),
{
    proof {
        reveal(obeys_concrete_eq);
    }
    a.eq(b)
}

/// `a` comes before `b` in lexicographic order.
pub fn lex_less<T: Ord>(a: &Vec<T>, b: &Vec<T>) -> (lt: bool)
    requires
        well_ordered::<T>(),
    ensures
        lt == lex_lt(a@, b@),
{
    let n = if a.len() < b.len() { a.len() } else { b.len() };
    let mut i: usize = 0;
    while i < n
        invariant
            well_ordered::<T>(),
            n <= a@.len(),
            n <= b@.len(),
            n == a@.len() || n == b@.len(),
            i <= n,
            lex_lt(a@, b@) == lex_lt_from(a@, b@, i as int),
        decreases n - i,
    {
        if item_less(&a[i], &b[i]) {
            return true;
        }
        if !item_equal(&a[i], &b[i]) {
            return false;
        }
        i = i + 1;
    }
    false
}

} // verus!
