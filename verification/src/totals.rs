use vstd::prelude::*;

use crate::address::Address;

verus! {

/// The sum of `f` over a finite set of addresses.
pub open spec fn sum_over(keys: Set<Address>, f: spec_fn(Address) -> int) -> int {
    keys.fold(0int, |acc: int, a: Address| acc + f(a))
}

proof fn lemma_sum_step_commutes(f: spec_fn(Address) -> int)
    ensures
        vstd::set::fold::is_fun_commutative(|acc: int, a: Address| acc + f(a)),
{
}

/// Taking one address out of the set takes its term out of the sum.
pub proof fn lemma_sum_remove(keys: Set<Address>, f: spec_fn(Address) -> int, a: Address)
    requires
        keys.finite(),
        keys.contains(a),
    ensures
        sum_over(keys, f) == sum_over(keys.remove(a), f) + f(a),
{
    lemma_sum_step_commutes(f);
    let rest = keys.remove(a);
    assert(rest.insert(a) =~= keys);
    vstd::set::fold::lemma_fold_insert(rest, 0int, |acc: int, a: Address| acc + f(a), a);
}

/// Sums of functions that agree on the set are equal.
pub proof fn lemma_sum_congruent(keys: Set<Address>, f: spec_fn(Address) -> int, g: spec_fn(Address) -> int)
    requires
        keys.finite(),
        forall|a: Address| #[trigger] keys.contains(a) ==> f(a) == g(a),
    ensures
        sum_over(keys, f) == sum_over(keys, g),
    decreases keys.len(),
{
    if keys.len() == 0 {
        assert(keys =~= Set::empty());
        vstd::set::fold::lemma_fold_empty(0int, |acc: int, a: Address| acc + f(a));
        vstd::set::fold::lemma_fold_empty(0int, |acc: int, a: Address| acc + g(a));
    } else {
        let a = keys.choose();
        assert(keys.contains(a));
        lemma_sum_remove(keys, f, a);
        lemma_sum_remove(keys, g, a);
        lemma_sum_congruent(keys.remove(a), f, g);
    }
}

/// A sum of zeros is zero.
pub proof fn lemma_sum_zero(keys: Set<Address>, f: spec_fn(Address) -> int)
    requires
        keys.finite(),
        forall|a: Address| #[trigger] keys.contains(a) ==> f(a) == 0,
    ensures
        sum_over(keys, f) == 0,
    decreases keys.len(),
{
    if keys.len() == 0 {
        assert(keys =~= Set::empty());
        vstd::set::fold::lemma_fold_empty(0int, |acc: int, a: Address| acc + f(a));
    } else {
        let a = keys.choose();
        assert(keys.contains(a));
        lemma_sum_remove(keys, f, a);
        lemma_sum_zero(keys.remove(a), f);
    }
}

/// When `f` and `g` differ only at `a`, which lies in the set, their sums differ
/// by exactly the difference at `a`.
pub proof fn lemma_sum_single_change(
    keys: Set<Address>,
    f: spec_fn(Address) -> int,
    g: spec_fn(Address) -> int,
    a: Address,
)
    requires
        keys.finite(),
        keys.contains(a),
        forall|b: Address| #[trigger] keys.contains(b) && b != a ==> f(b) == g(b),
    ensures
        sum_over(keys, g) == sum_over(keys, f) + (g(a) - f(a)),
{
    lemma_sum_remove(keys, f, a);
    lemma_sum_remove(keys, g, a);
    lemma_sum_congruent(keys.remove(a), f, g);
}

} // verus!
