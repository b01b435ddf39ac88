//! The sum of the currently disputed amounts in a ledger.
//!
//! This sum is what ties `held` to the ledger: every dispute adds its
//! amount to both, every resolve and chargeback removes it from both, so
//! `held` always dominates the sum. That domination is the reason a
//! resolve or chargeback can never drive a balance out of range.

use vstd::prelude::*;

use crate::account::State;
use crate::account::Transaction;

verus! {

broadcast use vstd::set::fold::lemma_fold_insert, vstd::set::fold::lemma_fold_empty;

use vstd::set::fold::is_fun_commutative;

/// What one ledger entry contributes to `held`: its amount while it is
/// disputed, nothing otherwise.
pub open spec fn disputed_amount(tr: Transaction) -> int {
    if tr.state == State::Disputed {
        tr.amount as int
    } else {
        0
    }
}

/// The folding step that accumulates the disputed contributions of `m`.
pub open spec fn sum_fn(m: Map<u32, Transaction>) -> spec_fn(int, u32) -> int {
    |acc: int, t: u32| acc + disputed_amount(m[t])
}

/// The sum of the amounts of the currently disputed entries of `m`.
pub open spec fn disputed_sum(m: Map<u32, Transaction>) -> int {
    m.dom().fold(0, sum_fn(m))
}

/// Folding two functions that agree on every element of a finite set
/// gives the same result.
proof fn lemma_fold_congruence(
    s: Set<u32>,
    z: int,
    f1: spec_fn(int, u32) -> int,
    f2: spec_fn(int, u32) -> int,
)
    requires
        s.finite(),
        is_fun_commutative(f1),
        is_fun_commutative(f2),
        forall|b: int, a: u32| s.contains(a) ==> #[trigger] f1(b, a) == #[trigger] f2(b, a),
    ensures
        s.fold(z, f1) == s.fold(z, f2),
    decreases s.len(),
{
    if s.len() == 0 {
        s.lemma_len0_is_empty();
    } else {
        let a = s.choose();
        assert(s.contains(a));
        let sr = s.remove(a);
        lemma_fold_congruence(sr, z, f1, f2);
        assert(sr.insert(a) =~= s);
        assert(sr.insert(a).fold(z, f1) == f1(sr.fold(z, f1), a));
        assert(sr.insert(a).fold(z, f2) == f2(sr.fold(z, f2), a));
    }
}

/// A fold whose step never decreases the accumulator never goes below
/// its starting value.
proof fn lemma_fold_lower_bound(s: Set<u32>, z: int, f: spec_fn(int, u32) -> int)
    requires
        s.finite(),
        is_fun_commutative(f),
        forall|b: int, a: u32| s.contains(a) ==> #[trigger] f(b, a) >= b,
    ensures
        s.fold(z, f) >= z,
    decreases s.len(),
{
    if s.len() == 0 {
        s.lemma_len0_is_empty();
    } else {
        let a = s.choose();
        assert(s.contains(a));
        let sr = s.remove(a);
        lemma_fold_lower_bound(sr, z, f);
        assert(sr.insert(a) =~= s);
        assert(sr.insert(a).fold(z, f) == f(sr.fold(z, f), a));
    }
}

proof fn lemma_sum_fn_commutative(m: Map<u32, Transaction>)
    ensures
        is_fun_commutative(sum_fn(m)),
{
}

/// An empty ledger holds nothing in dispute.
pub proof fn lemma_disputed_sum_empty()
    ensures
        disputed_sum(Map::<u32, Transaction>::empty()) == 0,
{
    lemma_sum_fn_commutative(Map::<u32, Transaction>::empty());
    assert(Map::<u32, Transaction>::empty().dom() =~= Set::<u32>::empty());
}

/// How the sum moves when one entry is written: the contribution of the
/// entry it replaces (if any) leaves, the contribution of the new entry
/// enters, and nothing else changes.
pub proof fn lemma_disputed_sum_insert(m: Map<u32, Transaction>, k: u32, v: Transaction)
    requires
        m.dom().finite(),
    ensures
        disputed_sum(m.insert(k, v)) == disputed_sum(m) - (if m.contains_key(k) {
            disputed_amount(m[k])
        } else {
            0
        }) + disputed_amount(v),
{
    let m2 = m.insert(k, v);
    let s0 = m.dom().remove(k);
    lemma_sum_fn_commutative(m);
    lemma_sum_fn_commutative(m2);
    assert forall|b: int, a: u32| s0.contains(a) implies #[trigger] sum_fn(m)(b, a)
        == #[trigger] sum_fn(m2)(b, a) by {
        assert(m2[a] == m[a]);
    }
    lemma_fold_congruence(s0, 0, sum_fn(m), sum_fn(m2));
    if m.contains_key(k) {
        assert(s0.insert(k) =~= m.dom());
        assert(m2.dom() =~= m.dom());
        assert(s0.insert(k).fold(0, sum_fn(m)) == sum_fn(m)(s0.fold(0, sum_fn(m)), k));
        assert(s0.insert(k).fold(0, sum_fn(m2)) == sum_fn(m2)(s0.fold(0, sum_fn(m2)), k));
    } else {
        assert(s0 =~= m.dom());
        assert(m2.dom() =~= m.dom().insert(k));
        assert(m.dom().insert(k).fold(0, sum_fn(m2)) == sum_fn(m2)(m.dom().fold(0, sum_fn(m2)), k));
    }
}

/// In a ledger whose disputed entries all have non-negative amounts, the
/// sum is non-negative and dominates each single disputed contribution.
pub proof fn lemma_disputed_sum_element(m: Map<u32, Transaction>, k: u32)
    requires
        m.dom().finite(),
        m.contains_key(k),
        forall|t: u32| #[trigger] m.contains_key(t) ==> disputed_amount(m[t]) >= 0,
    ensures
        disputed_amount(m[k]) <= disputed_sum(m),
        disputed_sum(m) >= 0,
{
    let s0 = m.dom().remove(k);
    lemma_sum_fn_commutative(m);
    assert(s0.insert(k) =~= m.dom());
    assert(s0.insert(k).fold(0, sum_fn(m)) == sum_fn(m)(s0.fold(0, sum_fn(m)), k));
    assert forall|b: int, a: u32| s0.contains(a) implies #[trigger] sum_fn(m)(b, a) >= b by {
        assert(m.contains_key(a));
    }
    lemma_fold_lower_bound(s0, 0, sum_fn(m));
}

} // verus!
