//! The mathematical model: a mapping is a sequence of `n` indices below `n`
//! in which no index occurs twice, and composition applies the right operand
//! first.

use vstd::prelude::*;
use vstd::set_lib::{lemma_int_range, lemma_subset_equality, set_int_range};
use crate::error::Error;

verus! {

/// The first `k` entries of `m` lie below `n` and are pairwise different.
pub open spec fn clean_prefix(m: Seq<usize>, n: nat, k: int) -> bool {
    &&& forall|i: int| 0 <= i < k ==> #[trigger] m[i] < n
    &&& forall|i: int, j: int| 0 <= i < j < k ==> m[i] != m[j]
}

/// `m` is a bijection on `0..n`.
pub open spec fn is_mapping(m: Seq<usize>, n: nat) -> bool {
    &&& m.len() == n
    &&& forall|i: int| 0 <= i < m.len() ==> #[trigger] m[i] < n
    &&& forall|i: int, j: int| 0 <= i < j < m.len() ==> m[i] != m[j]
}

/// Position `k` is where `m` first stops being a bijection on `0..n`.
pub open spec fn first_fault(m: Seq<usize>, n: nat, k: int) -> bool {
    &&& 0 <= k < m.len()
    &&& clean_prefix(m, n, k)
    &&& !clean_prefix(m, n, k + 1)
}

/// What the validator answers for `m` on a domain of size `n`.
pub open spec fn validation(m: Seq<usize>, n: nat) -> Result<(), Error> {
    if m.len() != n {
        Err(Error::LengthMismatch)
    } else if exists|k: int| first_fault(m, n, k) {
        let k = choose|k: int| first_fault(m, n, k);
        if m[k] >= n {
            Err(Error::OutOfRange)
        } else {
            Err(Error::DuplicateEntry)
        }
    } else {
        Ok(())
    }
}

/// A mapping of the right length has at most one first fault.
pub proof fn lemma_first_fault_unique(m: Seq<usize>, n: nat, k1: int, k2: int)
    requires
        first_fault(m, n, k1),
        first_fault(m, n, k2),
    ensures
        k1 == k2,
{
    if k1 < k2 {
        assert(clean_prefix(m, n, k1 + 1));
    } else if k2 < k1 {
        assert(clean_prefix(m, n, k2 + 1));
    }
}

/// The answer of the validator once the first fault is known.
pub proof fn lemma_validation_fault(m: Seq<usize>, n: nat, k: int)
    requires
        m.len() == n,
        first_fault(m, n, k),
    ensures
        m[k] >= n ==> validation(m, n) == Err::<(), Error>(Error::OutOfRange),
        m[k] < n ==> validation(m, n) == Err::<(), Error>(Error::DuplicateEntry),
        !is_mapping(m, n),
{
    let c = choose|c: int| first_fault(m, n, c);
    lemma_first_fault_unique(m, n, c, k);
}

/// A sequence of the right length without a fault is a mapping, and the
/// validator accepts exactly the mappings.
pub proof fn lemma_clean_prefix_is_mapping(m: Seq<usize>, n: nat)
    requires
        m.len() == n,
        clean_prefix(m, n, n as int),
    ensures
        is_mapping(m, n),
        validation(m, n) == Ok::<(), Error>(()),
{
    assert forall|k: int| !first_fault(m, n, k) by {
        if 0 <= k < m.len() && !clean_prefix(m, n, k + 1) {
            assert(false);
        }
    }
}

/// The composition of `a` and `b`: `b` is applied first, then `a`.
pub open spec fn compose(a: Seq<usize>, b: Seq<usize>) -> Seq<usize> {
    Seq::new(b.len(), |i: int| a[b[i] as int])
}

/// The mapping that leaves each of `n` points where it is.
pub open spec fn identity(n: nat) -> Seq<usize> {
    Seq::new(n, |i: int| i as usize)
}

/// The mapping that undoes `b`: it sends each point to the position at which
/// `b` holds it.
pub open spec fn inverse(b: Seq<usize>) -> Seq<usize> {
    Seq::new(b.len(), |v: int| (choose|i: int| 0 <= i < b.len() && b[i] == v) as usize)
}

/// A mapping on `0..n` reaches each point below `n`.
pub proof fn lemma_mapping_is_onto(m: Seq<usize>, n: nat, v: int)
    requires
        is_mapping(m, n),
        0 <= v < n,
    ensures
        exists|i: int| 0 <= i < n && #[trigger] m[i] == v,
{
    let values = Seq::new(n, |i: int| m[i] as int);
    assert(values.no_duplicates());
    values.unique_seq_to_set();
    lemma_int_range(0, n as int);
    let reached = values.to_set();
    let all = set_int_range(0, n as int);
    assert forall|w: int| reached.contains(w) implies all.contains(w) by {
        let i = choose|i: int| 0 <= i < values.len() && values[i] == w;
        assert(m[i] < n);
    }
    vstd::set_lib::lemma_len_subset(reached, all);
    lemma_subset_equality(reached, all);
    assert(all.contains(v));
    assert(values.contains(v));
    let i = choose|i: int| 0 <= i < values.len() && values[i] == v;
    assert(m[i] == v);
}

/// The domain of a mapping is no larger than the range of `usize`.
pub proof fn lemma_mapping_fits(m: Seq<usize>, n: nat)
    requires
        is_mapping(m, n),
    ensures
        n <= usize::MAX + 1,
{
    if n > usize::MAX + 1 {
        lemma_mapping_is_onto(m, n, usize::MAX + 1);
    }
}

/// The composition of two mappings on `0..n` is a mapping on `0..n`.
pub proof fn lemma_compose_is_mapping(a: Seq<usize>, b: Seq<usize>, n: nat)
    requires
        is_mapping(a, n),
        is_mapping(b, n),
    ensures
        is_mapping(compose(a, b), n),
{
    let c = compose(a, b);
    assert forall|i: int| 0 <= i < c.len() implies #[trigger] c[i] < n by {
        assert(b[i] < n);
    }
    assert forall|i: int, j: int| 0 <= i < j < c.len() implies c[i] != c[j] by {
        assert(b[i] < n && b[j] < n);
        assert(b[i] != b[j]);
    }
}

/// The identity is a mapping.
pub proof fn lemma_identity_is_mapping(n: nat)
    requires
        n <= usize::MAX + 1,
    ensures
        is_mapping(identity(n), n),
{
}

/// The inverse of a mapping is a mapping, and it undoes the mapping on both
/// sides.
pub proof fn lemma_inverse_is_mapping(b: Seq<usize>, n: nat)
    requires
        is_mapping(b, n),
    ensures
        is_mapping(inverse(b), n),
        compose(inverse(b), b) == identity(n),
        compose(b, inverse(b)) == identity(n),
{
    lemma_mapping_fits(b, n);
    let c = inverse(b);
    assert forall|v: int| 0 <= v < n implies 0 <= #[trigger] c[v] < n && b[c[v] as int] == v by {
        lemma_mapping_is_onto(b, n, v);
        let i = choose|i: int| 0 <= i < n && b[i] == v;
        assert(0 <= i < b.len() && b[i] == v);
    }
    assert forall|v: int, w: int| 0 <= v < w < n implies c[v] != c[w] by {
        assert(b[c[v] as int] == v);
        assert(b[c[w] as int] == w);
    }
    assert forall|i: int| 0 <= i < n implies #[trigger] c[b[i] as int] == i by {
        let v = b[i] as int;
        assert(b[c[v] as int] == v);
        if c[v] != i {
            if (c[v] as int) < i {
                assert(b[c[v] as int] != b[i]);
            } else {
                assert(b[i] != b[c[v] as int]);
            }
        }
    }
    assert(compose(c, b) =~= identity(n));
    assert(compose(b, c) =~= identity(n));
}

/// Composition is associative.
pub proof fn law_compose_associative(a: Seq<usize>, b: Seq<usize>, c: Seq<usize>, n: nat)
    requires
        is_mapping(a, n),
        is_mapping(b, n),
        is_mapping(c, n),
    ensures
        compose(compose(a, b), c) == compose(a, compose(b, c)),
{
    assert forall|i: int| 0 <= i < n implies compose(compose(a, b), c)[i] == compose(
        a,
        compose(b, c),
    )[i] by {
        assert(c[i] < n);
    }
    assert(compose(compose(a, b), c) =~= compose(a, compose(b, c)));
}

/// The identity composed with a mapping, on either side, is that mapping.
pub proof fn law_identity_is_neutral(p: Seq<usize>, n: nat)
    requires
        is_mapping(p, n),
    ensures
        compose(identity(n), p) == p,
        compose(p, identity(n)) == p,
{
    lemma_mapping_fits(p, n);
    assert forall|i: int| 0 <= i < n implies compose(identity(n), p)[i] == p[i] by {
        assert(p[i] < n);
    }
    assert(compose(identity(n), p) =~= p);
    assert(compose(p, identity(n)) =~= p);
}

/// A left inverse of a mapping is also its right inverse.
pub proof fn lemma_left_inverse_is_right_inverse(b: Seq<usize>, c: Seq<usize>, n: nat)
    requires
        is_mapping(b, n),
        is_mapping(c, n),
        compose(c, b) == identity(n),
    ensures
        compose(b, c) == identity(n),
{
    lemma_mapping_fits(b, n);
    assert forall|v: int| 0 <= v < n implies compose(b, c)[v] == identity(n)[v] by {
        lemma_mapping_is_onto(b, n, v);
        let i = choose|i: int| 0 <= i < n && b[i] == v;
        assert(compose(c, b)[i] == c[b[i] as int]);
        assert(identity(n)[i] == i);
        assert(c[v] == i);
    }
    assert(compose(b, c) =~= identity(n));
}

/// Composing `a` with `b` and the result with a left inverse of `b` gives `a`
/// back.
pub proof fn law_left_inverse_recovers(a: Seq<usize>, b: Seq<usize>, c: Seq<usize>, n: nat)
    requires
        is_mapping(a, n),
        is_mapping(b, n),
        is_mapping(c, n),
        compose(c, b) == identity(n),
    ensures
        compose(compose(a, b), c) == a,
{
    lemma_left_inverse_is_right_inverse(b, c, n);
    law_compose_associative(a, b, c, n);
    law_identity_is_neutral(a, n);
}

/// A mapping has exactly one inverse: `inverse` gives one, and any left
/// inverse equals it.
pub proof fn law_inverse_is_unique(b: Seq<usize>, c: Seq<usize>, n: nat)
    requires
        is_mapping(b, n),
        is_mapping(c, n),
        compose(c, b) == identity(n),
    ensures
        c == inverse(b),
{
    lemma_inverse_is_mapping(b, n);
    let d = inverse(b);
    lemma_left_inverse_is_right_inverse(b, c, n);
    law_compose_associative(c, b, d, n);
    law_identity_is_neutral(c, n);
    law_identity_is_neutral(d, n);
}

/// The sequences that the vectors hold, in their order.
pub open spec fn seqs_of(mappings: Seq<Vec<usize>>) -> Seq<Seq<usize>> {
    mappings.map_values(|m: Vec<usize>| m@)
}

/// Each of `mappings` is a bijection on `0..n`.
pub open spec fn all_mappings(mappings: Seq<Seq<usize>>, n: nat) -> bool {
    forall|k: int| 0 <= k < mappings.len() ==> is_mapping(#[trigger] mappings[k], n)
}

/// `mappings[k]` is the first that is no bijection on `0..n`.
pub open spec fn first_invalid(mappings: Seq<Seq<usize>>, n: nat, k: int) -> bool {
    &&& 0 <= k < mappings.len()
    &&& all_mappings(mappings.take(k), n)
    &&& !is_mapping(mappings[k], n)
}

/// What the validation of a list of base mappings answers: the error of the
/// first mapping that is refused, if there is one.
pub open spec fn group_validation(mappings: Seq<Seq<usize>>, n: nat) -> Result<(), Error> {
    if exists|k: int| first_invalid(mappings, n, k) {
        validation(mappings[choose|k: int| first_invalid(mappings, n, k)], n)
    } else {
        Ok(())
    }
}

/// The answer for a list of base mappings once the first invalid one is
/// known.
pub proof fn lemma_group_validation_fault(mappings: Seq<Seq<usize>>, n: nat, k: int)
    requires
        first_invalid(mappings, n, k),
    ensures
        group_validation(mappings, n) == validation(mappings[k], n),
        !all_mappings(mappings, n),
{
    let c = choose|c: int| first_invalid(mappings, n, c);
    if c < k {
        assert(mappings.take(k)[c] == mappings[c]);
    } else if k < c {
        assert(mappings.take(c)[k] == mappings[k]);
    }
}

/// A list of mappings passes the validation.
pub proof fn lemma_group_validation_ok(mappings: Seq<Seq<usize>>, n: nat)
    requires
        all_mappings(mappings, n),
    ensures
        group_validation(mappings, n) == Ok::<(), Error>(()),
{
}

/// The validator refuses whatever is no mapping, and only that.
pub proof fn lemma_validation_ok_iff_mapping(m: Seq<usize>, n: nat)
    ensures
        validation(m, n) is Ok <==> is_mapping(m, n),
{
    if m.len() == n {
        if exists|k: int| first_fault(m, n, k) {
            let k = choose|k: int| first_fault(m, n, k);
            lemma_validation_fault(m, n, k);
        } else {
            lemma_no_fault_is_clean(m, n, n as int);
            lemma_clean_prefix_is_mapping(m, n);
        }
    }
}

/// Where no position is a first fault, every prefix is free of faults.
pub proof fn lemma_no_fault_is_clean(m: Seq<usize>, n: nat, k: int)
    requires
        0 <= k <= m.len(),
        forall|f: int| !first_fault(m, n, f),
    ensures
        clean_prefix(m, n, k),
    decreases k,
{
    if k > 0 {
        lemma_no_fault_is_clean(m, n, k - 1);
        assert(!first_fault(m, n, k - 1));
    }
}

} // verus!
