//! Composition of bare slices, with no group and no tag: the operands are
//! validated while they are composed.

use vstd::prelude::*;
use crate::error::Error;
use crate::mapping::{compose, is_mapping, lemma_mapping_is_onto};

verus! {

/// The first `k` steps of the composition meet no fault: each entry of `b`
/// that was read, and the entry of `a` it led to, lies in the domain and was
/// not met before.
pub open spec fn scan_clean(a: Seq<usize>, b: Seq<usize>, k: int) -> bool {
    &&& forall|i: int| 0 <= i < k ==> #[trigger] b[i] < a.len() && a[b[i] as int] < a.len()
    &&& forall|i: int, j: int|
        0 <= i < j < k ==> b[i] != b[j] && a[b[i] as int] != a[b[j] as int]
}

/// Step `k` is the first that meets a fault.
pub open spec fn scan_fault(a: Seq<usize>, b: Seq<usize>, k: int) -> bool {
    &&& 0 <= k < b.len()
    &&& scan_clean(a, b, k)
    &&& !scan_clean(a, b, k + 1)
}

/// The step at which the composition stops, where it meets a fault.
pub open spec fn fault_step(a: Seq<usize>, b: Seq<usize>) -> int {
    choose|k: int| scan_fault(a, b, k)
}

/// The error of a step that meets a fault. The entry of `b` is looked at
/// before the entry of `a`, and its range before its repetition.
pub open spec fn fault_kind(a: Seq<usize>, b: Seq<usize>, k: int) -> Error {
    if b[k] >= a.len() {
        Error::OutOfRange
    } else if exists|j: int| 0 <= j < k && b[j] == b[k] {
        Error::DuplicateEntry
    } else if a[b[k] as int] >= a.len() {
        Error::OutOfRange
    } else {
        Error::DuplicateEntry
    }
}

/// What `compose_into` answers for `a`, `b` and a destination of `len`
/// entries.
pub open spec fn checked_composition(a: Seq<usize>, b: Seq<usize>, len: nat) -> Result<
    (),
    Error,
> {
    if a.len() != b.len() || b.len() != len {
        Err(Error::LengthMismatch)
    } else if exists|k: int| scan_fault(a, b, k) {
        Err(fault_kind(a, b, fault_step(a, b)))
    } else {
        Ok(())
    }
}

/// The flags after the first `steps` of `values` were marked: the flag of a
/// point is set where one of them is that point.
pub open spec fn marked(values: Seq<usize>, len: nat, steps: int) -> Seq<bool> {
    Seq::new(len, |v: int| exists|j: int| 0 <= j < steps && values[j] == v)
}

/// The number of entries of `b` that were marked when step `k` met a fault:
/// the entry of step `k` is marked where the fault lies with `a`.
pub open spec fn marked_of_b(a: Seq<usize>, b: Seq<usize>, k: int) -> int {
    if b[k] >= a.len() || exists|j: int| 0 <= j < k && b[j] == b[k] {
        k
    } else {
        k + 1
    }
}

/// The destination after `k` steps: the first `k` entries hold the
/// composition, the others what they held in `before`.
pub open spec fn written(a: Seq<usize>, b: Seq<usize>, before: Seq<usize>, k: int) -> Seq<usize> {
    Seq::new(
        before.len(),
        |i: int|
            if i < k {
                a[b[i] as int]
            } else {
                before[i]
            },
    )
}

/// There is at most one first fault.
pub proof fn lemma_scan_fault_unique(a: Seq<usize>, b: Seq<usize>, k1: int, k2: int)
    requires
        scan_fault(a, b, k1),
        scan_fault(a, b, k2),
    ensures
        k1 == k2,
{
    if k1 < k2 {
        assert(scan_clean(a, b, k1 + 1));
    } else if k2 < k1 {
        assert(scan_clean(a, b, k2 + 1));
    }
}

/// The answer once the first fault is known.
pub proof fn lemma_checked_composition_fault(a: Seq<usize>, b: Seq<usize>, k: int)
    requires
        a.len() == b.len(),
        scan_fault(a, b, k),
    ensures
        checked_composition(a, b, b.len()) == Err::<(), Error>(fault_kind(a, b, k)),
        fault_step(a, b) == k,
{
    lemma_scan_fault_unique(a, b, fault_step(a, b), k);
}

/// A composition runs through without a fault exactly when both operands are
/// mappings.
pub proof fn lemma_scan_clean_iff_mappings(a: Seq<usize>, b: Seq<usize>, n: nat)
    requires
        a.len() == n,
        b.len() == n,
    ensures
        scan_clean(a, b, n as int) <==> is_mapping(a, n) && is_mapping(b, n),
        scan_clean(a, b, n as int) ==> forall|k: int| !scan_fault(a, b, k),
        !scan_clean(a, b, n as int) ==> exists|k: int| scan_fault(a, b, k),
{
    if scan_clean(a, b, n as int) {
        assert(is_mapping(b, n));
        assert forall|v: int| 0 <= v < n implies #[trigger] a[v] < n by {
            lemma_mapping_is_onto(b, n, v);
            let i = choose|i: int| 0 <= i < n && #[trigger] b[i] == v;
            assert(a[b[i] as int] < n);
        }
        assert forall|v: int, w: int| 0 <= v < w < n implies a[v] != a[w] by {
            lemma_mapping_is_onto(b, n, v);
            lemma_mapping_is_onto(b, n, w);
            let i = choose|i: int| 0 <= i < n && #[trigger] b[i] == v;
            let j = choose|j: int| 0 <= j < n && #[trigger] b[j] == w;
            if i < j {
                assert(a[b[i] as int] != a[b[j] as int]);
            } else {
                assert(a[b[j] as int] != a[b[i] as int]);
            }
        }
        assert forall|k: int| !scan_fault(a, b, k) by {
            if 0 <= k < b.len() && !scan_clean(a, b, k + 1) {
                assert(false);
            }
        }
    } else {
        lemma_first_scan_fault_exists(a, b, n as int);
    }
    if is_mapping(a, n) && is_mapping(b, n) {
        assert forall|i: int, j: int| 0 <= i < j < n implies b[i] != b[j] && a[b[i] as int]
            != a[b[j] as int] by {
            assert(b[i] < n && b[j] < n);
            if b[i] < b[j] {
                assert(a[b[i] as int] != a[b[j] as int]);
            } else {
                assert(a[b[j] as int] != a[b[i] as int]);
            }
        }
        assert forall|i: int| 0 <= i < n implies #[trigger] b[i] < a.len() && a[b[i] as int]
            < a.len() by {
            assert(b[i] < n);
        }
    }
}

/// Where the first `k` steps are not free of faults, one of them is the
/// first to meet one.
pub proof fn lemma_first_scan_fault_exists(a: Seq<usize>, b: Seq<usize>, k: int)
    requires
        0 <= k <= b.len(),
        !scan_clean(a, b, k),
    ensures
        exists|f: int| scan_fault(a, b, f),
    decreases k,
{
    if k == 0 {
        assert(scan_clean(a, b, 0));
    } else if scan_clean(a, b, k - 1) {
        assert(scan_fault(a, b, k - 1));
    } else {
        lemma_first_scan_fault_exists(a, b, k - 1);
    }
}

/// Composes `a` and `b` into `into`, so that `into[i] == a[b[i]]`, and
/// validates both on the way. `seen_a` and `seen_b` are scratch space, as
/// long as the operands; what they hold before the call does not matter.
///
/// Operands of different lengths are refused before anything is written.
/// Otherwise the entries are taken from the front, and the first step that
/// meets a fault ends the call: `into` then holds the composition up to that
/// step and is unchanged behind it. `seen_b` holds a flag for each entry of
/// `b` that was accepted, `seen_a` one for each entry that was written.
pub fn compose_into(
    a: &[usize],
    b: &[usize],
    into: &mut [usize],
    seen_a: &mut [bool],
    seen_b: &mut [bool],
) -> (r: Result<(), Error>)
    requires
        a@.len() == b@.len() && b@.len() == old(into)@.len() ==> old(seen_a)@.len() == a@.len()
            && old(seen_b)@.len() == a@.len(),
    ensures
        r == checked_composition(a@, b@, old(into)@.len()),
        r is Ok <==> a@.len() == b@.len() && b@.len() == old(into)@.len() && is_mapping(
            a@,
            a@.len(),
        ) && is_mapping(b@, a@.len()),
        r is Ok ==> final(into)@ == compose(a@, b@),
        r == Err::<(), Error>(Error::LengthMismatch) ==> final(into)@ == old(into)@,
        r is Err && r != Err::<(), Error>(Error::LengthMismatch) ==> final(into)@ == written(
            a@,
            b@,
            old(into)@,
            fault_step(a@, b@),
        ),
        r == Err::<(), Error>(Error::LengthMismatch) ==> final(seen_a)@ == old(seen_a)@
            && final(seen_b)@ == old(seen_b)@,
        r is Ok ==> final(seen_a)@ == marked(compose(a@, b@), a@.len(), a@.len() as int)
            && final(seen_b)@ == marked(b@, a@.len(), a@.len() as int),
        r is Err && r != Err::<(), Error>(Error::LengthMismatch) ==> final(seen_a)@ == marked(
            compose(a@, b@),
            a@.len(),
            fault_step(a@, b@),
        ) && final(seen_b)@ == marked(b@, a@.len(), marked_of_b(a@, b@, fault_step(a@, b@))),
{
    if a.len() != b.len() || b.len() != into.len() {
        return Err(Error::LengthMismatch);
    }
    let n = a.len();
    clear(seen_a);
    clear(seen_b);
    proof {
        assert(seen_a@ =~= marked(compose(a@, b@), n as nat, 0));
        assert(seen_b@ =~= marked(b@, n as nat, 0));
    }
    let mut i: usize = 0;
    while i < n
        invariant
            n == a@.len(),
            n == b@.len(),
            n == into@.len(),
            n == old(into)@.len(),
            n == seen_a@.len(),
            n == seen_b@.len(),
            i <= n,
            scan_clean(a@, b@, i as int),
            into@ == written(a@, b@, old(into)@, i as int),
            forall|v: int|
                0 <= v < n ==> (#[trigger] seen_b@[v] <==> exists|j: int|
                    0 <= j < i && b@[j] == v),
            forall|v: int|
                0 <= v < n ==> (#[trigger] seen_a@[v] <==> exists|j: int|
                    0 <= j < i && a@[b@[j] as int] == v),
            seen_b@ == marked(b@, n as nat, i as int),
            seen_a@ == marked(compose(a@, b@), n as nat, i as int),
        decreases n - i,
    {
        let b_value = b[i];
        if b_value >= n {
            proof {
                assert(!(b@[i as int] < a@.len()));
                lemma_checked_composition_fault(a@, b@, i as int);
            }
            return Err(Error::OutOfRange);
        }
        if seen_b[b_value] {
            proof {
                let j = choose|j: int| 0 <= j < i && b@[j] == b_value;
                assert(b@[j] == b@[i as int]);
                lemma_checked_composition_fault(a@, b@, i as int);
            }
            return Err(Error::DuplicateEntry);
        }
        proof {
            assert forall|j: int| 0 <= j < i implies b@[j] != b@[i as int] by {
                if b@[j] == b@[i as int] {
                    assert(seen_b@[b_value as int]);
                }
            }
        }
        let ghost seen_b_before = seen_b@;
        seen_b[b_value] = true;
        proof {
            assert forall|v: int| 0 <= v < n implies (#[trigger] seen_b@[v] <==> exists|j: int|
                0 <= j < i + 1 && b@[j] == v) by {
                if v == b_value {
                    assert(b@[i as int] == v);
                } else if seen_b_before[v] {
                    let j = choose|j: int| 0 <= j < i && b@[j] == v;
                    assert(0 <= j < i + 1 && b@[j] == v);
                } else if exists|j: int| 0 <= j < i + 1 && b@[j] == v {
                    let j = choose|j: int| 0 <= j < i + 1 && b@[j] == v;
                    assert(j < i);
                }
            }
            assert(seen_b@ =~= marked(b@, n as nat, i + 1));
        }
        let a_value = a[b_value];
        if a_value >= n {
            proof {
                assert(!(a@[b@[i as int] as int] < a@.len()));
                assert(!exists|j: int| 0 <= j < i && b@[j] == b@[i as int]);
                lemma_checked_composition_fault(a@, b@, i as int);
            }
            return Err(Error::OutOfRange);
        }
        if seen_a[a_value] {
            proof {
                let j = choose|j: int| 0 <= j < i && a@[b@[j] as int] == a_value;
                assert(a@[b@[j] as int] == a@[b@[i as int] as int]);
                assert(!exists|j: int| 0 <= j < i && b@[j] == b@[i as int]);
                lemma_checked_composition_fault(a@, b@, i as int);
            }
            return Err(Error::DuplicateEntry);
        }
        proof {
            assert forall|j: int| 0 <= j < i implies a@[b@[j] as int] != a@[b@[i as int] as int] by {
                if a@[b@[j] as int] == a@[b@[i as int] as int] {
                    assert(seen_a@[a_value as int]);
                }
            }
        }
        let ghost seen_a_before = seen_a@;
        seen_a[a_value] = true;
        proof {
            assert forall|v: int| 0 <= v < n implies (#[trigger] seen_a@[v] <==> exists|j: int|
                0 <= j < i + 1 && a@[b@[j] as int] == v) by {
                if v == a_value {
                    assert(a@[b@[i as int] as int] == v);
                } else if seen_a_before[v] {
                    let j = choose|j: int| 0 <= j < i && a@[b@[j] as int] == v;
                    assert(0 <= j < i + 1 && a@[b@[j] as int] == v);
                } else if exists|j: int| 0 <= j < i + 1 && a@[b@[j] as int] == v {
                    let j = choose|j: int| 0 <= j < i + 1 && a@[b@[j] as int] == v;
                    assert(j < i);
                }
            }
            assert forall|v: int| 0 <= v < n implies seen_a@[v] == marked(
                compose(a@, b@),
                n as nat,
                i + 1,
            )[v] by {
                if seen_a@[v] {
                    let j = choose|j: int| 0 <= j < i + 1 && a@[b@[j] as int] == v;
                    assert(compose(a@, b@)[j] == v);
                } else if exists|j: int| 0 <= j < i + 1 && compose(a@, b@)[j] == v {
                    let j = choose|j: int| 0 <= j < i + 1 && compose(a@, b@)[j] == v;
                    assert(a@[b@[j] as int] == v);
                }
            }
            assert(seen_a@ =~= marked(compose(a@, b@), n as nat, i + 1));
        }
        into[i] = a_value;
        proof {
            assert(into@ =~= written(a@, b@, old(into)@, i + 1));
        }
        i += 1;
    }
    proof {
        lemma_scan_clean_iff_mappings(a@, b@, n as nat);
        assert(into@ =~= compose(a@, b@));
    }
    Ok(())
}

/// Sets each flag to `false`.
fn clear(flags: &mut [bool])
    ensures
        final(flags)@.len() == old(flags)@.len(),
        forall|i: int| 0 <= i < final(flags)@.len() ==> !(#[trigger] final(flags)@[i]),
{
    let n = flags.len();
    let mut i: usize = 0;
    while i < n
        invariant
            n == flags@.len(),
            i <= n,
            forall|j: int| 0 <= j < i ==> !(#[trigger] flags@[j]),
        decreases n - i,
    {
        flags[i] = false;
        i += 1;
    }
}

} // verus!
