//! The composer: it writes the composition of two mappings into a buffer
//! that the caller supplies, and checks nothing.

use vstd::prelude::*;
use crate::mapping::compose;

verus! {

/// Writes the composition of `a` and `b` into `destination`, so that
/// `destination[i] == a[b[i]]` for each `i`: `b` is applied first.
///
/// Nothing is allocated and nothing is checked at run time. The caller shows
/// that the three have one length and that the entries of `b` are positions
/// of `a`, which holds of any two mappings on one domain.
pub fn compose_into(a: &[usize], b: &[usize], destination: &mut [usize])
    requires
        a@.len() == b@.len(),
        b@.len() == old(destination)@.len(),
        forall|i: int| 0 <= i < b@.len() ==> #[trigger] b@[i] < a@.len(),
    ensures
        final(destination)@ == compose(a@, b@),
{
    let n = destination.len();
    let mut i: usize = 0;
    while i < n
        invariant
            n == destination@.len(),
            n == b@.len(),
            n == a@.len(),
            i <= n,
            forall|j: int| 0 <= j < b@.len() ==> #[trigger] b@[j] < a@.len(),
            forall|j: int| 0 <= j < i ==> #[trigger] destination@[j] == a@[b@[j] as int],
        decreases n - i,
    {
        destination[i] = a[b[i]];
        i += 1;
    }
    assert(destination@ =~= compose(a@, b@));
}

} // verus!
