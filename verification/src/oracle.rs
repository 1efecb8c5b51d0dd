//! The membership oracle: a stabilizer chain of `permutation_rs` decides
//! whether a mapping is generated by a list of mappings.
//!
//! The chain is not verified here. What this crate believes of it is written
//! on the declaration, the two names and the two calls at the head of this
//! file; everything that prepares its input is verified.

use vstd::prelude::*;
use std::collections::HashMap;
use crate::error::Error;
use crate::mapping::{identity, is_mapping, lemma_mapping_is_onto};
use permutation_rs::group::Group;
use permutation_rs::group::permutation::Permutation as ChainElement;

verus! {

broadcast use vstd::std_specs::hash::group_hash_axioms;

/// The permutation type of `permutation_rs`, opaque to the verifier.
#[verifier::external_type_specification]
#[verifier::external_body]
pub struct ExChainElement(ChainElement);

/// The images that a permutation of `permutation_rs` holds: the key of each
/// entry is a point, its value the point it is sent to.
pub uninterp spec fn element_images(element: ChainElement) -> Map<u64, u64>;

/// The answer of the stabilizer chain of `permutation_rs` that was built over
/// `points` from `generators`, when it is asked for `candidate`. The answer is
/// computed from these three values alone.
pub uninterp spec fn chain_accepts(
    points: Seq<u64>,
    generators: Seq<Map<u64, u64>>,
    candidate: Map<u64, u64>,
) -> bool;

/// `t` sends each point below `n` to a point below `n`, no two to the same
/// one, and holds no other point.
pub open spec fn is_table(t: Map<u64, u64>, n: nat) -> bool {
    &&& forall|k: u64| t.dom().contains(k) <==> k < n
    &&& forall|k: u64| k < n ==> #[trigger] t[k] < n
    &&& forall|k1: u64, k2: u64| k1 < n && k2 < n && k1 != k2 ==> t[k1] != t[k2]
}

/// The images of the generators, in their order.
pub open spec fn images_of_all(generators: Seq<ChainElement>) -> Seq<Map<u64, u64>> {
    generators.map_values(|g: ChainElement| element_images(g))
}

/// Calls `Permutation::new` of `permutation_rs`, which stores the map it is
/// given: the permutation holds exactly the images in `images`.
#[verifier::external_body]
pub(crate) fn chain_element(images: HashMap<u64, u64>) -> (element: ChainElement)
    ensures
        element_images(element) == images@,
{
    ChainElement::new(images)
}

/// Calls `Group::new` of `permutation_rs` on `points` and `generators` and asks
/// the group with `Group::is_member` for `candidate`.
///
/// The contract claims that the answer depends on the three arguments only.
/// The chain is built by picking, level by level, a point of `points` that a
/// generator of the level moves, and it stops the program when a level has
/// generators none of which moves a point of `points`. The conditions leave
/// that out: `points` are `0, 1, ..`, all permutations act on one point more
/// than `points` holds (a permutation other than the identity then moves one
/// of `points`), and a generator moves one of `points`.
///
/// The chain keeps every generator of each level, and their number grows
/// fast with the size of the group: on large groups the call takes long and
/// much memory. Nothing is claimed of either.
#[verifier::external_body]
pub(crate) fn chain_has_member(
    points: Vec<u64>,
    generators: Vec<ChainElement>,
    candidate: ChainElement,
) -> (accepted: bool)
    requires
        forall|i: int| 0 <= i < points@.len() ==> #[trigger] points@[i] == i,
        is_table(element_images(candidate), points@.len() + 1),
        forall|k: int|
            0 <= k < generators@.len() ==> is_table(
                element_images(#[trigger] generators@[k]),
                points@.len() + 1,
            ),
        exists|k: int, x: u64|
            0 <= k < generators@.len() && x < points@.len() && #[trigger] element_images(
                generators@[k],
            )[x] != x,
    ensures
        accepted == chain_accepts(points@, images_of_all(generators@), element_images(candidate)),
{
    Group::new(points, generators).is_member(candidate)
}

/// The images of a mapping, keyed by the point: point `k` goes to `m[k]`.
pub open spec fn table_of(m: Seq<usize>) -> Map<u64, u64> {
    Map::new(|k: u64| k < m.len(), |k: u64| m[k as int] as u64)
}

/// The tables of the mappings, in their order.
pub open spec fn tables_of(generators: Seq<Seq<usize>>) -> Seq<Map<u64, u64>> {
    generators.map_values(|g: Seq<usize>| table_of(g))
}

/// The points `0, 1, .., count - 1`.
pub open spec fn points_below(count: nat) -> Seq<u64> {
    Seq::new(count, |i: int| i as u64)
}

/// Builds the table of images of `mapping`.
pub fn image_table(mapping: &[usize]) -> (images: HashMap<u64, u64>)
    ensures
        images@ == table_of(mapping@),
{
    let mut images: HashMap<u64, u64> = HashMap::new();
    let mut i: usize = 0;
    while i < mapping.len()
        invariant
            i <= mapping@.len(),
            images@ == table_of(mapping@.take(i as int)),
        decreases mapping@.len() - i,
    {
        images.insert(i as u64, mapping[i] as u64);
        proof {
            assert(images@ =~= table_of(mapping@.take(i + 1)));
        }
        i += 1;
    }
    proof {
        assert(mapping@.take(mapping@.len() as int) =~= mapping@);
    }
    images
}

/// Builds the points `0, 1, .., count - 1`.
pub fn points_up_to(count: usize) -> (points: Vec<u64>)
    ensures
        points@ == points_below(count as nat),
{
    let mut points: Vec<u64> = Vec::new();
    let mut i: usize = 0;
    while i < count
        invariant
            i <= count,
            points@ == points_below(i as nat),
        decreases count - i,
    {
        points.push(i as u64);
        proof {
            assert(points@ =~= points_below((i + 1) as nat));
        }
        i += 1;
    }
    points
}

/// The sequences that the slices hold, in their order.
pub open spec fn views_of(slices: Seq<&[usize]>) -> Seq<Seq<usize>> {
    slices.map_values(|s: &[usize]| s@)
}

/// One of the generators sends a point somewhere else.
pub open spec fn moves_a_point(generators: Seq<Seq<usize>>) -> bool {
    exists|k: int, x: int|
        0 <= k < generators.len() && 0 <= x < generators[k].len() && #[trigger] generators[k][x]
            != x
}

/// `largest` is the largest entry of the generators, or 0 where they hold no
/// entry.
pub open spec fn is_largest_entry(generators: Seq<Seq<usize>>, largest: nat) -> bool {
    &&& forall|k: int, x: int|
        0 <= k < generators.len() && 0 <= x < generators[k].len() ==> #[trigger] generators[k][x]
            <= largest
    &&& largest == 0 || exists|k: int, x: int|
        0 <= k < generators.len() && 0 <= x < generators[k].len() && #[trigger] generators[k][x]
            == largest
}

/// Whether `candidate` belongs to the group that `generators` generate.
///
/// Generators that move no point generate the group of the identity alone.
/// In every other case the stabilizer chain decides, built over the points
/// below the largest entry.
pub open spec fn is_member(candidate: Seq<usize>, generators: Seq<Seq<usize>>) -> bool {
    if moves_a_point(generators) {
        chain_accepts(
            points_below((candidate.len() - 1) as nat),
            tables_of(generators),
            table_of(candidate),
        )
    } else {
        candidate == identity(candidate.len())
    }
}

/// The table of a mapping on `0..n` is a table on `n` points.
pub proof fn lemma_table_of_mapping(m: Seq<usize>, n: nat)
    requires
        is_mapping(m, n),
    ensures
        is_table(table_of(m), n),
{
    let t = table_of(m);
    assert forall|k1: u64, k2: u64| k1 < n && k2 < n && k1 != k2 implies t[k1] != t[k2] by {
        if k1 < k2 {
            assert(m[k1 as int] != m[k2 as int]);
        } else {
            assert(m[k2 as int] != m[k1 as int]);
        }
    }
}

/// In a list of mappings on `0..n` one of which moves a point, the largest
/// entry is `n - 1`, and a generator moves a point below it.
pub proof fn lemma_moved_point_below_largest(generators: Seq<Seq<usize>>, n: nat, largest: nat)
    requires
        forall|k: int| 0 <= k < generators.len() ==> is_mapping(#[trigger] generators[k], n),
        moves_a_point(generators),
        is_largest_entry(generators, largest),
    ensures
        largest + 1 == n,
        exists|k: int, x: u64|
            0 <= k < generators.len() && x < largest && #[trigger] table_of(generators[k])[x] != x,
{
    let (k, x) = choose|k: int, x: int|
        0 <= k < generators.len() && 0 <= x < generators[k].len() && #[trigger] generators[k][x]
            != x;
    let g = generators[k];
    assert(is_mapping(g, n));
    lemma_mapping_is_onto(g, n, n - 1);
    let top = choose|i: int| 0 <= i < n && #[trigger] g[i] == n - 1;
    assert(g[top] <= largest);
    if largest != 0 {
        let (k2, x2) = choose|k2: int, x2: int|
            0 <= k2 < generators.len() && 0 <= x2 < generators[k2].len()
                && #[trigger] generators[k2][x2] == largest;
        assert(is_mapping(generators[k2], n));
        assert(generators[k2][x2] < n);
    }
    let y = g[x] as int;
    let moved: int = if x < n - 1 {
        x
    } else {
        y
    };
    if x == n - 1 {
        assert(y != x);
        assert(g[y] != y) by {
            if g[y] == y {
                assert(g[y] != g[x]);
            }
        }
    }
    assert(0 <= moved < largest);
    assert(table_of(g)[moved as u64] != moved as u64);
    assert(0 <= k < generators.len() && (moved as u64) < largest && table_of(generators[k])[moved as u64]
        != moved as u64);
}

/// The answer for a mapping that the oracle accepted or turned down.
pub fn membership_verdict(accepted: bool) -> (r: Result<(), Error>)
    ensures
        accepted ==> r == Ok::<(), Error>(()),
        !accepted ==> r == Err::<(), Error>(Error::NotAMember),
{
    if accepted {
        Ok(())
    } else {
        Err(Error::NotAMember)
    }
}

/// Finds the largest entry of the generators.
pub fn largest_entry(generators: &[&[usize]]) -> (largest: usize)
    ensures
        is_largest_entry(views_of(generators@), largest as nat),
{
    let ghost all = views_of(generators@);
    let mut largest: usize = 0;
    let mut k: usize = 0;
    while k < generators.len()
        invariant
            all == views_of(generators@),
            k <= generators@.len(),
            is_largest_entry(all.take(k as int), largest as nat),
        decreases generators@.len() - k,
    {
        let g = generators[k];
        let ghost before = largest;
        let mut x: usize = 0;
        while x < g.len()
            invariant
                all == views_of(generators@),
                k < generators@.len(),
                g@ == all[k as int],
                x <= g@.len(),
                before <= largest,
                is_largest_entry(all.take(k as int), before as nat),
                forall|j: int| 0 <= j < x ==> #[trigger] g@[j] <= largest,
                largest == before || exists|j: int| 0 <= j < x && #[trigger] g@[j] == largest,
            decreases g@.len() - x,
        {
            if g[x] > largest {
                largest = g[x];
            }
            x += 1;
        }
        proof {
            let next = all.take(k + 1);
            assert forall|a: int, b: int|
                0 <= a < next.len() && 0 <= b < next[a].len() implies #[trigger] next[a][b]
                <= largest by {
                if a < k {
                    assert(all.take(k as int)[a][b] <= before);
                }
            }
            if largest != 0 {
                if largest == before {
                    let (a, b) = choose|a: int, b: int|
                        0 <= a < all.take(k as int).len() && 0 <= b < all.take(k as int)[a].len()
                            && #[trigger] all.take(k as int)[a][b] == before;
                    assert(next[a][b] == largest);
                } else {
                    let j = choose|j: int| 0 <= j < g@.len() && #[trigger] g@[j] == largest;
                    assert(next[k as int][j] == largest);
                }
            }
        }
        k += 1;
    }
    proof {
        assert(all.take(generators@.len() as int) =~= all);
    }
    largest
}

/// Tells whether one of the generators sends a point somewhere else.
pub fn any_moves_a_point(generators: &[&[usize]]) -> (moved: bool)
    ensures
        moved == moves_a_point(views_of(generators@)),
{
    let ghost all = views_of(generators@);
    let mut k: usize = 0;
    while k < generators.len()
        invariant
            all == views_of(generators@),
            k <= generators@.len(),
            forall|a: int, b: int| 0 <= a < k && 0 <= b < all[a].len() ==> #[trigger] all[a][b] == b,
        decreases generators@.len() - k,
    {
        let g = generators[k];
        let mut x: usize = 0;
        while x < g.len()
            invariant
                all == views_of(generators@),
                k < generators@.len(),
                g@ == all[k as int],
                x <= g@.len(),
                forall|b: int| 0 <= b < x ==> #[trigger] g@[b] == b,
            decreases g@.len() - x,
        {
            if g[x] != x {
                assert(all[k as int][x as int] != x);
                return true;
            }
            x += 1;
        }
        k += 1;
    }
    false
}

/// Tells whether `mapping` leaves each point where it is.
pub fn is_identity(mapping: &[usize]) -> (same: bool)
    ensures
        same == (mapping@ == identity(mapping@.len())),
{
    let mut x: usize = 0;
    while x < mapping.len()
        invariant
            x <= mapping@.len(),
            forall|b: int| 0 <= b < x ==> #[trigger] mapping@[b] == b,
        decreases mapping@.len() - x,
    {
        if mapping[x] != x {
            assert(mapping@[x as int] != identity(mapping@.len())[x as int]);
            return false;
        }
        x += 1;
    }
    assert(mapping@ =~= identity(mapping@.len()));
    true
}

/// Hands each generator to the chain as a permutation of its own.
pub(crate) fn chain_elements(generators: &[&[usize]]) -> (elements: Vec<ChainElement>)
    ensures
        elements@.len() == generators@.len(),
        images_of_all(elements@) == tables_of(views_of(generators@)),
{
    let mut elements: Vec<ChainElement> = Vec::new();
    let mut k: usize = 0;
    while k < generators.len()
        invariant
            k <= generators@.len(),
            elements@.len() == k,
            images_of_all(elements@) == tables_of(views_of(generators@)).take(k as int),
        decreases generators@.len() - k,
    {
        let ghost before = elements@;
        let element = chain_element(image_table(generators[k]));
        elements.push(element);
        proof {
            let target = tables_of(views_of(generators@));
            assert(images_of_all(before).len() == before.len());
            assert forall|j: int| 0 <= j < k + 1 implies images_of_all(elements@)[j] == target.take(
                k + 1,
            )[j] by {
                if j < k {
                    assert(images_of_all(before)[j] == target.take(k as int)[j]);
                } else {
                    assert(views_of(generators@)[j] == generators@[j]@);
                }
            }
            assert(images_of_all(elements@) =~= target.take(k + 1));
        }
        k += 1;
    }
    proof {
        let all = tables_of(views_of(generators@));
        assert(all.take(generators@.len() as int) =~= all);
    }
    elements
}

} // verus!
