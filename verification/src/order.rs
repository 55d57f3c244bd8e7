use vstd::prelude::*;

use crate::stable::{is_stable_sort_by, lemma_stable_sort_unique, sorted_by, stable_sort_by, stable_witness_by};

verus! {

/// A drawable item of the flat render phase.
///
/// The distance to the camera is kept as the bit pattern of the `f32` that the
/// renderer measured; the phase is ordered by it. Values grow towards the
/// camera, so the front-to-back order of the pass is a descending order of
/// distance.
pub struct Flat3d<P, E, D> {
    /// Bit pattern (`f32::to_bits`) of the distance measured for the item.
    pub distance_bits: u32,
    /// The cached pipeline that draws the item.
    pub pipeline: P,
    /// The entity that the item draws.
    pub entity: E,
    /// The draw function that draws the item.
    pub draw_function: D,
}

/// The value of a float's bit pattern as a signed magnitude: the sign bit
/// negates the 31 low bits. For every float that is not NaN, this orders bit
/// patterns exactly as their values are ordered (both zeros map to 0).
pub open spec fn signed_magnitude(bits: u32) -> int {
    if bits >= 0x8000_0000 {
        -(bits - 0x8000_0000)
    } else {
        bits as int
    }
}

/// Position of a float's bit pattern in the IEEE 754 total order, from
/// negative NaNs up to positive NaNs; `-0.0` comes right before `+0.0`.
pub open spec fn total_order_rank(bits: u32) -> int {
    if bits >= 0x8000_0000 {
        0xFFFF_FFFF - bits
    } else {
        bits + 0x8000_0000
    }
}

/// Rank of a distance in the front-to-back order: the total-order position of
/// the negated distance, so that ascending rank is descending distance.
pub open spec fn depth_rank(bits: u32) -> int {
    0xFFFF_FFFF - total_order_rank(bits)
}

/// The depth rank of an item: ascending depth rank is descending distance.
pub open spec fn by_depth<P, E, D>() -> spec_fn(Flat3d<P, E, D>) -> int {
    |item: Flat3d<P, E, D>| depth_rank(item.distance_bits)
}

/// The distance of an item, negated: ascending order of it is descending
/// order of distance, the order of the phase's `Reverse<FloatOrd>` sort key
/// for every distance that is not NaN.
pub open spec fn by_descending_distance<P, E, D>() -> spec_fn(Flat3d<P, E, D>) -> int {
    |item: Flat3d<P, E, D>| -signed_magnitude(item.distance_bits)
}

/// `after` is the stable sort of `before` by depth rank.
pub open spec fn stable_depth_sort<P, E, D>(
    before: Seq<Flat3d<P, E, D>>,
    after: Seq<Flat3d<P, E, D>>,
) -> bool {
    is_stable_sort_by(before, after, by_depth())
}

/// Among the items, `+0.0` and `-0.0` do not both occur as distances.
pub open spec fn zeros_of_one_sign<P, E, D>(items: Seq<Flat3d<P, E, D>>) -> bool {
    !(exists|i: int, j: int|
        0 <= i < items.len() && 0 <= j < items.len() && #[trigger] items[i].distance_bits == 0
            && #[trigger] items[j].distance_bits == 0x8000_0000)
}

/// The radix key by which the phase is sorted: the depth rank of a distance.
pub fn depth_key(distance_bits: u32) -> (key: u32)
    ensures
        key == depth_rank(distance_bits),
{
    if distance_bits >= 0x8000_0000 {
        distance_bits
    } else {
        0x7FFF_FFFF - distance_bits
    }
}

/// Calls `radsort::sort_by_key` on the items with `depth_key` of their
/// distance as the key. The contract claims what radsort's documentation
/// promises: the slice ends up holding the same items, ordered by ascending
/// key, and the sort is stable (items with equal keys keep their order).
/// radsort may panic only when the key function gives one item different
/// keys; `depth_key` is a function of the item's distance, so it does not.
#[verifier::external_body]
fn radsort_by_depth<P, E, D>(items: &mut [Flat3d<P, E, D>])
    ensures
        stable_depth_sort(old(items)@, final(items)@),
{
    radsort::sort_by_key(items, |item: &Flat3d<P, E, D>| depth_key(item.distance_bits));
}

/// A lower depth rank never has a smaller distance, and two distances of
/// the same signed magnitude have the same depth rank unless one is `+0.0`
/// and the other `-0.0`.
pub proof fn lemma_depth_rank_reverses_distance(a: u32, b: u32)
    ensures
        depth_rank(a) <= depth_rank(b) ==> signed_magnitude(a) >= signed_magnitude(b),
        signed_magnitude(a) == signed_magnitude(b) && !(a == 0 && b == 0x8000_0000) && !(a
            == 0x8000_0000 && b == 0) ==> a == b,
{
}

/// The phase sort has one result: the stable sort by depth rank.
pub proof fn lemma_depth_sort_unique<P, E, D>(
    before: Seq<Flat3d<P, E, D>>,
    after: Seq<Flat3d<P, E, D>>,
)
    requires
        stable_depth_sort(before, after),
    ensures
        after == stable_sort_by(before, by_depth()),
{
    lemma_stable_sort_unique(before, after, by_depth());
}

/// Unless `+0.0` and `-0.0` both occur, the phase sort gives the stable sort
/// by descending distance: for distances that are not NaN, the stable sort by
/// the phase's `Reverse<FloatOrd>` sort key.
pub proof fn lemma_depth_sort_is_descending_distance_sort<P, E, D>(
    before: Seq<Flat3d<P, E, D>>,
    after: Seq<Flat3d<P, E, D>>,
)
    requires
        stable_depth_sort(before, after),
        zeros_of_one_sign(before),
    ensures
        after == stable_sort_by(before, by_descending_distance()),
{
    let depth = by_depth::<P, E, D>();
    let desc = by_descending_distance::<P, E, D>();
    let perm = choose|perm: Seq<int>| stable_witness_by(before, after, perm, depth);
    assert(sorted_by(after, desc)) by {
        assert forall|i: int, j: int| 0 <= i < j < after.len() implies desc(#[trigger] after[i])
            <= desc(#[trigger] after[j]) by {
            lemma_depth_rank_reverses_distance(after[i].distance_bits, after[j].distance_bits);
        }
    }
    assert(stable_witness_by(before, after, perm, desc)) by {
        assert forall|i: int, j: int|
            0 <= i < j < after.len() && desc(#[trigger] after[i]) == desc(
                #[trigger] after[j],
            ) implies perm[i] < perm[j] by {
            let a = after[i].distance_bits;
            let b = after[j].distance_bits;
            assert(after[i] == before[perm[i]]);
            assert(after[j] == before[perm[j]]);
            assert(!(a == 0 && b == 0x8000_0000));
            assert(!(a == 0x8000_0000 && b == 0));
            lemma_depth_rank_reverses_distance(a, b);
        }
    }
    lemma_stable_sort_unique(before, after, desc);
}

impl<P, E, D> Flat3d<P, E, D> {
    /// Sorts the phase front to back: stably, by descending distance.
    pub fn sort(items: &mut [Self])
        ensures
            stable_depth_sort(old(items)@, final(items)@),
            final(items)@ == stable_sort_by(old(items)@, by_depth()),
            forall|i: int, j: int|
                0 <= i < j < final(items)@.len() ==> signed_magnitude(
                    #[trigger] final(items)@[i].distance_bits,
                ) >= signed_magnitude(#[trigger] final(items)@[j].distance_bits),
            zeros_of_one_sign(old(items)@) ==> final(items)@ == stable_sort_by(
                old(items)@,
                by_descending_distance(),
            ),
    {
        let ghost before = items@;
        radsort_by_depth(items);
        proof {
            lemma_depth_sort_unique(before, items@);
            if zeros_of_one_sign(before) {
                lemma_depth_sort_is_descending_distance_sort(before, items@);
            }
            assert forall|i: int, j: int| 0 <= i < j < items@.len() implies signed_magnitude(
                #[trigger] items@[i].distance_bits,
            ) >= signed_magnitude(#[trigger] items@[j].distance_bits) by {
                assert(by_depth::<P, E, D>()(items@[i]) <= by_depth::<P, E, D>()(items@[j]));
                lemma_depth_rank_reverses_distance(items@[i].distance_bits, items@[j].distance_bits);
            }
        }
    }
}

} // verus!
