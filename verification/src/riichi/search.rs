//! The search that computes the shanten of the standard shape, and the proof
//! that it finds the least distance over all layouts.
//!
//! The search walks the buckets in order. At each bucket it tries the five
//! kinds of block in a fixed order; a block is either taken once more or
//! given up for good, so every layout is met exactly once.

use vstd::prelude::*;
use crate::riichi::blocks::{
    Block,
    block_shanten,
    count_pairs,
    count_partials,
    count_sets,
    fits,
    holds_block,
    is_histogram,
    is_standard_shanten,
    layout_shanten,
    lemma_push_block,
    lemma_remove_block,
    lemma_tiles_used_nonnegative,
    standard_shanten,
    tiles_used,
    without_block,
};

verus! {

/// The histogram that an array of counts stands for.
pub open spec fn counts(a: Seq<u8>) -> Seq<int> {
    Seq::new(a.len(), |k: int| a[k] as int)
}

/// The block of the given kind (0 to 4) whose lowest tile lies in bucket `pos`.
pub(crate) open spec fn slot_block(pos: int, kind: int) -> Block {
    if kind == 0 {
        Block::Triplet(pos)
    } else if kind == 1 {
        Block::Run(pos)
    } else if kind == 2 {
        Block::Pair(pos)
    } else if kind == 3 {
        Block::Adjacent(pos)
    } else {
        Block::Gapped(pos)
    }
}

/// Place of a block in the order in which the search meets the blocks.
pub(crate) open spec fn slot_of(b: Block) -> int {
    match b {
        Block::Triplet(i) => 5 * i,
        Block::Run(i) => 5 * i + 1,
        Block::Pair(i) => 5 * i + 2,
        Block::Adjacent(i) => 5 * i + 3,
        Block::Gapped(i) => 5 * i + 4,
    }
}

/// `x`, but no more than `limit`.
pub(crate) open spec fn capped(x: int, limit: int) -> int {
    if x >= limit {
        limit
    } else {
        x
    }
}

/// The least distance over the layouts that use only blocks from slot
/// (`pos`, `kind`) on, given what was laid out before: `sets` complete
/// sets, `partials` partial runs and `pairs` pairs, each counted only up
/// to the number from which more make no difference.
pub(crate) open spec fn search(hist: Seq<int>, pos: int, kind: int, sets: int, partials: int, pairs: int) -> int
    decreases 34 - pos, 5 - kind, hist[pos],
    when hist.len() == 34
    via search_decreases
{
    if pos < 0 || pos >= 34 || kind < 0 {
        block_shanten(sets, partials, pairs)
    } else if kind >= 5 {
        search(hist, pos + 1, 0, sets, partials, pairs)
    } else {
        let b = slot_block(pos, kind);
        let skip = search(hist, pos, kind + 1, sets, partials, pairs);
        if holds_block(hist, b) {
            let take = search(
                without_block(hist, b),
                pos,
                kind,
                capped(sets + if b.is_set() { 1int } else { 0 }, 4),
                capped(partials + if b.is_partial() { 1int } else { 0 }, 4),
                capped(pairs + if b is Pair { 1int } else { 0 }, 5),
            );
            if take < skip {
                take
            } else {
                skip
            }
        } else {
            skip
        }
    }
}

#[via_fn]
proof fn search_decreases(hist: Seq<int>, pos: int, kind: int, sets: int, partials: int, pairs: int) {
    if !(pos < 0 || pos >= 34 || kind < 0) && kind < 5 {
        let b = slot_block(pos, kind);
        if holds_block(hist, b) {
            assert(b.uses(pos) >= 1);
            assert(b.uses(pos) <= hist[pos]);
            assert(without_block(hist, b)[pos] == hist[pos] - b.uses(pos));
        }
    }
}

/// Counting sets past four, partial runs past four or pairs past five
/// changes no distance.
proof fn lemma_capped_counts(sets: int, partials: int, pairs: int)
    requires
        sets >= 0,
        partials >= 0,
        pairs >= 0,
    ensures
        block_shanten(sets, partials, pairs) == block_shanten(capped(sets, 4), capped(partials, 4), capped(pairs, 5)),
{
}

/// The search is no worse than any layout that fits the histogram and
/// uses only blocks from the current slot on.
proof fn lemma_search_complete(
    hist: Seq<int>,
    pos: int,
    kind: int,
    sets: int,
    partials: int,
    pairs: int,
    blocks: Seq<Block>,
)
    requires
        is_histogram(hist),
        0 <= pos <= 34,
        0 <= kind <= 5,
        sets >= 0,
        partials >= 0,
        pairs >= 0,
        fits(blocks, hist),
        forall|j: int| 0 <= j < blocks.len() ==> slot_of(#[trigger] blocks[j]) >= 5 * pos + kind,
    ensures
        search(hist, pos, kind, capped(sets, 4), capped(partials, 4), capped(pairs, 5)) <= block_shanten(
            sets + count_sets(blocks),
            partials + count_partials(blocks),
            pairs + count_pairs(blocks),
        ),
    decreases 34 - pos, 5 - kind, hist[pos],
{
    if pos >= 34 {
        if blocks.len() > 0 {
            assert(blocks[0].valid());
            assert(slot_of(blocks[0]) >= 170);
        }
        lemma_capped_counts(sets, partials, pairs);
    } else if kind >= 5 {
        lemma_search_complete(hist, pos + 1, 0, sets, partials, pairs, blocks);
    } else {
        let b = slot_block(pos, kind);
        if exists|j: int| 0 <= j < blocks.len() && blocks[j] == b {
            let j = choose|j: int| 0 <= j < blocks.len() && blocks[j] == b;
            let rest = blocks.remove(j);
            lemma_remove_block(blocks, j);
            assert(b.valid());
            assert forall|k: int| 0 <= k < 34 implies #[trigger] b.uses(k) <= hist[k] by {
                lemma_tiles_used_nonnegative(rest, k);
                assert(tiles_used(rest, k) == tiles_used(blocks, k) - b.uses(k));
                assert(tiles_used(blocks, k) <= hist[k]);
            }
            let left = without_block(hist, b);
            assert forall|i: int| 0 <= i < rest.len() implies (#[trigger] rest[i]).valid() && slot_of(rest[i]) >= 5
                * pos + kind by {
                if i < j {
                    assert(rest[i] == blocks[i]);
                } else {
                    assert(rest[i] == blocks[i + 1]);
                }
            }
            assert forall|k: int| 0 <= k < 34 implies #[trigger] tiles_used(rest, k) <= left[k] by {
                assert(tiles_used(rest, k) == tiles_used(blocks, k) - b.uses(k));
                assert(tiles_used(blocks, k) <= hist[k]);
            }
            assert(b.uses(pos) >= 1);
            let sets2 = sets + if b.is_set() { 1int } else { 0 };
            let partials2 = partials + if b.is_partial() { 1int } else { 0 };
            let pairs2 = pairs + if b is Pair { 1int } else { 0 };
            lemma_search_complete(left, pos, kind, sets2, partials2, pairs2, rest);
        } else {
            assert forall|j: int| 0 <= j < blocks.len() implies slot_of(#[trigger] blocks[j]) >= 5 * pos + kind
                + 1 by {
                assert(blocks[j] != b);
                assert(blocks[j].valid());
            }
            lemma_search_complete(hist, pos, kind + 1, sets, partials, pairs, blocks);
        }
    }
}

/// The search returns the distance of a layout that fits the histogram.
proof fn lemma_search_sound(hist: Seq<int>, pos: int, kind: int, sets: int, partials: int, pairs: int) -> (blocks:
    Seq<Block>)
    requires
        is_histogram(hist),
        0 <= pos <= 34,
        0 <= kind <= 5,
        sets >= 0,
        partials >= 0,
        pairs >= 0,
    ensures
        fits(blocks, hist),
        search(hist, pos, kind, capped(sets, 4), capped(partials, 4), capped(pairs, 5)) == block_shanten(
            sets + count_sets(blocks),
            partials + count_partials(blocks),
            pairs + count_pairs(blocks),
        ),
    decreases 34 - pos, 5 - kind, hist[pos],
{
    if pos >= 34 {
        lemma_capped_counts(sets, partials, pairs);
        let none = Seq::<Block>::empty();
        assert forall|k: int| 0 <= k < 34 implies #[trigger] tiles_used(none, k) <= hist[k] by {
            assert(hist[k] >= 0);
        }
        none
    } else if kind >= 5 {
        lemma_search_sound(hist, pos + 1, 0, sets, partials, pairs)
    } else {
        let b = slot_block(pos, kind);
        let skipped = lemma_search_sound(hist, pos, kind + 1, sets, partials, pairs);
        if holds_block(hist, b) {
            let left = without_block(hist, b);
            let sets2 = sets + if b.is_set() { 1int } else { 0 };
            let partials2 = partials + if b.is_partial() { 1int } else { 0 };
            let pairs2 = pairs + if b is Pair { 1int } else { 0 };
            assert(b.uses(pos) >= 1);
            let rest = lemma_search_sound(left, pos, kind, sets2, partials2, pairs2);
            let take = search(left, pos, kind, capped(sets2, 4), capped(partials2, 4), capped(pairs2, 5));
            let skip = search(hist, pos, kind + 1, capped(sets, 4), capped(partials, 4), capped(pairs, 5));
            if take < skip {
                let taken = rest.push(b);
                lemma_push_block(rest, b);
                assert forall|j: int| 0 <= j < taken.len() implies (#[trigger] taken[j]).valid() by {
                    if j < rest.len() {
                        assert(taken[j] == rest[j]);
                    }
                }
                assert forall|k: int| 0 <= k < 34 implies #[trigger] tiles_used(taken, k) <= hist[k] by {
                    assert(tiles_used(rest, k) <= left[k]);
                }
                taken
            } else {
                skipped
            }
        } else {
            skipped
        }
    }
}

/// The search from the first slot computes the shanten of the standard shape.
pub(crate) proof fn lemma_search_is_standard_shanten(hist: Seq<int>, declared: int)
    requires
        is_histogram(hist),
        declared >= 0,
    ensures
        search(hist, 0, 0, capped(declared, 4), 0, 0) == standard_shanten(hist, declared),
        is_standard_shanten(hist, declared, standard_shanten(hist, declared)),
{
    let v = search(hist, 0, 0, capped(declared, 4), 0, 0);
    let witness = lemma_search_sound(hist, 0, 0, declared, 0, 0);
    assert(layout_shanten(witness, declared) == v);
    assert forall|blocks: Seq<Block>| fits(blocks, hist) implies #[trigger] layout_shanten(blocks, declared)
        >= v by {
        assert forall|j: int| 0 <= j < blocks.len() implies slot_of(#[trigger] blocks[j]) >= 0 by {
            assert(blocks[j].valid());
        }
        lemma_search_complete(hist, 0, 0, declared, 0, 0, blocks);
    }
    assert(is_standard_shanten(hist, declared, v));
    let w = standard_shanten(hist, declared);
    assert(is_standard_shanten(hist, declared, w));
    let achieved = choose|blocks: Seq<Block>| fits(blocks, hist) && #[trigger] layout_shanten(blocks, declared) == w;
    assert(layout_shanten(achieved, declared) >= v);
    assert(layout_shanten(witness, declared) >= w);
}

/// The shanten of the standard shape is the distance of some layout that
/// fits the histogram, and no fitting layout is nearer.
pub proof fn lemma_standard_shanten_is_least(hist: Seq<int>, declared: int)
    requires
        is_histogram(hist),
        declared >= 0,
    ensures
        is_standard_shanten(hist, declared, standard_shanten(hist, declared)),
        -1 <= standard_shanten(hist, declared) <= 8,
{
    lemma_search_is_standard_shanten(hist, declared);
    let w = standard_shanten(hist, declared);
    let achieved = choose|blocks: Seq<Block>| fits(blocks, hist) && #[trigger] layout_shanten(blocks, declared) == w;
    lemma_tiles_used_nonnegative(achieved, 0);
}

} // verus!
