//! What the shanten of a hand is: the three winning shapes over a histogram
//! of 34 buckets, stated without reference to how they are computed.
//!
//! A histogram is a `Seq<int>` of length 34; bucket `k` counts the tiles
//! with identifier `k + 1`.

use vstd::prelude::*;
use crate::riichi::tile::is_terminal_or_honor;

verus! {

/// A group of tiles that counts towards the standard shape. The number is
/// the bucket of the group's lowest tile.
pub enum Block {
    /// Three tiles of one kind.
    Triplet(int),
    /// Three consecutive ranks of one suit.
    Run(int),
    /// Two tiles of one kind.
    Pair(int),
    /// Two neighbouring ranks of one suit.
    Adjacent(int),
    /// Two ranks of one suit with one rank missing between them.
    Gapped(int),
}

impl Block {
    /// Whether the block's tiles exist: the buckets lie in the histogram, and
    /// a block of several ranks stays inside one numbered suit.
    pub open spec fn valid(self) -> bool {
        match self {
            Block::Triplet(i) => 0 <= i < 34,
            Block::Pair(i) => 0 <= i < 34,
            Block::Run(i) => 0 <= i < 27 && i % 9 <= 6,
            Block::Adjacent(i) => 0 <= i < 27 && i % 9 <= 7,
            Block::Gapped(i) => 0 <= i < 27 && i % 9 <= 6,
        }
    }

    /// How many tiles of bucket `k` the block takes.
    pub open spec fn uses(self, k: int) -> int {
        match self {
            Block::Triplet(i) => if k == i { 3 } else { 0 },
            Block::Pair(i) => if k == i { 2 } else { 0 },
            Block::Run(i) => if k == i || k == i + 1 || k == i + 2 { 1 } else { 0 },
            Block::Adjacent(i) => if k == i || k == i + 1 { 1 } else { 0 },
            Block::Gapped(i) => if k == i || k == i + 2 { 1 } else { 0 },
        }
    }

    /// A complete set: a triplet or a run.
    pub open spec fn is_set(self) -> bool {
        self is Triplet || self is Run
    }

    /// Two tiles that one more tile would turn into a run.
    pub open spec fn is_partial(self) -> bool {
        self is Adjacent || self is Gapped
    }
}

/// How many tiles of bucket `k` the blocks take together.
pub open spec fn tiles_used(blocks: Seq<Block>, k: int) -> int
    decreases blocks.len(),
{
    if blocks.len() == 0 {
        0
    } else {
        tiles_used(blocks.drop_last(), k) + blocks.last().uses(k)
    }
}

/// Number of complete sets among the blocks.
pub open spec fn count_sets(blocks: Seq<Block>) -> int
    decreases blocks.len(),
{
    if blocks.len() == 0 {
        0
    } else {
        count_sets(blocks.drop_last()) + if blocks.last().is_set() { 1int } else { 0 }
    }
}

/// Number of pairs among the blocks.
pub open spec fn count_pairs(blocks: Seq<Block>) -> int
    decreases blocks.len(),
{
    if blocks.len() == 0 {
        0
    } else {
        count_pairs(blocks.drop_last()) + if blocks.last() is Pair { 1int } else { 0 }
    }
}

/// Number of partial runs among the blocks.
pub open spec fn count_partials(blocks: Seq<Block>) -> int
    decreases blocks.len(),
{
    if blocks.len() == 0 {
        0
    } else {
        count_partials(blocks.drop_last()) + if blocks.last().is_partial() { 1int } else { 0 }
    }
}

/// Whether the blocks can be laid out from the tiles of `hist` at once:
/// each block exists, and no bucket is asked for more tiles than it holds.
pub open spec fn fits(blocks: Seq<Block>, hist: Seq<int>) -> bool {
    &&& forall|j: int| 0 <= j < blocks.len() ==> (#[trigger] blocks[j]).valid()
    &&& forall|k: int| 0 <= k < 34 ==> #[trigger] tiles_used(blocks, k) <= hist[k]
}

/// Distance to four sets and a pair for a layout with `sets` complete sets
/// (declared melds included), `partials` partial runs and `pairs` pairs.
/// Each missing set costs two tiles. One pair serves as the head; every
/// other pair and every partial run saves one tile, but no more of them
/// count than sets are still missing.
pub open spec fn block_shanten(sets: int, partials: int, pairs: int) -> int {
    let done = if sets >= 4 { 4 } else { sets };
    let head = if pairs >= 1 { 1int } else { 0 };
    let started = partials + pairs - head;
    let useful = if started >= 4 - done { 4 - done } else { started };
    2 * (4 - done) - useful - head
}

/// The distance that a layout of blocks gives to a hand with `declared` melds.
pub open spec fn layout_shanten(blocks: Seq<Block>, declared: int) -> int {
    block_shanten(declared + count_sets(blocks), count_partials(blocks), count_pairs(blocks))
}

/// Whether `v` is the least distance that any layout fitting `hist` gives.
pub open spec fn is_standard_shanten(hist: Seq<int>, declared: int, v: int) -> bool {
    &&& exists|blocks: Seq<Block>| fits(blocks, hist) && #[trigger] layout_shanten(blocks, declared) == v
    &&& forall|blocks: Seq<Block>| fits(blocks, hist) ==> #[trigger] layout_shanten(blocks, declared) >= v
}

/// Shanten of the standard shape, four sets and a pair: the least distance
/// over all layouts of blocks that fit the concealed tiles, with the
/// declared melds counted as complete sets.
pub open spec fn standard_shanten(hist: Seq<int>, declared: int) -> int {
    choose|v: int| is_standard_shanten(hist, declared, v)
}

/// Number of buckets below `upto` that hold at least `n` tiles.
pub open spec fn buckets_with(hist: Seq<int>, n: int, upto: int) -> int
    decreases upto,
{
    if upto <= 0 {
        0
    } else {
        buckets_with(hist, n, upto - 1) + if hist[upto - 1] >= n { 1int } else { 0 }
    }
}

/// Shanten of the seven-pairs shape: `6 - pairs + max(0, 7 - pairs - kinds)`,
/// where `pairs` counts the buckets with two tiles or more and `kinds` the
/// buckets with at least one.
pub open spec fn seven_pairs_shanten(hist: Seq<int>) -> int {
    let pairs = buckets_with(hist, 2, 34);
    let kinds = buckets_with(hist, 1, 34);
    6 - pairs + if 7 - pairs - kinds > 0 { 7 - pairs - kinds } else { 0 }
}

/// Number of terminal and honor buckets below `upto` that hold at least `n` tiles.
pub open spec fn orphans_with(hist: Seq<int>, n: int, upto: int) -> int
    decreases upto,
{
    if upto <= 0 {
        0
    } else {
        orphans_with(hist, n, upto - 1) + if is_terminal_or_honor(upto) && hist[upto - 1] >= n {
            1int
        } else {
            0
        }
    }
}

/// Shanten of the thirteen-orphans shape: 13, less the terminal and honor
/// kinds present, less one if any of them is held twice.
pub open spec fn thirteen_orphans_shanten(hist: Seq<int>) -> int {
    13 - orphans_with(hist, 1, 34) - if orphans_with(hist, 2, 34) >= 1 { 1int } else { 0 }
}

/// Shanten of a hand from the histogram of its concealed tiles and the
/// number of its declared melds: the least of the three shapes, of which
/// seven pairs and thirteen orphans are open to a closed hand only.
pub open spec fn shanten_of(hist: Seq<int>, declared: int) -> int {
    let standard = standard_shanten(hist, declared);
    if declared == 0 {
        let pairs = seven_pairs_shanten(hist);
        let orphans = thirteen_orphans_shanten(hist);
        let least = if pairs < standard { pairs } else { standard };
        if orphans < least { orphans } else { least }
    } else {
        standard
    }
}

/// Whether `hist` is a histogram: 34 buckets, none negative.
pub open spec fn is_histogram(hist: Seq<int>) -> bool {
    hist.len() == 34 && forall|k: int| 0 <= k < 34 ==> #[trigger] hist[k] >= 0
}

/// The histogram with one more tile in bucket `k`.
pub open spec fn with_one_more(hist: Seq<int>, k: int) -> Seq<int> {
    hist.update(k, hist[k] + 1)
}

/// The histogram left when `block` is taken out of `hist`.
pub open spec fn without_block(hist: Seq<int>, block: Block) -> Seq<int> {
    Seq::new(hist.len(), |k: int| hist[k] - block.uses(k))
}

/// Whether `hist` holds the tiles of `block`.
pub open spec fn holds_block(hist: Seq<int>, block: Block) -> bool {
    block.valid() && forall|k: int| 0 <= k < 34 ==> #[trigger] block.uses(k) <= hist[k]
}

// ---------------------------------------------------------------------------
// Counting over layouts
// ---------------------------------------------------------------------------

/// No block takes a negative number of tiles.
pub proof fn lemma_tiles_used_nonnegative(blocks: Seq<Block>, k: int)
    ensures
        tiles_used(blocks, k) >= 0,
        count_sets(blocks) >= 0,
        count_pairs(blocks) >= 0,
        count_partials(blocks) >= 0,
    decreases blocks.len(),
{
    if blocks.len() > 0 {
        lemma_tiles_used_nonnegative(blocks.drop_last(), k);
    }
}

/// Adding a block to a layout adds what the block takes and counts.
pub proof fn lemma_push_block(blocks: Seq<Block>, b: Block)
    ensures
        forall|k: int| #[trigger] tiles_used(blocks.push(b), k) == tiles_used(blocks, k) + b.uses(k),
        count_sets(blocks.push(b)) == count_sets(blocks) + if b.is_set() { 1int } else { 0 },
        count_pairs(blocks.push(b)) == count_pairs(blocks) + if b is Pair { 1int } else { 0 },
        count_partials(blocks.push(b)) == count_partials(blocks) + if b.is_partial() { 1int } else { 0 },
{
    assert(blocks.push(b).drop_last() =~= blocks);
}

/// Taking a block out of a layout takes away what the block takes and counts.
pub proof fn lemma_remove_block(blocks: Seq<Block>, j: int)
    requires
        0 <= j < blocks.len(),
    ensures
        forall|k: int| #[trigger] tiles_used(blocks.remove(j), k) == tiles_used(blocks, k) - blocks[j].uses(k),
        count_sets(blocks.remove(j)) == count_sets(blocks) - if blocks[j].is_set() { 1int } else { 0 },
        count_pairs(blocks.remove(j)) == count_pairs(blocks) - if blocks[j] is Pair { 1int } else { 0 },
        count_partials(blocks.remove(j)) == count_partials(blocks) - if blocks[j].is_partial() { 1int } else { 0 },
    decreases blocks.len(),
{
    if j == blocks.len() - 1 {
        assert(blocks.remove(j) =~= blocks.drop_last());
    } else {
        lemma_remove_block(blocks.drop_last(), j);
        assert(blocks.remove(j).drop_last() =~= blocks.drop_last().remove(j));
        assert(blocks.remove(j).last() == blocks.last());
        assert forall|k: int| #[trigger]
            tiles_used(blocks.remove(j), k) == tiles_used(blocks, k) - blocks[j].uses(k) by {
            assert(tiles_used(blocks.drop_last().remove(j), k) == tiles_used(blocks.drop_last(), k)
                - blocks[j].uses(k));
        }
    }
}

/// Replacing a block of a layout exchanges what the two blocks take and count.
pub proof fn lemma_replace_block(blocks: Seq<Block>, j: int, b: Block)
    requires
        0 <= j < blocks.len(),
    ensures
        forall|k: int| #[trigger] tiles_used(blocks.update(j, b), k) == tiles_used(blocks, k) - blocks[j].uses(k) + b.uses(k),
        count_sets(blocks.update(j, b)) == count_sets(blocks) - (if blocks[j].is_set() { 1int } else { 0 }) + (if b.is_set() { 1int } else { 0 }),
        count_pairs(blocks.update(j, b)) == count_pairs(blocks) - (if blocks[j] is Pair { 1int } else { 0 }) + (if b is Pair { 1int } else { 0 }),
        count_partials(blocks.update(j, b)) == count_partials(blocks) - (if blocks[j].is_partial() { 1int } else { 0 }) + (if b.is_partial() { 1int } else { 0 }),
    decreases blocks.len(),
{
    if j == blocks.len() - 1 {
        assert(blocks.update(j, b).drop_last() =~= blocks.drop_last());
    } else {
        lemma_replace_block(blocks.drop_last(), j, b);
        assert(blocks.update(j, b).drop_last() =~= blocks.drop_last().update(j, b));
        assert(blocks.update(j, b).last() == blocks.last());
        assert forall|k: int| #[trigger]
            tiles_used(blocks.update(j, b), k) == tiles_used(blocks, k) - blocks[j].uses(k) + b.uses(
                k,
            ) by {
            assert(tiles_used(blocks.drop_last().update(j, b), k) == tiles_used(blocks.drop_last(), k)
                - blocks[j].uses(k) + b.uses(k));
        }
    }
}

/// A layout that takes a tile of bucket `k` has a block that does.
pub proof fn lemma_some_block_uses(blocks: Seq<Block>, k: int) -> (j: int)
    requires
        tiles_used(blocks, k) > 0,
    ensures
        0 <= j < blocks.len(),
        blocks[j].uses(k) > 0,
    decreases blocks.len(),
{
    if blocks.last().uses(k) > 0 {
        blocks.len() - 1
    } else {
        lemma_some_block_uses(blocks.drop_last(), k)
    }
}

} // verus!
