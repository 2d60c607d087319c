//! What holds of the shanten whatever the hand.

use vstd::prelude::*;
use crate::riichi::blocks::{
    Block,
    buckets_with,
    count_pairs,
    count_sets,
    fits,
    is_histogram,
    layout_shanten,
    lemma_remove_block,
    lemma_replace_block,
    lemma_some_block_uses,
    lemma_tiles_used_nonnegative,
    orphans_with,
    seven_pairs_shanten,
    shanten_of,
    standard_shanten,
    thirteen_orphans_shanten,
    tiles_used,
    with_one_more,
};
use crate::riichi::hand::without_first;
use crate::riichi::improve::{
    Improvement,
    accepted_ids,
    after_draw,
    is_candidate,
    is_near,
    near_any,
    discard_rows,
    draws_row,
    improves,
    improving_rows,
    is_discard,
    place_of,
    sort_rows,
    tiles_of,
};
use crate::riichi::search::lemma_standard_shanten_is_least;
use crate::riichi::shanten::{lemma_shanten_query_permutation, shanten_query};
use crate::riichi::tally::{
    Counted,
    histogram,
    lemma_histogram_push,
    lemma_histogram_shape,
    logical_size,
    physical_size,
    tally,
};
use crate::riichi::tile::{Tile, TileKind, fresh_tile, is_terminal_or_honor, valid_id};
use vstd::seq_lib::*;

verus! {

/// The block that is left of `block` when one tile of bucket `k` is taken
/// from it: a pair of a triplet, a partial run of a run, and nothing of a
/// block of two tiles.
pub open spec fn block_less_one(block: Block, k: int) -> Option<Block> {
    match block {
        Block::Triplet(i) => Some(Block::Pair(i)),
        Block::Run(i) => if k == i {
            Some(Block::Adjacent(i + 1))
        } else if k == i + 1 {
            Some(Block::Gapped(i))
        } else {
            Some(Block::Adjacent(i))
        },
        Block::Pair(_) => None,
        Block::Adjacent(_) => None,
        Block::Gapped(_) => None,
    }
}

/// A layout that fits a histogram with one more tile gives way to a
/// layout that fits the histogram itself and is at most one step farther.
proof fn lemma_layout_without_tile(hist: Seq<int>, declared: int, k: int, blocks: Seq<Block>) -> (fewer: Seq<Block>)
    requires
        is_histogram(hist),
        declared >= 0,
        0 <= k < 34,
        fits(blocks, with_one_more(hist, k)),
    ensures
        fits(fewer, hist),
        layout_shanten(fewer, declared) <= layout_shanten(blocks, declared) + 1,
{
    let more = with_one_more(hist, k);
    if tiles_used(blocks, k) <= hist[k] {
        assert forall|m: int| 0 <= m < 34 implies #[trigger] tiles_used(blocks, m) <= hist[m] by {
            assert(tiles_used(blocks, m) <= more[m]);
        }
        blocks
    } else {
        assert(tiles_used(blocks, k) <= more[k]);
        let j = lemma_some_block_uses(blocks, k);
        let b = blocks[j];
        assert(b.valid());
        lemma_tiles_used_nonnegative(blocks, k);
        match block_less_one(b, k) {
            Some(smaller) => {
                let fewer = blocks.update(j, smaller);
                lemma_replace_block(blocks, j, smaller);
                lemma_tiles_used_nonnegative(blocks.remove(j), 0);
                lemma_remove_block(blocks, j);
                assert(smaller.valid());
                assert forall|i: int| 0 <= i < fewer.len() implies (#[trigger] fewer[i]).valid() by {
                    if i != j {
                        assert(fewer[i] == blocks[i]);
                    }
                }
                assert forall|m: int| 0 <= m < 34 implies #[trigger] tiles_used(fewer, m) <= hist[m] by {
                    assert(tiles_used(blocks, m) <= more[m]);
                    assert(tiles_used(fewer, m) == tiles_used(blocks, m) - b.uses(m) + smaller.uses(m));
                }
                fewer
            },
            None => {
                let fewer = blocks.remove(j);
                lemma_remove_block(blocks, j);
                lemma_tiles_used_nonnegative(fewer, 0);
                assert forall|i: int| 0 <= i < fewer.len() implies (#[trigger] fewer[i]).valid() by {
                    if i < j {
                        assert(fewer[i] == blocks[i]);
                    } else {
                        assert(fewer[i] == blocks[i + 1]);
                    }
                }
                assert forall|m: int| 0 <= m < 34 implies #[trigger] tiles_used(fewer, m) <= hist[m] by {
                    assert(tiles_used(blocks, m) <= more[m]);
                    assert(tiles_used(fewer, m) == tiles_used(blocks, m) - b.uses(m));
                }
                fewer
            },
        }
    }
}

/// One more tile never raises the shanten of the standard shape, and
/// lowers it by one at most.
pub proof fn lemma_draw_standard(hist: Seq<int>, declared: int, k: int)
    requires
        is_histogram(hist),
        declared >= 0,
        0 <= k < 34,
    ensures
        standard_shanten(hist, declared) - 1 <= standard_shanten(with_one_more(hist, k), declared)
            <= standard_shanten(hist, declared),
{
    let more = with_one_more(hist, k);
    lemma_standard_shanten_is_least(hist, declared);
    lemma_standard_shanten_is_least(more, declared);
    let low = standard_shanten(hist, declared);
    let high = standard_shanten(more, declared);
    let here = choose|blocks: Seq<Block>| fits(blocks, hist) && #[trigger] layout_shanten(blocks, declared) == low;
    assert forall|m: int| 0 <= m < 34 implies #[trigger] tiles_used(here, m) <= more[m] by {
        assert(tiles_used(here, m) <= hist[m]);
    }
    assert(fits(here, more));
    assert(layout_shanten(here, declared) >= high);
    let there = choose|blocks: Seq<Block>| fits(blocks, more) && #[trigger] layout_shanten(blocks, declared) == high;
    let fewer = lemma_layout_without_tile(hist, declared, k, there);
    assert(layout_shanten(fewer, declared) >= low);
}

/// How one more tile in bucket `k` changes the number of buckets with at
/// least `n` tiles.
pub proof fn lemma_draw_buckets(hist: Seq<int>, k: int, n: int, upto: int)
    requires
        hist.len() == 34,
        0 <= k < 34,
        0 <= upto <= 34,
    ensures
        buckets_with(with_one_more(hist, k), n, upto) == buckets_with(hist, n, upto) + if k < upto && hist[k] == n
            - 1 {
            1int
        } else {
            0
        },
        orphans_with(with_one_more(hist, k), n, upto) == orphans_with(hist, n, upto) + if k < upto && hist[k] == n
            - 1 && is_terminal_or_honor(k + 1) {
            1int
        } else {
            0
        },
        0 <= buckets_with(hist, n, upto) <= upto,
        0 <= orphans_with(hist, n, upto) <= buckets_with(hist, n, upto),
    decreases upto,
{
    if upto > 0 {
        lemma_draw_buckets(hist, k, n, upto - 1);
    }
}

/// A bucket with two tiles has one, so no more kinds are held twice than
/// are held at all; and there are 13 kinds of terminals and honors.
pub proof fn lemma_bucket_counts(hist: Seq<int>, upto: int)
    requires
        hist.len() == 34,
        0 <= upto <= 34,
    ensures
        0 <= buckets_with(hist, 2, upto) <= buckets_with(hist, 1, upto) <= upto,
        0 <= orphans_with(hist, 2, upto) <= orphans_with(hist, 1, upto) <= 13,
        orphans_with(hist, 1, upto) <= upto,
    decreases upto,
{
    if upto > 0 {
        lemma_bucket_counts(hist, upto - 1);
        lemma_orphan_kinds(hist, upto);
    }
}

/// Among the first `upto` kinds, no more than 13 are terminals or honors, and
/// fewer while the honors are not all counted.
proof fn lemma_orphan_kinds(hist: Seq<int>, upto: int)
    requires
        hist.len() == 34,
        0 <= upto <= 34,
    ensures
        orphans_with(hist, 1, upto) <= if upto <= 27 {
            (upto + 8) / 9 + upto / 9
        } else {
            6 + (upto - 27)
        },
    decreases upto,
{
    if upto > 0 {
        lemma_orphan_kinds(hist, upto - 1);
    }
}

/// One more tile never raises the shanten of thirteen orphans, and lowers
/// it by one at most.
pub proof fn lemma_draw_orphans(hist: Seq<int>, k: int)
    requires
        hist.len() == 34,
        0 <= k < 34,
    ensures
        thirteen_orphans_shanten(hist) - 1 <= thirteen_orphans_shanten(with_one_more(hist, k))
            <= thirteen_orphans_shanten(hist),
        thirteen_orphans_shanten(hist) >= -1,
{
    lemma_draw_buckets(hist, k, 1, 34);
    lemma_draw_buckets(hist, k, 2, 34);
    lemma_bucket_counts(hist, 34);
}

/// One more tile never raises the shanten of seven pairs. It lowers it by
/// one at most, unless the tile makes a pair in a hand that holds too few
/// kinds for seven pairs.
pub proof fn lemma_draw_seven_pairs(hist: Seq<int>, k: int)
    requires
        hist.len() == 34,
        0 <= k < 34,
    ensures
        seven_pairs_shanten(with_one_more(hist, k)) <= seven_pairs_shanten(hist),
        hist[k] != 1 || buckets_with(hist, 2, 34) + buckets_with(hist, 1, 34) >= 7 ==> seven_pairs_shanten(hist) - 1
            <= seven_pairs_shanten(with_one_more(hist, k)),
{
    lemma_draw_buckets(hist, k, 1, 34);
    lemma_draw_buckets(hist, k, 2, 34);
}

/// A draw never raises the shanten, and lowers it by one at most: for a
/// histogram with one more tile in bucket `k`, the shanten is that of
/// the histogram itself or one less. Left out is the draw that makes a
/// pair in a closed hand whose pairs and kinds together are fewer than seven.
pub proof fn lemma_draw_changes_shanten_by_one(hist: Seq<int>, declared: int, k: int)
    requires
        is_histogram(hist),
        declared >= 0,
        0 <= k < 34,
        declared == 0 && hist[k] == 1 ==> buckets_with(hist, 2, 34) + buckets_with(hist, 1, 34) >= 7,
    ensures
        shanten_of(hist, declared) - 1 <= shanten_of(with_one_more(hist, k), declared) <= shanten_of(hist, declared),
{
    lemma_draw_standard(hist, declared, k);
    lemma_draw_seven_pairs(hist, k);
    lemma_draw_orphans(hist, k);
}

/// A hand whose concealed tiles hold the sets that its melds leave
/// missing, and a pair beside them, has the standard shanten -1.
pub proof fn lemma_complete_standard(hist: Seq<int>, declared: int, blocks: Seq<Block>)
    requires
        is_histogram(hist),
        declared >= 0,
        fits(blocks, hist),
        declared + count_sets(blocks) >= 4,
        count_pairs(blocks) >= 1,
    ensures
        standard_shanten(hist, declared) == -1,
{
    lemma_standard_shanten_is_least(hist, declared);
    lemma_tiles_used_nonnegative(blocks, 0);
    assert(layout_shanten(blocks, declared) == -1);
    assert(layout_shanten(blocks, declared) >= standard_shanten(hist, declared));
}

/// The shanten is never below -1 while no more than seven kinds are held twice.
pub proof fn lemma_shanten_floor(hist: Seq<int>, declared: int)
    requires
        is_histogram(hist),
        declared >= 0,
        declared == 0 ==> buckets_with(hist, 2, 34) <= 7,
    ensures
        shanten_of(hist, declared) >= -1,
        shanten_of(hist, declared) <= 8,
{
    lemma_standard_shanten_is_least(hist, declared);
    lemma_bucket_counts(hist, 34);
}

/// A complete hand has the shanten -1, whichever of the three shapes it
/// completes: four sets and a pair with its melds, seven pairs, or
/// thirteen orphans.
pub proof fn lemma_complete_hand(hist: Seq<int>, declared: int, blocks: Seq<Block>)
    requires
        is_histogram(hist),
        declared >= 0,
        declared == 0 ==> buckets_with(hist, 2, 34) <= 7,
        ({
            ||| fits(blocks, hist) && declared + count_sets(blocks) >= 4 && count_pairs(blocks) >= 1
            ||| declared == 0 && buckets_with(hist, 2, 34) == 7
            ||| declared == 0 && orphans_with(hist, 1, 34) == 13 && orphans_with(hist, 2, 34) >= 1
        }),
    ensures
        shanten_of(hist, declared) == -1,
{
    lemma_shanten_floor(hist, declared);
    lemma_bucket_counts(hist, 34);
    if fits(blocks, hist) && declared + count_sets(blocks) >= 4 && count_pairs(blocks) >= 1 {
        lemma_complete_standard(hist, declared, blocks);
    }
}

/// Every identifier in the list of accepted draws is accepted.
pub proof fn lemma_accepted_improve(tiles: Seq<Option<Tile>>, declared: int, current: int, upto: int, a: int)
    requires
        0 <= a < accepted_ids(tiles, declared, current, upto).len(),
    ensures
        improves(tiles, declared, current, accepted_ids(tiles, declared, current, upto)[a]),
        1 <= accepted_ids(tiles, declared, current, upto)[a] <= upto,
    decreases upto,
{
    if upto > 0 {
        let before = accepted_ids(tiles, declared, current, upto - 1);
        if a < before.len() {
            lemma_accepted_improve(tiles, declared, current, upto - 1, a);
        }
    }
}

/// Every accepted identifier up to `upto` is in the list of accepted draws.
pub proof fn lemma_improving_accepted(tiles: Seq<Option<Tile>>, declared: int, current: int, upto: int, id: int)
    requires
        1 <= id <= upto,
        improves(tiles, declared, current, id),
    ensures
        accepted_ids(tiles, declared, current, upto).contains(id),
    decreases upto,
{
    let all = accepted_ids(tiles, declared, current, upto);
    let before = accepted_ids(tiles, declared, current, upto - 1);
    if id == upto {
        assert(all[all.len() - 1] == id);
    } else {
        lemma_improving_accepted(tiles, declared, current, upto - 1, id);
        let i = choose|i: int| 0 <= i < before.len() && before[i] == id;
        assert(all[i] == id);
    }
}

/// Every answer for a discard belongs to a slot that is tried as a discard.
pub proof fn lemma_discard_row(tiles: Seq<Option<Tile>>, declared: int, current: int, upto: int, j: int) -> (i: int)
    requires
        0 <= upto <= tiles.len(),
        0 <= j < discard_rows(tiles, declared, current, upto).len(),
    ensures
        0 <= i < upto,
        is_discard(tiles, declared, current, i),
        discard_rows(tiles, declared, current, upto)[j] == draws_row(tiles.remove(i), declared, current, tiles[i]),
    decreases upto,
{
    let before = discard_rows(tiles, declared, current, upto - 1);
    if j < before.len() {
        lemma_discard_row(tiles, declared, current, upto - 1, j)
    } else {
        upto - 1
    }
}

/// Where an answer goes among sorted answers: after every answer whose
/// total is no lower, and before one whose total is lower.
pub proof fn lemma_place_of(rows: Seq<Improvement>, total: int, from: int)
    requires
        0 <= from <= rows.len(),
    ensures
        from <= place_of(rows, total, from) <= rows.len(),
        forall|j: int| from <= j < place_of(rows, total, from) ==> (#[trigger] rows[j]).total >= total,
        place_of(rows, total, from) < rows.len() ==> rows[place_of(rows, total, from)].total < total,
    decreases rows.len() - from,
{
    if from < rows.len() && rows[from].total >= total {
        lemma_place_of(rows, total, from + 1);
    }
}

/// Sorting the answers keeps every answer, and puts them in the order of
/// falling totals.
pub proof fn lemma_sort_rows(rows: Seq<Improvement>)
    ensures
        sort_rows(rows).len() == rows.len(),
        sort_rows(rows).to_multiset() == rows.to_multiset(),
        forall|i: int, j: int|
            0 <= i < j < rows.len() ==> (#[trigger] sort_rows(rows)[i]).total >= (#[trigger] sort_rows(rows)[j]).total,
    decreases rows.len(),
{
    if rows.len() > 0 {
        let sorted = sort_rows(rows.drop_last());
        let last = rows.last();
        let p = place_of(sorted, last.total, 0);
        lemma_sort_rows(rows.drop_last());
        lemma_place_of(sorted, last.total, 0);
        let out = sorted.insert(p, last);
        assert(out == sort_rows(rows));
        to_multiset_insert(sorted, p, last);
        assert(rows.drop_last().push(last) =~= rows);
        to_multiset_build(rows.drop_last(), last);
        assert forall|i: int, j: int| 0 <= i < j < rows.len() implies (#[trigger] out[i]).total >= (
        #[trigger] out[j]).total by {
            if j < p {
                assert(out[i] == sorted[i] && out[j] == sorted[j]);
            } else if j == p {
                assert(out[i] == sorted[i]);
            } else if i < p {
                assert(out[i] == sorted[i] && out[j] == sorted[j - 1]);
                assert(sorted[i].total >= last.total);
                if p < j - 1 {
                    assert(sorted[p].total >= sorted[j - 1].total);
                }
            } else if i == p {
                assert(out[j] == sorted[j - 1]);
                if p < j - 1 {
                    assert(sorted[p].total >= sorted[j - 1].total);
                }
            } else {
                assert(out[i] == sorted[i - 1] && out[j] == sorted[j - 1]);
            }
        }
    }
}

/// Every answer of the search for a hand of 14 tiles names a tile of the
/// hand to discard, and every tile that it accepts, drawn after that
/// discard, brings the shanten below the shanten of the hand as it is.
pub proof fn lemma_accepted_draws_lower_shanten(tiles: Seq<Option<Tile>>, declared: int, j: int, a: int)
    requires
        logical_size(tiles) == 14,
        0 <= j < improving_rows(tiles, declared).len(),
        0 <= a < improving_rows(tiles, declared)[j].accepted.len(),
    ensures
        ({
            let row = improving_rows(tiles, declared)[j];
            &&& row.discard matches Some(t)
            &&& tiles.contains(Some(t))
            &&& shanten_query(without_first(tiles, t.id()).push(Some(row.accepted[a])), declared) < shanten_query(
                tiles,
                declared,
            )
        }),
{
    broadcast use group_to_multiset_ensures;

    let current = shanten_query(tiles, declared);
    let found = discard_rows(tiles, declared, current, tiles.len() as int);
    let rows = improving_rows(tiles, declared);
    assert(rows == sort_rows(found));
    lemma_sort_rows(found);
    let row = rows[j];
    assert(rows.contains(row));
    assert(rows.to_multiset().count(row) > 0);
    assert(found.contains(row));
    let m = choose|m: int| 0 <= m < found.len() && found[m] == row;
    let i = lemma_discard_row(tiles, declared, current, tiles.len() as int, m);
    let reduced = tiles.remove(i);
    lemma_accepted_improve(reduced, declared, current, 34, a);
    assert(row.accepted[a] == fresh_tile(accepted_ids(reduced, declared, current, 34)[a]));
    assert(tiles[i] == row.discard);
}

/// The answer for a hand of 13 tiles accepts exactly the draws that are
/// tried and bring the shanten below that of the hand.
pub proof fn lemma_draws_accepted(tiles: Seq<Option<Tile>>, declared: int, id: int)
    requires
        logical_size(tiles) == 13,
        1 <= id <= 34,
    ensures
        improving_rows(tiles, declared).len() == 1,
        improving_rows(tiles, declared)[0].discard is None,
        improving_rows(tiles, declared)[0].accepted.contains(fresh_tile(id)) <==> improves(
            tiles,
            declared,
            shanten_query(tiles, declared),
            id,
        ),
{
    let current = shanten_query(tiles, declared);
    let ids = accepted_ids(tiles, declared, current, 34);
    let accepted = improving_rows(tiles, declared)[0].accepted;
    assert(accepted == tiles_of(ids));
    if improves(tiles, declared, current, id) {
        lemma_improving_accepted(tiles, declared, current, 34, id);
        let i = choose|i: int| 0 <= i < ids.len() && ids[i] == id;
        assert(accepted[i] == fresh_tile(id));
    }
    if accepted.contains(fresh_tile(id)) {
        let i = choose|i: int| 0 <= i < accepted.len() && accepted[i] == fresh_tile(id);
        lemma_accepted_improve(tiles, declared, current, 34, i);
        crate::riichi::tile::TileKind::lemma_of_id(id);
        crate::riichi::tile::TileKind::lemma_of_id(ids[i]);
        assert(fresh_tile(ids[i]).id() == fresh_tile(id).id());
    }
}

/// Number of tiles in the first `upto` buckets of a histogram.
pub open spec fn tiles_in(hist: Seq<int>, upto: int) -> int
    decreases upto,
{
    if upto <= 0 {
        0
    } else {
        tiles_in(hist, upto - 1) + hist[upto - 1]
    }
}

/// One more tile in a bucket is one more tile in the histogram.
pub proof fn lemma_tiles_in_more(hist: Seq<int>, k: int, upto: int)
    requires
        hist.len() == 34,
        0 <= k < 34,
        0 <= upto <= 34,
    ensures
        tiles_in(with_one_more(hist, k), upto) == tiles_in(hist, upto) + if k < upto {
            1int
        } else {
            0
        },
    decreases upto,
{
    if upto > 0 {
        lemma_tiles_in_more(hist, k, upto - 1);
    }
}

/// A kind that is held twice takes two tiles at least; a kind can be
/// held four times at most in a legal hand, so the tiles number no more
/// than three for each kind held twice and one for each kind held.
pub proof fn lemma_tiles_in_bounds(hist: Seq<int>, upto: int)
    requires
        is_histogram(hist),
        0 <= upto <= 34,
    ensures
        2 * buckets_with(hist, 2, upto) <= tiles_in(hist, upto),
        (forall|k: int| 0 <= k < 34 ==> #[trigger] hist[k] <= 4) ==> tiles_in(hist, upto) <= 3 * buckets_with(
            hist,
            2,
            upto,
        ) + buckets_with(hist, 1, upto),
    decreases upto,
{
    if upto > 0 {
        lemma_tiles_in_bounds(hist, upto - 1);
        assert(hist[upto - 1] >= 0);
    }
}

/// Whether every tile in the slots has an identifier from 1 to 34, as
/// every tile that exists at run time has.
pub open spec fn all_wf(tiles: Seq<Option<Tile>>) -> bool {
    forall|i: int| 0 <= i < tiles.len() ==> (#[trigger] tiles[i] matches Some(t) ==> t.wf())
}

/// Whether no tile in the slots is locked into a meld or part of a quad.
pub open spec fn all_concealed(tiles: Seq<Option<Tile>>) -> bool {
    forall|i: int| 0 <= i < tiles.len() ==> (#[trigger] tiles[i] matches Some(t) ==> !t.is_open && !t.is_kan)
}

/// The histogram of a hand without melds or quads counts every tile once.
pub proof fn lemma_histogram_counts_all(tiles: Seq<Option<Tile>>)
    requires
        all_wf(tiles),
        all_concealed(tiles),
    ensures
        tiles_in(histogram(tiles, true), 34) == physical_size(tiles),
        histogram(tiles, true) == histogram(tiles, false),
        logical_size(tiles) == physical_size(tiles),
    decreases tiles.len(),
{
    if tiles.len() == 0 {
        lemma_tiles_in_zero(histogram(tiles, true), 34);
        assert(histogram(tiles, true) =~= histogram(tiles, false));
    } else {
        let before = tiles.drop_last();
        let slot = tiles.last();
        assert(tiles =~= before.push(slot));
        assert(all_wf(before) && all_concealed(before)) by {
            assert forall|i: int| 0 <= i < before.len() implies (#[trigger] before[i] matches Some(t) ==> t.wf()
                && !t.is_open && !t.is_kan) by {
                assert(before[i] == tiles[i]);
            }
        }
        lemma_histogram_counts_all(before);
        lemma_histogram_push(before, slot, true);
        lemma_histogram_push(before, slot, false);
        assert(tiles[tiles.len() - 1] == slot);
        match slot {
            Some(t) => {
                assert(t.wf() && !t.is_open && !t.is_kan);
                let k = t.id() - 1;
                assert(histogram(tiles, true) =~= with_one_more(histogram(before, true), k));
                lemma_tiles_in_more(histogram(before, true), k, 34);
            },
            None => {
                assert(histogram(tiles, true) =~= histogram(before, true));
            },
        }
        assert(histogram(tiles, true) =~= histogram(tiles, false));
    }
}

/// A histogram of empty buckets holds no tile.
proof fn lemma_tiles_in_zero(hist: Seq<int>, upto: int)
    requires
        0 <= upto <= 34,
        hist.len() == 34,
        forall|k: int| 0 <= k < 34 ==> #[trigger] hist[k] == 0,
    ensures
        tiles_in(hist, upto) == 0,
    decreases upto,
{
    if upto > 0 {
        lemma_tiles_in_zero(hist, upto - 1);
    }
}

/// A draw never raises the shanten of a hand of 13 tiles, and lowers it
/// by one at most: `after` are the slots of the hand once the concealed
/// tile `tile` has joined `tiles`, in any order. For a hand without melds
/// this is stated of a hand whose tiles are all concealed, with no kind
/// more than four times.
pub proof fn lemma_draw_on_concealed_tiles(
    tiles: Seq<Option<Tile>>,
    declared: int,
    tile: Tile,
    after: Seq<Option<Tile>>,
)
    requires
        tile.wf(),
        !tile.is_open,
        !tile.is_kan,
        declared >= 0,
        logical_size(tiles) == 13,
        after.to_multiset() == tiles.to_multiset().insert(Some(tile)),
        declared == 0 ==> all_wf(tiles) && all_concealed(tiles) && forall|k: int|
            0 <= k < 34 ==> #[trigger] tally(tiles, Counted::Kind(k + 1)) <= 4,
    ensures
        shanten_query(tiles, declared) - 1 <= shanten_query(after, declared) <= shanten_query(tiles, declared),
{
    let hist = histogram(tiles, true);
    let pushed = tiles.push(Some(tile));
    to_multiset_build(tiles, Some(tile));
    lemma_shanten_query_permutation(after, pushed, declared);
    lemma_histogram_push(tiles, Some(tile), true);
    assert(histogram(pushed, true) =~= with_one_more(hist, tile.id() - 1));
    lemma_histogram_shape(tiles, true);
    if declared == 0 {
        lemma_histogram_counts_all(tiles);
        assert forall|k: int| 0 <= k < 34 implies #[trigger] hist[k] <= 4 by {
            assert(histogram(tiles, false)[k] == tally(tiles, Counted::Kind(k + 1)));
        }
        lemma_tiles_in_bounds(hist, 34);
        lemma_bucket_counts(hist, 34);
    }
    lemma_draw_changes_shanten_by_one(hist, declared, tile.id() - 1);
}

/// A complete hand of 14 tiles has the shanten -1, whichever of the
/// three shapes it completes. For a hand without melds this is stated of
/// a hand whose tiles are all concealed.
pub proof fn lemma_complete_concealed_tiles(tiles: Seq<Option<Tile>>, declared: int, blocks: Seq<Block>)
    requires
        declared >= 0,
        logical_size(tiles) == 14,
        declared == 0 ==> all_wf(tiles) && all_concealed(tiles),
        ({
            let hist = histogram(tiles, true);
            ||| fits(blocks, hist) && declared + count_sets(blocks) >= 4 && count_pairs(blocks) >= 1
            ||| declared == 0 && buckets_with(hist, 2, 34) == 7
            ||| declared == 0 && orphans_with(hist, 1, 34) == 13 && orphans_with(hist, 2, 34) >= 1
        }),
    ensures
        shanten_query(tiles, declared) == -1,
{
    let hist = histogram(tiles, true);
    lemma_histogram_shape(tiles, true);
    if declared == 0 {
        lemma_histogram_counts_all(tiles);
        lemma_tiles_in_bounds(hist, 34);
    }
    lemma_complete_hand(hist, declared, blocks);
}

/// Whether bucket `k` and the buckets within two ranks of it in its suit are empty.
pub open spec fn is_lonely(hist: Seq<int>, k: int) -> bool {
    forall|m: int| 0 <= m < 34 && is_near(m + 1, k + 1) ==> #[trigger] hist[m] == 0
}

/// A tile that stands alone joins no block: a draw into a lonely bucket
/// leaves the shanten of the standard shape as it is.
pub proof fn lemma_lonely_draw_standard(hist: Seq<int>, declared: int, k: int)
    requires
        is_histogram(hist),
        declared >= 0,
        0 <= k < 34,
        is_lonely(hist, k),
    ensures
        standard_shanten(with_one_more(hist, k), declared) == standard_shanten(hist, declared),
{
    let more = with_one_more(hist, k);
    lemma_draw_standard(hist, declared, k);
    lemma_standard_shanten_is_least(hist, declared);
    lemma_standard_shanten_is_least(more, declared);
    let high = standard_shanten(more, declared);
    let there = choose|blocks: Seq<Block>| fits(blocks, more) && #[trigger] layout_shanten(blocks, declared) == high;
    assert(hist[k] == 0) by {
        assert(is_near(k + 1, k + 1));
    }
    assert(tiles_used(there, k) <= 0) by {
        if tiles_used(there, k) > 0 {
            let j = lemma_some_block_uses(there, k);
            let b = there[j];
            assert(b.valid());
            lemma_remove_block(there, j);
            assert forall|m: int| 0 <= m < 34 implies b.uses(m) <= #[trigger] more[m] by {
                lemma_tiles_used_nonnegative(there.remove(j), m);
                assert(tiles_used(there, m) <= more[m]);
            }
            match b {
                Block::Triplet(i) => {
                    assert(b.uses(k) <= more[k]);
                },
                Block::Pair(i) => {
                    assert(b.uses(k) <= more[k]);
                },
                Block::Run(i) => {
                    let m = if k == i {
                        i + 1
                    } else {
                        i
                    };
                    assert(is_near(m + 1, k + 1));
                    assert(b.uses(m) <= more[m]);
                },
                Block::Adjacent(i) => {
                    let m = if k == i {
                        i + 1
                    } else {
                        i
                    };
                    assert(is_near(m + 1, k + 1));
                    assert(b.uses(m) <= more[m]);
                },
                Block::Gapped(i) => {
                    let m = if k == i {
                        i + 2
                    } else {
                        i
                    };
                    assert(is_near(m + 1, k + 1));
                    assert(b.uses(m) <= more[m]);
                },
            }
        }
    }
    lemma_tiles_used_nonnegative(there, k);
    assert forall|m: int| 0 <= m < 34 implies #[trigger] tiles_used(there, m) <= hist[m] by {
        assert(tiles_used(there, m) <= more[m]);
    }
    assert(fits(there, hist));
    assert(layout_shanten(there, declared) >= standard_shanten(hist, declared));
}

/// A hand without a tile near `id` holds no tile of the kinds near `id`.
pub proof fn lemma_far_from_all(tiles: Seq<Option<Tile>>, id: int, other: int)
    requires
        !near_any(tiles, id),
        is_near(other, id),
    ensures
        tally(tiles, Counted::Kind(other)) == 0,
        tally(tiles, Counted::Concealed(other)) == 0,
    decreases tiles.len(),
{
    if tiles.len() > 0 {
        lemma_far_from_all(tiles.drop_last(), id, other);
    }
}

/// The search misses no draw: for a hand of 13 tiles, a draw that is not
/// tried does not lower the shanten. For a hand without melds this is
/// stated of a hand whose pairs and kinds together are seven at least,
/// as they are in every hand with no kind more than four times.
pub proof fn lemma_untried_draws_do_not_improve(tiles: Seq<Option<Tile>>, declared: int, id: int)
    requires
        valid_id(id),
        declared >= 0,
        logical_size(tiles) == 13,
        !is_candidate(tiles, id),
        declared == 0 ==> buckets_with(histogram(tiles, true), 2, 34) + buckets_with(histogram(tiles, true), 1, 34)
            >= 7,
    ensures
        shanten_query(after_draw(tiles, id), declared) == shanten_query(tiles, declared),
{
    let hist = histogram(tiles, true);
    let k = id - 1;
    TileKind::lemma_of_id(id);
    lemma_histogram_push(tiles, Some(fresh_tile(id)), true);
    assert(histogram(after_draw(tiles, id), true) =~= with_one_more(hist, k));
    lemma_histogram_shape(tiles, true);
    assert forall|m: int| 0 <= m < 34 && is_near(m + 1, k + 1) implies #[trigger] hist[m] == 0 by {
        lemma_far_from_all(tiles, id, m + 1);
    }
    lemma_lonely_draw_standard(hist, declared, k);
    assert(hist[k] == 0) by {
        assert(is_near(k + 1, k + 1));
    }
    lemma_draw_buckets(hist, k, 1, 34);
    lemma_draw_buckets(hist, k, 2, 34);
}

} // verus!
