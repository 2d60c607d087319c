//! The hands that play can lead to, and what holds of all of them.

use vstd::prelude::*;
use vstd::seq_lib::*;
use crate::riichi::blocks::{Block, buckets_with, count_pairs, count_sets, fits, orphans_with};
use crate::riichi::hand::{HandState, sound_slot, without_first};
use crate::riichi::laws::{
    all_concealed,
    all_wf,
    lemma_complete_concealed_tiles,
    lemma_draw_on_concealed_tiles,
    lemma_histogram_counts_all,
    lemma_shanten_floor,
    lemma_tiles_in_bounds,
};
use crate::riichi::melds::{claim_all, lemma_claim_all};
use crate::riichi::notation::{read_char, read_ids, read_slots, slots_of};
use crate::riichi::shanten::shanten_query;
use crate::riichi::tally::{
    Counted,
    first_counted,
    histogram,
    lemma_histogram_shape,
    lemma_tally_permutation,
    lemma_tally_push,
    lemma_tally_range,
    lemma_tally_remove,
    logical_size,
    slot_counted,
    tally,
};
use crate::riichi::shapes::OpenShape;
use crate::riichi::tile::{Tile, TileKind, plain_tile, valid_id};

verus! {

/// Where nothing is counted, no slot holds a tile that is counted.
pub proof fn lemma_none_counted(tiles: Seq<Option<Tile>>, what: Counted)
    requires
        tally(tiles, what) <= 0,
    ensures
        forall|i: int| 0 <= i < tiles.len() ==> !slot_counted(#[trigger] tiles[i], what),
    decreases tiles.len(),
{
    if tiles.len() > 0 {
        let before = tiles.drop_last();
        lemma_tally_range(before, what);
        lemma_none_counted(before, what);
        assert forall|i: int| 0 <= i < tiles.len() implies !slot_counted(#[trigger] tiles[i], what) by {
            if i < before.len() {
                assert(before[i] == tiles[i]);
            }
        }
    }
}

/// A consistent hand without melds holds concealed tiles only.
pub proof fn lemma_closed_hand_is_concealed(state: HandState)
    requires
        state.consistent(),
    ensures
        all_wf(state.tiles),
        state.open_shapes.len() == 0 ==> all_concealed(state.tiles),
{
    assert forall|i: int| 0 <= i < state.tiles.len() implies (#[trigger] state.tiles[i] matches Some(t)
        ==> t.wf()) by {
        assert(sound_slot(state.tiles[i]));
    }
    if state.open_shapes.len() == 0 {
        lemma_none_counted(state.tiles, Counted::Open);
        assert forall|i: int| 0 <= i < state.tiles.len() implies (#[trigger] state.tiles[i] matches Some(t)
            ==> !t.is_open && !t.is_kan) by {
            assert(sound_slot(state.tiles[i]));
            assert(!slot_counted(state.tiles[i], Counted::Open));
        }
    }
}

/// Slots that hold the same slots in another order are as sound.
proof fn lemma_sound_permutation(a: Seq<Option<Tile>>, b: Seq<Option<Tile>>)
    requires
        a.to_multiset() == b.to_multiset(),
        forall|i: int| 0 <= i < a.len() ==> sound_slot(#[trigger] a[i]),
    ensures
        forall|i: int| 0 <= i < b.len() ==> sound_slot(#[trigger] b[i]),
{
    broadcast use group_to_multiset_ensures;

    assert forall|i: int| 0 <= i < b.len() implies sound_slot(#[trigger] b[i]) by {
        assert(b.contains(b[i]));
        assert(a.to_multiset().count(b[i]) > 0);
        assert(a.contains(b[i]));
        let j = choose|j: int| 0 <= j < a.len() && a[j] == b[i];
        assert(sound_slot(a[j]));
    }
}

/// Every identifier that is read from a text lies in `1..=34`.
pub proof fn lemma_read_ids_valid(text: Seq<char>, n: int)
    requires
        read_ids(text, n) is Ok,
    ensures
        forall|j: int| 0 <= j < read_ids(text, n)->Ok_0.len() ==> valid_id(#[trigger] read_ids(text, n)->Ok_0[j]),
    decreases n,
{
    if n > 0 {
        lemma_read_ids_valid(text, n - 1);
        let rest = read_ids(text, n - 1)->Ok_0;
        let all = read_ids(text, n)->Ok_0;
        match read_char(text, n - 1)->Ok_0 {
            Some(id) => {
                assert forall|j: int| 0 <= j < all.len() implies valid_id(#[trigger] all[j]) by {
                    if j > 0 {
                        assert(all[j] == rest[j - 1]);
                    }
                }
            },
            None => {},
        }
    }
}

/// Of the slots that identifiers fill, the first alone is flagged as
/// drawn, and none is open.
proof fn lemma_slots_of_flags(ids: Seq<int>)
    ensures
        tally(slots_of(ids), Counted::Drawn) <= 1,
        ids.len() > 0 ==> tally(slots_of(ids), Counted::Drawn) == 1,
        tally(slots_of(ids), Counted::Open) == 0,
    decreases ids.len(),
{
    if ids.len() > 0 {
        lemma_slots_of_flags(ids.drop_last());
        assert(slots_of(ids).drop_last() =~= slots_of(ids.drop_last()));
    }
}

/// The hand that is read from a notation is consistent: `tiles` are the
/// slots of that hand, what the notation stands for in any order.
pub proof fn lemma_read_hand_is_consistent(text: Seq<char>, tiles: Seq<Option<Tile>>)
    requires
        read_slots(text) matches Ok(parsed) && tiles.to_multiset() == parsed.to_multiset(),
    ensures
        (HandState { tiles, open_shapes: Seq::empty() }).consistent(),
{
    let ids = read_ids(text, text.len() as int)->Ok_0;
    let parsed = slots_of(ids);
    lemma_read_ids_valid(text, text.len() as int);
    lemma_slots_of_flags(ids);
    assert forall|i: int| 0 <= i < parsed.len() implies sound_slot(#[trigger] parsed[i]) by {
        TileKind::lemma_of_id(ids[i]);
    }
    lemma_sound_permutation(parsed, tiles);
    lemma_tally_permutation(tiles, parsed, Counted::Drawn);
    lemma_tally_permutation(tiles, parsed, Counted::Open);
}

/// Taking a tile out of a consistent hand leaves it consistent.
pub proof fn lemma_remove_keeps_consistent(state: HandState, id: int)
    requires
        state.consistent(),
    ensures
        (HandState { tiles: without_first(state.tiles, id), open_shapes: state.open_shapes }).consistent(),
{
    let i = first_counted(state.tiles, Counted::Kind(id), 0);
    if i < state.tiles.len() {
        crate::riichi::tally::lemma_first_counted(state.tiles, Counted::Kind(id), 0);
        let left = state.tiles.remove(i);
        lemma_tally_remove(state.tiles, i, Counted::Drawn);
        lemma_tally_remove(state.tiles, i, Counted::Open);
        assert forall|j: int| 0 <= j < left.len() implies sound_slot(#[trigger] left[j]) by {
            if j < i {
                assert(left[j] == state.tiles[j]);
            } else {
                assert(left[j] == state.tiles[j + 1]);
            }
        }
    }
}

/// A tile without flags that joins a consistent hand leaves it
/// consistent: `after` are the slots once the tile has joined, in any order.
pub proof fn lemma_add_keeps_consistent(state: HandState, tile: Tile, after: Seq<Option<Tile>>)
    requires
        state.consistent(),
        tile.wf(),
        tile == plain_tile(tile.kind),
        after.to_multiset() == state.tiles.to_multiset().insert(Some(tile)),
    ensures
        (HandState { tiles: after, open_shapes: state.open_shapes }).consistent(),
{
    let pushed = state.tiles.push(Some(tile));
    to_multiset_build(state.tiles, Some(tile));
    lemma_tally_push(state.tiles, Some(tile), Counted::Drawn);
    lemma_tally_push(state.tiles, Some(tile), Counted::Open);
    lemma_tally_permutation(after, pushed, Counted::Drawn);
    lemma_tally_permutation(after, pushed, Counted::Open);
    assert forall|i: int| 0 <= i < pushed.len() implies sound_slot(#[trigger] pushed[i]) by {
        if i < state.tiles.len() {
            assert(pushed[i] == state.tiles[i]);
        }
    }
    lemma_sound_permutation(pushed, after);
}

/// A meld that a consistent hand can supply leaves it consistent.
pub proof fn lemma_meld_keeps_consistent(state: HandState, shape: OpenShape)
    requires
        state.consistent(),
        claim_all(state.tiles, shape.tiles(), shape.kind()) is Some,
    ensures
        (HandState {
            tiles: claim_all(state.tiles, shape.tiles(), shape.kind())->0,
            open_shapes: state.open_shapes.push(shape),
        }).consistent(),
{
    let after = claim_all(state.tiles, shape.tiles(), shape.kind())->0;
    lemma_claim_all(state.tiles, shape.tiles(), shape.kind());
    assert(state.open_shapes.push(shape).drop_last() =~= state.open_shapes);
    assert forall|i: int| 0 <= i < after.len() implies sound_slot(#[trigger] after[i]) by {
        assert(sound_slot(state.tiles[i]));
    }
}

/// A draw never raises the shanten of a consistent hand of 13 tiles, and
/// lowers it by one at most: `after` are the slots of the hand once the
/// concealed tile `tile` has joined it, in any order. For a hand without
/// melds this is stated of a hand with no kind more than four times.
pub proof fn lemma_draw_changes_hand_shanten_by_one(state: HandState, tile: Tile, after: Seq<Option<Tile>>)
    requires
        state.consistent(),
        logical_size(state.tiles) == 13,
        state.open_shapes.len() == 0 ==> forall|k: int|
            0 <= k < 34 ==> #[trigger] tally(state.tiles, Counted::Kind(k + 1)) <= 4,
        tile.wf(),
        !tile.is_open,
        !tile.is_kan,
        after.to_multiset() == state.tiles.to_multiset().insert(Some(tile)),
    ensures
        shanten_query(state.tiles, state.open_shapes.len() as int) - 1 <= shanten_query(
            after,
            state.open_shapes.len() as int,
        ) <= shanten_query(state.tiles, state.open_shapes.len() as int),
{
    lemma_closed_hand_is_concealed(state);
    lemma_draw_on_concealed_tiles(state.tiles, state.open_shapes.len() as int, tile, after);
}

/// The shanten of a consistent hand of 13 or 14 tiles lies between -1 and 8.
pub proof fn lemma_hand_shanten_range(state: HandState)
    requires
        state.consistent(),
        logical_size(state.tiles) == 13 || logical_size(state.tiles) == 14,
    ensures
        -1 <= shanten_query(state.tiles, state.open_shapes.len() as int) <= 8,
{
    let hist = histogram(state.tiles, true);
    lemma_closed_hand_is_concealed(state);
    lemma_histogram_shape(state.tiles, true);
    if state.open_shapes.len() == 0 {
        lemma_histogram_counts_all(state.tiles);
        lemma_tiles_in_bounds(hist, 34);
    }
    lemma_shanten_floor(hist, state.open_shapes.len() as int);
}

/// A complete consistent hand of 14 tiles has the shanten -1, whichever
/// of the three shapes it completes: four sets and a pair with its
/// melds, seven pairs, or thirteen orphans.
pub proof fn lemma_complete_hand_shanten(state: HandState, blocks: Seq<Block>)
    requires
        state.consistent(),
        logical_size(state.tiles) == 14,
        ({
            let hist = histogram(state.tiles, true);
            let declared = state.open_shapes.len() as int;
            ||| fits(blocks, hist) && declared + count_sets(blocks) >= 4 && count_pairs(blocks) >= 1
            ||| declared == 0 && buckets_with(hist, 2, 34) == 7
            ||| declared == 0 && orphans_with(hist, 1, 34) == 13 && orphans_with(hist, 2, 34) >= 1
        }),
    ensures
        shanten_query(state.tiles, state.open_shapes.len() as int) == -1,
{
    lemma_closed_hand_is_concealed(state);
    lemma_complete_concealed_tiles(state.tiles, state.open_shapes.len() as int, blocks);
}

} // verus!
