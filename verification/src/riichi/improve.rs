//! Which tiles bring a hand closer to a win, and how many of them are left.
//!
//! A hand of 13 tiles is asked which draws lower its shanten. A hand of 14
//! tiles is asked, for each kind of tile it may discard without raising
//! its shanten, which draws would then lower it.

use vstd::prelude::*;
use crate::riichi::order::{copy_slots, find_first};
use crate::riichi::search::counts;
use crate::riichi::shanten::{ShantenFinder, lemma_exact_counts, shanten_query};
use crate::riichi::tally::{
    Counted,
    count_histogram,
    count_logical,
    first_counted,
    histogram,
    holds_histogram,
    lemma_histogram_push,
    lemma_small_hand,
    logical_size,
    saturated,
};
use crate::riichi::tile::{Tile, TileKind, fresh_tile, is_terminal_or_honor, step_id, valid_id};

verus! {

/// One answer of the search: the tile to discard, if the hand has one to
/// discard; the tiles whose draw then lowers the shanten; and how many
/// copies of those tiles are not yet in the hand.
pub struct Improvement {
    pub discard: Option<Tile>,
    pub accepted: Seq<Tile>,
    pub total: int,
}

/// Whether a tile with identifier `id` stands within two ranks of a tile
/// with identifier `own` in the same suit, or is of the same kind.
pub open spec fn is_near(own: int, id: int) -> bool {
    id == own || (id >= 1 && (id == step_id(own, -1) || id == step_id(own, -2) || id == step_id(own, 1) || id
        == step_id(own, 2)))
}

/// Whether some tile in the slots is near `id`.
pub open spec fn near_any(tiles: Seq<Option<Tile>>, id: int) -> bool
    decreases tiles.len(),
{
    if tiles.len() == 0 {
        false
    } else {
        near_any(tiles.drop_last(), id) || match tiles.last() {
            Some(t) => is_near(t.id(), id),
            None => false,
        }
    }
}

/// Whether a draw of `id` is tried at all: every terminal and honor is,
/// and every kind near a tile of the hand.
pub open spec fn is_candidate(tiles: Seq<Option<Tile>>, id: int) -> bool {
    is_terminal_or_honor(id) || near_any(tiles, id)
}

/// The slots after a draw of the tile with identifier `id`.
pub open spec fn after_draw(tiles: Seq<Option<Tile>>, id: int) -> Seq<Option<Tile>> {
    tiles.push(Some(fresh_tile(id)))
}

/// Whether a draw of `id` is accepted: it is tried, and brings the shanten below `current`.
pub open spec fn improves(tiles: Seq<Option<Tile>>, declared: int, current: int, id: int) -> bool {
    valid_id(id) && is_candidate(tiles, id) && shanten_query(after_draw(tiles, id), declared) < current
}

/// The accepted identifiers up to `upto`, in rising order.
pub open spec fn accepted_ids(tiles: Seq<Option<Tile>>, declared: int, current: int, upto: int) -> Seq<int>
    decreases upto,
{
    if upto <= 0 {
        Seq::empty()
    } else if improves(tiles, declared, current, upto) {
        accepted_ids(tiles, declared, current, upto - 1).push(upto)
    } else {
        accepted_ids(tiles, declared, current, upto - 1)
    }
}

/// How many copies of a kind are left when the hand holds `held` of them.
pub open spec fn remaining(held: int) -> int {
    if held >= 4 {
        0
    } else {
        4 - held
    }
}

/// The copies left of all accepted kinds up to `upto`, counted against
/// the concealed tiles of the hand.
pub open spec fn accepted_total(tiles: Seq<Option<Tile>>, declared: int, current: int, upto: int) -> int
    decreases upto,
{
    if upto <= 0 {
        0
    } else {
        accepted_total(tiles, declared, current, upto - 1) + if improves(tiles, declared, current, upto) {
            remaining(histogram(tiles, true)[upto - 1])
        } else {
            0
        }
    }
}

/// The tiles with the given identifiers, every flag cleared.
pub open spec fn tiles_of(ids: Seq<int>) -> Seq<Tile> {
    Seq::new(ids.len(), |i: int| fresh_tile(ids[i]))
}

/// The answer for the given slots: the draws that bring the shanten
/// below `current`, in rising order, and the copies left of them.
pub open spec fn draws_row(tiles: Seq<Option<Tile>>, declared: int, current: int, discard: Option<Tile>) -> Improvement {
    Improvement {
        discard,
        accepted: tiles_of(accepted_ids(tiles, declared, current, 34)),
        total: accepted_total(tiles, declared, current, 34),
    }
}

/// Whether the slot at `i` is tried as a discard: it holds the first tile
/// of its kind, and without it the shanten is no higher than `current`.
pub open spec fn is_discard(tiles: Seq<Option<Tile>>, declared: int, current: int, i: int) -> bool {
    match tiles[i] {
        Some(t) => first_counted(tiles, Counted::Kind(t.id()), 0) == i && shanten_query(tiles.remove(i), declared)
            <= current,
        None => false,
    }
}

/// The answers for the discards among the first `upto` slots, in the order of the slots.
pub open spec fn discard_rows(tiles: Seq<Option<Tile>>, declared: int, current: int, upto: int) -> Seq<Improvement>
    decreases upto,
{
    if upto <= 0 {
        Seq::empty()
    } else if is_discard(tiles, declared, current, upto - 1) {
        discard_rows(tiles, declared, current, upto - 1).push(
            draws_row(tiles.remove(upto - 1), declared, current, tiles[upto - 1]),
        )
    } else {
        discard_rows(tiles, declared, current, upto - 1)
    }
}

/// Where an answer with the given total goes among answers sorted by
/// falling total: before the first answer, from `from` on, whose total is lower.
pub open spec fn place_of(rows: Seq<Improvement>, total: int, from: int) -> int
    decreases rows.len() - from,
{
    if from < 0 || from >= rows.len() {
        rows.len() as int
    } else if rows[from].total < total {
        from
    } else {
        place_of(rows, total, from + 1)
    }
}

/// The answers sorted by falling total; answers with equal totals keep their order.
pub open spec fn sort_rows(rows: Seq<Improvement>) -> Seq<Improvement>
    decreases rows.len(),
{
    if rows.len() == 0 {
        rows
    } else {
        let sorted = sort_rows(rows.drop_last());
        sorted.insert(place_of(sorted, rows.last().total, 0), rows.last())
    }
}

/// The answers of the search for a hand with the given slots and number
/// of melds. A hand of 13 tiles gets one answer, without a discard. A
/// hand of 14 tiles gets one answer for each discard, the best first,
/// and none if it is complete. Any other hand gets none.
pub open spec fn improving_rows(tiles: Seq<Option<Tile>>, declared: int) -> Seq<Improvement> {
    let current = shanten_query(tiles, declared);
    if logical_size(tiles) == 13 {
        seq![draws_row(tiles, declared, current, None)]
    } else if logical_size(tiles) == 14 {
        if current < 0 {
            Seq::empty()
        } else {
            sort_rows(discard_rows(tiles, declared, current, tiles.len() as int))
        }
    } else {
        Seq::empty()
    }
}

/// What a row of the result holds.
pub open spec fn row_view(row: (Option<Tile>, Vec<Tile>, u8)) -> Improvement {
    Improvement { discard: row.0, accepted: row.1@, total: row.2 as int }
}

/// What the rows of the result hold.
pub open spec fn rows_view(rows: Seq<(Option<Tile>, Vec<Tile>, u8)>) -> Seq<Improvement> {
    Seq::new(rows.len(), |i: int| row_view(rows[i]))
}

/// Whether some tile in the slots is near `id`.
fn near_any_tile(slots: &Vec<Option<Tile>>, id: u8) -> (r: bool)
    requires
        valid_id(id as int),
    ensures
        r == near_any(slots@, id as int),
{
    let mut i: usize = 0;
    proof {
        assert(slots@.take(0) =~= Seq::<Option<Tile>>::empty());
    }
    while i < slots.len()
        invariant
            i <= slots.len(),
            valid_id(id as int),
            !near_any(slots@.take(i as int), id as int),
        decreases slots.len() - i,
    {
        proof {
            assert(slots@.take(i + 1).drop_last() =~= slots@.take(i as int));
        }
        match slots[i] {
            Some(t) => {
                if t.to_id() == id || t.prev_id(false, 1) == id || t.prev_id(false, 2) == id || t.next_id(false, 1)
                    == id || t.next_id(false, 2) == id {
                    proof {
                        lemma_near_any_from(slots@, i as int, id as int);
                    }
                    return true;
                }
            },
            None => {},
        }
        i = i + 1;
    }
    proof {
        assert(slots@.take(i as int) =~= slots@);
    }
    false
}

/// A tile near `id` in any slot makes `near_any` true.
proof fn lemma_near_any_from(tiles: Seq<Option<Tile>>, i: int, id: int)
    requires
        0 <= i < tiles.len(),
        tiles[i] matches Some(t) && is_near(t.id(), id),
    ensures
        near_any(tiles, id),
    decreases tiles.len(),
{
    if i < tiles.len() - 1 {
        lemma_near_any_from(tiles.drop_last(), i, id);
    }
}

/// What a draw of `id` does to the size and the histogram of the concealed tiles.
proof fn lemma_after_draw(tiles: Seq<Option<Tile>>, id: int)
    requires
        valid_id(id),
    ensures
        logical_size(after_draw(tiles, id)) == logical_size(tiles) + 1,
        histogram(after_draw(tiles, id), true) == histogram(tiles, true).update(
            id - 1,
            histogram(tiles, true)[id - 1] + 1,
        ),
{
    TileKind::lemma_of_id(id);
    lemma_histogram_push(tiles, Some(fresh_tile(id)), true);
    assert(histogram(after_draw(tiles, id), true) =~= histogram(tiles, true).update(
        id - 1,
        histogram(tiles, true)[id - 1] + 1,
    ));
}

/// The draws that bring the shanten of the slots below `current`, in
/// rising order of their identifiers, and the number of copies of those
/// kinds that the concealed tiles of the hand leave over.
pub fn improving_draws(slots: &Vec<Option<Tile>>, declared: usize, current: i8) -> (r: (Vec<Tile>, u8))
    ensures
        r.0@ == tiles_of(accepted_ids(slots@, declared as int, current as int, 34)),
        r.1 as int == accepted_total(slots@, declared as int, current as int, 34),
{
    let finder = ShantenFinder::new();
    let array = count_histogram(slots, true);
    let size = count_logical(slots);
    let mut accepted: Vec<Tile> = Vec::new();
    let mut total: u8 = 0;
    let mut id: u8 = 1;
    proof {
        assert(accepted@ =~= tiles_of(accepted_ids(slots@, declared as int, current as int, 0)));
    }
    while id <= 34
        invariant
            1 <= id <= 35,
            holds_histogram(array@, histogram(slots@, true)),
            size == logical_size(slots@),
            accepted@ == tiles_of(accepted_ids(slots@, declared as int, current as int, id - 1)),
            total as int == accepted_total(slots@, declared as int, current as int, id - 1),
            total <= 4 * (id - 1),
        decreases 35 - id,
    {
        let ghost before = accepted_ids(slots@, declared as int, current as int, id - 1);
        let k: usize = (id - 1) as usize;
        let orphan = k >= 27 || k % 9 == 0 || k % 9 == 8;
        assert(orphan == is_terminal_or_honor(id as int));
        let mut better = false;
        if orphan || near_any_tile(slots, id) {
            proof {
                lemma_after_draw(slots@, id as int);
            }
            let after: i8 = if size == 12 || size == 13 {
                proof {
                    lemma_small_hand(slots@);
                    lemma_exact_counts(array@, histogram(slots@, true));
                }
                let mut trial = array;
                trial[k] = array[k] + 1;
                proof {
                    assert(counts(trial@) =~= histogram(after_draw(slots@, id as int), true));
                }
                finder.of_histogram(&trial, declared)
            } else {
                99
            };
            better = after < current;
        }
        assert(better == improves(slots@, declared as int, current as int, id as int));
        if better {
            match Tile::from_id(id) {
                Ok(tile) => {
                    accepted.push(tile);
                },
                Err(_) => {},
            }
            let held = array[k];
            assert(array[k as int] as int == saturated(histogram(slots@, true)[k as int]));
            if held < 4 {
                total = total + (4 - held);
            }
            proof {
                assert(accepted@ =~= tiles_of(before.push(id as int)));
            }
        }
        id = id + 1;
    }
    (accepted, total)
}

/// Puts a row among rows sorted by falling total, after the rows with an equal total.
fn insert_row(rows: &mut Vec<(Option<Tile>, Vec<Tile>, u8)>, row: (Option<Tile>, Vec<Tile>, u8))
    ensures
        rows_view(final(rows)@) == rows_view(old(rows)@).insert(
            place_of(rows_view(old(rows)@), row.2 as int, 0),
            row_view(row),
        ),
{
    let ghost before = rows_view(rows@);
    let mut pos: usize = 0;
    while pos < rows.len() && rows[pos].2 >= row.2
        invariant
            pos <= rows.len(),
            rows@ == old(rows)@,
            before == rows_view(rows@),
            place_of(before, row.2 as int, 0) == place_of(before, row.2 as int, pos as int),
        decreases rows.len() - pos,
    {
        assert(before[pos as int] == row_view(rows@[pos as int]));
        pos = pos + 1;
    }
    proof {
        if pos < rows.len() {
            assert(before[pos as int] == row_view(rows@[pos as int]));
        }
        assert(place_of(before, row.2 as int, 0) == pos);
        assert(rows_view(rows@.insert(pos as int, row)) =~= before.insert(pos as int, row_view(row)));
    }
    rows.insert(pos, row);
}

/// The answers for each kind of tile that the hand may discard without
/// raising its shanten above `current`, sorted by falling total.
pub fn improving_discards(slots: &Vec<Option<Tile>>, declared: usize, current: i8) -> (rows: Vec<
    (Option<Tile>, Vec<Tile>, u8),
>)
    ensures
        rows_view(rows@) == sort_rows(
            discard_rows(slots@, declared as int, current as int, slots@.len() as int),
        ),
{
    let finder = ShantenFinder::new();
    let mut rows: Vec<(Option<Tile>, Vec<Tile>, u8)> = Vec::new();
    let mut i: usize = 0;
    proof {
        assert(rows_view(rows@) =~= sort_rows(discard_rows(slots@, declared as int, current as int, 0)));
    }
    while i < slots.len()
        invariant
            i <= slots.len(),
            rows_view(rows@) == sort_rows(discard_rows(slots@, declared as int, current as int, i as int)),
        decreases slots.len() - i,
    {
        let ghost found = discard_rows(slots@, declared as int, current as int, i as int);
        match slots[i] {
            Some(t) => {
                if find_first(slots, t.to_id(), false) == i {
                    let mut reduced = copy_slots(slots);
                    reduced.remove(i);
                    if finder.query(&reduced, declared) <= current {
                        let (accepted, total) = improving_draws(&reduced, declared, current);
                        let row = (Some(t), accepted, total);
                        proof {
                            let next = draws_row(slots@.remove(i as int), declared as int, current as int, Some(t));
                            assert(row_view(row) == next);
                            assert(found.push(next).drop_last() =~= found);
                        }
                        insert_row(&mut rows, row);
                    }
                }
            },
            None => {},
        }
        i = i + 1;
    }
    rows
}

/// The answers of the search for a hand with the given slots and number of melds.
pub fn find_improving(slots: &Vec<Option<Tile>>, declared: usize) -> (rows: Vec<(Option<Tile>, Vec<Tile>, u8)>)
    ensures
        rows_view(rows@) == improving_rows(slots@, declared as int),
{
    let current = ShantenFinder::new().query(slots, declared);
    let size = count_logical(slots);
    if size == 13 {
        let (accepted, total) = improving_draws(slots, declared, current);
        let mut rows: Vec<(Option<Tile>, Vec<Tile>, u8)> = Vec::new();
        rows.push((None, accepted, total));
        proof {
            assert(rows_view(rows@) =~= improving_rows(slots@, declared as int));
        }
        rows
    } else if size == 14 && current >= 0 {
        improving_discards(slots, declared, current)
    } else {
        let rows: Vec<(Option<Tile>, Vec<Tile>, u8)> = Vec::new();
        proof {
            assert(rows_view(rows@) =~= improving_rows(slots@, declared as int));
        }
        rows
    }
}

} // verus!
