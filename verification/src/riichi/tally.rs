//! Counting over the slots of a hand: how many tiles are present, how many
//! of each kind, and the histogram that the shanten is computed from.

use vstd::prelude::*;
use vstd::seq_lib::*;
use crate::riichi::tile::Tile;

verus! {

/// What is counted among the tiles of a hand.
pub enum Counted {
    /// Every tile.
    Present,
    /// The tiles flagged as part of a quad.
    Kan,
    /// The tiles flagged as drawn.
    Drawn,
    /// The tiles locked into a meld.
    Open,
    /// The tiles with the given identifier.
    Kind(int),
    /// The tiles with the given identifier that are not locked into a meld.
    Concealed(int),
    /// The tiles with the given identifier that a new meld may still take:
    /// neither locked into a meld nor part of a quad.
    Free(int),
}

/// Whether a tile is one of those that `what` counts.
pub open spec fn counted(tile: Tile, what: Counted) -> bool {
    match what {
        Counted::Present => true,
        Counted::Kan => tile.is_kan,
        Counted::Drawn => tile.is_draw,
        Counted::Open => tile.is_open,
        Counted::Kind(id) => tile.id() == id,
        Counted::Concealed(id) => tile.id() == id && !tile.is_open,
        Counted::Free(id) => tile.id() == id && !tile.is_open && !tile.is_kan,
    }
}

/// Whether a slot holds a tile that `what` counts.
pub open spec fn slot_counted(slot: Option<Tile>, what: Counted) -> bool {
    match slot {
        Some(tile) => counted(tile, what),
        None => false,
    }
}

/// Number of slots that hold a tile that `what` counts.
pub open spec fn tally(tiles: Seq<Option<Tile>>, what: Counted) -> int
    decreases tiles.len(),
{
    if tiles.len() == 0 {
        0
    } else {
        tally(tiles.drop_last(), what) + if slot_counted(tiles.last(), what) { 1int } else { 0 }
    }
}

/// Index of the first slot at or after `from` that holds a tile that `what`
/// counts, and the number of slots where there is none.
pub open spec fn first_counted(tiles: Seq<Option<Tile>>, what: Counted, from: int) -> int
    decreases tiles.len() - from,
{
    if from < 0 || from >= tiles.len() {
        tiles.len() as int
    } else if slot_counted(tiles[from], what) {
        from
    } else {
        first_counted(tiles, what, from + 1)
    }
}

/// The kinds counted for bucket `k`: all tiles of the kind, or the concealed ones only.
pub open spec fn bucket_of(k: int, concealed_only: bool) -> Counted {
    if concealed_only {
        Counted::Concealed(k + 1)
    } else {
        Counted::Kind(k + 1)
    }
}

/// The histogram of a hand: bucket `k` counts the tiles with identifier
/// `k + 1`, without those locked into a meld where `concealed_only` is set.
pub open spec fn histogram(tiles: Seq<Option<Tile>>, concealed_only: bool) -> Seq<int> {
    Seq::new(34, |k: int| tally(tiles, bucket_of(k, concealed_only)))
}

/// Number of tiles that the hand physically holds.
pub open spec fn physical_size(tiles: Seq<Option<Tile>>) -> int {
    tally(tiles, Counted::Present)
}

/// Size of the hand for the rules: a complete quad takes four slots and
/// counts as three tiles.
pub open spec fn logical_size(tiles: Seq<Option<Tile>>) -> int {
    tally(tiles, Counted::Present) - tally(tiles, Counted::Kan) / 4
}

/// Whether the tiles make a legal hand: no kind more than four times,
/// between 13 and 18 tiles in the slots, and a size of at most 14.
pub open spec fn valid_tiles(tiles: Seq<Option<Tile>>) -> bool {
    &&& forall|k: int| 0 <= k < 34 ==> #[trigger] tally(tiles, Counted::Kind(k + 1)) <= 4
    &&& 13 <= physical_size(tiles) <= 18
    &&& logical_size(tiles) <= 14
}

/// A count is never negative and never exceeds the number of slots.
pub proof fn lemma_tally_range(tiles: Seq<Option<Tile>>, what: Counted)
    ensures
        0 <= tally(tiles, what) <= tiles.len(),
    decreases tiles.len(),
{
    if tiles.len() > 0 {
        lemma_tally_range(tiles.drop_last(), what);
    }
}

/// The concealed tiles of a kind are among the tiles of that kind, the
/// tiles of a kind among the tiles present, and so are the quad tiles.
pub proof fn lemma_tally_order(tiles: Seq<Option<Tile>>, id: int)
    ensures
        tally(tiles, Counted::Concealed(id)) <= tally(tiles, Counted::Kind(id)),
        tally(tiles, Counted::Kind(id)) <= tally(tiles, Counted::Present),
        tally(tiles, Counted::Kan) <= tally(tiles, Counted::Present),
    decreases tiles.len(),
{
    if tiles.len() > 0 {
        lemma_tally_order(tiles.drop_last(), id);
    }
}

/// A slot added at the end counts once if it is counted at all.
pub proof fn lemma_tally_push(tiles: Seq<Option<Tile>>, slot: Option<Tile>, what: Counted)
    ensures
        tally(tiles.push(slot), what) == tally(tiles, what) + if slot_counted(slot, what) { 1int } else { 0 },
{
    assert(tiles.push(slot).drop_last() =~= tiles);
}

/// Taking out a slot takes its count away.
pub proof fn lemma_tally_remove(tiles: Seq<Option<Tile>>, i: int, what: Counted)
    requires
        0 <= i < tiles.len(),
    ensures
        tally(tiles.remove(i), what) == tally(tiles, what) - if slot_counted(tiles[i], what) { 1int } else { 0 },
    decreases tiles.len(),
{
    if i == tiles.len() - 1 {
        assert(tiles.remove(i) =~= tiles.drop_last());
    } else {
        lemma_tally_remove(tiles.drop_last(), i, what);
        assert(tiles.remove(i).drop_last() =~= tiles.drop_last().remove(i));
        assert(tiles.remove(i).last() == tiles.last());
    }
}

/// Changing a slot exchanges its count.
pub proof fn lemma_tally_update(tiles: Seq<Option<Tile>>, i: int, slot: Option<Tile>, what: Counted)
    requires
        0 <= i < tiles.len(),
    ensures
        tally(tiles.update(i, slot), what) == tally(tiles, what) - (if slot_counted(tiles[i], what) { 1int } else { 0 })
            + (if slot_counted(slot, what) { 1int } else { 0 }),
{
    let changed = tiles.update(i, slot);
    assert(changed.remove(i) =~= tiles.remove(i));
    lemma_tally_remove(changed, i, what);
    lemma_tally_remove(tiles, i, what);
}

/// A count does not depend on the order of the slots.
pub proof fn lemma_tally_permutation(a: Seq<Option<Tile>>, b: Seq<Option<Tile>>, what: Counted)
    requires
        a.to_multiset() == b.to_multiset(),
    ensures
        tally(a, what) == tally(b, what),
    decreases a.len(),
{
    broadcast use group_to_multiset_ensures;

    a.to_multiset_ensures();
    b.to_multiset_ensures();
    if a.len() == 0 {
        assert(b.len() == 0);
    } else {
        let x = a.last();
        assert(a.contains(x)) by {
            assert(a[a.len() - 1] == x);
        }
        assert(b.to_multiset().count(x) > 0);
        assert(b.contains(x));
        let j = choose|j: int| 0 <= j < b.len() && b[j] == x;
        assert(a.drop_last() =~= a.remove(a.len() - 1));
        assert(a.drop_last().to_multiset() =~= b.remove(j).to_multiset());
        lemma_tally_permutation(a.drop_last(), b.remove(j), what);
        lemma_tally_remove(b, j, what);
    }
}

/// The histogram does not depend on the order of the slots, nor do the sizes.
pub proof fn lemma_histogram_permutation(a: Seq<Option<Tile>>, b: Seq<Option<Tile>>)
    requires
        a.to_multiset() == b.to_multiset(),
    ensures
        histogram(a, true) == histogram(b, true),
        histogram(a, false) == histogram(b, false),
        physical_size(a) == physical_size(b),
        logical_size(a) == logical_size(b),
        valid_tiles(a) == valid_tiles(b),
{
    assert forall|k: int| 0 <= k < 34 implies tally(a, bucket_of(k, true)) == tally(b, bucket_of(k, true)) && tally(
        a,
        bucket_of(k, false),
    ) == tally(b, bucket_of(k, false)) by {
        lemma_tally_permutation(a, b, bucket_of(k, true));
        lemma_tally_permutation(a, b, bucket_of(k, false));
    }
    assert(histogram(a, true) =~= histogram(b, true));
    assert(histogram(a, false) =~= histogram(b, false));
    lemma_tally_permutation(a, b, Counted::Present);
    lemma_tally_permutation(a, b, Counted::Kan);
    assert forall|k: int| 0 <= k < 34 implies #[trigger] tally(a, Counted::Kind(k + 1)) == tally(
        b,
        Counted::Kind(k + 1),
    ) by {
        lemma_tally_permutation(a, b, Counted::Kind(k + 1));
    }
    if valid_tiles(a) {
        assert forall|k: int| 0 <= k < 34 implies #[trigger] tally(b, Counted::Kind(k + 1)) <= 4 by {
            assert(tally(a, Counted::Kind(k + 1)) <= 4);
        }
    }
    if valid_tiles(b) {
        assert forall|k: int| 0 <= k < 34 implies #[trigger] tally(a, Counted::Kind(k + 1)) <= 4 by {
            assert(tally(b, Counted::Kind(k + 1)) <= 4);
        }
    }
}

/// `first_counted` finds a counted slot before which none is counted, if
/// there is any from `from` on.
pub proof fn lemma_first_counted(tiles: Seq<Option<Tile>>, what: Counted, from: int)
    requires
        0 <= from <= tiles.len(),
    ensures
        from <= first_counted(tiles, what, from) <= tiles.len(),
        first_counted(tiles, what, from) < tiles.len() ==> slot_counted(
            tiles[first_counted(tiles, what, from)],
            what,
        ),
        forall|j: int| from <= j < first_counted(tiles, what, from) ==> !slot_counted(#[trigger] tiles[j], what),
    decreases tiles.len() - from,
{
    if from < tiles.len() && !slot_counted(tiles[from], what) {
        lemma_first_counted(tiles, what, from + 1);
    }
}

/// Position of a slot in the canonical order of a hand: an empty slot
/// first, then the tiles by their own order.
pub open spec fn slot_key(slot: Option<Tile>) -> int {
    match slot {
        Some(tile) => tile.order_key(),
        None => -1,
    }
}

/// Whether the slots stand in canonical order.
pub open spec fn in_order(tiles: Seq<Option<Tile>>) -> bool {
    forall|i: int, j: int| 0 <= i < j < tiles.len() ==> slot_key(#[trigger] tiles[i]) <= slot_key(#[trigger] tiles[j])
}

/// The histogram of a hand is a histogram.
pub proof fn lemma_histogram_shape(tiles: Seq<Option<Tile>>, concealed_only: bool)
    ensures
        crate::riichi::blocks::is_histogram(histogram(tiles, concealed_only)),
        forall|k: int| 0 <= k < 34 ==> #[trigger] histogram(tiles, concealed_only)[k] <= tiles.len(),
{
    assert forall|k: int| 0 <= k < 34 implies 0 <= #[trigger] histogram(tiles, concealed_only)[k] <= tiles.len() by {
        lemma_tally_range(tiles, bucket_of(k, concealed_only));
    }
}

/// The value that a count takes in a byte: itself up to 255, and 255 beyond.
pub open spec fn saturated(n: int) -> int {
    if n >= 255 {
        255
    } else {
        n
    }
}

/// Whether `array` holds the counts of `hist`, each as far as a byte reaches.
pub open spec fn holds_histogram(array: Seq<u8>, hist: Seq<int>) -> bool {
    array.len() == 34 && forall|k: int| 0 <= k < 34 ==> #[trigger] array[k] as int == saturated(hist[k])
}

/// A hand of a size up to 14 holds at most 18 tiles, so at most 18 of any kind.
pub proof fn lemma_small_hand(tiles: Seq<Option<Tile>>)
    requires
        logical_size(tiles) <= 14,
    ensures
        physical_size(tiles) <= 18,
        forall|k: int| 0 <= k < 34 ==> 0 <= #[trigger] histogram(tiles, true)[k] <= 18,
        forall|k: int| 0 <= k < 34 ==> 0 <= #[trigger] histogram(tiles, false)[k] <= 18,
{
    lemma_tally_order(tiles, 0);
    let present = tally(tiles, Counted::Present);
    let kan = tally(tiles, Counted::Kan);
    assert(present <= 18) by {
        assert(kan <= present);
        assert(present - kan / 4 <= 14);
    }
    assert forall|k: int| 0 <= k < 34 implies 0 <= #[trigger] histogram(tiles, true)[k] <= 18 by {
        lemma_tally_order(tiles, k + 1);
        lemma_tally_range(tiles, Counted::Concealed(k + 1));
    }
    assert forall|k: int| 0 <= k < 34 implies 0 <= #[trigger] histogram(tiles, false)[k] <= 18 by {
        lemma_tally_order(tiles, k + 1);
        lemma_tally_range(tiles, Counted::Kind(k + 1));
    }
}

/// What `slot` adds to the histogram and the sizes when it joins the slots.
pub proof fn lemma_histogram_push(tiles: Seq<Option<Tile>>, slot: Option<Tile>, concealed_only: bool)
    ensures
        forall|k: int|
            0 <= k < 34 ==> #[trigger] histogram(tiles.push(slot), concealed_only)[k] == histogram(
                tiles,
                concealed_only,
            )[k] + if slot_counted(slot, bucket_of(k, concealed_only)) {
                1int
            } else {
                0
            },
        tally(tiles.push(slot), Counted::Present) == tally(tiles, Counted::Present) + if slot is Some {
            1int
        } else {
            0
        },
        tally(tiles.push(slot), Counted::Kan) == tally(tiles, Counted::Kan) + if slot_counted(slot, Counted::Kan) {
            1int
        } else {
            0
        },
{
    assert forall|k: int| 0 <= k < 34 implies #[trigger] histogram(tiles.push(slot), concealed_only)[k]
        == histogram(tiles, concealed_only)[k] + if slot_counted(slot, bucket_of(k, concealed_only)) {
        1int
    } else {
        0
    } by {
        lemma_tally_push(tiles, slot, bucket_of(k, concealed_only));
    }
    lemma_tally_push(tiles, slot, Counted::Present);
    lemma_tally_push(tiles, slot, Counted::Kan);
}

/// Counts the tiles of each kind in the slots, without those locked into
/// melds where `concealed_only` is set. A count that a byte cannot hold is 255.
pub fn count_histogram(slots: &Vec<Option<Tile>>, concealed_only: bool) -> (array: [u8; 34])
    ensures
        holds_histogram(array@, histogram(slots@, concealed_only)),
{
    let mut array: [u8; 34] = [0;34];
    let mut i: usize = 0;
    while i < slots.len()
        invariant
            i <= slots.len(),
            forall|k: int|
                0 <= k < 34 ==> #[trigger] array[k] as int == saturated(
                    tally(slots@.take(i as int), bucket_of(k, concealed_only)),
                ),
        decreases slots.len() - i,
    {
        proof {
            assert(slots@.take(i + 1).drop_last() =~= slots@.take(i as int));
        }
        match slots[i] {
            Some(t) => {
                let id = t.to_id();
                if !concealed_only || !t.is_open {
                    let k: usize = (id - 1) as usize;
                    if array[k] < 255 {
                        array[k] = array[k] + 1;
                    }
                }
            },
            None => {},
        }
        i = i + 1;
    }
    proof {
        assert(slots@.take(i as int) =~= slots@);
    }
    array
}

/// Counts the tiles in the slots.
pub fn count_present(slots: &Vec<Option<Tile>>) -> (n: usize)
    ensures
        n == physical_size(slots@),
{
    let mut n: usize = 0;
    let mut i: usize = 0;
    while i < slots.len()
        invariant
            i <= slots.len(),
            n == tally(slots@.take(i as int), Counted::Present),
            n <= i,
        decreases slots.len() - i,
    {
        proof {
            assert(slots@.take(i + 1).drop_last() =~= slots@.take(i as int));
        }
        if slots[i].is_some() {
            n = n + 1;
        }
        i = i + 1;
    }
    proof {
        assert(slots@.take(i as int) =~= slots@);
    }
    n
}

/// The size of the hand for the rules: the tiles in the slots, less one
/// for every four tiles flagged as part of a quad.
pub fn count_logical(slots: &Vec<Option<Tile>>) -> (size: usize)
    ensures
        size == logical_size(slots@),
{
    let mut hand_size: usize = 0;
    let mut kan_tiles: usize = 0;
    let mut i: usize = 0;
    while i < slots.len()
        invariant
            i <= slots.len(),
            hand_size == tally(slots@.take(i as int), Counted::Present),
            kan_tiles == tally(slots@.take(i as int), Counted::Kan),
            kan_tiles <= hand_size <= i,
        decreases slots.len() - i,
    {
        proof {
            assert(slots@.take(i + 1).drop_last() =~= slots@.take(i as int));
        }
        match slots[i] {
            Some(t) => {
                hand_size = hand_size + 1;
                if t.is_kan {
                    kan_tiles = kan_tiles + 1;
                }
            },
            None => {},
        }
        i = i + 1;
    }
    proof {
        assert(slots@.take(i as int) =~= slots@);
    }
    hand_size - kan_tiles / 4
}

} // verus!
