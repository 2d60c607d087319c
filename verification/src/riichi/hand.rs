//! The hand: its tiles, its declared melds, and the queries on them.

use vstd::prelude::*;
use crate::riichi::riichi_error::RiichiError;
use crate::riichi::shapes::OpenShape;
use crate::riichi::tally::{
    Counted,
    count_histogram,
    count_logical,
    count_present,
    first_counted,
    histogram,
    holds_histogram,
    in_order,
    logical_size,
    saturated,
    tally,
    valid_tiles,
};
use crate::riichi::improve::{
    accepted_ids,
    accepted_total,
    find_improving,
    improving_draws,
    improving_rows,
    rows_view,
    tiles_of,
};
use crate::riichi::melds::{claim_all, claim_slots};
use crate::riichi::notation::{holds_texts, notation_of, read_notation, read_slots, tokens_of, write_notation, write_tokens};
use crate::riichi::order::{copy_slots, find_first, insert_in_order, sort_slots};
use crate::riichi::shanten::{ShantenFinder, shanten_query};
use crate::riichi::tally::lemma_histogram_permutation;
use crate::riichi::tile::{Tile, TileKind, valid_id};

verus! {

/// The slots without the first tile that has the identifier `id`; the
/// slots themselves where no tile has it.
pub open spec fn without_first(tiles: Seq<Option<Tile>>, id: int) -> Seq<Option<Tile>> {
    let i = first_counted(tiles, Counted::Kind(id), 0);
    if i < tiles.len() {
        tiles.remove(i)
    } else {
        tiles
    }
}

/// What a hand holds, as seen from outside: the slots in order and the
/// melds declared so far.
pub struct HandState {
    pub tiles: Seq<Option<Tile>>,
    pub open_shapes: Seq<OpenShape>,
}

/// Number of tiles that the melds name together.
pub open spec fn tiles_named(shapes: Seq<OpenShape>) -> int
    decreases shapes.len(),
{
    if shapes.len() == 0 {
        0
    } else {
        tiles_named(shapes.drop_last()) + shapes.last().tiles().len()
    }
}

/// Whether a slot is empty or holds a tile as play can leave it: its
/// identifier lies in `1..=34`, and it is flagged with a kind of meld
/// only if it is open.
pub open spec fn sound_slot(slot: Option<Tile>) -> bool {
    match slot {
        Some(t) => t.wf() && (t.is_chi || t.is_pon || t.is_kan ==> t.is_open),
        None => true,
    }
}

impl HandState {
    /// Whether the hand is one that play can lead to: every tile is
    /// sound, at most one tile is flagged as drawn, and no more tiles are
    /// open than the declared melds name, so that a tile is open, or part
    /// of a quad, only where a declared meld has taken it.
    pub open spec fn consistent(self) -> bool {
        &&& forall|i: int| 0 <= i < self.tiles.len() ==> sound_slot(#[trigger] self.tiles[i])
        &&& tally(self.tiles, Counted::Drawn) <= 1
        &&& tally(self.tiles, Counted::Open) <= tiles_named(self.open_shapes)
    }
}

/// A copy of the melds.
fn copy_shapes(shapes: &Vec<OpenShape>) -> (copy: Vec<OpenShape>)
    ensures
        copy@ == shapes@,
{
    let mut copy: Vec<OpenShape> = Vec::new();
    let mut i: usize = 0;
    while i < shapes.len()
        invariant
            i <= shapes.len(),
            copy@ == shapes@.take(i as int),
        decreases shapes.len() - i,
    {
        copy.push(shapes[i]);
        proof {
            assert(shapes@.take(i + 1) =~= shapes@.take(i as int).push(shapes@[i as int]));
        }
        i = i + 1;
    }
    proof {
        assert(shapes@.take(i as int) =~= shapes@);
    }
    copy
}

/// A hand of tiles with its declared melds.
///
/// The histogram and the shanten are kept once computed and dropped on
/// every change of the tiles or melds.
pub struct Hand {
    tiles: Vec<Option<Tile>>,
    open_shapes: Vec<OpenShape>,
    array_34: Option<(bool, [u8; 34])>,
    shanten: i8,
}

impl View for Hand {
    type V = HandState;

    closed spec fn view(&self) -> HandState {
        HandState { tiles: self.tiles@, open_shapes: self.open_shapes@ }
    }
}

impl Hand {
    #[verifier::type_invariant]
    spec fn caches_hold(self) -> bool {
        &&& match self.array_34 {
            Some((concealed_only, array)) => holds_histogram(array@, histogram(self.tiles@, concealed_only)),
            None => true,
        }
        &&& self.shanten != 99 ==> self.shanten as int == shanten_query(self.tiles@, self.open_shapes@.len() as int)
    }

    /// A hand of the given slots, with no meld declared. The slots are kept as given.
    pub fn new(tiles: Vec<Option<Tile>>) -> (hand: Hand)
        ensures
            hand@.tiles == tiles@,
            hand@.open_shapes.len() == 0,
    {
        Hand { tiles, open_shapes: Vec::new(), array_34: None, shanten: 99 }
    }

    /// The slots of the hand, in order.
    pub fn get_tiles(&self) -> (tiles: &Vec<Option<Tile>>)
        ensures
            tiles@ == self@.tiles,
    {
        &self.tiles
    }

    /// The melds declared so far, in the order of their declaration.
    pub fn get_open_shapes(&self) -> (shapes: &Vec<OpenShape>)
        ensures
            shapes@ == self@.open_shapes,
    {
        &self.open_shapes
    }

    /// True iff no meld has been declared.
    pub fn is_closed(&self) -> (closed: bool)
        ensures
            closed == (self@.open_shapes.len() == 0),
    {
        self.open_shapes.len() == 0
    }

    /// Drops the kept histogram and shanten; the hand itself stays as it is.
    pub fn reset_shanten(&mut self)
        ensures
            final(self)@ == old(self)@,
            final(self).kept_shanten() is None,
            final(self).kept_histogram() is None,
    {
        self.forget();
    }

    /// Drops what is kept of the histogram and the shanten.
    fn forget(&mut self)
        ensures
            final(self).tiles == old(self).tiles,
            final(self).open_shapes == old(self).open_shapes,
            final(self).array_34 is None,
            final(self).shanten == 99,
    {
        proof {
            use_type_invariant(&*self);
        }
        self.shanten = 99;
        self.array_34 = None;
    }

    /// The shanten that the hand keeps from an earlier query, and `None`
    /// while it keeps none: the next query computes it anew.
    pub closed spec fn kept_shanten(&self) -> Option<int> {
        if self.shanten == 99 {
            None
        } else {
            Some(self.shanten as int)
        }
    }

    /// The histogram that the hand keeps from an earlier query, with the
    /// flag it was counted under, and `None` while it keeps none.
    pub closed spec fn kept_histogram(&self) -> Option<(bool, Seq<u8>)> {
        match self.array_34 {
            Some((concealed_only, array)) => Some((concealed_only, array@)),
            None => None,
        }
    }

    /// The size of the hand for the rules: the tiles in the slots, less
    /// one for every four tiles flagged as part of a quad.
    pub fn count_tiles(&self) -> (size: usize)
        ensures
            size == logical_size(self@.tiles),
    {
        count_logical(&self.tiles)
    }

    /// The histogram of the hand: 34 counts, one for each tile kind by
    /// identifier, without the tiles locked into melds where
    /// `remove_open_tiles` is set. A count that a byte cannot hold is 255.
    pub fn get_34_array(&mut self, remove_open_tiles: bool) -> (array: [u8; 34])
        ensures
            final(self)@ == old(self)@,
            holds_histogram(array@, histogram(old(self)@.tiles, remove_open_tiles)),
    {
        proof {
            use_type_invariant(&*self);
        }
        match self.array_34 {
            Some((concealed_only, array)) => {
                if concealed_only == remove_open_tiles {
                    return array;
                }
            },
            None => {},
        }
        let array = count_histogram(&self.tiles, remove_open_tiles);
        self.array_34 = Some((remove_open_tiles, array));
        array
    }

    /// Checks the hand against the counting rules: no kind more than
    /// four times, between 13 and 18 tiles in the slots, and a size of at
    /// most 14.
    pub fn validate(&mut self) -> (valid: bool)
        ensures
            final(self)@ == old(self)@,
            valid == valid_tiles(old(self)@.tiles),
    {
        let array = self.get_34_array(false);
        let mut k: usize = 0;
        while k < 34
            invariant
                k <= 34,
                self@ == old(self)@,
                holds_histogram(array@, histogram(self@.tiles, false)),
                forall|j: int| 0 <= j < k ==> #[trigger] tally(self@.tiles, Counted::Kind(j + 1)) <= 4,
            decreases 34 - k,
        {
            assert(array[k as int] as int == saturated(histogram(self@.tiles, false)[k as int]));
            if array[k] > 4 {
                assert(tally(self@.tiles, Counted::Kind(k + 1)) > 4);
                return false;
            }
            k = k + 1;
        }
        let tile_count = count_present(&self.tiles);
        if tile_count > 18 || tile_count < 13 {
            return false;
        }
        if self.count_tiles() > 14 {
            return false;
        }
        true
    }

    /// Reads a hand from its notation: groups of digits, each closed by
    /// the letter of its suit. The tiles are read from the right end of
    /// the text to the left; the first tile read is flagged as drawn, and
    /// the slots are put in canonical order. A text that is no notation
    /// is refused with the error of its rightmost character that is out
    /// of place. Unless `force_return` is set, a hand that breaks the
    /// counting rules is refused too.
    pub fn from_text(representation: &str, force_return: bool) -> (r: Result<Hand, RiichiError>)
        ensures
            match read_slots(representation@) {
                Err(e) => r matches Err(f) && f == e,
                Ok(parsed) => if force_return || valid_tiles(parsed) {
                    r matches Ok(hand) && in_order(hand@.tiles) && hand@.tiles.to_multiset() == parsed.to_multiset()
                        && hand@.open_shapes.len() == 0
                } else {
                    r matches Err(f) && f == RiichiError::InvalidHand
                },
            },
    {
        match read_notation(representation) {
            Err(e) => Err(e),
            Ok(slots) => {
                let sorted = sort_slots(&slots);
                proof {
                    lemma_histogram_permutation(sorted@, slots@);
                }
                let mut hand = Hand::new(sorted);
                if force_return || hand.validate() {
                    Ok(hand)
                } else {
                    Err(RiichiError::InvalidHand)
                }
            },
        }
    }

    /// The notation of the hand: the digits of the tiles in the order of
    /// the slots, each run of one suit closed by the letter of the suit.
    pub fn to_string(&self) -> (out: String)
        ensures
            out@ == notation_of(self@.tiles),
    {
        write_notation(&self.tiles)
    }

    /// One token for each tile, the letter of the suit before the digit,
    /// with the drawn tile last.
    pub fn to_vec_of_strings(&self) -> (out: Vec<String>)
        ensures
            holds_texts(out@, tokens_of(self@.tiles)),
    {
        write_tokens(&self.tiles)
    }

    /// The shanten of the hand, kept until the hand changes; 99 for a
    /// hand whose size is neither 13 nor 14.
    pub fn shanten(&mut self) -> (s: i8)
        ensures
            final(self)@ == old(self)@,
            s == shanten_query(old(self)@.tiles, old(self)@.open_shapes.len() as int),
    {
        proof {
            use_type_invariant(&*self);
        }
        if self.shanten == 99 {
            let found = ShantenFinder::new().query(&self.tiles, self.open_shapes.len());
            self.shanten = found;
        }
        self.shanten
    }

    /// The tiles that bring the hand closer to a win. A hand of 13 tiles
    /// gets one row without a discard: the draws that lower its shanten,
    /// in canonical order, and the number of copies of them that the
    /// hand's concealed tiles leave over. A hand of 14 tiles gets one
    /// such row for each kind of tile whose discard does not raise the
    /// shanten, the row with the most copies first, and no row if it is
    /// complete. The hand itself stays as it is.
    pub fn find_shanten_improving_tiles(&mut self) -> (rows: Vec<(Option<Tile>, Vec<Tile>, u8)>)
        ensures
            final(self)@ == old(self)@,
            rows_view(rows@) == improving_rows(old(self)@.tiles, old(self)@.open_shapes.len() as int),
    {
        let rows = find_improving(&self.tiles, self.open_shapes.len());
        self.forget();
        rows
    }

    /// The draws that bring the shanten of the hand below
    /// `current_shanten`, in canonical order, and the number of copies of
    /// them that the hand's concealed tiles leave over.
    pub fn get_shanten_improving_tiles_13(&mut self, current_shanten: i8) -> (r: (Vec<Tile>, u8))
        ensures
            final(self)@ == old(self)@,
            r.0@ == tiles_of(
                accepted_ids(old(self)@.tiles, old(self)@.open_shapes.len() as int, current_shanten as int, 34),
            ),
            r.1 as int == accepted_total(
                old(self)@.tiles,
                old(self)@.open_shapes.len() as int,
                current_shanten as int,
                34,
            ),
    {
        improving_draws(&self.tiles, self.open_shapes.len(), current_shanten)
    }

    /// Adds a tile and brings the slots into canonical order.
    pub fn add_tile(&mut self, tile: Tile)
        ensures
            in_order(final(self)@.tiles),
            final(self)@.tiles.to_multiset() == old(self)@.tiles.to_multiset().insert(Some(tile)),
            final(self)@.tiles.len() == old(self)@.tiles.len() + 1,
            final(self)@.open_shapes == old(self)@.open_shapes,
    {
        self.forget();
        let mut sorted = sort_slots(&self.tiles);
        insert_in_order(&mut sorted, Some(tile));
        self.tiles = sorted;
    }

    /// Removes the first tile of the same kind as `tile`, whatever its
    /// flags; a hand without such a tile stays as it is.
    pub fn remove_tile(&mut self, tile: &Tile)
        ensures
            final(self)@.open_shapes == old(self)@.open_shapes,
            final(self)@.tiles == without_first(old(self)@.tiles, tile.id()),
    {
        self.forget();
        let found = find_first(&self.tiles, tile.to_id(), false);
        if found < self.tiles.len() {
            let mut slots = copy_slots(&self.tiles);
            slots.remove(found);
            self.tiles = slots;
        }
    }

    /// Removes the first tile with the given identifier; fails, and
    /// leaves the hand as it is, for an identifier outside `1..=34`.
    pub fn remove_tile_by_id(&mut self, tile_id: u8) -> (r: Result<(), RiichiError>)
        ensures
            final(self)@.open_shapes == old(self)@.open_shapes,
            match r {
                Ok(_) => valid_id(tile_id as int) && final(self)@.tiles == without_first(
                    old(self)@.tiles,
                    tile_id as int,
                ),
                Err(e) => !valid_id(tile_id as int) && e == RiichiError::IdOutOfRange && final(self)@.tiles == old(
                    self,
                )@.tiles,
            },
    {
        match Tile::from_id(tile_id) {
            Ok(tile) => {
                proof {
                    TileKind::lemma_of_id(tile_id as int);
                }
                self.remove_tile(&tile);
                Ok(())
            },
            Err(e) => Err(e),
        }
    }

    /// Declares a meld: each tile that the meld names locks the first
    /// slot of the hand that holds a tile of that kind, neither open nor
    /// part of a quad, and the meld joins the declared ones. Fails, and
    /// leaves the hand as it is, when a named tile finds no such slot.
    pub fn add_open_shape(&mut self, shape: OpenShape) -> (r: Result<(), RiichiError>)
        ensures
            match claim_all(old(self)@.tiles, shape.tiles(), shape.kind()) {
                Some(tiles) => r is Ok && final(self)@.tiles == tiles && final(self)@.open_shapes == old(
                    self,
                )@.open_shapes.push(shape),
                None => r == Err::<(), RiichiError>(RiichiError::MeldNotInHand) && final(self)@ == old(self)@,
            },
    {
        let mut slots = copy_slots(&self.tiles);
        let wanted = shape.to_vec();
        if claim_slots(&mut slots, &wanted, shape.meld_kind()) {
            let mut shapes = copy_shapes(&self.open_shapes);
            shapes.push(shape);
            self.forget();
            self.tiles = slots;
            self.open_shapes = shapes;
            Ok(())
        } else {
            Err(RiichiError::MeldNotInHand)
        }
    }

    /// The tile flagged as drawn, the first one in the order of the
    /// slots; fails when no tile is flagged.
    pub fn get_drawn_tile(&self) -> (r: Result<&Tile, RiichiError>)
        ensures
            match r {
                Ok(tile) => {
                    let i = first_counted(self@.tiles, Counted::Drawn, 0);
                    i < self@.tiles.len() && self@.tiles[i] == Some(*tile)
                },
                Err(e) => e == RiichiError::NoDrawnTile && first_counted(self@.tiles, Counted::Drawn, 0)
                    >= self@.tiles.len(),
            },
    {
        let mut i: usize = 0;
        while i < self.tiles.len()
            invariant
                i <= self.tiles.len(),
                first_counted(self.tiles@, Counted::Drawn, 0) == first_counted(self.tiles@, Counted::Drawn, i as int),
            decreases self.tiles.len() - i,
        {
            match &self.tiles[i] {
                Some(tile) => {
                    if tile.is_draw {
                        return Ok(tile);
                    }
                },
                None => {},
            }
            i = i + 1;
        }
        Err(RiichiError::NoDrawnTile)
    }
}

impl Default for Hand {
    /// The empty hand.
    fn default() -> (hand: Hand)
        ensures
            hand@.tiles.len() == 0,
            hand@.open_shapes.len() == 0,
    {
        Hand { tiles: Vec::new(), open_shapes: Vec::new(), array_34: None, shanten: 99 }
    }
}

} // verus!
