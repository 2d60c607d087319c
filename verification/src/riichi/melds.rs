//! Declaring a meld: which slots of a hand it locks, and how.

use vstd::prelude::*;
use crate::riichi::order::find_first;
use crate::riichi::shapes::MeldKind;
use crate::riichi::notation::{lemma_notation_ignores_flags, notation_of, same_kind_of_slot};
use crate::riichi::tally::{Counted, first_counted, lemma_first_counted, lemma_tally_update, tally};
use crate::riichi::tile::Tile;

verus! {

/// The tile once a meld of the given kind has taken it: open, and
/// flagged with the kind of the meld.
pub open spec fn claimed(tile: Tile, kind: MeldKind) -> Tile {
    Tile {
        kind: tile.kind,
        is_draw: tile.is_draw,
        is_open: true,
        is_chi: tile.is_chi || kind == MeldKind::Chi,
        is_pon: tile.is_pon || kind == MeldKind::Pon,
        is_kan: tile.is_kan || kind == MeldKind::Kan,
    }
}

/// The slots after a meld of the given kind has taken one tile for each of
/// `wanted`, in that order: each time the first slot whose tile has the
/// wanted identifier and is neither open nor part of a quad. `None` if
/// one of the wanted tiles finds no such slot.
pub open spec fn claim_all(tiles: Seq<Option<Tile>>, wanted: Seq<Tile>, kind: MeldKind) -> Option<
    Seq<Option<Tile>>,
>
    decreases wanted.len(),
{
    if wanted.len() == 0 {
        Some(tiles)
    } else {
        let i = first_counted(tiles, Counted::Free(wanted[0].id()), 0);
        if i >= tiles.len() {
            None
        } else {
            claim_all(tiles.update(i, Some(claimed(tiles[i]->0, kind))), wanted.drop_first(), kind)
        }
    }
}

/// The tile as a meld of the given kind takes it.
fn claim_tile(tile: Tile, kind: MeldKind) -> (t: Tile)
    ensures
        t == claimed(tile, kind),
{
    let mut t = tile;
    t.is_open = true;
    match kind {
        MeldKind::Chi => {
            t.is_chi = true;
        },
        MeldKind::Pon => {
            t.is_pon = true;
        },
        MeldKind::Kan => {
            t.is_kan = true;
        },
    }
    t
}

/// Locks one slot for each of the wanted tiles, as `claim_all` says. Returns
/// whether every wanted tile found a slot; if not, the slots are left in
/// an unspecified state.
pub(crate) fn claim_slots(slots: &mut Vec<Option<Tile>>, wanted: &Vec<Tile>, kind: MeldKind) -> (done: bool)
    ensures
        match claim_all(old(slots)@, wanted@, kind) {
            Some(tiles) => done && final(slots)@ == tiles,
            None => !done,
        },
{
    let mut j: usize = 0;
    proof {
        assert(wanted@.skip(0) =~= wanted@);
    }
    while j < wanted.len()
        invariant
            j <= wanted.len(),
            claim_all(old(slots)@, wanted@, kind) == claim_all(slots@, wanted@.skip(j as int), kind),
        decreases wanted.len() - j,
    {
        let ghost rest = wanted@.skip(j as int);
        proof {
            assert(rest.len() > 0);
            assert(rest[0] == wanted@[j as int]);
            assert(rest.drop_first() =~= wanted@.skip(j + 1));
        }
        let id = wanted[j].to_id();
        let i = find_first(slots, id, true);
        if i >= slots.len() {
            return false;
        }
        proof {
            lemma_first_counted(slots@, Counted::Free(id as int), 0);
        }
        match slots[i] {
            Some(t) => {
                slots.set(i, Some(claim_tile(t, kind)));
            },
            None => {},
        }
        j = j + 1;
    }
    proof {
        assert(wanted@.skip(j as int).len() == 0);
    }
    true
}

/// A meld changes flags only: it leaves every slot where it is and every
/// tile of its kind, so the notation of the hand stays as it was; and it
/// opens as many tiles as it names, none of which was open before.
pub proof fn lemma_claim_all(tiles: Seq<Option<Tile>>, wanted: Seq<Tile>, kind: MeldKind)
    requires
        claim_all(tiles, wanted, kind) is Some,
    ensures
        ({
            let after = claim_all(tiles, wanted, kind)->0;
            &&& after.len() == tiles.len()
            &&& forall|i: int| 0 <= i < tiles.len() ==> same_kind_of_slot(#[trigger] tiles[i], #[trigger] after[i])
            &&& forall|i: int|
                0 <= i < tiles.len() ==> #[trigger] after[i] == tiles[i] || (tiles[i] matches Some(t) && !t.is_open
                    && after[i] == Some(claimed(t, kind)))
            &&& tally(after, Counted::Open) == tally(tiles, Counted::Open) + wanted.len()
            &&& tally(after, Counted::Present) == tally(tiles, Counted::Present)
            &&& tally(after, Counted::Drawn) == tally(tiles, Counted::Drawn)
            &&& notation_of(after) == notation_of(tiles)
        }),
    decreases wanted.len(),
{
    let after = claim_all(tiles, wanted, kind)->0;
    if wanted.len() > 0 {
        let i = first_counted(tiles, Counted::Free(wanted[0].id()), 0);
        lemma_first_counted(tiles, Counted::Free(wanted[0].id()), 0);
        let taken = Some(claimed(tiles[i]->0, kind));
        let next = tiles.update(i, taken);
        lemma_tally_update(tiles, i, taken, Counted::Open);
        lemma_tally_update(tiles, i, taken, Counted::Present);
        lemma_tally_update(tiles, i, taken, Counted::Drawn);
        lemma_claim_all(next, wanted.drop_first(), kind);
        assert forall|j: int| 0 <= j < tiles.len() implies same_kind_of_slot(#[trigger] tiles[j], #[trigger] after[j]) by {
            assert(same_kind_of_slot(next[j], after[j]));
        }
        assert forall|j: int| 0 <= j < tiles.len() implies #[trigger] after[j] == tiles[j] || (tiles[j] matches Some(t)
            && !t.is_open && after[j] == Some(claimed(t, kind))) by {
            assert(after[j] == next[j] || (next[j] matches Some(t) && !t.is_open && after[j] == Some(
                claimed(t, kind),
            )));
        }
    }
    lemma_notation_ignores_flags(tiles, after);
}

} // verus!
