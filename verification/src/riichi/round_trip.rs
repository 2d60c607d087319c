//! Reading back what was written: the notation of a hand in canonical
//! order stands for that hand, and is written again as it was.

use vstd::prelude::*;
use vstd::seq_lib::*;
use crate::riichi::notation::{
    digits_of,
    lemma_notation_ignores_flags,
    same_kind_of_slot,
    last_suit,
    notation_of,
    read_ids,
    is_figure,
    read_char,
    read_slots,
    slots_of,
    suit_right_of,
};
use crate::riichi::order::lemma_order_unique;
use crate::riichi::riichi_error::RiichiError;
use crate::riichi::tally::{in_order, slot_key};
use crate::riichi::text::is_letter;
use crate::riichi::tile::{
    Tile,
    TileKind,
    digit_char,
    lemma_tile_text_round_trip,
    rank_of,
    suit_char,
    suit_of_char,
    valid_id,
};

verus! {

/// Whether the slots are what a canonical notation is written from:
/// there is a slot and none is empty, every tile has an identifier from
/// 1 to 34, and the identifiers never fall from one slot to the next.
pub open spec fn is_canonical(tiles: Seq<Option<Tile>>) -> bool {
    &&& tiles.len() > 0
    &&& forall|i: int| 0 <= i < tiles.len() ==> (#[trigger] tiles[i]) is Some && tiles[i]->0.wf()
    &&& forall|i: int, j: int| 0 <= i < j < tiles.len() ==> (#[trigger] tiles[i])->0.id() <= (#[trigger] tiles[j])->0.id()
}

/// The identifiers of the tiles in the slots, the last first.
pub open spec fn ids_backwards(tiles: Seq<Option<Tile>>) -> Seq<int>
    decreases tiles.len(),
{
    if tiles.len() == 0 {
        Seq::empty()
    } else {
        match tiles.last() {
            Some(t) => seq![t.id()] + ids_backwards(tiles.drop_last()),
            None => ids_backwards(tiles.drop_last()),
        }
    }
}

/// The letter of a suit is a letter that names a suit, and is not `x`;
/// the digit of a rank stands as a digit.
proof fn lemma_notation_chars(id: int)
    requires
        valid_id(id),
    ensures
        is_letter(suit_char(id)),
        suit_of_char(suit_char(id)) >= 0,
        suit_char(id) != 'x',
        is_figure(digit_char(rank_of(id))),
{
}

/// Reading the digits that were written for the slots gives the
/// identifiers of their tiles, the last first; and the digits end in a digit.
proof fn lemma_read_digits(tiles: Seq<Option<Tile>>, text: Seq<char>)
    requires
        tiles.len() > 0,
        forall|i: int| 0 <= i < tiles.len() ==> (#[trigger] tiles[i]) is Some && tiles[i]->0.wf(),
        digits_of(tiles).len() <= text.len(),
        forall|i: int| 0 <= i < digits_of(tiles).len() ==> text[i] == digits_of(tiles)[i],
        suit_right_of(text, digits_of(tiles).len() as int) == Some(last_suit(tiles)),
    ensures
        digits_of(tiles).len() > 0,
        is_figure(digits_of(tiles).last()),
        read_ids(text, digits_of(tiles).len() as int) == Ok::<Seq<int>, RiichiError>(ids_backwards(tiles)),
    decreases tiles.len(),
{
    let before = tiles.drop_last();
    assert(tiles[tiles.len() - 1] is Some && tiles[tiles.len() - 1]->0.wf());
    let t = tiles.last()->0;
    let id = t.id();
    lemma_notation_chars(id);
    lemma_tile_text_round_trip(id);
    let d = digits_of(tiles);
    let n = d.len() as int;
    let old = digits_of(before);
    assert(text[n - 1] == d[n - 1]);
    assert(d[n - 1] == digit_char(rank_of(id)));
    assert(suit_right_of(text, n - 1) == Some(suit_char(id)));
    assert(read_char(text, n - 1) == Ok::<Option<int>, RiichiError>(Some(id)));
    if before.len() == 0 {
        assert(d =~= seq![digit_char(rank_of(id))]);
        assert(ids_backwards(before) =~= Seq::<int>::empty());
        assert(ids_backwards(tiles) =~= seq![id] + ids_backwards(before));
        assert(read_ids(text, 0) == Ok::<Seq<int>, RiichiError>(Seq::empty()));
        assert(seq![id] + Seq::<int>::empty() =~= seq![id]);
    } else {
        assert forall|i: int| 0 <= i < before.len() implies (#[trigger] before[i]) is Some && before[i]->0.wf() by {
            assert(before[i] == tiles[i]);
        }
        assert(before[before.len() - 1] is Some && before[before.len() - 1]->0.wf());
        let earlier = before.last()->0.id();
        lemma_notation_chars(earlier);
        assert(last_suit(before) == suit_char(earlier));
        if last_suit(before) != suit_char(id) {
            assert(d =~= old.push(last_suit(before)).push(digit_char(rank_of(id))));
            assert(text[n - 2] == d[n - 2]);
            assert(d[n - 2] == last_suit(before));
            assert(suit_right_of(text, n - 2) == Some(last_suit(before)));
            assert forall|i: int| 0 <= i < old.len() implies text[i] == old[i] by {
                assert(text[i] == d[i]);
            }
            lemma_read_digits(before, text);
            assert(text[n - 3] == old[old.len() - 1]);
            assert(read_char(text, n - 2) == Ok::<Option<int>, RiichiError>(None));
            assert(read_ids(text, n - 1) == read_ids(text, n - 2));
        } else {
            assert(d =~= old.push(digit_char(rank_of(id))));
            assert forall|i: int| 0 <= i < old.len() implies text[i] == old[i] by {
                assert(text[i] == d[i]);
            }
            lemma_read_digits(before, text);
        }
    }
}

/// With no slot empty, the identifiers read backwards are those of the
/// slots from the last to the first.
proof fn lemma_ids_backwards(tiles: Seq<Option<Tile>>)
    requires
        forall|i: int| 0 <= i < tiles.len() ==> (#[trigger] tiles[i]) is Some,
    ensures
        ids_backwards(tiles).len() == tiles.len(),
        forall|i: int| 0 <= i < tiles.len() ==> #[trigger] ids_backwards(tiles)[i] == tiles[tiles.len() - 1 - i]->0.id(),
    decreases tiles.len(),
{
    if tiles.len() > 0 {
        let before = tiles.drop_last();
        assert forall|i: int| 0 <= i < before.len() implies (#[trigger] before[i]) is Some by {
            assert(before[i] == tiles[i]);
        }
        lemma_ids_backwards(before);
        assert(tiles[tiles.len() - 1] is Some);
        assert forall|i: int| 0 <= i < tiles.len() implies #[trigger] ids_backwards(tiles)[i] == tiles[tiles.len()
            - 1 - i]->0.id() by {
            if i > 0 {
                assert(ids_backwards(tiles)[i] == ids_backwards(before)[i - 1]);
                assert(before[before.len() - 1 - (i - 1)] == tiles[tiles.len() - 1 - i]);
            }
        }
    }
}

/// The notation of a hand in canonical order reads as the tiles of that
/// hand, from the last to the first.
pub proof fn lemma_notation_reads_back(tiles: Seq<Option<Tile>>)
    requires
        is_canonical(tiles),
    ensures
        read_slots(notation_of(tiles)) == Ok::<Seq<Option<Tile>>, RiichiError>(slots_of(ids_backwards(tiles))),
        ids_backwards(tiles).len() == tiles.len(),
        forall|i: int| 0 <= i < tiles.len() ==> #[trigger] ids_backwards(tiles)[i] == tiles[tiles.len() - 1 - i]->0.id(),
{
    let text = notation_of(tiles);
    let d = digits_of(tiles);
    let n = d.len() as int;
    assert(tiles[tiles.len() - 1] is Some && tiles[tiles.len() - 1]->0.wf());
    lemma_notation_chars(tiles.last()->0.id());
    assert(text.len() == n + 1);
    assert(text[n] == last_suit(tiles));
    assert(suit_right_of(text, n) == Some(last_suit(tiles)));
    lemma_read_digits(tiles, text);
    assert(text[n - 1] == d[n - 1]);
    assert(read_char(text, n) == Ok::<Option<int>, RiichiError>(None));
    assert(read_ids(text, n + 1) == read_ids(text, n));
    lemma_ids_backwards(tiles);
}

/// Reading a canonical notation and writing the hand again gives the
/// notation back. `tiles` are the slots that the notation is written
/// from, `hand` the slots of the hand that is read from it: what the
/// notation stands for, in canonical order.
pub proof fn lemma_notation_round_trip(tiles: Seq<Option<Tile>>, hand: Seq<Option<Tile>>)
    requires
        is_canonical(tiles),
        in_order(hand),
        read_slots(notation_of(tiles)) matches Ok(parsed) ==> hand.to_multiset() == parsed.to_multiset(),
    ensures
        read_slots(notation_of(tiles)) is Ok,
        notation_of(hand) == notation_of(tiles),
{
    lemma_notation_reads_back(tiles);
    let ids = ids_backwards(tiles);
    let parsed = slots_of(ids);
    let n = tiles.len() as int;
    let forward = parsed.reverse();
    parsed.lemma_reverse_to_multiset();
    assert forall|i: int| 0 <= i < n implies (#[trigger] forward[i]) is Some && forward[i]->0.id() == tiles[i]->0.id()
        && slot_key(forward[i]) == 32 * tiles[i]->0.id() + if i == n - 1 {
        1int
    } else {
        0
    } by {
        assert(forward[i] == parsed[n - 1 - i]);
        assert(ids[n - 1 - i] == tiles[n - 1 - (n - 1 - i)]->0.id());
        assert(tiles[i] is Some && tiles[i]->0.wf());
        TileKind::lemma_of_id(tiles[i]->0.id());
    }
    assert forall|i: int, j: int| 0 <= i < j < forward.len() implies slot_key(#[trigger] forward[i]) <= slot_key(
        #[trigger] forward[j],
    ) by {
        assert(tiles[i]->0.id() <= tiles[j]->0.id());
    }
    lemma_order_unique(hand, forward);
    assert forall|i: int| 0 <= i < tiles.len() implies same_kind_of_slot(#[trigger] forward[i], #[trigger] tiles[i]) by {}
    lemma_notation_ignores_flags(forward, tiles);
}

/// Whether the text is a canonical notation: what is written for some
/// hand without empty slots whose tiles stand in the order of their
/// identifiers, such as `123m123p12345s22z`.
pub open spec fn is_canonical_notation(text: Seq<char>) -> bool {
    exists|tiles: Seq<Option<Tile>>| is_canonical(tiles) && #[trigger] notation_of(tiles) == text
}

/// A canonical notation parses, and the hand read from it is written as
/// the same notation: `hand` are the slots of the hand that is read
/// from `text`, that is, what the text stands for, in canonical order.
pub proof fn lemma_canonical_notation_round_trip(text: Seq<char>, hand: Seq<Option<Tile>>)
    requires
        is_canonical_notation(text),
        in_order(hand),
        read_slots(text) matches Ok(parsed) ==> hand.to_multiset() == parsed.to_multiset(),
    ensures
        read_slots(text) is Ok,
        notation_of(hand) == text,
{
    let tiles = choose|tiles: Seq<Option<Tile>>| is_canonical(tiles) && #[trigger] notation_of(tiles) == text;
    lemma_notation_round_trip(tiles, hand);
}

} // verus!
