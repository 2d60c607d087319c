//! The canonical order of a hand's slots, and sorting into it.

use vstd::prelude::*;
use vstd::seq_lib::*;
use crate::riichi::tally::{Counted, first_counted, in_order, slot_key};
use crate::riichi::tile::{Tile, lemma_order_key_injective};

verus! {

/// Whether `a` may stand before `b` in the canonical order.
fn may_precede(a: &Option<Tile>, b: &Option<Tile>) -> (r: bool)
    ensures
        r == (slot_key(*a) <= slot_key(*b)),
{
    match a {
        None => match b {
            None => true,
            Some(y) => y.sort_key() >= 32,
        },
        Some(x) => match b {
            None => x.sort_key() < 32,
            Some(y) => x.sort_key() <= y.sort_key(),
        },
    }
}

/// Puts `slot` into slots that stand in canonical order, at its place.
pub(crate) fn insert_in_order(slots: &mut Vec<Option<Tile>>, slot: Option<Tile>)
    requires
        in_order(old(slots)@),
    ensures
        in_order(final(slots)@),
        final(slots)@.to_multiset() == old(slots)@.to_multiset().insert(slot),
        final(slots)@.len() == old(slots)@.len() + 1,
{
    let mut pos: usize = 0;
    while pos < slots.len() && may_precede(&slots[pos], &slot)
        invariant
            pos <= slots.len(),
            slots@ == old(slots)@,
            forall|j: int| 0 <= j < pos ==> slot_key(#[trigger] slots[j]) <= slot_key(slot),
        decreases slots.len() - pos,
    {
        pos = pos + 1;
    }
    proof {
        to_multiset_insert(slots@, pos as int, slot);
        let after = slots@.insert(pos as int, slot);
        assert forall|i: int, j: int| 0 <= i < j < after.len() implies slot_key(#[trigger] after[i]) <= slot_key(
            #[trigger] after[j],
        ) by {
            if j < pos {
                assert(after[i] == slots[i] && after[j] == slots[j]);
            } else if j == pos {
                assert(after[i] == slots[i]);
            } else if i < pos {
                assert(after[i] == slots[i] && after[j] == slots[j - 1]);
            } else if i == pos {
                assert(after[j] == slots[j - 1]);
                assert(slot_key(slots[pos as int]) <= slot_key(slots[j - 1]) || pos as int == j - 1);
            } else {
                assert(after[i] == slots[i - 1] && after[j] == slots[j - 1]);
            }
        }
    }
    slots.insert(pos, slot);
}

/// The slots in canonical order.
pub fn sort_slots(slots: &Vec<Option<Tile>>) -> (sorted: Vec<Option<Tile>>)
    ensures
        in_order(sorted@),
        sorted@.to_multiset() == slots@.to_multiset(),
        sorted@.len() == slots@.len(),
{
    let mut sorted: Vec<Option<Tile>> = Vec::new();
    let mut i: usize = 0;
    proof {
        assert(slots@.take(0) =~= sorted@);
    }
    while i < slots.len()
        invariant
            i <= slots.len(),
            in_order(sorted@),
            sorted@.to_multiset() == slots@.take(i as int).to_multiset(),
            sorted@.len() == i,
        decreases slots.len() - i,
    {
        proof {
            assert(slots@.take(i + 1) =~= slots@.take(i as int).push(slots@[i as int]));
            to_multiset_build(slots@.take(i as int), slots@[i as int]);
        }
        insert_in_order(&mut sorted, slots[i]);
        i = i + 1;
    }
    proof {
        assert(slots@.take(i as int) =~= slots@);
    }
    sorted
}

/// A copy of the slots.
pub fn copy_slots(slots: &Vec<Option<Tile>>) -> (copy: Vec<Option<Tile>>)
    ensures
        copy@ == slots@,
{
    let mut copy: Vec<Option<Tile>> = Vec::new();
    let mut i: usize = 0;
    while i < slots.len()
        invariant
            i <= slots.len(),
            copy@ == slots@.take(i as int),
        decreases slots.len() - i,
    {
        copy.push(slots[i]);
        proof {
            assert(slots@.take(i + 1) =~= slots@.take(i as int).push(slots@[i as int]));
        }
        i = i + 1;
    }
    proof {
        assert(slots@.take(i as int) =~= slots@);
    }
    copy
}

/// Index of the first slot that holds a tile with the identifier `id`,
/// and the number of slots where there is none. With `free_only`, a tile
/// locked into a meld or part of a quad is passed over.
pub fn find_first(slots: &Vec<Option<Tile>>, id: u8, free_only: bool) -> (i: usize)
    ensures
        i == first_counted(
            slots@,
            if free_only {
                Counted::Free(id as int)
            } else {
                Counted::Kind(id as int)
            },
            0,
        ),
        i <= slots.len(),
{
    let ghost what = if free_only {
        Counted::Free(id as int)
    } else {
        Counted::Kind(id as int)
    };
    let mut i: usize = 0;
    while i < slots.len()
        invariant
            i <= slots.len(),
            first_counted(slots@, what, 0) == first_counted(slots@, what, i as int),
            what == (if free_only {
                Counted::Free(id as int)
            } else {
                Counted::Kind(id as int)
            }),
        decreases slots.len() - i,
    {
        match slots[i] {
            Some(t) => {
                if t.to_id() == id && (!free_only || (!t.is_open && !t.is_kan)) {
                    return i;
                }
            },
            None => {},
        }
        i = i + 1;
    }
    i
}

/// Two sequences of slots in canonical order that hold the same slots are equal.
pub proof fn lemma_order_unique(a: Seq<Option<Tile>>, b: Seq<Option<Tile>>)
    requires
        in_order(a),
        in_order(b),
        a.to_multiset() == b.to_multiset(),
    ensures
        a == b,
{
    let leq = |x: Option<Tile>, y: Option<Tile>| slot_key(x) <= slot_key(y);
    assert(vstd::relations::antisymmetric(leq)) by {
        assert forall|x: Option<Tile>, y: Option<Tile>| #[trigger] leq(x, y) && #[trigger] leq(y, x) implies x
            == y by {
            match (x, y) {
                (Some(s), Some(t)) => {
                    lemma_order_key_injective(s, t);
                },
                (Some(s), None) => {
                    lemma_order_key_nonnegative(s);
                },
                (None, Some(t)) => {
                    lemma_order_key_nonnegative(t);
                },
                (None, None) => {},
            }
        }
    }
    assert(vstd::relations::total_ordering(leq));
    assert(vstd::relations::sorted_by(a, leq));
    assert(vstd::relations::sorted_by(b, leq));
    lemma_sorted_unique(a, b, leq);
}

/// No tile's position in the canonical order is negative.
pub proof fn lemma_order_key_nonnegative(t: Tile)
    ensures
        t.order_key() >= 0,
{
    crate::riichi::tile::TileKind::lemma_id_nonnegative(t.kind);
}

} // verus!
