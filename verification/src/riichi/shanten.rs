//! The shanten finder: distance of a hand from each of the three winning shapes.

use vstd::prelude::*;
use crate::riichi::blocks::{
    block_shanten,
    buckets_with,
    holds_block,
    orphans_with,
    seven_pairs_shanten,
    shanten_of,
    standard_shanten,
    thirteen_orphans_shanten,
    without_block,
};
use crate::riichi::hand::Hand;
use crate::riichi::riichi_error::RiichiError;
use crate::riichi::search::{counts, lemma_search_is_standard_shanten, search, slot_block};
use crate::riichi::tally::{
    count_histogram,
    count_logical,
    histogram,
    holds_histogram,
    lemma_histogram_permutation,
    lemma_small_hand,
    logical_size,
};
use crate::riichi::tile::{Tile, is_terminal_or_honor};

verus! {

/// The value that stands for "no shanten": the hand's size is neither 13 nor 14.
pub open spec fn no_shanten() -> int {
    99
}

/// The shanten of a hand with the given slots and number of melds, and
/// `no_shanten()` for a hand whose size is neither 13 nor 14.
pub open spec fn shanten_query(tiles: Seq<Option<Tile>>, declared: int) -> int {
    if logical_size(tiles) == 13 || logical_size(tiles) == 14 {
        shanten_of(histogram(tiles, true), declared)
    } else {
        no_shanten()
    }
}

/// The shanten of a hand does not depend on the order of its slots.
pub proof fn lemma_shanten_query_permutation(a: Seq<Option<Tile>>, b: Seq<Option<Tile>>, declared: int)
    requires
        a.to_multiset() == b.to_multiset(),
    ensures
        shanten_query(a, declared) == shanten_query(b, declared),
{
    lemma_histogram_permutation(a, b);
}

/// An array that holds a histogram of small counts holds them exactly.
pub proof fn lemma_exact_counts(array: Seq<u8>, hist: Seq<int>)
    requires
        holds_histogram(array, hist),
        hist.len() == 34,
        forall|k: int| 0 <= k < 34 ==> #[trigger] hist[k] < 255,
    ensures
        counts(array) == hist,
{
    assert(counts(array) =~= hist);
}

/// An empty bucket starts no block, so the search passes over it.
proof fn lemma_search_empty_bucket(hist: Seq<int>, pos: int, kind: int, sets: int, partials: int, pairs: int)
    requires
        hist.len() == 34,
        0 <= pos < 34,
        0 <= kind <= 5,
        hist[pos] <= 0,
    ensures
        search(hist, pos, kind, sets, partials, pairs) == search(hist, pos + 1, 0, sets, partials, pairs),
    decreases 5 - kind,
{
    if kind < 5 {
        let b = slot_block(pos, kind);
        assert(b.uses(pos) >= 1);
        assert(!holds_block(hist, b));
        lemma_search_empty_bucket(hist, pos, kind + 1, sets, partials, pairs);
    }
}

/// Distance of a finished layout, from its counts.
fn layout_distance(sets: u8, partials: u8, pairs: u8) -> (r: i8)
    requires
        sets <= 4,
        partials <= 4,
        pairs <= 5,
    ensures
        r == block_shanten(sets as int, partials as int, pairs as int),
{
    let missing: u8 = 4 - sets;
    let head: u8 = if pairs >= 1 {
        1
    } else {
        0
    };
    let started: u8 = partials + pairs - head;
    let useful: u8 = if started >= missing {
        missing
    } else {
        started
    };
    (2 * missing - useful) as i8 - head as i8
}

/// Whether the histogram holds the tiles of the block of the given kind at `pos`.
fn block_available(hist: &[u8; 34], pos: usize, kind: u8) -> (b: bool)
    requires
        pos < 34,
        kind < 5,
    ensures
        b == holds_block(counts(hist@), slot_block(pos as int, kind as int)),
{
    let block = Ghost(slot_block(pos as int, kind as int));
    let h = Ghost(counts(hist@));
    let in_suit = pos < 27;
    let rank = pos % 9;
    if kind == 0 {
        let b = hist[pos] >= 3;
        proof {
            if b {
                assert forall|k: int| 0 <= k < 34 implies #[trigger] block@.uses(k) <= h@[k] by {}
            } else {
                assert(block@.uses(pos as int) > h@[pos as int]);
            }
        }
        b
    } else if kind == 2 {
        let b = hist[pos] >= 2;
        proof {
            if b {
                assert forall|k: int| 0 <= k < 34 implies #[trigger] block@.uses(k) <= h@[k] by {}
            } else {
                assert(block@.uses(pos as int) > h@[pos as int]);
            }
        }
        b
    } else if kind == 1 {
        if in_suit && rank <= 6 {
            let b = hist[pos] >= 1 && hist[pos + 1] >= 1 && hist[pos + 2] >= 1;
            proof {
                if b {
                    assert forall|k: int| 0 <= k < 34 implies #[trigger] block@.uses(k) <= h@[k] by {}
                } else {
                    assert(block@.uses(pos as int) > h@[pos as int] || block@.uses(pos + 1) > h@[pos + 1]
                        || block@.uses(pos + 2) > h@[pos + 2]);
                }
            }
            b
        } else {
            false
        }
    } else if kind == 3 {
        if in_suit && rank <= 7 {
            let b = hist[pos] >= 1 && hist[pos + 1] >= 1;
            proof {
                if b {
                    assert forall|k: int| 0 <= k < 34 implies #[trigger] block@.uses(k) <= h@[k] by {}
                } else {
                    assert(block@.uses(pos as int) > h@[pos as int] || block@.uses(pos + 1) > h@[pos + 1]);
                }
            }
            b
        } else {
            false
        }
    } else {
        if in_suit && rank <= 6 {
            let b = hist[pos] >= 1 && hist[pos + 2] >= 1;
            proof {
                if b {
                    assert forall|k: int| 0 <= k < 34 implies #[trigger] block@.uses(k) <= h@[k] by {}
                } else {
                    assert(block@.uses(pos as int) > h@[pos as int] || block@.uses(pos + 2) > h@[pos + 2]);
                }
            }
            b
        } else {
            false
        }
    }
}

/// The histogram without the tiles of the block of the given kind at `pos`.
fn take_block(hist: &[u8; 34], pos: usize, kind: u8) -> (left: [u8; 34])
    requires
        pos < 34,
        kind < 5,
        holds_block(counts(hist@), slot_block(pos as int, kind as int)),
    ensures
        counts(left@) == without_block(counts(hist@), slot_block(pos as int, kind as int)),
{
    let block = Ghost(slot_block(pos as int, kind as int));
    let h = Ghost(counts(hist@));
    let mut left = *hist;
    proof {
        assert(block@.uses(pos as int) <= h@[pos as int]);
    }
    if kind == 0 {
        left[pos] = hist[pos] - 3;
    } else if kind == 2 {
        left[pos] = hist[pos] - 2;
    } else if kind == 1 {
        proof {
            assert(block@.uses(pos + 1) <= h@[pos + 1]);
            assert(block@.uses(pos + 2) <= h@[pos + 2]);
        }
        left[pos] = hist[pos] - 1;
        left[pos + 1] = hist[pos + 1] - 1;
        left[pos + 2] = hist[pos + 2] - 1;
    } else if kind == 3 {
        proof {
            assert(block@.uses(pos + 1) <= h@[pos + 1]);
        }
        left[pos] = hist[pos] - 1;
        left[pos + 1] = hist[pos + 1] - 1;
    } else {
        proof {
            assert(block@.uses(pos + 2) <= h@[pos + 2]);
        }
        left[pos] = hist[pos] - 1;
        left[pos + 2] = hist[pos + 2] - 1;
    }
    assert(counts(left@) =~= without_block(h@, block@));
    left
}

/// The least distance over the layouts that use only blocks from the
/// given slot on.
fn search_from(hist: &[u8; 34], pos: usize, kind: u8, sets: u8, partials: u8, pairs: u8) -> (r: i8)
    requires
        pos <= 34,
        kind <= 5,
        sets <= 4,
        partials <= 4,
        pairs <= 5,
    ensures
        r == search(counts(hist@), pos as int, kind as int, sets as int, partials as int, pairs as int),
    decreases 34 - pos, 5 - kind, hist[pos as int],
{
    if pos >= 34 {
        return layout_distance(sets, partials, pairs);
    }
    if kind >= 5 {
        return search_from(hist, pos + 1, 0, sets, partials, pairs);
    }
    if hist[pos] == 0 {
        proof {
            lemma_search_empty_bucket(
                counts(hist@),
                pos as int,
                kind as int,
                sets as int,
                partials as int,
                pairs as int,
            );
        }
        return search_from(hist, pos + 1, 0, sets, partials, pairs);
    }
    let skip = search_from(hist, pos, kind + 1, sets, partials, pairs);
    if !block_available(hist, pos, kind) {
        return skip;
    }
    let left = take_block(hist, pos, kind);
    let sets2: u8 = if kind <= 1 && sets < 4 {
        sets + 1
    } else {
        sets
    };
    let partials2: u8 = if kind >= 3 && partials < 4 {
        partials + 1
    } else {
        partials
    };
    let pairs2: u8 = if kind == 2 && pairs < 5 {
        pairs + 1
    } else {
        pairs
    };
    proof {
        let b = slot_block(pos as int, kind as int);
        assert(b.uses(pos as int) >= 1);
        assert(counts(left@)[pos as int] == counts(hist@)[pos as int] - b.uses(pos as int));
    }
    let take = search_from(&left, pos, kind, sets2, partials2, pairs2);
    if take < skip {
        take
    } else {
        skip
    }
}

/// The search over a hand's concealed tiles for its distance from a win.
pub struct ShantenFinder {}

impl ShantenFinder {
    /// A finder; it holds no state between queries.
    pub fn new() -> (finder: ShantenFinder) {
        ShantenFinder {}
    }

    /// Shanten of the standard shape, four sets and a pair, for the
    /// concealed tiles counted in `hist` and `declared` melds.
    pub fn standard(&self, hist: &[u8; 34], declared: usize) -> (r: i8)
        ensures
            r == standard_shanten(counts(hist@), declared as int),
            -1 <= r <= 8,
    {
        let sets: u8 = if declared >= 4 {
            4
        } else {
            declared as u8
        };
        proof {
            lemma_search_is_standard_shanten(counts(hist@), declared as int);
            crate::riichi::search::lemma_standard_shanten_is_least(counts(hist@), declared as int);
        }
        search_from(hist, 0, 0, sets, 0, 0)
    }

    /// Shanten of the seven-pairs shape for the tiles counted in `hist`.
    pub fn seven_pairs(&self, hist: &[u8; 34]) -> (r: i8)
        ensures
            r == seven_pairs_shanten(counts(hist@)),
    {
        let mut pairs: i8 = 0;
        let mut kinds: i8 = 0;
        let mut k: usize = 0;
        while k < 34
            invariant
                k <= 34,
                pairs == buckets_with(counts(hist@), 2, k as int),
                kinds == buckets_with(counts(hist@), 1, k as int),
                0 <= pairs <= k,
                0 <= kinds <= k,
            decreases 34 - k,
        {
            if hist[k] >= 2 {
                pairs = pairs + 1;
            }
            if hist[k] >= 1 {
                kinds = kinds + 1;
            }
            k = k + 1;
        }
        let short: i8 = 7 - pairs - kinds;
        if short > 0 {
            6 - pairs + short
        } else {
            6 - pairs
        }
    }

    /// Shanten of the thirteen-orphans shape for the tiles counted in `hist`.
    pub fn thirteen_orphans(&self, hist: &[u8; 34]) -> (r: i8)
        ensures
            r == thirteen_orphans_shanten(counts(hist@)),
    {
        let mut kinds: i8 = 0;
        let mut doubles: i8 = 0;
        let mut k: usize = 0;
        while k < 34
            invariant
                k <= 34,
                kinds == orphans_with(counts(hist@), 1, k as int),
                doubles == orphans_with(counts(hist@), 2, k as int),
                0 <= kinds <= k,
                0 <= doubles <= k,
            decreases 34 - k,
        {
            let orphan = k >= 27 || k % 9 == 0 || k % 9 == 8;
            assert(orphan == is_terminal_or_honor(k + 1));
            if orphan && hist[k] >= 1 {
                kinds = kinds + 1;
            }
            if orphan && hist[k] >= 2 {
                doubles = doubles + 1;
            }
            k = k + 1;
        }
        if doubles >= 1 {
            13 - kinds - 1
        } else {
            13 - kinds
        }
    }

    /// Shanten for the concealed tiles counted in `hist` and `declared`
    /// melds: the least over the shapes that the hand may still take.
    pub fn of_histogram(&self, hist: &[u8; 34], declared: usize) -> (r: i8)
        ensures
            r == shanten_of(counts(hist@), declared as int),
    {
        let standard = self.standard(hist, declared);
        if declared == 0 {
            let pairs = self.seven_pairs(hist);
            let orphans = self.thirteen_orphans(hist);
            let least = if pairs < standard {
                pairs
            } else {
                standard
            };
            if orphans < least {
                orphans
            } else {
                least
            }
        } else {
            standard
        }
    }

    /// Shanten of the slots of a hand with `declared` melds; fails for a
    /// hand whose size is neither 13 nor 14.
    pub fn of_slots(&self, slots: &Vec<Option<Tile>>, declared: usize) -> (r: Result<i8, RiichiError>)
        ensures
            match r {
                Ok(s) => (logical_size(slots@) == 13 || logical_size(slots@) == 14) && s == shanten_of(
                    histogram(slots@, true),
                    declared as int,
                ),
                Err(e) => e == RiichiError::HandSize && !(logical_size(slots@) == 13 || logical_size(slots@) == 14),
            },
    {
        let size = count_logical(slots);
        if size != 13 && size != 14 {
            return Err(RiichiError::HandSize);
        }
        let array = count_histogram(slots, true);
        proof {
            lemma_small_hand(slots@);
            lemma_exact_counts(array@, histogram(slots@, true));
        }
        Ok(self.of_histogram(&array, declared))
    }

    /// Shanten of the slots of a hand with `declared` melds, and 99 for a
    /// hand whose size is neither 13 nor 14.
    pub fn query(&self, slots: &Vec<Option<Tile>>, declared: usize) -> (s: i8)
        ensures
            s == shanten_query(slots@, declared as int),
    {
        match self.of_slots(slots, declared) {
            Ok(s) => s,
            Err(_) => 99,
        }
    }

    /// Shanten of a hand: the least distance over the shapes that it
    /// may still take. Fails for a hand whose size is neither 13 nor 14.
    pub fn shanten(&self, hand: &Hand) -> (r: Result<i8, RiichiError>)
        ensures
            match r {
                Ok(s) => s == shanten_query(hand@.tiles, hand@.open_shapes.len() as int) && (logical_size(
                    hand@.tiles,
                ) == 13 || logical_size(hand@.tiles) == 14),
                Err(e) => e == RiichiError::HandSize && !(logical_size(hand@.tiles) == 13 || logical_size(
                    hand@.tiles,
                ) == 14),
            },
    {
        self.of_slots(hand.get_tiles(), hand.get_open_shapes().len())
    }
}

} // verus!
