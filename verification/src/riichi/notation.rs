//! The text notation of a hand: digits followed by the letter of their
//! suit, such as `123m123p12345s22z`.

use vstd::prelude::*;
use vstd::string::*;
use crate::riichi::riichi_error::RiichiError;
use crate::riichi::text::{char_is_alphabetic, char_is_numeric, is_letter, is_number, push_char};
use crate::riichi::tile::{Tile, digit_char, fresh_tile, rank_of, suit_char, suit_of_char, tile_of_chars};

verus! {

// ---------------------------------------------------------------------------
// Writing
// ---------------------------------------------------------------------------
/// The suit letter of the last tile in the slots, and `x` where they hold no tile.
pub open spec fn last_suit(tiles: Seq<Option<Tile>>) -> char
    decreases tiles.len(),
{
    if tiles.len() == 0 {
        'x'
    } else {
        match tiles.last() {
            Some(t) => suit_char(t.id()),
            None => last_suit(tiles.drop_last()),
        }
    }
}

/// The notation without its last letter: the digit of every tile in the
/// order of the slots, and before each tile whose suit differs from that
/// of the tile before it, the letter of that earlier suit.
pub open spec fn digits_of(tiles: Seq<Option<Tile>>) -> Seq<char>
    decreases tiles.len(),
{
    if tiles.len() == 0 {
        Seq::empty()
    } else {
        let before = tiles.drop_last();
        match tiles.last() {
            None => digits_of(before),
            Some(t) => {
                let closed = if last_suit(before) != suit_char(t.id()) && last_suit(before) != 'x' {
                    digits_of(before).push(last_suit(before))
                } else {
                    digits_of(before)
                };
                closed.push(digit_char(rank_of(t.id())))
            },
        }
    }
}

/// The notation of the slots; a hand without tiles is written `x`.
pub open spec fn notation_of(tiles: Seq<Option<Tile>>) -> Seq<char> {
    digits_of(tiles).push(last_suit(tiles))
}

/// The token of one tile: the letter of its suit, then its digit.
pub open spec fn token_of(tile: Tile) -> Seq<char> {
    seq![suit_char(tile.id()), digit_char(rank_of(tile.id()))]
}

/// The tokens of the tiles that are not flagged as drawn, in the order of the slots.
pub open spec fn undrawn_tokens(tiles: Seq<Option<Tile>>) -> Seq<Seq<char>>
    decreases tiles.len(),
{
    if tiles.len() == 0 {
        Seq::empty()
    } else {
        match tiles.last() {
            Some(t) => if t.is_draw {
                undrawn_tokens(tiles.drop_last())
            } else {
                undrawn_tokens(tiles.drop_last()).push(token_of(t))
            },
            None => undrawn_tokens(tiles.drop_last()),
        }
    }
}

/// The last tile flagged as drawn, if there is one.
pub open spec fn last_drawn(tiles: Seq<Option<Tile>>) -> Option<Tile>
    decreases tiles.len(),
{
    if tiles.len() == 0 {
        None
    } else {
        match tiles.last() {
            Some(t) => if t.is_draw {
                Some(t)
            } else {
                last_drawn(tiles.drop_last())
            },
            None => last_drawn(tiles.drop_last()),
        }
    }
}

/// One token for each tile, with the drawn tile last whatever its place
/// in the slots. Where several tiles are flagged as drawn, only the
/// last of them appears.
pub open spec fn tokens_of(tiles: Seq<Option<Tile>>) -> Seq<Seq<char>> {
    match last_drawn(tiles) {
        Some(t) => undrawn_tokens(tiles).push(token_of(t)),
        None => undrawn_tokens(tiles),
    }
}

/// Writes the notation of the slots.
pub fn write_notation(slots: &Vec<Option<Tile>>) -> (out: String)
    ensures
        out@ == notation_of(slots@),
{
    let mut out = String::new();
    let mut color: char = 'x';
    let mut i: usize = 0;
    proof {
        assert(slots@.take(0) =~= Seq::<Option<Tile>>::empty());
        assert(out@ =~= Seq::<char>::empty());
    }
    while i < slots.len()
        invariant
            i <= slots.len(),
            out@ == digits_of(slots@.take(i as int)),
            color == last_suit(slots@.take(i as int)),
        decreases slots.len() - i,
    {
        proof {
            assert(slots@.take(i + 1).drop_last() =~= slots@.take(i as int));
        }
        match slots[i] {
            Some(t) => {
                let suit = t.get_type_char();
                if color != suit {
                    if color != 'x' {
                        push_char(&mut out, color);
                    }
                    color = suit;
                }
                push_char(&mut out, t.get_value_char());
            },
            None => {},
        }
        i = i + 1;
    }
    proof {
        assert(slots@.take(i as int) =~= slots@);
    }
    push_char(&mut out, color);
    out
}

/// Whether `tokens` holds the given texts, one string for each.
pub open spec fn holds_texts(tokens: Seq<String>, texts: Seq<Seq<char>>) -> bool {
    tokens.len() == texts.len() && forall|i: int| 0 <= i < tokens.len() ==> (#[trigger] tokens[i])@ == texts[i]
}

/// The token of one tile as a string.
fn write_token(tile: &Tile) -> (s: String)
    ensures
        s@ == token_of(*tile),
{
    let mut s = String::new();
    push_char(&mut s, tile.get_type_char());
    push_char(&mut s, tile.get_value_char());
    assert(s@ =~= token_of(*tile));
    s
}

/// Writes one token for each tile, the drawn tile last.
pub fn write_tokens(slots: &Vec<Option<Tile>>) -> (out: Vec<String>)
    ensures
        holds_texts(out@, tokens_of(slots@)),
{
    let mut out: Vec<String> = Vec::new();
    let mut drawn: Option<Tile> = None;
    let mut i: usize = 0;
    proof {
        assert(slots@.take(0) =~= Seq::<Option<Tile>>::empty());
    }
    while i < slots.len()
        invariant
            i <= slots.len(),
            holds_texts(out@, undrawn_tokens(slots@.take(i as int))),
            drawn == last_drawn(slots@.take(i as int)),
        decreases slots.len() - i,
    {
        proof {
            assert(slots@.take(i + 1).drop_last() =~= slots@.take(i as int));
        }
        match slots[i] {
            Some(t) => {
                if t.is_draw {
                    drawn = Some(t);
                } else {
                    out.push(write_token(&t));
                }
            },
            None => {},
        }
        i = i + 1;
    }
    proof {
        assert(slots@.take(i as int) =~= slots@);
    }
    match drawn {
        Some(t) => {
            out.push(write_token(&t));
        },
        None => {},
    }
    out
}

/// Whether two slots are both empty or hold tiles of the same kind.
pub open spec fn same_kind_of_slot(a: Option<Tile>, b: Option<Tile>) -> bool {
    match (a, b) {
        (Some(s), Some(t)) => s.id() == t.id(),
        (None, None) => true,
        _ => false,
    }
}

/// The notation is written from the identifiers of the tiles alone: the
/// flags of the tiles leave no trace in it.
pub proof fn lemma_notation_ignores_flags(a: Seq<Option<Tile>>, b: Seq<Option<Tile>>)
    requires
        a.len() == b.len(),
        forall|i: int| 0 <= i < a.len() ==> same_kind_of_slot(#[trigger] a[i], #[trigger] b[i]),
    ensures
        digits_of(a) == digits_of(b),
        last_suit(a) == last_suit(b),
        notation_of(a) == notation_of(b),
    decreases a.len(),
{
    if a.len() > 0 {
        let before_a = a.drop_last();
        let before_b = b.drop_last();
        assert forall|i: int| 0 <= i < before_a.len() implies same_kind_of_slot(
            #[trigger] before_a[i],
            #[trigger] before_b[i],
        ) by {
            assert(before_a[i] == a[i] && before_b[i] == b[i]);
            assert(same_kind_of_slot(a[i], b[i]));
        }
        lemma_notation_ignores_flags(before_a, before_b);
        assert(same_kind_of_slot(a[a.len() - 1], b[a.len() - 1]));
    }
}

// ---------------------------------------------------------------------------
// Reading
// ---------------------------------------------------------------------------
//
// A notation is a row of groups. Each group is one digit or more, closed
// by the letter of their suit: `m`, `p`, `s` or `z`. Nothing else may
// stand in it.
/// Whether a character stands as a digit in a notation: it is a number
/// and no letter.
pub open spec fn is_figure(c: char) -> bool {
    is_number(c) && !is_letter(c)
}

/// The letter that closes the group of the character at index `i`: the
/// nearest letter at or to the right of `i`, if there is one.
pub open spec fn suit_right_of(text: Seq<char>, i: int) -> Option<char>
    decreases text.len() - i,
{
    if i < 0 || i >= text.len() {
        None
    } else if is_letter(text[i]) {
        Some(text[i])
    } else {
        suit_right_of(text, i + 1)
    }
}

/// What the character at index `i` stands for. A digit stands for the
/// tile of its rank in the suit of the letter that closes its group; it
/// is refused where no letter follows it, or where its suit has no such
/// rank. A letter stands for no tile; it is refused where it names no
/// suit, or where no digit stands directly before it. Any other character
/// is refused.
pub open spec fn read_char(text: Seq<char>, i: int) -> Result<Option<int>, RiichiError> {
    let c = text[i];
    if is_letter(c) {
        if suit_of_char(c) < 0 {
            Err(RiichiError::UnknownSuit)
        } else if i == 0 || !is_figure(text[i - 1]) {
            Err(RiichiError::EmptyRun)
        } else {
            Ok(None)
        }
    } else if is_number(c) {
        match suit_right_of(text, i) {
            None => Err(RiichiError::UnterminatedRun),
            Some(letter) => match tile_of_chars(c, letter) {
                Ok(id) => Ok(Some(id)),
                Err(e) => Err(e),
            },
        }
    } else {
        Err(RiichiError::UnexpectedCharacter)
    }
}

/// The identifiers that the first `n` characters of the text stand for,
/// the rightmost first; or the error of the rightmost character among
/// them that is refused.
pub open spec fn read_ids(text: Seq<char>, n: int) -> Result<Seq<int>, RiichiError>
    decreases n,
{
    if n <= 0 {
        Ok(Seq::empty())
    } else {
        match read_char(text, n - 1) {
            Err(e) => Err(e),
            Ok(found) => match read_ids(text, n - 1) {
                Err(e) => Err(e),
                Ok(rest) => match found {
                    Some(id) => Ok(seq![id] + rest),
                    None => Ok(rest),
                },
            },
        }
    }
}

/// The tile with the given identifier, flagged as drawn.
pub open spec fn drawn_tile(id: int) -> Tile {
    Tile { is_draw: true, ..fresh_tile(id) }
}

/// The slots that a sequence of identifiers fills, in the same order:
/// the first tile is the drawn one, the others carry no flag.
pub open spec fn slots_of(ids: Seq<int>) -> Seq<Option<Tile>> {
    Seq::new(
        ids.len(),
        |i: int|
            if i == 0 {
                Some(drawn_tile(ids[i]))
            } else {
                Some(fresh_tile(ids[i]))
            },
    )
}

/// The tiles that the text stands for in the order of reading, from the
/// right end to the left; the tile that is read first is the drawn one.
/// A text that is no notation stands for no tiles: the result is the
/// error of its rightmost character that is refused.
pub open spec fn read_slots(text: Seq<char>) -> Result<Seq<Option<Tile>>, RiichiError> {
    match read_ids(text, text.len() as int) {
        Ok(ids) => Ok(slots_of(ids)),
        Err(e) => Err(e),
    }
}

/// The characters of the text.
fn chars_of(text: &str) -> (chars: Vec<char>)
    ensures
        chars@ == text@,
{
    let n = text.unicode_len();
    let mut chars: Vec<char> = Vec::new();
    let mut i: usize = 0;
    while i < n
        invariant
            i <= n,
            n == text@.len(),
            chars@ == text@.take(i as int),
        decreases n - i,
    {
        chars.push(text.get_char(i));
        proof {
            assert(text@.take(i + 1) =~= text@.take(i as int).push(text@[i as int]));
        }
        i = i + 1;
    }
    proof {
        assert(text@.take(i as int) =~= text@);
    }
    chars
}

/// Whether a character stands as a digit in a notation.
fn char_is_figure(c: char) -> (b: bool)
    ensures
        b == is_figure(c),
{
    char_is_numeric(c) && !char_is_alphabetic(c)
}

/// Reads the tiles that the text stands for, from its right end to the left.
pub fn read_notation(text: &str) -> (r: Result<Vec<Option<Tile>>, RiichiError>)
    ensures
        match r {
            Ok(slots) => read_slots(text@) == Ok::<Seq<Option<Tile>>, RiichiError>(slots@),
            Err(e) => read_slots(text@) == Err::<Seq<Option<Tile>>, RiichiError>(e),
        },
{
    let chars = chars_of(text);
    let n = chars.len();
    let mut i: usize = n;
    let mut suit: Option<char> = None;
    let mut slots: Vec<Option<Tile>> = Vec::new();
    let ghost mut ids: Seq<int> = Seq::empty();
    proof {
        assert(slots@ =~= slots_of(ids));
    }
    while i > 0
        invariant
            i <= n,
            n == chars@.len(),
            chars@ == text@,
            suit == suit_right_of(text@, i as int),
            slots@ == slots_of(ids),
            match read_ids(text@, i as int) {
                Ok(rest) => read_ids(text@, n as int) == Ok::<Seq<int>, RiichiError>(ids + rest),
                Err(e) => read_ids(text@, n as int) == Err::<Seq<int>, RiichiError>(e),
            },
        decreases i,
    {
        let ch = chars[i - 1];
        if char_is_alphabetic(ch) {
            if ch != 'm' && ch != 'p' && ch != 's' && ch != 'z' {
                return Err(RiichiError::UnknownSuit);
            }
            if i == 1 || !char_is_figure(chars[i - 2]) {
                return Err(RiichiError::EmptyRun);
            }
            suit = Some(ch);
        } else if char_is_numeric(ch) {
            match suit {
                None => {
                    return Err(RiichiError::UnterminatedRun);
                },
                Some(letter) => match Tile::from_chars(ch, letter) {
                    Ok(mut tile) => {
                        let ghost id = tile.id();
                        proof {
                            let rest = read_ids(text@, i - 1);
                            match rest {
                                Ok(more) => {
                                    assert(ids + (seq![id] + more) =~= ids.push(id) + more);
                                },
                                Err(_) => {},
                            }
                            assert(slots_of(ids.push(id)) =~= slots_of(ids).push(
                                if ids.len() == 0 {
                                    Some(drawn_tile(id))
                                } else {
                                    Some(fresh_tile(id))
                                },
                            ));
                        }
                        if slots.len() == 0 {
                            tile.is_draw = true;
                        }
                        slots.push(Some(tile));
                        proof {
                            ids = ids.push(id);
                        }
                    },
                    Err(e) => {
                        return Err(e);
                    },
                },
            }
        } else {
            return Err(RiichiError::UnexpectedCharacter);
        }
        i = i - 1;
    }
    proof {
        assert(read_ids(text@, 0) == Ok::<Seq<int>, RiichiError>(Seq::empty()));
        assert(ids + Seq::<int>::empty() =~= ids);
    }
    Ok(slots)
}

} // verus!
