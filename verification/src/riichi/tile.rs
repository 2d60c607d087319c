//! Tiles: the 34 kinds, their dense identifiers and the per-instance flags.

use vstd::prelude::*;
use vstd::string::*;
use crate::riichi::riichi_error::RiichiError;
use crate::riichi::text::push_char;

verus! {

/// The three numbered suits.
#[derive(Clone, Copy, Debug, PartialEq, Eq, Structural)]
pub enum TileColor {
    Manzu,
    Pinzu,
    Souzu,
}

/// The category of a tile: a rank in a suit, a wind (1 to 4) or a dragon (5 to 7).
#[derive(Clone, Copy, Debug, PartialEq, Eq, Structural)]
pub enum TileType {
    Number(u8, TileColor),
    Wind(u8),
    Dragon(u8),
}

/// Index of the suit that an identifier belongs to: 0, 1, 2 for the numbered
/// suits and 3 for the honors.
pub open spec fn suit_index(id: int) -> int {
    (id - 1) / 9
}

/// Rank of an identifier inside its suit: 1 to 9, and 1 to 7 for the honors.
pub open spec fn rank_of(id: int) -> int {
    (id - 1) % 9 + 1
}

/// Whether `id` names one of the 34 tile kinds.
pub open spec fn valid_id(id: int) -> bool {
    1 <= id <= 34
}

/// Whether `id` names a terminal (rank 1 or 9 of a suit) or an honor.
pub open spec fn is_terminal_or_honor(id: int) -> bool {
    valid_id(id) && (id >= 28 || rank_of(id) == 1 || rank_of(id) == 9)
}

/// The letter that the notation uses for the suit of `id`.
pub open spec fn suit_char(id: int) -> char {
    if suit_index(id) == 0 {
        'm'
    } else if suit_index(id) == 1 {
        'p'
    } else if suit_index(id) == 2 {
        's'
    } else {
        'z'
    }
}

/// The digit that the notation uses for a rank.
pub open spec fn digit_char(rank: int) -> char {
    if rank == 1 {
        '1'
    } else if rank == 2 {
        '2'
    } else if rank == 3 {
        '3'
    } else if rank == 4 {
        '4'
    } else if rank == 5 {
        '5'
    } else if rank == 6 {
        '6'
    } else if rank == 7 {
        '7'
    } else if rank == 8 {
        '8'
    } else {
        '9'
    }
}

/// The rank that a digit of the notation stands for, 0 for any other character.
pub open spec fn rank_of_digit(c: char) -> int {
    if c == '1' {
        1
    } else if c == '2' {
        2
    } else if c == '3' {
        3
    } else if c == '4' {
        4
    } else if c == '5' {
        5
    } else if c == '6' {
        6
    } else if c == '7' {
        7
    } else if c == '8' {
        8
    } else if c == '9' {
        9
    } else {
        0
    }
}

/// The suit index that a letter of the notation stands for, -1 for any other character.
pub open spec fn suit_of_char(c: char) -> int {
    if c == 'm' {
        0
    } else if c == 'p' {
        1
    } else if c == 's' {
        2
    } else if c == 'z' {
        3
    } else {
        -1
    }
}

/// The identifier `steps` ranks away from `id` in the same numbered suit,
/// and 0 where there is none: honors have no neighbours, and a step never
/// leaves its suit.
pub open spec fn step_id(id: int, steps: int) -> int {
    if 1 <= id <= 27 && 1 <= rank_of(id) + steps <= 9 {
        id + steps
    } else {
        0
    }
}

/// The identifier that a tile category maps to, where the category is valid.
pub open spec fn id_of_type(tile_type: TileType) -> int {
    match tile_type {
        TileType::Number(n, TileColor::Manzu) => n as int,
        TileType::Number(n, TileColor::Pinzu) => n as int + 9,
        TileType::Number(n, TileColor::Souzu) => n as int + 18,
        TileType::Wind(n) => n as int + 27,
        TileType::Dragon(n) => n as int + 27,
    }
}

/// Whether a tile category exists: ranks 1 to 9, winds 1 to 4, dragons 5 to 7.
pub open spec fn valid_type(tile_type: TileType) -> bool {
    match tile_type {
        TileType::Number(n, _) => 1 <= n <= 9,
        TileType::Wind(n) => 1 <= n <= 4,
        TileType::Dragon(n) => 5 <= n <= 7,
    }
}

/// The category that an identifier stands for.
pub open spec fn type_of_id(id: int) -> TileType {
    if id <= 9 {
        TileType::Number(id as u8, TileColor::Manzu)
    } else if id <= 18 {
        TileType::Number((id - 9) as u8, TileColor::Pinzu)
    } else if id <= 27 {
        TileType::Number((id - 18) as u8, TileColor::Souzu)
    } else if id <= 31 {
        TileType::Wind((id - 27) as u8)
    } else {
        TileType::Dragon((id - 27) as u8)
    }
}

/// One of the 34 tile kinds, held as its identifier.
#[derive(Clone, Copy, Debug, PartialEq, Eq, Structural)]
pub struct TileKind {
    id: u8,
}

impl TileKind {
    #[verifier::type_invariant]
    spec fn in_range(self) -> bool {
        1 <= self.id <= 34
    }

    /// The identifier of this kind.
    pub closed spec fn id(self) -> int {
        self.id as int
    }

    /// The kind with the given identifier, for an identifier from 1 to 34.
    pub closed spec fn of(id: int) -> TileKind {
        TileKind { id: id as u8 }
    }

    /// No identifier is negative.
    pub proof fn lemma_id_nonnegative(kind: TileKind)
        ensures
            kind.id() >= 0,
    {
    }

    /// Two kinds with the same identifier are the same kind.
    pub proof fn lemma_same_id(a: TileKind, b: TileKind)
        ensures
            a.id() == b.id() ==> a == b,
    {
    }

    /// `of` is the inverse of `id`.
    pub proof fn lemma_of_id(id: int)
        requires
            valid_id(id),
        ensures
            TileKind::of(id).id() == id,
    {
    }

    /// The kind with the given identifier.
    pub fn from_id(id: u8) -> (r: Result<TileKind, RiichiError>)
        ensures
            match r {
                Ok(k) => valid_id(id as int) && k == TileKind::of(id as int),
                Err(e) => !valid_id(id as int) && e == RiichiError::IdOutOfRange,
            },
    {
        if 1 <= id && id <= 34 {
            Ok(TileKind { id })
        } else {
            Err(RiichiError::IdOutOfRange)
        }
    }

    /// The identifier, which always lies in `1..=34`.
    pub fn to_id(&self) -> (id: u8)
        ensures
            id == self.id(),
            valid_id(id as int),
    {
        proof {
            use_type_invariant(self);
        }
        self.id
    }
}

/// A tile: its kind and the flags of this one instance.
#[derive(Clone, Copy, Debug)]
pub struct Tile {
    pub kind: TileKind,
    /// The tile that was drawn last; at most one per hand.
    pub is_draw: bool,
    /// Locked into a declared meld.
    pub is_open: bool,
    pub is_chi: bool,
    pub is_pon: bool,
    pub is_kan: bool,
}

/// The tile of kind `kind` with every flag cleared.
pub open spec fn plain_tile(kind: TileKind) -> Tile {
    Tile { kind, is_draw: false, is_open: false, is_chi: false, is_pon: false, is_kan: false }
}

/// The tile with the given identifier and every flag cleared.
pub open spec fn fresh_tile(id: int) -> Tile {
    plain_tile(TileKind::of(id))
}

/// What a tile notation of two characters stands for: the rank `digit` in the
/// suit `letter`. The letter is looked at first.
pub open spec fn tile_of_chars(digit: char, letter: char) -> Result<int, RiichiError> {
    if suit_of_char(letter) < 0 {
        Err(RiichiError::UnknownSuit)
    } else if rank_of_digit(digit) == 0 || (suit_of_char(letter) == 3 && rank_of_digit(digit) > 7) {
        Err(RiichiError::RankOutOfRange)
    } else {
        Ok(suit_of_char(letter) * 9 + rank_of_digit(digit))
    }
}

/// What a tile notation stands for: the identifier, or the reason why it names no tile.
pub open spec fn tile_of_text(repr: Seq<char>) -> Result<int, RiichiError> {
    if repr.len() != 2 {
        Err(RiichiError::TileLength)
    } else {
        tile_of_chars(repr[0], repr[1])
    }
}

fn rank_from_digit(c: char) -> (r: u8)
    ensures
        r == rank_of_digit(c),
{
    if c == '1' {
        1
    } else if c == '2' {
        2
    } else if c == '3' {
        3
    } else if c == '4' {
        4
    } else if c == '5' {
        5
    } else if c == '6' {
        6
    } else if c == '7' {
        7
    } else if c == '8' {
        8
    } else if c == '9' {
        9
    } else {
        0
    }
}

impl Tile {
    /// The identifier of the tile's kind.
    pub open spec fn id(self) -> int {
        self.kind.id()
    }

    /// Whether the identifier lies in `1..=34`; true of every tile that exists at run time.
    pub open spec fn wf(self) -> bool {
        valid_id(self.id())
    }

    /// Position of the tile in the canonical order of a hand: by identifier
    /// first, then concealed before open, and the drawn tile last among
    /// otherwise equal tiles.
    pub open spec fn order_key(self) -> int {
        self.id() * 32 + (if self.is_open { 16int } else { 0 }) + (if self.is_kan { 8int } else { 0 })
            + (if self.is_pon { 4int } else { 0 }) + (if self.is_chi { 2int } else { 0 }) + (if self.is_draw { 1int } else { 0 })
    }

    /// A tile of the given kind with every flag cleared.
    pub fn of_kind(kind: TileKind) -> (t: Tile)
        ensures
            t == plain_tile(kind),
    {
        Tile { kind, is_draw: false, is_open: false, is_chi: false, is_pon: false, is_kan: false }
    }

    /// A tile of the given category with every flag cleared; fails when the
    /// category does not exist.
    pub fn new(tile_type: TileType) -> (r: Result<Tile, RiichiError>)
        ensures
            match r {
                Ok(t) => valid_type(tile_type) && t == fresh_tile(id_of_type(tile_type)),
                Err(e) => !valid_type(tile_type) && e == RiichiError::RankOutOfRange,
            },
    {
        let (n, base, limit_low, limit_high): (u8, u8, u8, u8) = match tile_type {
            TileType::Number(n, TileColor::Manzu) => (n, 0, 1, 9),
            TileType::Number(n, TileColor::Pinzu) => (n, 9, 1, 9),
            TileType::Number(n, TileColor::Souzu) => (n, 18, 1, 9),
            TileType::Wind(n) => (n, 27, 1, 4),
            TileType::Dragon(n) => (n, 27, 5, 7),
        };
        if limit_low <= n && n <= limit_high {
            match TileKind::from_id(n + base) {
                Ok(kind) => Ok(Tile::of_kind(kind)),
                Err(_) => Err(RiichiError::RankOutOfRange),
            }
        } else {
            Err(RiichiError::RankOutOfRange)
        }
    }

    /// The tile with the given identifier and every flag cleared; fails for
    /// an identifier outside `1..=34`.
    pub fn from_id(id: u8) -> (r: Result<Tile, RiichiError>)
        ensures
            match r {
                Ok(t) => valid_id(id as int) && t == fresh_tile(id as int),
                Err(e) => !valid_id(id as int) && e == RiichiError::IdOutOfRange,
            },
    {
        match TileKind::from_id(id) {
            Ok(kind) => Ok(Tile::of_kind(kind)),
            Err(_) => Err(RiichiError::IdOutOfRange),
        }
    }

    /// Reads the notation of one tile given as its two characters.
    pub fn from_chars(digit: char, letter: char) -> (r: Result<Tile, RiichiError>)
        ensures
            match r {
                Ok(t) => tile_of_chars(digit, letter) == Ok::<int, RiichiError>(t.id()) && t == fresh_tile(t.id()),
                Err(e) => tile_of_chars(digit, letter) == Err::<int, RiichiError>(e),
            },
    {
        let base: u8 = if letter == 'm' {
            0
        } else if letter == 'p' {
            9
        } else if letter == 's' {
            18
        } else if letter == 'z' {
            27
        } else {
            return Err(RiichiError::UnknownSuit);
        };
        let rank = rank_from_digit(digit);
        if rank == 0 || (base == 27 && rank > 7) {
            return Err(RiichiError::RankOutOfRange);
        }
        match TileKind::from_id(base + rank) {
            Ok(kind) => Ok(Tile::of_kind(kind)),
            Err(_) => Err(RiichiError::RankOutOfRange),
        }
    }

    /// Reads the notation of one tile: a digit and a suit letter, such as `5p`, or
    /// a digit from 1 to 7 and `z` for an honor.
    pub fn from_text(repr: &str) -> (r: Result<Tile, RiichiError>)
        ensures
            match r {
                Ok(t) => tile_of_text(repr@) == Ok::<int, RiichiError>(t.id()) && t == fresh_tile(t.id()),
                Err(e) => tile_of_text(repr@) == Err::<int, RiichiError>(e),
            },
    {
        if repr.unicode_len() != 2 {
            return Err(RiichiError::TileLength);
        }
        Tile::from_chars(repr.get_char(0), repr.get_char(1))
    }

    /// The identifier of the tile, from 1 to 34.
    pub fn to_id(&self) -> (id: u8)
        ensures
            id == self.id(),
            self.wf(),
    {
        self.kind.to_id()
    }

    /// The category of the tile.
    pub fn tile_type(&self) -> (t: TileType)
        ensures
            t == type_of_id(self.id()),
            valid_type(t),
            id_of_type(t) == self.id(),
    {
        let id = self.to_id();
        if id <= 9 {
            TileType::Number(id, TileColor::Manzu)
        } else if id <= 18 {
            TileType::Number(id - 9, TileColor::Pinzu)
        } else if id <= 27 {
            TileType::Number(id - 18, TileColor::Souzu)
        } else if id <= 31 {
            TileType::Wind(id - 27)
        } else {
            TileType::Dragon(id - 27)
        }
    }

    /// The rank of the tile in its suit: 1 to 9, and 1 to 7 for an honor.
    pub fn get_value(&self) -> (v: u8)
        ensures
            v == rank_of(self.id()),
            1 <= v <= 9,
    {
        (self.to_id() - 1) % 9 + 1
    }

    /// The letter of the tile's suit: `m`, `p`, `s`, or `z` for an honor.
    pub fn get_type_char(&self) -> (c: char)
        ensures
            c == suit_char(self.id()),
            c != 'x',
    {
        let id = self.to_id();
        if id <= 9 {
            'm'
        } else if id <= 18 {
            'p'
        } else if id <= 27 {
            's'
        } else {
            'z'
        }
    }

    /// The digit of the tile's rank.
    pub fn get_value_char(&self) -> (c: char)
        ensures
            c == digit_char(rank_of(self.id())),
    {
        let v = self.get_value();
        if v == 1 {
            '1'
        } else if v == 2 {
            '2'
        } else if v == 3 {
            '3'
        } else if v == 4 {
            '4'
        } else if v == 5 {
            '5'
        } else if v == 6 {
            '6'
        } else if v == 7 {
            '7'
        } else if v == 8 {
            '8'
        } else {
            '9'
        }
    }

    /// The identifier `n` ranks below this tile in its suit, and 0 where
    /// that would leave the suit or the tile is an honor. `wrap` changes nothing.
    pub fn prev_id(&self, wrap: bool, n: u8) -> (id: u8)
        ensures
            id == step_id(self.id(), -(n as int)),
    {
        let own = self.to_id();
        let rank = self.get_value();
        if own <= 27 && n < rank {
            own - n
        } else {
            0
        }
    }

    /// The identifier `n` ranks above this tile in its suit, and 0 where
    /// that would leave the suit or the tile is an honor. `wrap` changes nothing.
    pub fn next_id(&self, wrap: bool, n: u8) -> (id: u8)
        ensures
            id == step_id(self.id(), n as int),
    {
        let own = self.to_id();
        let rank = self.get_value();
        if own <= 27 && n <= 9 - rank {
            own + n
        } else {
            0
        }
    }

    /// Whether both tiles are of the same kind, whatever their flags.
    pub fn same_kind(&self, other: &Tile) -> (b: bool)
        ensures
            b == (self.id() == other.id()),
    {
        self.to_id() == other.to_id()
    }

    /// The tile's position in the canonical order, as a number.
    pub fn sort_key(&self) -> (k: u16)
        ensures
            k == self.order_key(),
            k >= 32,
    {
        let mut k: u16 = self.to_id() as u16 * 32;
        if self.is_open {
            k = k + 16;
        }
        if self.is_kan {
            k = k + 8;
        }
        if self.is_pon {
            k = k + 4;
        }
        if self.is_chi {
            k = k + 2;
        }
        if self.is_draw {
            k = k + 1;
        }
        k
    }

    /// The notation of the tile: the digit of its rank, then the letter of its suit.
    pub fn to_string(&self) -> (s: String)
        ensures
            s@ == seq![digit_char(rank_of(self.id())), suit_char(self.id())],
    {
        let mut s = String::new();
        push_char(&mut s, self.get_value_char());
        push_char(&mut s, self.get_type_char());
        assert(s@ =~= seq![digit_char(rank_of(self.id())), suit_char(self.id())]);
        s
    }
}

/// Two tiles with the same position in the canonical order are the same tile.
pub proof fn lemma_order_key_injective(a: Tile, b: Tile)
    requires
        a.order_key() == b.order_key(),
    ensures
        a == b,
{
    TileKind::lemma_same_id(a.kind, b.kind);
}

/// Reading back what `Tile::to_string` writes gives the same kind.
pub proof fn lemma_tile_text_round_trip(id: int)
    requires
        valid_id(id),
    ensures
        tile_of_chars(digit_char(rank_of(id)), suit_char(id)) == Ok::<int, RiichiError>(id),
{
}

} // verus!
