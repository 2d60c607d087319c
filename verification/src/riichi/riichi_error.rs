//! Errors reported by the library.

use vstd::prelude::*;
use vstd::string::*;

verus! {

/// What went wrong while reading a notation or changing a hand.
#[derive(Clone, Copy, Debug, PartialEq, Eq, Structural)]
pub enum RiichiError {
    /// The hand notation parsed, but the hand breaks the counting rules.
    InvalidHand,
    /// A tile notation is not exactly two characters long.
    TileLength,
    /// The second character of a tile notation names no suit.
    UnknownSuit,
    /// The first character of a tile notation is no rank of the named suit.
    RankOutOfRange,
    /// A tile identifier lies outside `1..=34`.
    IdOutOfRange,
    /// A declared meld names a tile that the hand cannot supply.
    MeldNotInHand,
    /// The hand has no tile flagged as drawn.
    NoDrawnTile,
    /// The hand's size is neither 13 nor 14, so it has no shanten.
    HandSize,
    /// A hand notation holds a digit with no suit letter to its right.
    UnterminatedRun,
    /// A hand notation holds a character that is neither a digit nor a letter.
    UnexpectedCharacter,
    /// A hand notation holds a suit letter that no digit stands before.
    EmptyRun,
}

impl RiichiError {
    /// The numeric code of each error.
    pub open spec fn code_spec(self) -> int {
        match self {
            RiichiError::InvalidHand => 100,
            RiichiError::TileLength => 101,
            RiichiError::UnknownSuit => 102,
            RiichiError::RankOutOfRange => 103,
            RiichiError::IdOutOfRange => 104,
            RiichiError::MeldNotInHand => 105,
            RiichiError::NoDrawnTile => 106,
            RiichiError::HandSize => 107,
            RiichiError::UnterminatedRun => 108,
            RiichiError::UnexpectedCharacter => 109,
            RiichiError::EmptyRun => 110,
        }
    }

    /// The message of each error.
    pub open spec fn message_spec(self) -> Seq<char> {
        match self {
            RiichiError::InvalidHand => "Couldn't parse hand representation."@,
            RiichiError::TileLength => "A tile is written as two characters."@,
            RiichiError::UnknownSuit => "Unknown suit letter."@,
            RiichiError::RankOutOfRange => "Wrong number for this kind of tile."@,
            RiichiError::IdOutOfRange => "Tile ID must be between 1 and 34."@,
            RiichiError::MeldNotInHand => "Invalid tiles in open shape."@,
            RiichiError::NoDrawnTile => "The hand has no drawn tile."@,
            RiichiError::HandSize => "Only hands of 13 or 14 tiles have a shanten."@,
            RiichiError::UnterminatedRun => "A digit has no suit letter after it."@,
            RiichiError::UnexpectedCharacter => "Only digits and suit letters may be written."@,
            RiichiError::EmptyRun => "A suit letter has no digit before it."@,
        }
    }

    /// Message carried by the error.
    pub fn message(&self) -> (m: String)
        ensures
            m@ == self.message_spec(),
    {
        match self {
            RiichiError::InvalidHand => String::from_str("Couldn't parse hand representation."),
            RiichiError::TileLength => String::from_str("A tile is written as two characters."),
            RiichiError::UnknownSuit => String::from_str("Unknown suit letter."),
            RiichiError::RankOutOfRange => String::from_str("Wrong number for this kind of tile."),
            RiichiError::IdOutOfRange => String::from_str("Tile ID must be between 1 and 34."),
            RiichiError::MeldNotInHand => String::from_str("Invalid tiles in open shape."),
            RiichiError::NoDrawnTile => String::from_str("The hand has no drawn tile."),
            RiichiError::HandSize => String::from_str("Only hands of 13 or 14 tiles have a shanten."),
            RiichiError::UnterminatedRun => String::from_str("A digit has no suit letter after it."),
            RiichiError::UnexpectedCharacter => String::from_str("Only digits and suit letters may be written."),
            RiichiError::EmptyRun => String::from_str("A suit letter has no digit before it."),
        }
    }

    /// Numeric code carried by the error; distinct errors have distinct codes.
    pub fn code(&self) -> (c: u16)
        ensures
            c == self.code_spec(),
    {
        match self {
            RiichiError::InvalidHand => 100,
            RiichiError::TileLength => 101,
            RiichiError::UnknownSuit => 102,
            RiichiError::RankOutOfRange => 103,
            RiichiError::IdOutOfRange => 104,
            RiichiError::MeldNotInHand => 105,
            RiichiError::NoDrawnTile => 106,
            RiichiError::HandSize => 107,
            RiichiError::UnterminatedRun => 108,
            RiichiError::UnexpectedCharacter => 109,
            RiichiError::EmptyRun => 110,
        }
    }
}

} // verus!
