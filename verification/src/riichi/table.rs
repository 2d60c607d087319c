//! The state of a game as one player sees it.

use vstd::prelude::*;
use crate::riichi::hand::Hand;
use crate::riichi::notation::read_slots;
use crate::riichi::riichi_error::RiichiError;
use crate::riichi::shapes::OpenShape;
use crate::riichi::tally::{in_order, valid_tiles};
use crate::riichi::tile::Tile;

verus! {

/// A JSON object of `serde_json`: a map from names to JSON values.
#[verifier::external_type_specification]
#[verifier::external_body]
#[verifier::reject_recursive_types(K)]
#[verifier::reject_recursive_types(V)]
pub struct ExJsonMap<K, V>(serde_json::Map<K, V>);

/// A JSON value of `serde_json`.
#[verifier::external_type_specification]
#[verifier::external_body]
pub struct ExJsonValue(serde_json::Value);

/// The entries of a JSON object whose value is a JSON string, by name.
pub uninterp spec fn text_fields(params: serde_json::Map<String, serde_json::Value>) -> Map<Seq<char>, Seq<char>>;

/// The entries of a JSON object whose value is a JSON boolean, by name.
pub uninterp spec fn flag_fields(params: serde_json::Map<String, serde_json::Value>) -> Map<Seq<char>, bool>;

/// `serde_json::Map::get`, for an entry that holds a string: the string
/// under `key`, and `None` where the object has no such entry or its
/// value is no string.
#[verifier::external_body]
fn text_field(params: &serde_json::Map<String, serde_json::Value>, key: &str) -> (r: Option<String>)
    ensures
        match r {
            Some(text) => text_fields(*params).contains_key(key@) && text_fields(*params)[key@] == text@,
            None => !text_fields(*params).contains_key(key@),
        },
{
    match params.get(key) {
        Some(serde_json::Value::String(text)) => Some(text.clone()),
        _ => None,
    }
}

/// `serde_json::Map::get`, for an entry that holds a boolean: the boolean
/// under `key`, and `None` where the object has no such entry or its
/// value is no boolean.
#[verifier::external_body]
fn flag_field(params: &serde_json::Map<String, serde_json::Value>, key: &str) -> (r: Option<bool>)
    ensures
        match r {
            Some(flag) => flag_fields(*params).contains_key(key@) && flag_fields(*params)[key@] == flag,
            None => !flag_fields(*params).contains_key(key@),
        },
{
    match params.get(key) {
        Some(serde_json::Value::Bool(flag)) => Some(*flag),
        _ => None,
    }
}

/// The text under `key`, if the object holds one.
pub open spec fn text_under(params: serde_json::Map<String, serde_json::Value>, key: Seq<char>) -> Option<
    Seq<char>,
> {
    if text_fields(params).contains_key(key) {
        Some(text_fields(params)[key])
    } else {
        None
    }
}

/// The boolean under `key`, if the object holds one.
pub open spec fn flag_under(params: serde_json::Map<String, serde_json::Value>, key: Seq<char>) -> Option<bool> {
    if flag_fields(params).contains_key(key) {
        Some(flag_fields(params)[key])
    } else {
        None
    }
}

/// The state of a game as one player sees it: the player's own hand, and
/// what is known of the three others and of the round.
#[allow(dead_code)]
pub struct Table {
    my_hand: Hand,
    my_riichi: bool,
    // player to the right
    shimocha_discards: Vec<Tile>,
    shimocha_open_tiles: Vec<OpenShape>,
    shimocha_riichi: bool,
    // player to the left
    kamicha_discards: Vec<Tile>,
    kamicha_open_tiles: Vec<OpenShape>,
    kamicha_riichi: bool,
    // opposite player
    toimen_discards: Vec<Tile>,
    toimen_open_tiles: Vec<OpenShape>,
    toimen_riichi: bool,
    // 1 = east, 2 = south, 3 = west, 4 = north
    prevalent_wind: u8,
    my_seat_wind: u8,
    wind_round: u8,
    total_round: u8,
    dora_indicators: Vec<Tile>,
    riichi_sticks_in_pot: u8,
    tsumibo: u8,
}

/// Whether `table` is what the given fields describe: the hand that the
/// notation stands for, in canonical order and without melds, or the
/// empty hand where no notation is given; and the riichi flag, cleared
/// where none is given.
pub open spec fn table_holds(table: Table, my_hand: Option<Seq<char>>, my_riichi: Option<bool>) -> bool {
    &&& table.riichi() == (my_riichi == Some(true))
    &&& table.hand()@.open_shapes.len() == 0
    &&& match my_hand {
        Some(text) => read_slots(text) matches Ok(parsed) && in_order(table.hand()@.tiles)
            && table.hand()@.tiles.to_multiset() == parsed.to_multiset(),
        None => table.hand()@.tiles.len() == 0,
    }
}

/// What reading a table from the given fields comes to: the error of the
/// hand's notation, the refusal of a hand that breaks the counting rules,
/// or success.
pub open spec fn table_reading(my_hand: Option<Seq<char>>) -> Result<(), RiichiError> {
    match my_hand {
        Some(text) => match read_slots(text) {
            Err(e) => Err(e),
            Ok(parsed) => if valid_tiles(parsed) {
                Ok(())
            } else {
                Err(RiichiError::InvalidHand)
            },
        },
        None => Ok(()),
    }
}

impl Table {
    /// The player's own hand.
    pub closed spec fn hand(self) -> Hand {
        self.my_hand
    }

    /// Whether the player has declared riichi.
    pub closed spec fn riichi(self) -> bool {
        self.my_riichi
    }

    /// The player's own hand.
    pub fn my_hand(&self) -> (hand: &Hand)
        ensures
            *hand == self.hand(),
    {
        &self.my_hand
    }

    /// Whether the player has declared riichi.
    pub fn my_riichi(&self) -> (riichi: bool)
        ensures
            riichi == self.riichi(),
    {
        self.my_riichi
    }

    /// A table from the fields that describe it: the notation of the
    /// player's hand and the player's riichi flag, each of which may be
    /// missing. A notation that does not parse, or that stands for a hand
    /// that breaks the counting rules, is refused with the hand's error.
    pub fn from_fields(my_hand: Option<&str>, my_riichi: Option<bool>) -> (r: Result<Table, RiichiError>)
        ensures
            match r {
                Ok(table) => table_reading(
                    match my_hand {
                        Some(text) => Some(text@),
                        None => None,
                    },
                ) is Ok && table_holds(
                    table,
                    match my_hand {
                        Some(text) => Some(text@),
                        None => None,
                    },
                    my_riichi,
                ),
                Err(e) => table_reading(
                    match my_hand {
                        Some(text) => Some(text@),
                        None => None,
                    },
                ) == Err::<(), RiichiError>(e),
            },
    {
        let hand = match my_hand {
            Some(text) => match Hand::from_text(text, false) {
                Ok(hand) => hand,
                Err(e) => {
                    return Err(e);
                },
            },
            None => Hand::new(Vec::new()),
        };
        let riichi = match my_riichi {
            Some(flag) => flag,
            None => false,
        };
        Ok(
            Table {
                my_hand: hand,
                my_riichi: riichi,
                shimocha_discards: Vec::new(),
                shimocha_open_tiles: Vec::new(),
                shimocha_riichi: false,
                kamicha_discards: Vec::new(),
                kamicha_open_tiles: Vec::new(),
                kamicha_riichi: false,
                toimen_discards: Vec::new(),
                toimen_open_tiles: Vec::new(),
                toimen_riichi: false,
                prevalent_wind: 0,
                my_seat_wind: 0,
                wind_round: 0,
                total_round: 0,
                dora_indicators: Vec::new(),
                riichi_sticks_in_pot: 0,
                tsumibo: 0,
            },
        )
    }

    /// A table from a JSON object. The string under `my_hand` is the
    /// notation of the player's hand, the boolean under `my_riichi` the
    /// player's riichi flag; entries of another type, and all other
    /// entries, are passed over.
    pub fn from_map(params: &serde_json::Map<String, serde_json::Value>) -> (r: Result<Table, RiichiError>)
        ensures
            match r {
                Ok(table) => table_reading(text_under(*params, "my_hand"@)) is Ok && table_holds(
                    table,
                    text_under(*params, "my_hand"@),
                    flag_under(*params, "my_riichi"@),
                ),
                Err(e) => table_reading(text_under(*params, "my_hand"@)) == Err::<(), RiichiError>(e),
            },
    {
        let my_hand = text_field(params, "my_hand");
        let my_riichi = flag_field(params, "my_riichi");
        match my_hand {
            Some(text) => Table::from_fields(Some(text.as_str()), my_riichi),
            None => Table::from_fields(None, my_riichi),
        }
    }
}

} // verus!
