use riichi_tools::riichi::riichi_error::RiichiError;
use riichi_tools::riichi::tile::{Tile, TileColor, TileType};

#[test]
fn tile_ids_follow_the_fixed_layout() {
    assert_eq!(Tile::from_text("1m").unwrap().to_id(), 1);
    assert_eq!(Tile::from_text("9m").unwrap().to_id(), 9);
    assert_eq!(Tile::from_text("1p").unwrap().to_id(), 10);
    assert_eq!(Tile::from_text("9p").unwrap().to_id(), 18);
    assert_eq!(Tile::from_text("1s").unwrap().to_id(), 19);
    assert_eq!(Tile::from_text("9s").unwrap().to_id(), 27);
    assert_eq!(Tile::from_text("1z").unwrap().to_id(), 28);
    assert_eq!(Tile::from_text("7z").unwrap().to_id(), 34);
}

#[test]
fn tile_from_id_and_back() {
    for id in 1u8..=34 {
        let tile = Tile::from_id(id).unwrap();
        assert_eq!(tile.to_id(), id);
        assert!(!tile.is_draw && !tile.is_open && !tile.is_chi && !tile.is_pon && !tile.is_kan);
        let again = Tile::from_text(&tile.to_string()).unwrap();
        assert_eq!(again.to_id(), id);
    }
}

#[test]
fn tile_from_id_out_of_range() {
    assert_eq!(Tile::from_id(0).unwrap_err(), RiichiError::IdOutOfRange);
    assert_eq!(Tile::from_id(35).unwrap_err(), RiichiError::IdOutOfRange);
    assert_eq!(Tile::from_id(255).unwrap_err(), RiichiError::IdOutOfRange);
}

#[test]
fn tile_from_text_errors() {
    assert_eq!(Tile::from_text("5").unwrap_err(), RiichiError::TileLength);
    assert_eq!(Tile::from_text("").unwrap_err(), RiichiError::TileLength);
    assert_eq!(Tile::from_text("55m").unwrap_err(), RiichiError::TileLength);
    assert_eq!(Tile::from_text("5x").unwrap_err(), RiichiError::UnknownSuit);
    assert_eq!(Tile::from_text("0x").unwrap_err(), RiichiError::UnknownSuit);
    assert_eq!(Tile::from_text("0m").unwrap_err(), RiichiError::RankOutOfRange);
    assert_eq!(Tile::from_text("am").unwrap_err(), RiichiError::RankOutOfRange);
    assert_eq!(Tile::from_text("8z").unwrap_err(), RiichiError::RankOutOfRange);
    assert_eq!(Tile::from_text("9z").unwrap_err(), RiichiError::RankOutOfRange);
}

#[test]
fn tile_text_and_parts() {
    let tile = Tile::from_text("7s").unwrap();
    assert_eq!(tile.to_string(), "7s");
    assert_eq!(tile.get_value(), 7);
    assert_eq!(tile.get_type_char(), 's');
    assert_eq!(tile.get_value_char(), '7');
    let honor = Tile::from_text("5z").unwrap();
    assert_eq!(honor.to_string(), "5z");
    assert_eq!(honor.get_value(), 5);
    assert_eq!(honor.get_type_char(), 'z');
}

#[test]
fn tile_types() {
    assert_eq!(Tile::from_text("3p").unwrap().tile_type(), TileType::Number(3, TileColor::Pinzu));
    assert_eq!(Tile::from_text("9s").unwrap().tile_type(), TileType::Number(9, TileColor::Souzu));
    assert_eq!(Tile::from_text("4z").unwrap().tile_type(), TileType::Wind(4));
    assert_eq!(Tile::from_text("5z").unwrap().tile_type(), TileType::Dragon(5));
    assert_eq!(Tile::new(TileType::Number(1, TileColor::Manzu)).unwrap().to_id(), 1);
    assert_eq!(Tile::new(TileType::Dragon(7)).unwrap().to_id(), 34);
    assert_eq!(Tile::new(TileType::Wind(5)).unwrap_err(), RiichiError::RankOutOfRange);
    assert_eq!(Tile::new(TileType::Dragon(4)).unwrap_err(), RiichiError::RankOutOfRange);
    assert_eq!(Tile::new(TileType::Number(10, TileColor::Souzu)).unwrap_err(), RiichiError::RankOutOfRange);
    assert_eq!(Tile::new(TileType::Number(0, TileColor::Pinzu)).unwrap_err(), RiichiError::RankOutOfRange);
}

#[test]
fn tile_neighbours_stay_in_their_suit() {
    let five = Tile::from_text("5m").unwrap();
    assert_eq!(five.next_id(false, 1), 6);
    assert_eq!(five.next_id(false, 2), 7);
    assert_eq!(five.prev_id(false, 1), 4);
    assert_eq!(five.prev_id(false, 2), 3);
    assert_eq!(five.next_id(false, 4), 9);
    assert_eq!(five.next_id(false, 5), 0);
    assert_eq!(five.prev_id(false, 4), 1);
    assert_eq!(five.prev_id(false, 5), 0);
    let nine = Tile::from_text("9m").unwrap();
    assert_eq!(nine.next_id(false, 1), 0);
    assert_eq!(nine.next_id(true, 1), 0);
    assert_eq!(nine.prev_id(false, 2), 7);
    let one = Tile::from_text("1p").unwrap();
    assert_eq!(one.prev_id(false, 1), 0);
    assert_eq!(one.prev_id(true, 1), 0);
    assert_eq!(one.next_id(false, 2), 12);
    let nine_s = Tile::from_text("9s").unwrap();
    assert_eq!(nine_s.next_id(false, 1), 0);
    let east = Tile::from_text("1z").unwrap();
    assert_eq!(east.next_id(false, 1), 0);
    assert_eq!(east.prev_id(false, 1), 0);
    assert_eq!(east.next_id(true, 2), 0);
}

#[test]
fn tile_same_kind_ignores_flags() {
    let mut a = Tile::from_text("4m").unwrap();
    let b = Tile::from_text("4m").unwrap();
    a.is_draw = true;
    a.is_open = true;
    assert!(a.same_kind(&b));
    assert!(!a.same_kind(&Tile::from_text("4p").unwrap()));
}

#[test]
fn tile_sort_key_orders_by_kind_then_flags() {
    let plain = Tile::from_text("4m").unwrap();
    let mut drawn = plain;
    drawn.is_draw = true;
    let mut open = plain;
    open.is_open = true;
    open.is_pon = true;
    let next = Tile::from_text("5m").unwrap();
    assert_eq!(plain.sort_key(), 128);
    assert_eq!(drawn.sort_key(), 129);
    assert_eq!(open.sort_key(), 128 + 16 + 4);
    assert!(plain.sort_key() < drawn.sort_key());
    assert!(drawn.sort_key() < open.sort_key());
    assert!(open.sort_key() < next.sort_key());
}

#[test]
fn error_codes_and_messages() {
    assert_eq!(RiichiError::InvalidHand.code(), 100);
    assert_eq!(RiichiError::InvalidHand.message(), "Couldn't parse hand representation.");
    let all = [
        RiichiError::InvalidHand,
        RiichiError::TileLength,
        RiichiError::UnknownSuit,
        RiichiError::RankOutOfRange,
        RiichiError::IdOutOfRange,
        RiichiError::MeldNotInHand,
        RiichiError::NoDrawnTile,
        RiichiError::HandSize,
        RiichiError::UnterminatedRun,
        RiichiError::UnexpectedCharacter,
        RiichiError::EmptyRun,
    ];
    for (i, a) in all.iter().enumerate() {
        assert_eq!(a.code() as usize, 100 + i);
        assert!(!a.message().is_empty());
        for b in all.iter().skip(i + 1) {
            assert_ne!(a.code(), b.code());
        }
    }
}
