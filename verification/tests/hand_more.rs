use riichi_tools::riichi::hand::Hand;
use riichi_tools::riichi::riichi_error::RiichiError;
use riichi_tools::riichi::shapes::OpenShape;
use riichi_tools::riichi::tile::Tile;

fn tile(text: &str) -> Tile {
    Tile::from_text(text).unwrap()
}

#[test]
fn round_trip_of_canonical_notations() {
    for text in [
        "123m123p12345s22z",
        "1m",
        "7z",
        "119m",
        "19m19p19s12345677z",
        "1111m2222p3333s44z",
        "123456789m123456789p123456789s1234567z",
    ] {
        let hand = Hand::from_text(text, true).unwrap();
        assert_eq!(hand.to_string(), text);
    }
}

#[test]
fn notation_is_put_in_canonical_order() {
    let hand = Hand::from_text("22z12345s123p123m", false).unwrap();
    assert_eq!(hand.to_string(), "123m123p12345s22z");
    let hand = Hand::from_text("3m2m1m", true).unwrap();
    assert_eq!(hand.to_string(), "123m");
    let hand = Hand::from_text("1m1p1m", true).unwrap();
    assert_eq!(hand.to_string(), "11m1p");
}

#[test]
fn notation_of_the_empty_hand() {
    assert_eq!(Hand::default().to_string(), "x");
    assert_eq!(Hand::new(vec![None, None]).to_string(), "x");
    assert_eq!(Hand::from_text("", true).unwrap().to_string(), "x");
    assert_eq!(Hand::from_text("", true).unwrap().get_tiles().len(), 0);
}

#[test]
fn reading_refuses_a_digit_without_its_suit_letter() {
    for force in [false, true] {
        assert_eq!(Hand::from_text("123m123p12345s22z7", force).err(), Some(RiichiError::UnterminatedRun));
        assert_eq!(Hand::from_text("12m34", force).err(), Some(RiichiError::UnterminatedRun));
        assert_eq!(Hand::from_text("123", force).err(), Some(RiichiError::UnterminatedRun));
        assert_eq!(Hand::from_text("7", force).err(), Some(RiichiError::UnterminatedRun));
    }
    assert_eq!(RiichiError::UnterminatedRun.code(), 108);
}

#[test]
fn reading_refuses_a_letter_that_names_no_suit() {
    for force in [false, true] {
        assert_eq!(Hand::from_text("1x", force).err(), Some(RiichiError::UnknownSuit));
        assert_eq!(Hand::from_text("12x34m", force).err(), Some(RiichiError::UnknownSuit));
        assert_eq!(Hand::from_text("123m123p12345s22x", force).err(), Some(RiichiError::UnknownSuit));
        assert_eq!(Hand::from_text("x", force).err(), Some(RiichiError::UnknownSuit));
        assert_eq!(Hand::from_text("5é", force).err(), Some(RiichiError::UnknownSuit));
    }
}

#[test]
fn reading_refuses_any_other_character() {
    for force in [false, true] {
        assert_eq!(Hand::from_text("1 2m", force).err(), Some(RiichiError::UnexpectedCharacter));
        assert_eq!(Hand::from_text("123m,123p", force).err(), Some(RiichiError::UnexpectedCharacter));
        assert_eq!(Hand::from_text(" 123m", force).err(), Some(RiichiError::UnexpectedCharacter));
        assert_eq!(Hand::from_text("123m\n", force).err(), Some(RiichiError::UnexpectedCharacter));
    }
    assert_eq!(RiichiError::UnexpectedCharacter.code(), 109);
}

#[test]
fn reading_refuses_a_suit_letter_without_digits() {
    for force in [false, true] {
        assert_eq!(Hand::from_text("m", force).err(), Some(RiichiError::EmptyRun));
        assert_eq!(Hand::from_text("12mp", force).err(), Some(RiichiError::EmptyRun));
        assert_eq!(Hand::from_text("m12p", force).err(), Some(RiichiError::EmptyRun));
        assert_eq!(Hand::from_text("1 2-m", force).err(), Some(RiichiError::EmptyRun));
    }
    assert_eq!(RiichiError::EmptyRun.code(), 110);
}

#[test]
fn reading_reports_the_rightmost_character_out_of_place() {
    // the stray digit stands to the right of the unknown letter
    assert_eq!(Hand::from_text("1q2", true).err(), Some(RiichiError::UnterminatedRun));
    // the unknown letter stands to the right of the blank
    assert_eq!(Hand::from_text("1 2q", true).err(), Some(RiichiError::UnknownSuit));
    // the rank that honors lack stands to the right of the lone letter
    assert_eq!(Hand::from_text("m8z", true).err(), Some(RiichiError::RankOutOfRange));
    assert_eq!(Hand::from_text("8zm", true).err(), Some(RiichiError::EmptyRun));
    // a text without characters holds nothing out of place
    assert_eq!(Hand::from_text("", true).unwrap().get_tiles().len(), 0);
}

#[test]
fn reading_fails_on_the_rightmost_bad_tile() {
    assert_eq!(Hand::from_text("12q", true).err(), Some(RiichiError::UnknownSuit));
    assert_eq!(Hand::from_text("0m", true).err(), Some(RiichiError::RankOutOfRange));
    assert_eq!(Hand::from_text("8z", true).err(), Some(RiichiError::RankOutOfRange));
    assert_eq!(Hand::from_text("1q8z", true).err(), Some(RiichiError::RankOutOfRange));
    assert_eq!(Hand::from_text("8z1q", true).err(), Some(RiichiError::UnknownSuit));
    assert_eq!(Hand::from_text("1M", true).err(), Some(RiichiError::UnknownSuit));
}

#[test]
fn strict_reading_refuses_an_illegal_hand() {
    assert_eq!(Hand::from_text("123m", false).err(), Some(RiichiError::InvalidHand));
    assert_eq!(Hand::from_text("123m123p11111s22z", false).err(), Some(RiichiError::InvalidHand));
    assert_eq!(Hand::from_text("123456789m123456p", false).err(), Some(RiichiError::InvalidHand));
    assert_eq!(Hand::from_text("", false).err(), Some(RiichiError::InvalidHand));
    assert_eq!(RiichiError::InvalidHand.code(), 100);
    assert!(Hand::from_text("123m", true).is_ok());
}

#[test]
fn the_tile_written_last_is_the_drawn_one() {
    let hand = Hand::from_text("123m123p12345s22z", false).unwrap();
    let drawn = hand.get_drawn_tile().unwrap();
    assert_eq!(drawn.to_string(), "2z");
    assert!(drawn.is_draw);
    let flagged = hand.get_tiles().iter().filter(|slot| slot.unwrap().is_draw).count();
    assert_eq!(flagged, 1);
    // the drawn tile stands after its equals
    assert!(hand.get_tiles()[12].unwrap().is_draw);
    assert!(!hand.get_tiles()[11].unwrap().is_draw);

    let hand = Hand::from_text("9m1p1m", true).unwrap();
    assert_eq!(hand.get_drawn_tile().unwrap().to_string(), "1m");
    assert_eq!(hand.to_string(), "19m1p");
}

#[test]
fn no_drawn_tile() {
    assert_eq!(Hand::default().get_drawn_tile().err(), Some(RiichiError::NoDrawnTile));
    let hand = Hand::new(vec![Some(tile("1m")), None, Some(tile("2m"))]);
    assert_eq!(hand.get_drawn_tile().err(), Some(RiichiError::NoDrawnTile));
}

#[test]
fn tokens_put_the_drawn_tile_last() {
    let hand = Hand::from_text("9m1p1m", true).unwrap();
    assert_eq!(hand.to_vec_of_strings(), vec!["m9", "p1", "m1"]);
    let hand = Hand::from_text("123m", true).unwrap();
    assert_eq!(hand.to_vec_of_strings(), vec!["m1", "m2", "m3"]);
    assert_eq!(Hand::default().to_vec_of_strings(), Vec::<String>::new());
    let plain = Hand::new(vec![Some(tile("5z")), None, Some(tile("1s"))]);
    assert_eq!(plain.to_vec_of_strings(), vec!["z5", "s1"]);
}

#[test]
fn new_keeps_the_slots_as_given() {
    let hand = Hand::new(vec![Some(tile("5z")), None, Some(tile("1s"))]);
    assert_eq!(hand.get_tiles().len(), 3);
    assert!(hand.get_tiles()[1].is_none());
    assert_eq!(hand.to_string(), "5z1s");
    assert!(hand.is_closed());
    assert_eq!(hand.get_open_shapes().len(), 0);
    assert_eq!(hand.count_tiles(), 2);
}

#[test]
fn histogram_counts_each_kind() {
    let mut hand = Hand::from_text("123m123p11111s22z", true).unwrap();
    let array = hand.get_34_array(false);
    assert_eq!(array[0], 1);
    assert_eq!(array[1], 1);
    assert_eq!(array[2], 1);
    assert_eq!(array[3], 0);
    assert_eq!(array[9], 1);
    assert_eq!(array[18], 5);
    assert_eq!(array[28], 2);
    assert_eq!(array.iter().map(|n| *n as usize).sum::<usize>(), 13);
    assert_eq!(hand.get_34_array(true), array);
}

#[test]
fn histogram_counts_stop_at_255() {
    let mut hand = Hand::new(vec![Some(tile("1m")); 300]);
    assert_eq!(hand.get_34_array(false)[0], 255);
    assert!(!hand.validate());
    assert_eq!(hand.count_tiles(), 300);
}

#[test]
fn validation_bounds() {
    // 13 to 18 tiles in the slots
    assert!(!Hand::new(vec![Some(tile("1m")); 4]).validate());
    assert!(!Hand::from_text("123456789m123p", true).unwrap().validate());
    assert!(Hand::from_text("123456789m1234p", true).unwrap().validate());
    assert!(Hand::from_text("123456789m12345p", true).unwrap().validate());
    // a size above 14
    assert!(!Hand::from_text("123456789m123456p", true).unwrap().validate());
    // four of a kind at most
    assert!(Hand::from_text("1111m2222p3333s4z", true).unwrap().validate());
    assert!(!Hand::from_text("11111m222p3333s4z", true).unwrap().validate());
    // quads take four slots and count as three tiles
    let mut slots: Vec<Option<Tile>> = Hand::from_text("123456789m12p", true).unwrap().get_tiles().clone();
    for _ in 0..4 {
        let mut quad = tile("1z");
        quad.is_kan = true;
        quad.is_open = true;
        slots.push(Some(quad));
    }
    let mut with_quad = Hand::new(slots);
    assert_eq!(with_quad.count_tiles(), 14);
    assert!(with_quad.validate());
    assert!(!Hand::new(Vec::new()).validate());
}

#[test]
fn add_tile_keeps_the_canonical_order() {
    let mut hand = Hand::from_text("237m13478s45699p", false).unwrap();
    hand.add_tile(tile("5m"));
    assert_eq!(hand.to_string(), "2357m45699p13478s");
    assert_eq!(hand.count_tiles(), 14);
    hand.add_tile(tile("1z"));
    assert_eq!(hand.to_string(), "2357m45699p13478s1z");
    let mut unsorted = Hand::new(vec![Some(tile("5z")), None, Some(tile("1s"))]);
    unsorted.add_tile(tile("9m"));
    assert_eq!(unsorted.to_string(), "9m1s5z");
    assert!(unsorted.get_tiles()[0].is_none());
    assert_eq!(unsorted.get_tiles().len(), 4);
}

#[test]
fn remove_tile_takes_the_first_of_its_kind() {
    let mut hand = Hand::from_text("99m1p9m", true).unwrap();
    // the drawn tile stands last among the three
    hand.remove_tile(&tile("9m"));
    assert_eq!(hand.to_string(), "99m1p");
    assert_eq!(hand.get_drawn_tile().unwrap().to_string(), "9m");
    hand.remove_tile(&tile("9m"));
    hand.remove_tile(&tile("9m"));
    assert_eq!(hand.to_string(), "1p");
    assert!(hand.get_drawn_tile().is_err());
    // a kind that the hand does not hold
    hand.remove_tile(&tile("9m"));
    assert_eq!(hand.to_string(), "1p");
}

#[test]
fn remove_tile_by_id_out_of_range() {
    let mut hand = Hand::from_text("1237m13478s45699p", false).unwrap();
    assert_eq!(hand.remove_tile_by_id(0), Err(RiichiError::IdOutOfRange));
    assert_eq!(hand.remove_tile_by_id(35), Err(RiichiError::IdOutOfRange));
    assert_eq!(hand.to_string(), "1237m45699p13478s");
    assert_eq!(hand.remove_tile_by_id(34), Ok(()));
    assert_eq!(hand.to_string(), "1237m45699p13478s");
}

#[test]
fn a_meld_needs_its_tiles_in_the_hand() {
    let mut hand = Hand::from_text("123m123p12345s22z", false).unwrap();
    let before: Vec<bool> = hand.get_tiles().iter().map(|slot| slot.unwrap().is_open).collect();
    let shape = OpenShape::Chi([tile("1m"), tile("2m"), tile("4m")]);
    assert_eq!(hand.add_open_shape(shape), Err(RiichiError::MeldNotInHand));
    let after: Vec<bool> = hand.get_tiles().iter().map(|slot| slot.unwrap().is_open).collect();
    assert_eq!(before, after);
    assert!(hand.is_closed());
    assert_eq!(hand.get_open_shapes().len(), 0);
}

#[test]
fn a_tile_is_taken_by_one_meld_only() {
    let mut hand = Hand::from_text("123m123p12345s22z", false).unwrap();
    let shape = OpenShape::Chi([tile("1m"), tile("2m"), tile("3m")]);
    assert_eq!(hand.add_open_shape(shape), Ok(()));
    assert_eq!(hand.add_open_shape(shape), Err(RiichiError::MeldNotInHand));
    assert_eq!(hand.get_open_shapes().len(), 1);
    for slot in hand.get_tiles().iter().take(3) {
        let t = slot.unwrap();
        assert!(t.is_open && t.is_chi && !t.is_pon && !t.is_kan);
    }
    for slot in hand.get_tiles().iter().skip(3) {
        let t = slot.unwrap();
        assert!(!t.is_open && !t.is_chi && !t.is_pon && !t.is_kan);
    }
}

#[test]
fn a_quad_counts_as_three_tiles() {
    let mut hand = Hand::from_text("1111m123p12345s22z", true).unwrap();
    assert_eq!(hand.count_tiles(), 14);
    let one = tile("1m");
    assert_eq!(hand.add_open_shape(OpenShape::Kan([one, one, one, one])), Ok(()));
    assert_eq!(hand.count_tiles(), 13);
    let flagged = hand.get_tiles().iter().filter(|slot| slot.unwrap().is_kan).count();
    assert_eq!(flagged, 4);
    assert_eq!(hand.to_string(), "1111m123p12345s22z");
    assert_eq!(hand.shanten(), 0);
}
