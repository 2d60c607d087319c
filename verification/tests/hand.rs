use riichi_tools::riichi::hand::Hand;
use riichi_tools::riichi::shapes::OpenShape;
use riichi_tools::riichi::tile::Tile;

#[test]
fn from_text_hand() {
    let rep = "123m123p12345s22z";
    let hand = Hand::from_text(rep, false).unwrap();

    let rep2 = hand.to_string();
    assert_eq!(rep2, rep);
}

#[test]
fn from_text_hand_add_chi() {
    let rep = "123m123p12345s22z";
    let mut hand = Hand::from_text(rep, false).unwrap();

    hand.add_open_shape(OpenShape::Chi([
        Tile::from_text("1m").unwrap(),
        Tile::from_text("2m").unwrap(),
        Tile::from_text("3m").unwrap(),
    ]))
    .unwrap();

    let mut open_tiles_count = 0u8;
    for rt in hand.get_tiles().iter() {
        match rt {
            None => {}
            Some(tile) => {
                if tile.is_open {
                    open_tiles_count += 1;
                }
            }
        }
    }

    let rep2 = hand.to_string();
    assert_eq!(rep2, rep);

    assert_eq!(open_tiles_count, 3);

    assert_eq!(hand.get_open_shapes().len(), 1);
}

#[test]
fn from_text_hand_add_pon() {
    let rep = "444m123p12345s22z";
    let mut hand = Hand::from_text(rep, false).unwrap();

    hand.add_open_shape(OpenShape::Pon([
        Tile::from_text("4m").unwrap(),
        Tile::from_text("4m").unwrap(),
        Tile::from_text("4m").unwrap(),
    ]))
    .unwrap();

    let mut open_tiles_count = 0u8;
    for rt in hand.get_tiles().iter() {
        match rt {
            None => {}
            Some(tile) => {
                if tile.is_open {
                    open_tiles_count += 1;
                }
            }
        }
    }

    let rep2 = hand.to_string();
    assert_eq!(rep2, rep);

    assert_eq!(open_tiles_count, 3);

    assert_eq!(hand.get_open_shapes().len(), 1);
}

#[test]
fn validation_ok() {
    let rep = "123m123p12345s22z";
    let mut hand = Hand::from_text(rep, false).unwrap();

    assert!(hand.validate());
}

#[test]
fn validation_bad_5_same_tiles() {
    let rep = "123m123p11111s22z";
    let mut hand = Hand::from_text(rep, true).unwrap();

    assert!(!hand.validate());
}

#[test]
fn validation_bad_too_many_tiles() {
    let rep = "123456789m123456789p12345s22z";
    let mut hand = Hand::from_text(rep, true).unwrap();

    assert!(!hand.validate());
}

#[test]
fn validation_bad_not_enough_tiles() {
    let rep = "123456m";
    let mut hand = Hand::from_text(rep, true).unwrap();

    assert!(!hand.validate());
}

#[test]
fn find_improving_tiles_2_shanten() {
    let mut hand = Hand::from_text("237m13478s45699p", false).unwrap();

    let tiles = hand.find_shanten_improving_tiles();

    println!("{:#?}", tiles);

    assert_eq!(tiles.get(0).unwrap().1.len(), 6);
}

#[test]
fn find_improving_tiles_2_shanten_14() {
    let mut hand = Hand::from_text("237m13478s45699p1z", false).unwrap();

    let result = hand.find_shanten_improving_tiles();

    assert_eq!(result.len(), 4);

    for row in result.iter() {
        match row.0 {
            Some(tile) => {
                if tile.to_string() == "7m" {
                    println!("tajl: {} count: {}", tile.to_string(), row.2);
                    assert_eq!(row.1.len(), 6);
                } else if tile.to_string() == "1s" {
                    println!("tajl: {} count: {}", tile.to_string(), row.2);
                    assert_eq!(row.1.len(), 6);
                } else if tile.to_string() == "1z" {
                    println!("tajl: {} count: {}", tile.to_string(), row.2);
                    assert_eq!(row.1.len(), 6);
                } else if tile.to_string() == "4s" {
                    println!("tajl: {} count: {}", tile.to_string(), row.2);
                    assert_eq!(row.1.len(), 5);
                    assert_eq!(row.2, 20);
                } else {
                    panic!("Test failed: wrong tiles found");
                }
            }
            None => (),
        }
    }
}

#[test]
fn find_improving_tiles_13_tenpai() {
    let mut hand = Hand::from_text("888p333s12345m77z", false).unwrap();
    let map = hand.find_shanten_improving_tiles();

    println!("{:#?}", map);

    assert_eq!(map.len(), 1);
}

#[test]
fn find_improving_tiles_14_tenpai() {
    let mut hand = Hand::from_text("123456789p12345m", false).unwrap();
    let map = hand.find_shanten_improving_tiles();

    assert_eq!(map.len(), 4);
}

#[test]
fn find_improving_tiles_14_complete() {
    let mut hand = Hand::from_text("123456789p12344m", false).unwrap();
    let map = hand.find_shanten_improving_tiles();

    assert_eq!(map.len(), 0);
}

#[test]
fn find_improving_tiles_14_kokushi() {
    let mut hand = Hand::from_text("129m19s19p1234566z", false).unwrap();
    let map = hand.find_shanten_improving_tiles();

    println!("{:#?}", map);

    assert_eq!(map.len(), 1);
}

#[test]
fn find_improving_tiles_13_3() {
    let mut hand = Hand::from_text("1234s123p999m456z", false).unwrap();
    let result = hand.find_shanten_improving_tiles();

    println!("{:#?}", result);

    assert_eq!(result.len(), 1);
}

#[test]
fn find_improving_tiles_14_repeating() {
    let mut hand = Hand::from_text("12356m12333s4499p", false).unwrap();
    let result = hand.find_shanten_improving_tiles();

    println!("{:#?}", result);

    assert_eq!(result.len(), 7);
}

#[test]
fn count_hand_normal_13() {
    let hand = Hand::from_text("237m13478s45699p", false).unwrap();

    assert_eq!(hand.count_tiles(), 13);
}

#[test]
fn count_hand_normal_14() {
    let hand = Hand::from_text("1237m13478s45699p", false).unwrap();

    assert_eq!(hand.count_tiles(), 14);
}

#[test]
fn remove_tile() {
    let mut hand = Hand::from_text("1237m13478s45699p", false).unwrap();
    let tile = Tile::from_text("1m").unwrap();
    hand.remove_tile(&tile);

    assert_eq!(hand.count_tiles(), 13);
    assert_eq!(hand.to_string(), "237m45699p13478s")
}

#[test]
fn remove_tile_by_id() {
    let mut hand = Hand::from_text("1237m13478s45699p", false).unwrap();
    let tile_id = 1;
    hand.remove_tile_by_id(tile_id).unwrap();

    assert_eq!(hand.count_tiles(), 13);
    assert_eq!(hand.to_string(), "237m45699p13478s")
}
