use riichi_tools::riichi::hand::Hand;
use riichi_tools::riichi::improve::{find_improving, improving_discards, improving_draws};
use riichi_tools::riichi::shapes::OpenShape;
use riichi_tools::riichi::tile::Tile;

fn names(tiles: &Vec<Tile>) -> Vec<String> {
    tiles.iter().map(|t| t.to_string()).collect()
}

#[test]
fn draws_for_thirteen_tiles() {
    let mut hand = Hand::from_text("237m13478s45699p", false).unwrap();
    let rows = hand.find_shanten_improving_tiles();
    assert_eq!(rows.len(), 1);
    assert!(rows[0].0.is_none());
    assert_eq!(names(&rows[0].1), vec!["1m", "4m", "2s", "5s", "6s", "9s"]);
    assert_eq!(rows[0].2, 24);
    // the hand is as it was
    assert_eq!(hand.to_string(), "237m45699p13478s");
    assert_eq!(hand.count_tiles(), 13);
}

#[test]
fn copies_in_the_hand_are_not_left_to_draw() {
    // waits on 3m and 6m with one 3m in the hand... and on the pair
    let mut hand = Hand::from_text("3345m123p123s111z", false).unwrap();
    assert_eq!(hand.shanten(), 0);
    let rows = hand.find_shanten_improving_tiles();
    assert_eq!(names(&rows[0].1), vec!["3m", "6m"]);
    assert_eq!(rows[0].2, 2 + 4);
}

#[test]
fn discards_for_fourteen_tiles() {
    let mut hand = Hand::from_text("237m13478s45699p1z", false).unwrap();
    let rows = hand.find_shanten_improving_tiles();
    let discards: Vec<String> = rows.iter().map(|row| row.0.unwrap().to_string()).collect();
    // rows with equal totals keep the order of the hand
    assert_eq!(discards, vec!["7m", "1s", "1z", "4s"]);
    let totals: Vec<u8> = rows.iter().map(|row| row.2).collect();
    assert_eq!(totals, vec![24, 24, 24, 20]);
    assert_eq!(names(&rows[3].1), vec!["1m", "4m", "2s", "6s", "9s"]);
    assert_eq!(hand.to_string(), "237m45699p13478s1z");
}

#[test]
fn rows_come_by_falling_total() {
    for text in ["12356m12333s4499p", "123456789p12345m", "237m13478s45699p1z", "129m19s19p1234566z"] {
        let mut hand = Hand::from_text(text, false).unwrap();
        let rows = hand.find_shanten_improving_tiles();
        for pair in rows.windows(2) {
            assert!(pair[0].2 >= pair[1].2);
        }
    }
}

#[test]
fn accepted_draws_lower_the_shanten_after_the_discard() {
    for text in ["12356m12333s4499p", "123456789p12345m", "237m13478s45699p1z", "129m19s19p1234566z"] {
        let mut hand = Hand::from_text(text, false).unwrap();
        let current = hand.shanten();
        let rows = hand.find_shanten_improving_tiles();
        assert!(!rows.is_empty());
        for row in rows.iter() {
            let discard = row.0.unwrap();
            for accepted in row.1.iter() {
                let mut trial = Hand::from_text(text, false).unwrap();
                trial.remove_tile(&discard);
                trial.add_tile(*accepted);
                assert!(trial.shanten() < current);
            }
        }
    }
}

#[test]
fn other_sizes_get_no_row() {
    assert_eq!(Hand::from_text("123m", true).unwrap().find_shanten_improving_tiles().len(), 0);
    assert_eq!(Hand::default().find_shanten_improving_tiles().len(), 0);
    assert_eq!(Hand::from_text("123456789m123456p", true).unwrap().find_shanten_improving_tiles().len(), 0);
}

#[test]
fn draws_against_a_given_shanten() {
    let mut hand = Hand::from_text("237m13478s45699p", false).unwrap();
    let (tiles, total) = hand.get_shanten_improving_tiles_13(2);
    assert_eq!(names(&tiles), vec!["1m", "4m", "2s", "5s", "6s", "9s"]);
    assert_eq!(total, 24);
    // no draw brings the hand below a shanten of 1
    let (tiles, total) = hand.get_shanten_improving_tiles_13(1);
    assert_eq!(tiles.len(), 0);
    assert_eq!(total, 0);
    // against a shanten of 3, every draw that is tried and keeps the shanten at 2 counts
    let (tiles, _) = improving_draws(hand.get_tiles(), 0, 3);
    assert!(tiles.len() > 6);
}

#[test]
fn terminals_and_honors_are_always_tried() {
    // 13 orphans waits on the one kind it lacks, far from every tile
    let mut hand = Hand::from_text("19m19p19s1234566z", false).unwrap();
    let rows = hand.find_shanten_improving_tiles();
    assert_eq!(names(&rows[0].1), vec!["7z"]);
    assert_eq!(rows[0].2, 4);
}

#[test]
fn free_functions_agree_with_the_hand() {
    let mut hand = Hand::from_text("237m13478s45699p1z", false).unwrap();
    let by_hand = hand.find_shanten_improving_tiles();
    let free = find_improving(hand.get_tiles(), 0);
    assert_eq!(free.len(), by_hand.len());
    for (a, b) in free.iter().zip(by_hand.iter()) {
        assert_eq!(a.0.unwrap().to_id(), b.0.unwrap().to_id());
        assert_eq!(names(&a.1), names(&b.1));
        assert_eq!(a.2, b.2);
    }
    let rows = improving_discards(hand.get_tiles(), 0, 2);
    assert_eq!(rows.len(), 4);
}

#[test]
fn melds_stay_out_of_the_search() {
    let mut hand = Hand::from_text("444m123p12345s22z", false).unwrap();
    let four = Tile::from_text("4m").unwrap();
    hand.add_open_shape(OpenShape::Pon([four, four, four])).unwrap();
    let rows = hand.find_shanten_improving_tiles();
    assert_eq!(rows.len(), 1);
    assert_eq!(names(&rows[0].1), vec!["3s", "6s"]);
    assert_eq!(rows[0].2, 7);
    assert_eq!(hand.get_open_shapes().len(), 1);
}

#[test]
fn nine_gates_waits_on_every_tile_of_its_suit() {
    let mut hand = Hand::from_text("1112345678999m", false).unwrap();
    assert_eq!(hand.shanten(), 0);
    let rows = hand.find_shanten_improving_tiles();
    assert_eq!(names(&rows[0].1), vec!["1m", "2m", "3m", "4m", "5m", "6m", "7m", "8m", "9m"]);
    assert_eq!(rows[0].2, 36 - 13);
}

#[test]
fn one_suit_hand_of_fourteen_tiles() {
    let mut hand = Hand::from_text("11223344556677m", false).unwrap();
    let current = hand.shanten();
    assert_eq!(current, -1);
    assert_eq!(hand.find_shanten_improving_tiles().len(), 0);
    let mut hand = Hand::from_text("11223344556679m", false).unwrap();
    assert_eq!(hand.shanten(), 0);
    let rows = hand.find_shanten_improving_tiles();
    assert!(!rows.is_empty());
    for pair in rows.windows(2) {
        assert!(pair[0].2 >= pair[1].2);
    }
}

#[test]
fn the_search_misses_no_draw() {
    for text in ["237m13478s45699p", "1199m1199p1199s1z", "19m19p19s1234567z", "147m147p147s1234z", "3345m123p123s111z"] {
        let mut hand = Hand::from_text(text, false).unwrap();
        let current = hand.shanten();
        let rows = hand.find_shanten_improving_tiles();
        let accepted: Vec<u8> = rows[0].1.iter().map(|t| t.to_id()).collect();
        let mut lowering: Vec<u8> = Vec::new();
        for id in 1u8..=34 {
            let mut drawn = Hand::from_text(text, false).unwrap();
            drawn.add_tile(Tile::from_id(id).unwrap());
            if drawn.shanten() < current {
                lowering.push(id);
            }
        }
        assert_eq!(accepted, lowering);
    }
}
