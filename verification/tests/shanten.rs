use riichi_tools::riichi::hand::Hand;
use riichi_tools::riichi::riichi_error::RiichiError;
use riichi_tools::riichi::shanten::ShantenFinder;
use riichi_tools::riichi::shapes::OpenShape;
use riichi_tools::riichi::tile::Tile;

fn histogram(text: &str) -> [u8; 34] {
    let mut hand = Hand::from_text(text, true).unwrap();
    hand.get_34_array(true)
}

fn shanten(text: &str) -> i8 {
    Hand::from_text(text, true).unwrap().shanten()
}

#[test]
fn standard_shanten_of_known_hands() {
    let finder = ShantenFinder::new();
    // one set, three partial runs and a pair
    assert_eq!(finder.standard(&histogram("237m13478s45699p"), 0), 2);
    // four sets and a pair
    assert_eq!(finder.standard(&histogram("123456789p12344m"), 0), -1);
    // four sets and a lone tile
    assert_eq!(finder.standard(&histogram("123456789p1234m"), 0), 0);
    // nothing goes together
    assert_eq!(finder.standard(&histogram("147m147p147s1234z"), 0), 8);
    // the empty hand
    assert_eq!(finder.standard(&[0u8; 34], 0), 8);
    // six pairs: one is the head, four count
    assert_eq!(finder.standard(&histogram("1199m1199p1199s1z"), 0), 3);
}

#[test]
fn standard_shanten_counts_declared_melds() {
    let finder = ShantenFinder::new();
    // a lone tile beside four melds waits for its pair
    assert_eq!(finder.standard(&histogram("1z"), 4), 0);
    assert_eq!(finder.standard(&histogram("11z"), 4), -1);
    assert_eq!(finder.standard(&histogram("11z"), 9), -1);
    // three melds, a partial run and a pair
    assert_eq!(finder.standard(&histogram("45m11z"), 3), 0);
    assert_eq!(finder.standard(&histogram("456m11z"), 3), -1);
    // no partial run counts once no set is missing
    assert_eq!(finder.standard(&histogram("45m1z"), 4), 0);
}

#[test]
fn seven_pairs_formula() {
    let finder = ShantenFinder::new();
    assert_eq!(finder.seven_pairs(&histogram("1199m1199p1199s1z")), 0);
    assert_eq!(finder.seven_pairs(&histogram("1199m1199p1199s11z")), -1);
    assert_eq!(finder.seven_pairs(&histogram("123456789m1234p")), 6);
    // a triplet counts as one pair
    assert_eq!(finder.seven_pairs(&histogram("111m2345678p123s")), 5);
    // two kinds and no pair: 6 - 0 + (7 - 0 - 2)
    assert_eq!(finder.seven_pairs(&histogram("12m")), 11);
    // the empty hand: 6 - 0 + 7
    assert_eq!(finder.seven_pairs(&[0u8; 34]), 13);
}

#[test]
fn thirteen_orphans_formula() {
    let finder = ShantenFinder::new();
    assert_eq!(finder.thirteen_orphans(&histogram("19m19p19s12345677z")), -1);
    assert_eq!(finder.thirteen_orphans(&histogram("19m19p19s1234567z")), 0);
    assert_eq!(finder.thirteen_orphans(&histogram("129m19s19p1234566z")), 0);
    assert_eq!(finder.thirteen_orphans(&histogram("1199m1199p1199s1z")), 5);
    assert_eq!(finder.thirteen_orphans(&histogram("2345678m234567p")), 13);
    assert_eq!(finder.thirteen_orphans(&[0u8; 34]), 13);
}

#[test]
fn shanten_is_the_least_of_the_shapes() {
    assert_eq!(shanten("1199m1199p1199s1z"), 0);
    assert_eq!(shanten("19m19p19s1234567z"), 0);
    assert_eq!(shanten("237m13478s45699p"), 2);
    let finder = ShantenFinder::new();
    assert_eq!(finder.of_histogram(&histogram("1199m1199p1199s1z"), 0), 0);
    // with a meld declared only the standard shape is left:
    // three sets are missing, a head and three of the other pairs count
    assert_eq!(finder.of_histogram(&histogram("1199m1199p1199s1z"), 1), 2);
}

#[test]
fn complete_hands_have_shanten_minus_one() {
    assert_eq!(shanten("123456789p12344m"), -1);
    assert_eq!(shanten("111222333m44455z"), -1);
    assert_eq!(shanten("1133557799m1133p"), -1);
    assert_eq!(shanten("19m19p19s12345677z"), -1);
}

#[test]
fn shanten_needs_13_or_14_tiles() {
    assert_eq!(shanten("123m"), 99);
    assert_eq!(shanten("123456789m123456p"), 99);
    assert_eq!(Hand::default().shanten(), 99);
    let finder = ShantenFinder::new();
    let hand = Hand::from_text("123m", true).unwrap();
    assert_eq!(finder.shanten(&hand).unwrap_err(), RiichiError::HandSize);
    assert_eq!(finder.of_slots(hand.get_tiles(), 0).unwrap_err(), RiichiError::HandSize);
    assert_eq!(finder.query(hand.get_tiles(), 0), 99);
    let full = Hand::from_text("237m13478s45699p", false).unwrap();
    assert_eq!(finder.shanten(&full).unwrap(), 2);
    assert_eq!(finder.query(full.get_tiles(), 0), 2);
}

#[test]
fn shanten_is_kept_and_dropped() {
    let mut hand = Hand::from_text("237m13478s45699p", false).unwrap();
    assert_eq!(hand.shanten(), 2);
    assert_eq!(hand.shanten(), 2);
    hand.add_tile(Tile::from_text("1m").unwrap());
    assert_eq!(hand.shanten(), 1);
    hand.remove_tile_by_id(1).unwrap();
    assert_eq!(hand.shanten(), 2);
    hand.reset_shanten();
    assert_eq!(hand.shanten(), 2);
}

#[test]
fn a_draw_lowers_the_shanten_by_one_at_most() {
    for text in ["237m13478s45699p", "1199m1199p1199s1z", "19m19p19s1234567z", "147m147p147s1234z"] {
        let mut hand = Hand::from_text(text, false).unwrap();
        let before = hand.shanten();
        for id in 1u8..=34 {
            let mut drawn = Hand::from_text(text, false).unwrap();
            drawn.add_tile(Tile::from_id(id).unwrap());
            let after = drawn.shanten();
            assert!(after <= before, "{} + {}: {} > {}", text, id, after, before);
            assert!(after >= before - 1, "{} + {}: {} < {} - 1", text, id, after, before);
        }
    }
}

#[test]
fn melds_count_as_sets() {
    let mut hand = Hand::from_text("444m123p12345s22z", false).unwrap();
    assert_eq!(hand.shanten(), 0);
    let four = Tile::from_text("4m").unwrap();
    hand.add_open_shape(OpenShape::Pon([four, four, four])).unwrap();
    assert!(!hand.is_closed());
    assert_eq!(hand.shanten(), 0);
    assert_eq!(hand.get_34_array(true)[3], 0);
    assert_eq!(hand.get_34_array(false)[3], 3);
}
