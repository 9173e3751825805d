use poker_hands::card::{Card, Hand, Suit};
use poker_hands::detect::{
    get_flush, is_flush, is_four_of_a_kind, is_full_house, is_pair, is_straight, is_straight_flush,
    is_three_of_a_kind, is_two_pair,
};

#[test]
fn should_be_a_pair_of_deuces() {
    let hand = Hand::new(vec![
        Card { suit: Suit::Hearts, rank: 2 },
        Card { suit: Suit::Hearts, rank: 2 },
        Card { suit: Suit::Hearts, rank: 3 },
        Card { suit: Suit::Hearts, rank: 5 },
        Card { suit: Suit::Hearts, rank: 7 },
        Card { suit: Suit::Hearts, rank: 6 },
    ]);
    assert_eq!(is_pair(hand.ranks()), Some(2));
}

#[test]
fn should_not_be_a_fullhouse() {
    let hand = Hand::new(vec![
        Card { suit: Suit::Hearts, rank: 14 },
        Card { suit: Suit::Hearts, rank: 14 },
        Card { suit: Suit::Hearts, rank: 14 },
        Card { suit: Suit::Hearts, rank: 5 },
        Card { suit: Suit::Hearts, rank: 3 },
    ]);
    assert_eq!(is_full_house(hand.ranks()), None);
}

#[test]
fn should_be_two_pair_5_and_10() {
    let hand = Hand::new(vec![
        Card { suit: Suit::Hearts, rank: 5 },
        Card { suit: Suit::Hearts, rank: 9 },
        Card { suit: Suit::Hearts, rank: 10 },
        Card { suit: Suit::Hearts, rank: 5 },
        Card { suit: Suit::Hearts, rank: 10 },
    ]);
    assert_eq!(is_two_pair(hand.ranks()), Some([10, 5]));
}

#[test]
fn should_be_a_fullhouse_3_over_2() {
    let hand = Hand::new(vec![
        Card { suit: Suit::Hearts, rank: 3 },
        Card { suit: Suit::Hearts, rank: 3 },
        Card { suit: Suit::Hearts, rank: 2 },
        Card { suit: Suit::Hearts, rank: 2 },
        Card { suit: Suit::Hearts, rank: 3 },
    ]);
    assert_eq!(is_full_house(hand.ranks()), Some([3, 2]));
}

#[test]
fn should_be_a_three_of_a_kind_queens() {
    let hand = Hand::new(vec![
        Card { suit: Suit::Hearts, rank: 12 },
        Card { suit: Suit::Hearts, rank: 4 },
        Card { suit: Suit::Hearts, rank: 6 },
        Card { suit: Suit::Hearts, rank: 12 },
        Card { suit: Suit::Hearts, rank: 7 },
        Card { suit: Suit::Hearts, rank: 12 },
    ]);
    assert_eq!(is_three_of_a_kind(hand.ranks()), Some(12));
}

#[test]
fn should_be_a_four_of_a_kind_9() {
    let hand = Hand::new(vec![
        Card { suit: Suit::Hearts, rank: 9 },
        Card { suit: Suit::Hearts, rank: 9 },
        Card { suit: Suit::Hearts, rank: 9 },
        Card { suit: Suit::Hearts, rank: 9 },
        Card { suit: Suit::Hearts, rank: 2 },
    ]);
    assert_eq!(is_four_of_a_kind(hand.ranks()), Some(9));
}

#[test]
fn should_be_a_straight_7_high() {
    let hand = Hand::new(vec![
        Card { suit: Suit::Hearts, rank: 2 },
        Card { suit: Suit::Hearts, rank: 7 },
        Card { suit: Suit::Hearts, rank: 3 },
        Card { suit: Suit::Hearts, rank: 4 },
        Card { suit: Suit::Hearts, rank: 5 },
        Card { suit: Suit::Hearts, rank: 9 },
        Card { suit: Suit::Hearts, rank: 6 },
    ]);
    assert_eq!(is_straight(hand.ranks()), Some(7));
}

#[test]
fn should_be_a_straight_ace_high() {
    let hand = Hand::new(vec![
        Card { suit: Suit::Hearts, rank: 14 },
        Card { suit: Suit::Hearts, rank: 13 },
        Card { suit: Suit::Hearts, rank: 12 },
        Card { suit: Suit::Hearts, rank: 11 },
        Card { suit: Suit::Hearts, rank: 10 },
    ]);
    assert_eq!(is_straight(hand.ranks()), Some(14));
}

#[test]
fn should_be_a_straight_five_high() {
    let hand = Hand::new(vec![
        Card { suit: Suit::Hearts, rank: 14 },
        Card { suit: Suit::Hearts, rank: 2 },
        Card { suit: Suit::Hearts, rank: 3 },
        Card { suit: Suit::Hearts, rank: 4 },
        Card { suit: Suit::Hearts, rank: 5 },
    ]);
    assert_eq!(is_straight(hand.ranks()), Some(5));
}

#[test]
fn should_be_a_hearts_flush() {
    let hand = Hand::new(vec![
        Card { suit: Suit::Hearts, rank: 14 },
        Card { suit: Suit::Hearts, rank: 10 },
        Card { suit: Suit::Hearts, rank: 2 },
        Card { suit: Suit::Hearts, rank: 4 },
        Card { suit: Suit::Hearts, rank: 6 },
    ]);
    assert_eq!(is_flush(hand.suits()), Some(Suit::Hearts));
}

#[test]
fn should_return_highest_five_flush() {
    let hand = Hand::new(vec![
        Card { suit: Suit::Hearts, rank: 14 },
        Card { suit: Suit::Hearts, rank: 10 },
        Card { suit: Suit::Hearts, rank: 2 },
        Card { suit: Suit::Hearts, rank: 4 },
        Card { suit: Suit::Hearts, rank: 8 },
        Card { suit: Suit::Hearts, rank: 6 },
    ]);
    let flush = get_flush(&hand, Suit::Hearts);
    let high_flush_cards = vec![
        Card { suit: Suit::Hearts, rank: 14 },
        Card { suit: Suit::Hearts, rank: 10 },
        Card { suit: Suit::Hearts, rank: 8 },
        Card { suit: Suit::Hearts, rank: 6 },
        Card { suit: Suit::Hearts, rank: 4 },
    ];
    assert_eq!(flush, high_flush_cards);
}

#[test]
fn should_be_a_straight_flush_five_high() {
    let hand = Hand::new(vec![
        Card { suit: Suit::Hearts, rank: 5 },
        Card { suit: Suit::Hearts, rank: 2 },
        Card { suit: Suit::Hearts, rank: 3 },
        Card { suit: Suit::Hearts, rank: 14 },
        Card { suit: Suit::Hearts, rank: 4 },
    ]);
    assert_eq!(is_straight_flush(&hand), Some(5));
}

#[test]
fn should_be_a_straight_flush_ace_high() {
    let hand = Hand::new(vec![
        Card { suit: Suit::Hearts, rank: 14 },
        Card { suit: Suit::Hearts, rank: 13 },
        Card { suit: Suit::Hearts, rank: 12 },
        Card { suit: Suit::Hearts, rank: 10 },
        Card { suit: Suit::Hearts, rank: 11 },
    ]);
    assert_eq!(is_straight_flush(&hand), Some(14));
}

#[test]
fn should_be_a_straight_flush_jack_high() {
    let hand = Hand::new(vec![
        Card { suit: Suit::Hearts, rank: 7 },
        Card { suit: Suit::Hearts, rank: 8 },
        Card { suit: Suit::Hearts, rank: 9 },
        Card { suit: Suit::Hearts, rank: 10 },
        Card { suit: Suit::Hearts, rank: 11 },
    ]);
    assert_eq!(is_straight_flush(&hand), Some(11));
}

#[test]
fn should_not_be_a_straight_flush() {
    let hand = Hand::new(vec![
        Card { suit: Suit::Hearts, rank: 2 },
        Card { suit: Suit::Hearts, rank: 3 },
        Card { suit: Suit::Hearts, rank: 4 },
        Card { suit: Suit::Hearts, rank: 5 },
        Card { suit: Suit::Diamonds, rank: 6 },
        Card { suit: Suit::Hearts, rank: 7 },
    ]);
    assert_eq!(is_straight_flush(&hand), None);
}

#[test]
fn should_be_a_diamonds_flush() {
    let hand = Hand::new(vec![
        Card { suit: Suit::Diamonds, rank: 14 },
        Card { suit: Suit::Diamonds, rank: 10 },
        Card { suit: Suit::Diamonds, rank: 2 },
        Card { suit: Suit::Diamonds, rank: 4 },
        Card { suit: Suit::Diamonds, rank: 6 },
    ]);
    assert_eq!(is_flush(hand.suits()), Some(Suit::Diamonds));
}

#[test]
fn should_be_a_clubs_flush() {
    let hand = Hand::new(vec![
        Card { suit: Suit::Clubs, rank: 14 },
        Card { suit: Suit::Clubs, rank: 10 },
        Card { suit: Suit::Clubs, rank: 2 },
        Card { suit: Suit::Clubs, rank: 4 },
        Card { suit: Suit::Clubs, rank: 6 },
    ]);
    assert_eq!(is_flush(hand.suits()), Some(Suit::Clubs));
}

#[test]
fn should_be_a_spades_flush() {
    let hand = Hand::new(vec![
        Card { suit: Suit::Spades, rank: 14 },
        Card { suit: Suit::Spades, rank: 10 },
        Card { suit: Suit::Spades, rank: 2 },
        Card { suit: Suit::Spades, rank: 4 },
        Card { suit: Suit::Spades, rank: 6 },
    ]);
    assert_eq!(is_flush(hand.suits()), Some(Suit::Spades));
}

#[test]
fn should_not_be_a_flush_1() {
    let hand = Hand::new(vec![
        Card { suit: Suit::Spades, rank: 14 },
        Card { suit: Suit::Hearts, rank: 10 },
        Card { suit: Suit::Spades, rank: 2 },
        Card { suit: Suit::Spades, rank: 4 },
        Card { suit: Suit::Spades, rank: 6 },
    ]);
    assert_eq!(is_flush(hand.suits()), None);
}

#[test]
fn should_not_be_a_flush_2() {
    let hand = Hand::new(vec![
        Card { suit: Suit::Hearts, rank: 5 },
        Card { suit: Suit::Hearts, rank: 2 },
        Card { suit: Suit::Clubs, rank: 5 },
        Card { suit: Suit::Clubs, rank: 2 },
        Card { suit: Suit::Diamonds, rank: 5 },
    ]);
    assert_eq!(is_flush(hand.suits()), None);
}
