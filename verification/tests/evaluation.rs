use poker_hands::card::{Card, Hand, Suit};
use poker_hands::category::{HandError, Rank, Ranks};
use poker_hands::detect::{
    get_flush, high_card, is_pair, is_straight, is_straight_flush, is_two_pair,
};
use poker_hands::evaluate::{evaluate, get_rank};
use poker_hands::shape::{analyze, is_valid, suit_ranks};
use poker_hands::tally::{
    best_straight, highest_ranks, highest_with_count, tally_ranks, without, RANK_SPACE,
};

fn card(suit: Suit, rank: u8) -> Card {
    Card { suit, rank }
}

fn hand(cards: &[(char, u8)]) -> Hand {
    let mut v = Vec::new();
    for &(s, r) in cards {
        let suit = match s {
            'C' => Suit::Clubs,
            'D' => Suit::Diamonds,
            'H' => Suit::Hearts,
            _ => Suit::Spades,
        };
        v.push(card(suit, r));
    }
    Hand::new(v)
}

fn value(rank: Ranks, signature: &[u8]) -> Result<Rank, HandError> {
    Ok(Rank { rank, signature: signature.to_vec() })
}

#[test]
fn too_few_cards_are_refused() {
    let h = hand(&[('H', 2), ('H', 3), ('H', 4), ('H', 5)]);
    assert_eq!(evaluate(&h), Err(HandError::InvalidHand));
    assert_eq!(get_rank(&h), None);
    assert!(!is_valid(&h));
}

#[test]
fn too_many_cards_are_refused() {
    let h = hand(&[
        ('H', 2), ('H', 3), ('H', 4), ('H', 5), ('D', 6), ('D', 7), ('D', 8), ('D', 9),
    ]);
    assert_eq!(evaluate(&h), Err(HandError::InvalidHand));
}

#[test]
fn empty_hand_is_refused() {
    assert_eq!(evaluate(&Hand::new(vec![])), Err(HandError::InvalidHand));
}

#[test]
fn duplicate_cards_are_refused() {
    let h = hand(&[('H', 5), ('H', 9), ('H', 10), ('H', 5), ('H', 10)]);
    assert_eq!(evaluate(&h), Err(HandError::InvalidHand));
    let first_and_last = hand(&[('S', 14), ('H', 9), ('H', 10), ('H', 5), ('D', 2), ('S', 14)]);
    assert_eq!(evaluate(&first_and_last), Err(HandError::InvalidHand));
}

#[test]
fn same_rank_in_other_suit_is_no_duplicate() {
    let h = hand(&[('H', 5), ('D', 5), ('C', 5), ('S', 5), ('H', 9)]);
    assert!(is_valid(&h));
    assert_eq!(evaluate(&h), value(Ranks::FourOfAKind, &[5, 9]));
}

#[test]
fn wheel_is_a_five_high_straight() {
    let h = hand(&[('H', 14), ('D', 2), ('C', 3), ('S', 4), ('H', 5)]);
    assert_eq!(evaluate(&h), value(Ranks::Straight, &[5]));
    let other = hand(&[('S', 5), ('S', 4), ('S', 3), ('S', 2), ('D', 14)]);
    assert_eq!(evaluate(&other), value(Ranks::Straight, &[5]));
}

#[test]
fn wheel_loses_to_a_higher_straight_in_the_same_hand() {
    let h = hand(&[('H', 14), ('D', 2), ('C', 3), ('S', 4), ('H', 5), ('D', 6)]);
    assert_eq!(evaluate(&h), value(Ranks::Straight, &[6]));
}

#[test]
fn ace_does_not_wrap_round() {
    let h = hand(&[('H', 13), ('D', 14), ('C', 2), ('S', 3), ('H', 4)]);
    assert_eq!(evaluate(&h), value(Ranks::HighCard, &[14, 13, 4, 3, 2]));
}

#[test]
fn flush_and_straight_on_different_cards_is_a_flush() {
    let h = hand(&[('H', 2), ('H', 9), ('H', 11), ('H', 5), ('H', 6), ('D', 7), ('S', 8)]);
    assert_eq!(evaluate(&h), value(Ranks::Flush, &[11, 9, 6, 5, 2]));
    assert_eq!(is_straight(h.ranks()), Some(9));
}

#[test]
fn straight_through_another_suit_is_no_straight_flush() {
    let h = hand(&[('H', 2), ('H', 3), ('H', 4), ('H', 5), ('D', 6), ('H', 7)]);
    assert_eq!(is_straight(h.ranks()), Some(7));
    assert_eq!(is_straight_flush(&h), None);
    assert_ne!(get_rank(&h), Some(Ranks::StraightFlush));
    assert_eq!(evaluate(&h), value(Ranks::Flush, &[7, 5, 4, 3, 2]));
    let five = hand(&[('H', 3), ('H', 4), ('H', 5), ('D', 6), ('H', 7)]);
    assert_eq!(evaluate(&five), value(Ranks::Straight, &[7]));
}

#[test]
fn six_card_straight_takes_the_highest_run() {
    let h = hand(&[('H', 2), ('H', 7), ('H', 3), ('H', 4), ('H', 5), ('H', 6)]);
    assert_eq!(is_straight(h.ranks()), Some(7));
    assert_eq!(evaluate(&h), value(Ranks::StraightFlush, &[7]));
    let mixed = hand(&[('H', 2), ('D', 7), ('H', 3), ('S', 4), ('H', 5), ('C', 6)]);
    assert_eq!(evaluate(&mixed), value(Ranks::Straight, &[7]));
}

#[test]
fn straight_flush_in_seven_cards() {
    let h = hand(&[('S', 9), ('S', 10), ('S', 11), ('S', 12), ('S', 13), ('H', 14), ('D', 14)]);
    assert_eq!(evaluate(&h), value(Ranks::StraightFlush, &[13]));
    let royal = hand(&[('C', 10), ('C', 11), ('C', 12), ('C', 13), ('C', 14)]);
    assert_eq!(evaluate(&royal), value(Ranks::StraightFlush, &[14]));
    let wheel = hand(&[('D', 14), ('D', 2), ('D', 3), ('D', 4), ('D', 5)]);
    assert_eq!(evaluate(&wheel), value(Ranks::StraightFlush, &[5]));
}

#[test]
fn two_pair_with_kicker() {
    let h = hand(&[('H', 5), ('D', 9), ('H', 10), ('S', 5), ('C', 10)]);
    assert_eq!(evaluate(&h), value(Ranks::TwoPair, &[10, 5, 9]));
    assert_eq!(is_two_pair(h.ranks()), Some([10, 5]));
}

#[test]
fn three_pairs_keep_the_best_two_and_the_best_kicker() {
    let h = hand(&[('H', 14), ('D', 14), ('H', 13), ('S', 13), ('C', 12), ('D', 12), ('S', 11)]);
    assert_eq!(evaluate(&h), value(Ranks::TwoPair, &[14, 13, 12]));
}

#[test]
fn full_house_three_over_two() {
    let h = hand(&[('H', 3), ('D', 3), ('H', 2), ('S', 2), ('C', 3)]);
    assert_eq!(evaluate(&h), value(Ranks::FullHouse, &[3, 2]));
}

#[test]
fn two_triples_make_a_full_house() {
    let h = hand(&[('H', 3), ('D', 3), ('C', 3), ('S', 9), ('C', 9), ('D', 9), ('S', 2)]);
    assert_eq!(evaluate(&h), value(Ranks::FullHouse, &[9, 3]));
}

#[test]
fn full_house_beats_the_flush_beside_it() {
    let h = hand(&[('H', 3), ('D', 3), ('C', 3), ('S', 9), ('C', 9), ('D', 4), ('S', 2)]);
    assert_eq!(get_rank(&h), Some(Ranks::FullHouse));
}

#[test]
fn four_of_a_kind_with_one_kicker() {
    let h = hand(&[('H', 9), ('D', 9), ('C', 9), ('S', 9), ('C', 2), ('D', 13), ('S', 13)]);
    assert_eq!(evaluate(&h), value(Ranks::FourOfAKind, &[9, 13]));
}

#[test]
fn three_of_a_kind_with_two_kickers() {
    let h = hand(&[('H', 12), ('D', 4), ('C', 6), ('S', 12), ('C', 7), ('D', 12)]);
    assert_eq!(evaluate(&h), value(Ranks::ThreeOfAKind, &[12, 7, 6]));
}

#[test]
fn one_pair_with_three_kickers() {
    let h = hand(&[('H', 2), ('D', 2), ('C', 3), ('S', 5), ('C', 7), ('D', 14), ('S', 9)]);
    assert_eq!(evaluate(&h), value(Ranks::OnePair, &[2, 14, 9, 7]));
}

#[test]
fn high_card_takes_the_five_highest() {
    let h = hand(&[('H', 2), ('D', 8), ('C', 3), ('S', 5), ('C', 7), ('D', 14), ('S', 10)]);
    assert_eq!(evaluate(&h), value(Ranks::HighCard, &[14, 10, 8, 7, 5]));
    assert_eq!(get_rank(&h), Some(Ranks::HighCard));
}

#[test]
fn flush_takes_the_five_highest_of_the_suit() {
    let h = hand(&[('H', 14), ('H', 10), ('H', 2), ('H', 4), ('H', 8), ('H', 6), ('S', 13)]);
    assert_eq!(evaluate(&h), value(Ranks::Flush, &[14, 10, 8, 6, 4]));
    let cards: Vec<u8> = get_flush(&h, Suit::Hearts).iter().map(|c| c.rank).collect();
    assert_eq!(cards, vec![14, 10, 8, 6, 4]);
    assert_eq!(get_flush(&h, Suit::Spades), vec![card(Suit::Spades, 13)]);
    assert_eq!(get_flush(&h, Suit::Clubs), vec![]);
}

#[test]
fn evaluation_does_not_depend_on_the_order_of_the_cards() {
    let a = hand(&[('H', 5), ('D', 9), ('H', 10), ('S', 5), ('C', 10), ('S', 14), ('D', 2)]);
    let b = hand(&[('D', 2), ('S', 14), ('C', 10), ('S', 5), ('H', 10), ('D', 9), ('H', 5)]);
    let c = hand(&[('S', 5), ('D', 2), ('H', 5), ('C', 10), ('S', 14), ('D', 9), ('H', 10)]);
    assert_eq!(evaluate(&a), value(Ranks::TwoPair, &[10, 5, 14]));
    assert_eq!(evaluate(&a), evaluate(&b));
    assert_eq!(evaluate(&a), evaluate(&c));
}

#[test]
fn a_worse_extra_card_changes_nothing() {
    let five = hand(&[('H', 14), ('D', 14), ('C', 9), ('S', 8), ('H', 7)]);
    let six = hand(&[('H', 14), ('D', 14), ('C', 9), ('S', 8), ('H', 7), ('D', 2)]);
    assert_eq!(evaluate(&five), evaluate(&six));
}

#[test]
fn swapping_in_the_fourth_card_raises_the_category() {
    let trips = hand(&[('H', 9), ('D', 9), ('C', 9), ('S', 4), ('C', 2)]);
    let quads = hand(&[('H', 9), ('D', 9), ('C', 9), ('S', 9), ('C', 2)]);
    assert_eq!(get_rank(&trips), Some(Ranks::ThreeOfAKind));
    assert_eq!(get_rank(&quads), Some(Ranks::FourOfAKind));
    assert!(get_rank(&trips) < get_rank(&quads));
    let pair = hand(&[('H', 9), ('D', 9), ('C', 5), ('S', 4), ('C', 2)]);
    let two = hand(&[('H', 9), ('D', 9), ('C', 5), ('S', 5), ('C', 2)]);
    assert!(get_rank(&pair).unwrap() < get_rank(&two).unwrap());
}

#[test]
fn categories_are_ordered_by_strength() {
    let all = [
        Ranks::HighCard,
        Ranks::OnePair,
        Ranks::TwoPair,
        Ranks::ThreeOfAKind,
        Ranks::Straight,
        Ranks::Flush,
        Ranks::FullHouse,
        Ranks::FourOfAKind,
        Ranks::StraightFlush,
    ];
    for i in 0..all.len() {
        assert_eq!(all[i].index() as usize, i);
        for j in 0..all.len() {
            assert_eq!(all[i] < all[j], i < j);
        }
    }
}

#[test]
fn ranks_come_out_highest_first() {
    let h = hand(&[('H', 5), ('D', 9), ('H', 10), ('S', 5), ('C', 10)]);
    assert_eq!(h.ranks(), vec![10, 10, 9, 5, 5]);
    assert_eq!(Hand::new(vec![]).ranks(), Vec::<u8>::new());
}

#[test]
fn suits_are_counted() {
    let h = hand(&[('H', 5), ('D', 9), ('H', 10), ('S', 5), ('C', 10), ('H', 2)]);
    let counts = h.suits();
    assert_eq!(counts.get(Suit::Hearts), 3);
    assert_eq!(counts.get(Suit::Diamonds), 1);
    assert_eq!(counts.get(Suit::Spades), 1);
    assert_eq!(counts.get(Suit::Clubs), 1);
    assert_eq!((counts.clubs, counts.diamonds, counts.hearts, counts.spades), (1, 1, 3, 1));
}

#[test]
fn tallies_count_each_rank() {
    let t = tally_ranks(&vec![7, 7, 3, 255, 0, 7]);
    assert_eq!(t.len(), RANK_SPACE);
    assert_eq!(t[7], 3);
    assert_eq!(t[3], 1);
    assert_eq!(t[255], 1);
    assert_eq!(t[0], 1);
    assert_eq!(t[8], 0);
    let h = hand(&[('H', 5), ('D', 5), ('H', 10)]);
    assert_eq!(h.rank_tally()[5], 2);
    assert_eq!(h.suit_tally(Suit::Hearts)[5], 1);
    assert_eq!(h.suit_tally(Suit::Clubs)[5], 0);
    assert_eq!(h.suit_tally(Suit::Hearts)[10], 1);
}

#[test]
fn tally_queries() {
    let t = tally_ranks(&vec![7, 7, 3, 3, 3, 12, 9]);
    assert_eq!(highest_with_count(&t, 2, RANK_SPACE), Some(7));
    assert_eq!(highest_with_count(&t, 2, 7), Some(3));
    assert_eq!(highest_with_count(&t, 3, RANK_SPACE), Some(3));
    assert_eq!(highest_with_count(&t, 4, RANK_SPACE), None);
    assert_eq!(highest_with_count(&t, 1, 3), None);
    assert_eq!(highest_ranks(&t, 3), vec![12, 9, 7]);
    assert_eq!(highest_ranks(&t, 9), vec![12, 9, 7, 3]);
    assert_eq!(highest_ranks(&t, 0), Vec::<u8>::new());
    let rest = without(&t, 7);
    assert_eq!(rest[7], 0);
    assert_eq!(rest[3], 3);
    assert_eq!(highest_with_count(&rest, 2, RANK_SPACE), Some(3));
    assert_eq!(best_straight(&t), None);
    assert_eq!(best_straight(&tally_ranks(&vec![251, 252, 253, 254, 255])), Some(255));
    assert_eq!(best_straight(&tally_ranks(&vec![0, 1, 2, 3, 4])), Some(4));
}

#[test]
fn detectors_on_plain_ranks() {
    assert_eq!(is_pair(vec![]), None);
    assert_eq!(is_pair(vec![4, 9, 4, 9, 2]), Some(9));
    assert_eq!(is_pair(vec![4, 9, 5, 8, 2]), None);
    assert_eq!(high_card(vec![4, 9, 5, 8, 2]), Some(9));
    assert_eq!(high_card(vec![]), None);
    assert_eq!(is_straight(vec![14, 13, 12, 11, 9]), None);
    assert_eq!(is_straight(vec![3, 3, 4, 5, 6, 7, 7]), Some(7));
    assert_eq!(is_two_pair(vec![4, 4, 4, 9, 2]), None);
}

#[test]
fn shape_of_a_valid_hand() {
    let h = hand(&[('H', 5), ('D', 9), ('H', 10), ('S', 5), ('C', 10), ('H', 2)]);
    let shape = analyze(&h).unwrap();
    assert_eq!(shape.ranks.len(), RANK_SPACE);
    assert_eq!(shape.ranks[5], 2);
    assert_eq!(shape.ranks[10], 2);
    assert_eq!(shape.ranks[9], 1);
    assert_eq!(shape.ranks[2], 1);
    assert_eq!(shape.ranks.iter().sum::<usize>(), 6);
    assert_eq!(shape.suits.hearts, 3);
    assert_eq!(shape.suits.clubs + shape.suits.diamonds + shape.suits.spades, 3);
    assert_eq!(suit_ranks(&h, Suit::Hearts), vec![10, 5, 2]);
    assert_eq!(suit_ranks(&h, Suit::Spades), vec![5]);
}

#[test]
fn shape_of_an_invalid_hand_is_refused() {
    assert_eq!(analyze(&hand(&[('H', 5), ('D', 9)])), Err(HandError::InvalidHand));
    let twice = hand(&[('H', 5), ('D', 9), ('H', 10), ('S', 5), ('H', 5)]);
    assert_eq!(analyze(&twice), Err(HandError::InvalidHand));
}
