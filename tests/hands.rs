use poker_server::game::{deal_hand, evaluate_hand, new_deck, payout_multiplier};
use poker_server::models::{Card, HandRank, Suit};

fn c(rank: u8, suit: Suit) -> Card {
    Card { rank, suit }
}

#[test]
fn royal_straight_flush_is_straight_flush() {
    let hand = [c(10, Suit::Spades), c(11, Suit::Spades), c(12, Suit::Spades), c(13, Suit::Spades), c(14, Suit::Spades)];
    assert_eq!(evaluate_hand(&hand), HandRank::StraightFlush);
}

#[test]
fn wheel_of_mixed_suits_is_straight() {
    let hand = [c(14, Suit::Hearts), c(2, Suit::Clubs), c(3, Suit::Diamonds), c(4, Suit::Spades), c(5, Suit::Hearts)];
    assert_eq!(evaluate_hand(&hand), HandRank::Straight);
}

#[test]
fn wheel_of_one_suit_is_straight_flush() {
    let hand = [c(5, Suit::Clubs), c(4, Suit::Clubs), c(3, Suit::Clubs), c(2, Suit::Clubs), c(14, Suit::Clubs)];
    assert_eq!(evaluate_hand(&hand), HandRank::StraightFlush);
}

#[test]
fn wrap_around_run_is_not_straight() {
    let hand = [c(13, Suit::Clubs), c(14, Suit::Hearts), c(2, Suit::Clubs), c(3, Suit::Spades), c(4, Suit::Diamonds)];
    assert_eq!(evaluate_hand(&hand), HandRank::HighCard);
}

#[test]
fn run_in_the_middle_is_straight() {
    let hand = [c(8, Suit::Clubs), c(6, Suit::Hearts), c(10, Suit::Clubs), c(7, Suit::Spades), c(9, Suit::Diamonds)];
    assert_eq!(evaluate_hand(&hand), HandRank::Straight);
}

#[test]
fn four_of_a_kind() {
    let hand = [c(9, Suit::Clubs), c(9, Suit::Hearts), c(9, Suit::Spades), c(9, Suit::Diamonds), c(2, Suit::Clubs)];
    assert_eq!(evaluate_hand(&hand), HandRank::FourKind);
}

#[test]
fn full_house() {
    let hand = [c(3, Suit::Clubs), c(3, Suit::Hearts), c(3, Suit::Spades), c(12, Suit::Diamonds), c(12, Suit::Clubs)];
    assert_eq!(evaluate_hand(&hand), HandRank::FullHouse);
}

#[test]
fn flush_without_run() {
    let hand = [c(2, Suit::Hearts), c(7, Suit::Hearts), c(9, Suit::Hearts), c(11, Suit::Hearts), c(13, Suit::Hearts)];
    assert_eq!(evaluate_hand(&hand), HandRank::Flush);
}

#[test]
fn three_of_a_kind() {
    let hand = [c(6, Suit::Clubs), c(6, Suit::Hearts), c(6, Suit::Spades), c(12, Suit::Diamonds), c(2, Suit::Clubs)];
    assert_eq!(evaluate_hand(&hand), HandRank::Trips);
}

#[test]
fn two_pair() {
    let hand = [c(6, Suit::Clubs), c(6, Suit::Hearts), c(12, Suit::Spades), c(12, Suit::Diamonds), c(2, Suit::Clubs)];
    assert_eq!(evaluate_hand(&hand), HandRank::TwoPair);
}

#[test]
fn pair_carries_its_rank() {
    let hand = [c(4, Suit::Clubs), c(11, Suit::Hearts), c(8, Suit::Spades), c(11, Suit::Diamonds), c(2, Suit::Clubs)];
    assert_eq!(evaluate_hand(&hand), HandRank::Pair(11));
}

#[test]
fn high_card() {
    let hand = [c(4, Suit::Clubs), c(11, Suit::Hearts), c(8, Suit::Spades), c(13, Suit::Diamonds), c(2, Suit::Clubs)];
    assert_eq!(evaluate_hand(&hand), HandRank::HighCard);
}

#[test]
fn payout_table() {
    assert_eq!(payout_multiplier(&HandRank::HighCard), 0);
    assert_eq!(payout_multiplier(&HandRank::Pair(10)), 0);
    assert_eq!(payout_multiplier(&HandRank::Pair(11)), 1);
    assert_eq!(payout_multiplier(&HandRank::Pair(14)), 1);
    assert_eq!(payout_multiplier(&HandRank::TwoPair), 2);
    assert_eq!(payout_multiplier(&HandRank::Trips), 3);
    assert_eq!(payout_multiplier(&HandRank::Straight), 5);
    assert_eq!(payout_multiplier(&HandRank::Flush), 6);
    assert_eq!(payout_multiplier(&HandRank::FullHouse), 9);
    assert_eq!(payout_multiplier(&HandRank::FourKind), 25);
    assert_eq!(payout_multiplier(&HandRank::StraightFlush), 50);
}

fn key(card: &Card) -> (u8, u8) {
    let s = match card.suit {
        Suit::Hearts => 0,
        Suit::Diamonds => 1,
        Suit::Clubs => 2,
        Suit::Spades => 3,
    };
    (s, card.rank)
}

#[test]
fn fresh_deck_holds_every_card_once() {
    let deck = new_deck();
    assert_eq!(deck.len(), 52);
    let mut keys: Vec<(u8, u8)> = deck.iter().map(key).collect();
    keys.sort();
    keys.dedup();
    assert_eq!(keys.len(), 52);
    assert!(deck.iter().all(|c| c.rank >= 2 && c.rank <= 14));
    assert_eq!(deck[0], c(2, Suit::Hearts));
    assert_eq!(deck[51], c(14, Suit::Spades));
}

#[test]
fn dealing_splits_the_deck() {
    let mut deck = new_deck();
    let hand = deal_hand(&mut deck, 5);
    assert_eq!(hand.len(), 5);
    assert_eq!(deck.len(), 47);
    let mut keys: Vec<(u8, u8)> = hand.iter().chain(deck.iter()).map(key).collect();
    keys.sort();
    let mut all: Vec<(u8, u8)> = new_deck().iter().map(key).collect();
    all.sort();
    assert_eq!(keys, all);
}
