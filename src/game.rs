//! Deck construction, dealing, hand classification and the payout table.

use vstd::prelude::*;
use crate::models::{Card, HandRank, Suit};
use rand::seq::SliceRandom;
use vstd::arithmetic::div_mod::{lemma_fundamental_div_mod, lemma_fundamental_div_mod_converse};

verus! {

/// Suit of the `k`-th block of thirteen cards in a fresh deck.
pub open spec fn suit_at(k: int) -> Suit {
    if k == 0 {
        Suit::Hearts
    } else if k == 1 {
        Suit::Diamonds
    } else if k == 2 {
        Suit::Clubs
    } else {
        Suit::Spades
    }
}

/// Card at position `i` of a fresh deck: suits in blocks, ranks 2..=14 within each.
pub open spec fn deck_card(i: int) -> Card {
    Card { rank: (i % 13 + 2) as u8, suit: suit_at(i / 13) }
}

fn suit_from_index(k: usize) -> (s: Suit)
    requires
        k < 4,
    ensures
        s == suit_at(k as int),
{
    if k == 0 {
        Suit::Hearts
    } else if k == 1 {
        Suit::Diamonds
    } else if k == 2 {
        Suit::Clubs
    } else {
        Suit::Spades
    }
}

/// A fresh deck: the thirteen ranks of each of the four suits.
pub fn new_deck() -> (deck: Vec<Card>)
    ensures
        deck@.len() == 52,
        forall|i: int| 0 <= i < 52 ==> #[trigger] deck@[i] == deck_card(i),
        deck@.no_duplicates(),
{
    let mut deck: Vec<Card> = Vec::with_capacity(52);
    let mut s: usize = 0;
    while s < 4
        invariant
            s <= 4,
            deck@.len() == 13 * s,
            forall|i: int| 0 <= i < deck@.len() ==> #[trigger] deck@[i] == deck_card(i),
        decreases 4 - s,
    {
        let suit = suit_from_index(s);
        let mut r: u8 = 2;
        while r <= 14
            invariant
                s < 4,
                2 <= r <= 15,
                suit == suit_at(s as int),
                deck@.len() == 13 * s + (r - 2),
                forall|i: int| 0 <= i < deck@.len() ==> #[trigger] deck@[i] == deck_card(i),
            decreases 15 - r,
        {
            proof {
                lemma_fundamental_div_mod_converse(13 * s + (r - 2), 13, s as int, r - 2);
            }
            deck.push(Card { rank: r, suit });
            r += 1;
        }
        s += 1;
    }
    proof {
        assert forall|i: int, j: int| 0 <= i < 52 && 0 <= j < 52 && i != j implies deck@[i] != deck@[j] by {
            lemma_deck_card_injective(i, j);
        }
    }
    deck
}

proof fn lemma_deck_card_injective(i: int, j: int)
    requires
        0 <= i < 52,
        0 <= j < 52,
        i != j,
    ensures
        deck_card(i) != deck_card(j),
{
    lemma_fundamental_div_mod(i, 13);
    lemma_fundamental_div_mod(j, 13);
    assert(0 <= i / 13 < 4) by {
        if i / 13 >= 4 {
            assert(13 * (i / 13) >= 52) by (nonlinear_arith) requires i / 13 >= 4;
        }
    }
    assert(0 <= j / 13 < 4) by {
        if j / 13 >= 4 {
            assert(13 * (j / 13) >= 52) by (nonlinear_arith) requires j / 13 >= 4;
        }
    }
    if deck_card(i) == deck_card(j) {
        assert(i % 13 == j % 13);
        assert(i / 13 == j / 13);
    }
}

/// Two sequences with the same cards: one without repeats leaves none in the other.
proof fn lemma_same_cards_no_duplicates(a: Seq<Card>, b: Seq<Card>)
    requires
        a.to_multiset() == b.to_multiset(),
        b.no_duplicates(),
    ensures
        a.no_duplicates(),
{
    b.lemma_multiset_has_no_duplicates();
    a.lemma_multiset_has_no_duplicates_conv();
}

/// Relies on rand's `SliceRandom::shuffle` with the thread-local generator:
/// it only swaps elements, so the deck keeps the same cards.
#[verifier::external_body]
fn shuffle_cards(deck: &mut Vec<Card>)
    ensures
        final(deck)@.len() == old(deck)@.len(),
        final(deck)@.to_multiset() == old(deck)@.to_multiset(),
{
    deck.shuffle(&mut rand::thread_rng());
}

/// Shuffles the deck and takes `n` cards off it: the cards dealt and the
/// cards left are together exactly the cards of the deck before.
pub fn deal_hand(deck: &mut Vec<Card>, n: usize) -> (hand: Vec<Card>)
    requires
        n <= old(deck)@.len(),
    ensures
        hand@.len() == n,
        final(deck)@.len() == old(deck)@.len() - n,
        (hand@ + final(deck)@).to_multiset() == old(deck)@.to_multiset(),
        forall|i: int| 0 <= i < n ==> old(deck)@.contains(#[trigger] hand@[i]),
        old(deck)@.no_duplicates() ==> hand@.no_duplicates(),
{
    let ghost before = deck@;
    shuffle_cards(deck);
    let ghost shuffled = deck@;
    let mut hand = deck.split_off(n);
    std::mem::swap(deck, &mut hand);
    assert(hand@ + deck@ =~= shuffled);
    proof {
        broadcast use vstd::seq_lib::to_multiset_contains;
        assert forall|i: int| 0 <= i < n implies before.contains(#[trigger] hand@[i]) by {
            assert(shuffled[i] == hand@[i]);
            assert(shuffled.contains(hand@[i]));
            assert(shuffled.to_multiset().contains(hand@[i]));
        }
        if before.no_duplicates() {
            lemma_same_cards_no_duplicates(shuffled, before);
            assert(hand@ =~= shuffled.subrange(0, n as int));
        }
    }
    hand
}

/// How many cards of `cards` have rank `r`.
pub open spec fn rank_count(cards: Seq<Card>, r: u8) -> nat
    decreases cards.len(),
{
    if cards.len() == 0 {
        0
    } else {
        rank_count(cards.drop_last(), r) + if cards.last().rank == r { 1nat } else { 0nat }
    }
}

/// Some rank occurs exactly `k` times.
pub open spec fn has_count(cards: Seq<Card>, k: nat) -> bool {
    exists|r: u8| rank_count(cards, r) == k
}

/// Two different ranks occur exactly twice each.
pub open spec fn has_two_pairs(cards: Seq<Card>) -> bool {
    exists|a: u8, b: u8| a != b && rank_count(cards, a) == 2 && rank_count(cards, b) == 2
}

/// All cards share one suit.
pub open spec fn is_flush(cards: Seq<Card>) -> bool {
    forall|i: int| 0 <= i < cards.len() ==> #[trigger] cards[i].suit == cards[0].suit
}

/// No two cards share a rank.
pub open spec fn ranks_distinct(cards: Seq<Card>) -> bool {
    forall|i: int, j: int| 0 <= i < j < cards.len() ==> cards[i].rank != cards[j].rank
}

/// The ranks of the low-ace run 2, 3, 4, 5, ace.
pub open spec fn is_wheel_rank(r: u8) -> bool {
    r == 2 || r == 3 || r == 4 || r == 5 || r == 14
}

/// Distinct ranks that form a run: all within a span of four, or the
/// low-ace run 2, 3, 4, 5, ace.
pub open spec fn is_straight(cards: Seq<Card>) -> bool {
    &&& ranks_distinct(cards)
    &&& {
        ||| forall|i: int, j: int|
            0 <= i < cards.len() && 0 <= j < cards.len() ==> cards[i].rank - cards[j].rank <= 4
        ||| forall|i: int|
            0 <= i < cards.len() ==> is_wheel_rank(#[trigger] cards[i].rank)
    }
}

/// The tier of a five-card hand; the first matching test wins.
pub open spec fn hand_rank_of(cards: Seq<Card>) -> HandRank {
    if is_straight(cards) && is_flush(cards) {
        HandRank::StraightFlush
    } else if has_count(cards, 4) {
        HandRank::FourKind
    } else if has_count(cards, 3) && has_count(cards, 2) {
        HandRank::FullHouse
    } else if is_flush(cards) {
        HandRank::Flush
    } else if is_straight(cards) {
        HandRank::Straight
    } else if has_count(cards, 3) {
        HandRank::Trips
    } else if has_two_pairs(cards) {
        HandRank::TwoPair
    } else if has_count(cards, 2) {
        HandRank::Pair(choose|r: u8| rank_count(cards, r) == 2)
    } else {
        HandRank::HighCard
    }
}

proof fn lemma_rank_count_bounded(cards: Seq<Card>, r: u8)
    ensures
        rank_count(cards, r) <= cards.len(),
    decreases cards.len(),
{
    if cards.len() > 0 {
        lemma_rank_count_bounded(cards.drop_last(), r);
    }
}

proof fn lemma_rank_count_witness(cards: Seq<Card>, r: u8)
    requires
        rank_count(cards, r) > 0,
    ensures
        exists|i: int| 0 <= i < cards.len() && cards[i].rank == r,
    decreases cards.len(),
{
    if cards.last().rank != r {
        lemma_rank_count_witness(cards.drop_last(), r);
        let i = choose|i: int| 0 <= i < cards.drop_last().len() && cards.drop_last()[i].rank == r;
        assert(cards[i].rank == r);
    }
}

/// Per-rank card counts, indexed by rank. A table with one slot for each
/// possible `u8` rank replaces a map from rank to count: it never misses a
/// key, and the contract can state every rank's count directly.
fn count_ranks(cards: &[Card]) -> (counts: Vec<u8>)
    requires
        cards@.len() == 5,
    ensures
        counts@.len() == 256,
        forall|r: u8| counts@[r as int] as nat == rank_count(cards@, r),
{
    let mut counts: Vec<u8> = vec![0u8; 256];
    let mut i: usize = 0;
    while i < cards.len()
        invariant
            i <= cards@.len() == 5,
            counts@.len() == 256,
            forall|r: u8| counts@[r as int] as nat == rank_count(cards@.subrange(0, i as int), r),
        decreases cards@.len() - i,
    {
        let r = cards[i].rank;
        proof {
            lemma_rank_count_bounded(cards@.subrange(0, i as int), r);
            assert(cards@.subrange(0, i as int + 1).drop_last() =~= cards@.subrange(0, i as int));
        }
        let c = counts[r as usize];
        counts.set(r as usize, c + 1);
        i += 1;
    }
    assert(cards@.subrange(0, 5) =~= cards@);
    counts
}

fn flush(cards: &[Card]) -> (r: bool)
    requires
        cards@.len() == 5,
    ensures
        r == is_flush(cards@),
{
    let first = cards[0].suit;
    let mut i: usize = 0;
    while i < cards.len()
        invariant
            i <= cards@.len() == 5,
            first == cards@[0].suit,
            forall|j: int| 0 <= j < i ==> cards@[j].suit == first,
        decreases cards@.len() - i,
    {
        if cards[i].suit != first {
            return false;
        }
        i += 1;
    }
    true
}

fn straight(cards: &[Card]) -> (r: bool)
    requires
        cards@.len() == 5,
    ensures
        r == is_straight(cards@),
{
    let mut distinct = true;
    let mut narrow = true;
    let mut i: usize = 0;
    while i < cards.len()
        invariant
            i <= cards@.len() == 5,
            distinct == (forall|a: int, b: int| 0 <= a < b < 5 && a < i ==> cards@[a].rank != cards@[b].rank),
            narrow == (forall|a: int, b: int| 0 <= a < i && 0 <= b < 5 ==> cards@[a].rank - cards@[b].rank <= 4),
        decreases cards@.len() - i,
    {
        let mut j: usize = 0;
        while j < cards.len()
            invariant
                i < cards@.len() == 5,
                j <= 5,
                distinct == (forall|a: int, b: int| 0 <= a < b < 5 && (a < i || (a == i && b < j)) ==> cards@[a].rank != cards@[b].rank),
                narrow == (forall|a: int, b: int| 0 <= b < 5 && (a < i || (a == i && b < j)) && 0 <= a ==> cards@[a].rank - cards@[b].rank <= 4),
            decreases cards@.len() - j,
        {
            if i < j && cards[i].rank == cards[j].rank {
                distinct = false;
            }
            if cards[i].rank as u16 > cards[j].rank as u16 + 4 {
                narrow = false;
            }
            j += 1;
        }
        i += 1;
    }
    assert(cards@.len() == 5);
    assert(narrow == (forall|a: int, b: int|
        0 <= a < cards@.len() && 0 <= b < cards@.len() ==> cards@[a].rank - cards@[b].rank <= 4));
    if !distinct {
        return false;
    }
    assert(ranks_distinct(cards@));
    if narrow {
        return true;
    }
    let mut k: usize = 0;
    while k < cards.len()
        invariant
            k <= cards@.len() == 5,
            ranks_distinct(cards@),
            !(forall|a: int, b: int|
                0 <= a < cards@.len() && 0 <= b < cards@.len() ==> cards@[a].rank - cards@[b].rank <= 4),
            forall|a: int| 0 <= a < k ==> is_wheel_rank(#[trigger] cards@[a].rank),
        decreases cards@.len() - k,
    {
        let r = cards[k].rank;
        if !(r == 2 || r == 3 || r == 4 || r == 5 || r == 14) {
            assert(!is_wheel_rank(cards@[k as int].rank));
            return false;
        }
        k += 1;
    }
    true
}

/// Whether some card's rank occurs exactly `k` times, for `k` of at least one.
fn some_rank_has_count(cards: &[Card], counts: &Vec<u8>, k: u8) -> (r: bool)
    requires
        cards@.len() == 5,
        k >= 1,
        counts@.len() == 256,
        forall|q: u8| counts@[q as int] as nat == rank_count(cards@, q),
    ensures
        r == has_count(cards@, k as nat),
{
    let mut i: usize = 0;
    while i < cards.len()
        invariant
            i <= cards@.len() == 5,
            k >= 1,
            counts@.len() == 256,
            forall|q: u8| counts@[q as int] as nat == rank_count(cards@, q),
            forall|a: int| 0 <= a < i ==> counts@[cards@[a].rank as int] != k,
        decreases cards@.len() - i,
    {
        if counts[cards[i].rank as usize] == k {
            assert(rank_count(cards@, cards@[i as int].rank) == k as nat);
            return true;
        }
        i += 1;
    }
    proof {
        assert forall|q: u8| rank_count(cards@, q) != k as nat by {
            if rank_count(cards@, q) == k as nat {
                lemma_rank_count_witness(cards@, q);
            }
        }
    }
    false
}

/// The first card's rank that occurs exactly twice, if any, and whether a
/// second such rank exists.
fn find_pairs(cards: &[Card], counts: &Vec<u8>) -> (r: (Option<u8>, bool))
    requires
        cards@.len() == 5,
        counts@.len() == 256,
        forall|q: u8| counts@[q as int] as nat == rank_count(cards@, q),
    ensures
        r.0 is None <==> !has_count(cards@, 2),
        r.0 matches Some(p) ==> rank_count(cards@, p) == 2,
        r.1 == has_two_pairs(cards@),
{
    let mut first: Option<u8> = None;
    let mut second = false;
    let mut i: usize = 0;
    while i < cards.len()
        invariant
            i <= cards@.len() == 5,
            counts@.len() == 256,
            forall|q: u8| counts@[q as int] as nat == rank_count(cards@, q),
            first is None <==> (forall|a: int| 0 <= a < i ==> counts@[cards@[a].rank as int] != 2),
            first matches Some(p) ==> rank_count(cards@, p) == 2,
            second <==> (first matches Some(p) && exists|a: int|
                0 <= a < i && counts@[cards@[a].rank as int] == 2 && cards@[a].rank != p),
        decreases cards@.len() - i,
    {
        let r = cards[i].rank;
        if counts[r as usize] == 2 {
            match first {
                None => {
                    first = Some(r);
                },
                Some(p) => {
                    if p != r {
                        second = true;
                    }
                },
            }
        }
        i += 1;
    }
    proof {
        if first is None {
            assert forall|q: u8| rank_count(cards@, q) != 2 by {
                if rank_count(cards@, q) == 2 {
                    lemma_rank_count_witness(cards@, q);
                }
            }
        }
        if second {
            let p = first->0;
            let a = choose|a: int| 0 <= a < 5 && counts@[cards@[a].rank as int] == 2 && cards@[a].rank != p;
            assert(rank_count(cards@, cards@[a].rank) == 2);
        }
        if has_two_pairs(cards@) {
            let (x, y) = choose|x: u8, y: u8| x != y && rank_count(cards@, x) == 2 && rank_count(cards@, y) == 2;
            lemma_rank_count_witness(cards@, x);
            lemma_rank_count_witness(cards@, y);
            let ax = choose|a: int| 0 <= a < 5 && cards@[a].rank == x;
            let ay = choose|a: int| 0 <= a < 5 && cards@[a].rank == y;
            assert(counts@[cards@[ax].rank as int] == 2);
            assert(counts@[cards@[ay].rank as int] == 2);
        }
    }
    (first, second)
}

/// Classifies a five-card hand.
pub fn evaluate_hand(cards: &[Card]) -> (hr: HandRank)
    requires
        cards@.len() == 5,
    ensures
        hr == hand_rank_of(cards@),
{
    let counts = count_ranks(cards);
    let is_flush = flush(cards);
    let is_straight = straight(cards);
    if is_straight && is_flush {
        return HandRank::StraightFlush;
    }
    if some_rank_has_count(cards, &counts, 4) {
        return HandRank::FourKind;
    }
    let three = some_rank_has_count(cards, &counts, 3);
    let (pair, two_pairs) = find_pairs(cards, &counts);
    if three && pair.is_some() {
        return HandRank::FullHouse;
    }
    if is_flush {
        return HandRank::Flush;
    }
    if is_straight {
        return HandRank::Straight;
    }
    if three {
        return HandRank::Trips;
    }
    if two_pairs {
        return HandRank::TwoPair;
    }
    match pair {
        Some(p) => {
            proof {
                let c = choose|r: u8| rank_count(cards@, r) == 2;
                if c != p {
                    assert(has_two_pairs(cards@));
                }
            }
            HandRank::Pair(p)
        },
        None => HandRank::HighCard,
    }
}

/// A hand that is both a straight and a flush is a straight flush, never
/// merely a flush or a straight; a flush that is no straight outranks a
/// straight; and every tier below them is decided by the rank counts alone.
pub proof fn lemma_classification_precedence(cards: Seq<Card>)
    requires
        cards.len() == 5,
    ensures
        is_straight(cards) && is_flush(cards) ==> hand_rank_of(cards) == HandRank::StraightFlush,
        is_flush(cards) && !is_straight(cards) && !has_count(cards, 4) && !(has_count(cards, 3) && has_count(cards, 2))
            ==> hand_rank_of(cards) == HandRank::Flush,
        is_straight(cards) && !is_flush(cards) ==> hand_rank_of(cards) == HandRank::Straight,
        hand_rank_of(cards) != HandRank::Flush ==> !is_flush(cards) || is_straight(cards) || has_count(cards, 4)
            || (has_count(cards, 3) && has_count(cards, 2)),
        is_straight(cards) ==> !has_count(cards, 2) && !has_count(cards, 3) && !has_count(cards, 4),
{
    if is_straight(cards) {
        assert forall|r: u8| rank_count(cards, r) <= 1 by {
            lemma_rank_count_distinct(cards, r);
        }
    }
}

/// A low-ace run 2, 3, 4, 5, ace whose suits are not all one is a straight.
pub proof fn lemma_wheel_is_straight(cards: Seq<Card>)
    requires
        cards.len() == 5,
        ranks_distinct(cards),
        forall|i: int| 0 <= i < 5 ==> is_wheel_rank(#[trigger] cards[i].rank),
        !is_flush(cards),
    ensures
        hand_rank_of(cards) == HandRank::Straight,
{
    lemma_classification_precedence(cards);
}

proof fn lemma_rank_count_distinct(cards: Seq<Card>, r: u8)
    requires
        ranks_distinct(cards),
    ensures
        rank_count(cards, r) <= 1,
    decreases cards.len(),
{
    if cards.len() > 0 {
        let init = cards.drop_last();
        assert(ranks_distinct(init));
        lemma_rank_count_distinct(init, r);
        if cards.last().rank == r && rank_count(init, r) == 1 {
            lemma_rank_count_witness(init, r);
            let i = choose|i: int| 0 <= i < init.len() && init[i].rank == r;
            assert(cards[i].rank == cards[cards.len() - 1].rank);
        }
    }
}

/// The payout table: multiplier of the ante paid for each tier.
pub open spec fn multiplier_of(hr: HandRank) -> u32 {
    match hr {
        HandRank::HighCard => 0,
        HandRank::Pair(r) => if r >= 11 { 1 } else { 0 },
        HandRank::TwoPair => 2,
        HandRank::Trips => 3,
        HandRank::Straight => 5,
        HandRank::Flush => 6,
        HandRank::FullHouse => 9,
        HandRank::FourKind => 25,
        HandRank::StraightFlush => 50,
    }
}

/// The largest multiplier of the table.
pub const MAX_MULTIPLIER: u32 = 50;

pub fn payout_multiplier(hr: &HandRank) -> (r: u32)
    ensures
        r == multiplier_of(*hr),
        r <= MAX_MULTIPLIER,
{
    match hr {
        HandRank::HighCard => 0,
        HandRank::Pair(rank) => {
            if *rank >= 11 {
                1
            } else {
                0
            }
        },
        HandRank::TwoPair => 2,
        HandRank::Trips => 3,
        HandRank::Straight => 5,
        HandRank::Flush => 6,
        HandRank::FullHouse => 9,
        HandRank::FourKind => 25,
        HandRank::StraightFlush => 50,
    }
}

} // verus!
