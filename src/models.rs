//! Plain data shared by the evaluator, the store and the round operations.

use vstd::prelude::*;

verus! {

/// A playing card; `rank` runs from 2 to 14, where 11..=14 are J, Q, K and the ace.
#[derive(Clone, Copy, Debug, PartialEq, Eq, Structural)]
pub struct Card {
    pub rank: u8,
    pub suit: Suit,
}

#[derive(Clone, Copy, Debug, PartialEq, Eq, Structural)]
pub enum Suit {
    Hearts,
    Diamonds,
    Clubs,
    Spades,
}

/// Rank tier of a five-card hand; `Pair` carries the rank that is paired.
#[derive(Clone, Copy, Debug, PartialEq, Eq, Structural)]
pub enum HandRank {
    HighCard,
    Pair(u8),
    TwoPair,
    Trips,
    Straight,
    Flush,
    FullHouse,
    FourKind,
    StraightFlush,
}

/// A player account. `wallet` is in whole currency units.
#[derive(Clone, Debug)]
pub struct User {
    pub id: String,
    pub name: String,
    pub password: String,
    pub wallet: i64,
}

/// Round status. Only `Active` (initial) and `Revealed` (terminal) are ever
/// produced; the other two are reserved.
#[derive(Clone, Copy, Debug, PartialEq, Eq, Structural)]
pub enum RoundStatus {
    Active,
    Discarded,
    Revealed,
    Folded,
}

/// One hand of play: its owner, five cards, the ante paid and its status.
#[derive(Clone, Debug)]
pub struct Round {
    pub id: String,
    pub user_id: String,
    pub cards: Vec<Card>,
    pub ante: i64,
    pub status: RoundStatus,
}

/// A round as the contracts see it.
pub struct RoundView {
    pub id: Seq<char>,
    pub user_id: Seq<char>,
    pub cards: Seq<Card>,
    pub ante: i64,
    pub status: RoundStatus,
}

impl View for Round {
    type V = RoundView;

    open spec fn view(&self) -> RoundView {
        RoundView {
            id: self.id@,
            user_id: self.user_id@,
            cards: self.cards@,
            ante: self.ante,
            status: self.status,
        }
    }
}

/// The shared pools: what is available to pay winners, and what the house kept.
#[derive(Clone, Copy, Debug, PartialEq, Eq, Structural)]
pub struct Pools {
    pub win_pool: i64,
    pub house_profit: i64,
}

impl Default for Pools {
    fn default() -> (p: Pools)
        ensures
            p.win_pool == 0,
            p.house_profit == 0,
    {
        Pools { win_pool: 0, house_profit: 0 }
    }
}

/// Why an operation was refused.
#[derive(Clone, Copy, Debug, PartialEq, Eq, Structural)]
pub enum GameError {
    DuplicateName,
    InvalidCredentials,
    UserNotFound,
    InvalidAnte,
    InsufficientFunds,
    /// The win pool cannot cover the largest payout for this ante; carries
    /// the largest ante it can cover.
    PoolTooSmall { max_ante: i64 },
    InvalidIndices,
    RoundNotFound,
    OwnerMismatch,
    RoundNotActive,
    /// The win pool could not pay a winning hand; the ante was refunded.
    PoolShortfall,
    PoolInsufficient,
    /// A fresh identifier collided with an existing one.
    IdCollision,
    /// A balance would leave the range of `i64`.
    Overflow,
}

#[derive(Debug)]
pub struct SignInRequest {
    pub name: String,
    pub password: String,
}

#[derive(Debug)]
pub struct SignUpRequest {
    pub name: String,
    pub password: String,
}

#[derive(Debug)]
pub struct LoginResponse {
    pub id: String,
    pub name: String,
    pub wallet: i64,
}

#[derive(Debug)]
pub struct StartRequest {
    pub user_id: String,
    pub ante: i64,
}

#[derive(Debug)]
pub struct StartResponse {
    pub round_id: String,
    pub cards: Vec<Card>,
    pub wallet: i64,
    pub win_pool: i64,
}

#[derive(Debug)]
pub struct DiscardRequest {
    pub user_id: String,
    pub round_id: String,
    pub discard_indices: Vec<usize>,
}

#[derive(Debug)]
pub struct DiscardResponse {
    pub cards: Vec<Card>,
    pub wallet: i64,
    pub total_bet: i64,
}

#[derive(Debug)]
pub struct RevealRequest {
    pub user_id: String,
    pub round_id: String,
}

#[derive(Debug)]
pub struct RevealResponse {
    pub wallet: i64,
    pub win_pool: i64,
    pub house_profit: i64,
    pub hand_rank: HandRank,
    pub multiplier: u32,
    pub payout: i64,
}

#[derive(Debug)]
pub struct StatusResponse {
    pub wallet: i64,
    pub win_pool: i64,
    pub house_profit: i64,
}

#[derive(Debug)]
pub struct StatusRequest {
    pub user_id: String,
}

} // verus!
