use poker_server::models::{
    Card, DiscardRequest, GameError, HandRank, RevealRequest, RoundStatus, SignInRequest, SignUpRequest,
    StartRequest, Suit,
};
use poker_server::store::InMem;

fn c(rank: u8, suit: Suit) -> Card {
    Card { rank, suit }
}

fn high_card_hand() -> Vec<Card> {
    vec![c(2, Suit::Clubs), c(5, Suit::Hearts), c(9, Suit::Spades), c(11, Suit::Diamonds), c(13, Suit::Clubs)]
}

fn jacks_hand() -> Vec<Card> {
    vec![c(11, Suit::Clubs), c(11, Suit::Hearts), c(9, Suit::Spades), c(4, Suit::Diamonds), c(2, Suit::Clubs)]
}

fn straight_flush_hand() -> Vec<Card> {
    vec![c(5, Suit::Hearts), c(6, Suit::Hearts), c(7, Suit::Hearts), c(8, Suit::Hearts), c(9, Suit::Hearts)]
}

fn four_kind_hand() -> Vec<Card> {
    vec![c(7, Suit::Clubs), c(7, Suit::Hearts), c(7, Suit::Spades), c(7, Suit::Diamonds), c(2, Suit::Clubs)]
}

fn signup(s: &mut InMem, name: &str) -> String {
    let req = SignUpRequest { name: name.to_string(), password: "pw".to_string() };
    s.signup(&req).expect("signup").id
}

fn start(s: &mut InMem, user_id: &str, ante: i64, hand: Vec<Card>, round_id: &str) -> String {
    let req = StartRequest { user_id: user_id.to_string(), ante };
    s.start_with(&req, hand, round_id.to_string()).expect("start").round_id
}

fn reveal_as(s: &mut InMem, user_id: &str, round_id: &str) -> Result<poker_server::models::RevealResponse, GameError> {
    let req = RevealRequest { user_id: user_id.to_string(), round_id: round_id.to_string() };
    s.reveal_round(&req)
}

fn wallet(s: &InMem, user_id: &str) -> i64 {
    s.status(&user_id.to_string()).expect("status").wallet
}

#[test]
fn test_login_success() {
    let mut s = InMem::new_demo();
    let req = SignUpRequest { name: "test_user".to_string(), password: "secret".to_string() };
    let resp = s.signup(&req).expect("signup");
    assert_eq!(resp.wallet, 1000);
    assert_eq!(resp.name, "test_user");
    let back = s.signin(&SignInRequest { name: "test_user".to_string(), password: "secret".to_string() }).unwrap();
    assert_eq!(back.id, resp.id);
    assert_eq!(back.wallet, 1000);
}

#[test]
fn test_login_duplicate_user() {
    let mut s = InMem::new_demo();
    let req = SignUpRequest { name: "duplicate_user".to_string(), password: "pw".to_string() };
    assert!(s.signup(&req).is_ok());
    assert_eq!(s.signup(&req).err(), Some(GameError::DuplicateName));
}

#[test]
fn signin_with_wrong_password_is_refused() {
    let s = InMem::new_demo();
    let bad = SignInRequest { name: "user1".to_string(), password: "nope".to_string() };
    assert_eq!(s.signin(&bad).err(), Some(GameError::InvalidCredentials));
    let unknown = SignInRequest { name: "nobody".to_string(), password: "pass1".to_string() };
    assert_eq!(s.signin(&unknown).err(), Some(GameError::InvalidCredentials));
    let good = SignInRequest { name: "user1".to_string(), password: "pass1".to_string() };
    assert_eq!(s.signin(&good).unwrap().id, "user1");
}

#[test]
fn signup_into_empty_store_succeeds() {
    let mut s = InMem::new();
    let resp = s.signup(&SignUpRequest { name: "first".to_string(), password: "pw".to_string() }).unwrap();
    assert_eq!(resp.wallet, 1000);
    let u = s.get_user(&resp.id).unwrap();
    assert_eq!(u.id, resp.id);
}

#[test]
fn fresh_ids_differ() {
    let mut s = InMem::new();
    let a = signup(&mut s, "a");
    let b = signup(&mut s, "b");
    assert_ne!(a, b);
    assert!(!a.is_empty());
}

#[test]
fn colliding_user_id_is_refused() {
    let mut s = InMem::new_demo();
    assert_eq!(s.create_user_with_id("user1".to_string(), "other", "pw").err(), Some(GameError::IdCollision));
}

#[test]
fn status_reports_wallet_and_pools() {
    let s = InMem::new_demo();
    let st = s.status(&"user1".to_string()).unwrap();
    assert_eq!((st.wallet, st.win_pool, st.house_profit), (1000, 50_000, 0));
    assert_eq!(s.status(&"ghost".to_string()).err(), Some(GameError::UserNotFound));
}

#[test]
fn test_start_game_success() {
    let mut s = InMem::new_demo();
    let uid = signup(&mut s, "game_test_user");
    let resp = s.start(&StartRequest { user_id: uid.clone(), ante: 10 }).expect("start");
    assert_eq!(resp.cards.len(), 5);
    assert_eq!(resp.wallet, 990);
    assert_eq!(resp.win_pool, 50_000);
    let round = s.get_round(&resp.round_id).expect("round");
    assert_eq!(round.status, RoundStatus::Active);
    assert_eq!(round.ante, 10);
    assert_eq!(round.user_id, uid);
    assert_eq!(round.cards, resp.cards);
    assert_eq!(wallet(&s, &uid), 990);
    for i in 0..5 {
        assert!(resp.cards[i].rank >= 2 && resp.cards[i].rank <= 14);
        for j in (i + 1)..5 {
            assert_ne!(resp.cards[i], resp.cards[j]);
        }
    }
}

#[test]
fn test_start_game_insufficient_wallet() {
    let mut s = InMem::new_demo();
    let uid = signup(&mut s, "game_test_user");
    let r = s.start(&StartRequest { user_id: uid.clone(), ante: 2000 });
    assert_eq!(r.err(), Some(GameError::InsufficientFunds));
    assert_eq!(wallet(&s, &uid), 1000);
}

#[test]
fn test_start_game_invalid_user() {
    let mut s = InMem::new_demo();
    let r = s.start(&StartRequest { user_id: "invalid-user-id".to_string(), ante: 10 });
    assert_eq!(r.err(), Some(GameError::UserNotFound));
}

#[test]
fn start_with_non_positive_ante_is_refused() {
    let mut s = InMem::new_demo();
    assert_eq!(s.start(&StartRequest { user_id: "user1".to_string(), ante: 0 }).err(), Some(GameError::InvalidAnte));
    assert_eq!(s.start(&StartRequest { user_id: "user1".to_string(), ante: -5 }).err(), Some(GameError::InvalidAnte));
    assert_eq!(wallet(&s, "user1"), 1000);
}

#[test]
fn start_with_colliding_round_id_is_refused() {
    let mut s = InMem::new_demo();
    start(&mut s, "user1", 10, high_card_hand(), "r1");
    let r = s.start_with(&StartRequest { user_id: "user1".to_string(), ante: 10 }, high_card_hand(), "r1".to_string());
    assert_eq!(r.err(), Some(GameError::IdCollision));
    assert_eq!(wallet(&s, "user1"), 990);
}

#[test]
fn test_discard_success() {
    let mut s = InMem::new_demo();
    let uid = signup(&mut s, "discard_user");
    let rid = s.start(&StartRequest { user_id: uid.clone(), ante: 10 }).unwrap().round_id;
    let req = DiscardRequest { user_id: uid.clone(), round_id: rid.clone(), discard_indices: vec![0, 1] };
    let resp = s.discard(&req).expect("discard");
    assert_eq!(resp.cards.len(), 5);
    assert_eq!(resp.wallet, 980);
    assert_eq!(resp.total_bet, 10);
    assert_eq!(s.get_round(&rid).unwrap().cards, resp.cards);
    assert_eq!(s.get_round(&rid).unwrap().status, RoundStatus::Active);
}

#[test]
fn test_discard_invalid_round() {
    let mut s = InMem::new_demo();
    let req = DiscardRequest {
        user_id: "user1".to_string(),
        round_id: "invalid-round-id".to_string(),
        discard_indices: vec![0],
    };
    assert_eq!(s.discard(&req).err(), Some(GameError::RoundNotFound));
    assert_eq!(wallet(&s, "user1"), 1000);
}

#[test]
fn discard_replaces_positions_in_order() {
    let mut s = InMem::new_demo();
    start(&mut s, "user1", 10, high_card_hand(), "r1");
    let req = DiscardRequest {
        user_id: "user1".to_string(),
        round_id: "r1".to_string(),
        discard_indices: vec![0, 0, 7, 4],
    };
    let dealt = vec![c(3, Suit::Spades), c(4, Suit::Spades), c(6, Suit::Spades), c(8, Suit::Spades)];
    let resp = s.discard_with(&req, dealt).unwrap();
    let mut expected = high_card_hand();
    expected[0] = c(4, Suit::Spades);
    expected[4] = c(8, Suit::Spades);
    assert_eq!(resp.cards, expected);
    // four positions at half of 10 each
    assert_eq!(resp.wallet, 990 - 20);
    assert_eq!(resp.total_bet, 10);
}

#[test]
fn discard_cost_rounds_down() {
    let mut s = InMem::new_demo();
    start(&mut s, "user1", 5, high_card_hand(), "r1");
    let req = DiscardRequest { user_id: "user1".to_string(), round_id: "r1".to_string(), discard_indices: vec![2] };
    let resp = s.discard_with(&req, vec![c(3, Suit::Spades)]).unwrap();
    assert_eq!(resp.wallet, 995 - 2);
}

#[test]
fn discard_by_other_user_is_refused() {
    let mut s = InMem::new_demo();
    let other = signup(&mut s, "other");
    start(&mut s, "user1", 10, high_card_hand(), "r1");
    let req = DiscardRequest { user_id: other, round_id: "r1".to_string(), discard_indices: vec![0] };
    assert_eq!(s.discard(&req).err(), Some(GameError::OwnerMismatch));
}

#[test]
fn discard_without_funds_is_refused() {
    let mut s = InMem::new_demo();
    start(&mut s, "user1", 1000, high_card_hand(), "r1");
    let req = DiscardRequest { user_id: "user1".to_string(), round_id: "r1".to_string(), discard_indices: vec![0] };
    assert_eq!(s.discard(&req).err(), Some(GameError::InsufficientFunds));
    assert_eq!(s.get_round(&"r1".to_string()).unwrap().cards, high_card_hand());
}

#[test]
fn discard_of_more_than_a_deck_is_refused() {
    let mut s = InMem::new_demo();
    start(&mut s, "user1", 1, high_card_hand(), "r1");
    let req = DiscardRequest { user_id: "user1".to_string(), round_id: "r1".to_string(), discard_indices: vec![0; 53] };
    assert_eq!(s.discard(&req).err(), Some(GameError::InvalidIndices));
    assert_eq!(wallet(&s, "user1"), 999);
}

#[test]
fn discard_checks_owner_and_funds_before_the_deck_limit() {
    let mut s = InMem::new_demo();
    let other = signup(&mut s, "other");
    start(&mut s, "user1", 100, high_card_hand(), "r1");
    let by_other = DiscardRequest { user_id: other, round_id: "r1".to_string(), discard_indices: vec![0; 53] };
    assert_eq!(s.discard(&by_other).err(), Some(GameError::OwnerMismatch));
    // 53 positions at half of 100 cost 2650, more than the 900 left
    let too_dear = DiscardRequest { user_id: "user1".to_string(), round_id: "r1".to_string(), discard_indices: vec![0; 53] };
    assert_eq!(s.discard(&too_dear).err(), Some(GameError::InsufficientFunds));
    assert_eq!(wallet(&s, "user1"), 900);
}

#[test]
fn reveal_of_round_without_known_owner_is_refused() {
    let mut s = InMem::new_demo();
    let rid = s.create_round("ghost".to_string(), 10, high_card_hand()).unwrap();
    assert_eq!(reveal_as(&mut s, "ghost", &rid).err(), Some(GameError::UserNotFound));
    assert_eq!(s.get_round(&rid).unwrap().status, RoundStatus::Active);
    let req = DiscardRequest { user_id: "ghost".to_string(), round_id: rid, discard_indices: vec![0] };
    assert_eq!(s.discard(&req).err(), Some(GameError::UserNotFound));
}

#[test]
fn discard_after_reveal_is_refused() {
    let mut s = InMem::new_demo();
    start(&mut s, "user1", 10, high_card_hand(), "r1");
    reveal_as(&mut s, "user1", "r1").unwrap();
    let req = DiscardRequest { user_id: "user1".to_string(), round_id: "r1".to_string(), discard_indices: vec![0] };
    assert_eq!(s.discard(&req).err(), Some(GameError::RoundNotActive));
}

#[test]
fn test_reveal_success() {
    let mut s = InMem::new_demo();
    start(&mut s, "user1", 10, high_card_hand(), "r1");
    let resp = reveal_as(&mut s, "user1", "r1").expect("reveal");
    assert_eq!(resp.hand_rank, HandRank::HighCard);
    assert_eq!(resp.multiplier, 0);
    assert_eq!(resp.payout, 0);
    assert_eq!(resp.wallet, 990);
    // a quarter of 10, rounded down, to the house; the rest to the pool
    assert_eq!(resp.house_profit, 2);
    assert_eq!(resp.win_pool, 50_008);
    assert_eq!(s.get_round(&"r1".to_string()).unwrap().status, RoundStatus::Revealed);
}

#[test]
fn test_reveal_twice_fails() {
    let mut s = InMem::new_demo();
    start(&mut s, "user1", 10, jacks_hand(), "r1");
    assert!(reveal_as(&mut s, "user1", "r1").is_ok());
    assert_eq!(reveal_as(&mut s, "user1", "r1").err(), Some(GameError::RoundNotActive));
    assert_eq!(wallet(&s, "user1"), 1000);
}

#[test]
fn winning_reveal_pays_from_the_pool() {
    let mut s = InMem::new_demo();
    start(&mut s, "user1", 10, jacks_hand(), "r1");
    let resp = reveal_as(&mut s, "user1", "r1").unwrap();
    assert_eq!(resp.hand_rank, HandRank::Pair(11));
    assert_eq!(resp.multiplier, 1);
    assert_eq!(resp.payout, 10);
    assert_eq!(resp.wallet, 1000);
    assert_eq!(resp.win_pool, 49_990);
    assert_eq!(resp.house_profit, 0);
}

#[test]
fn reveal_of_unknown_round_is_refused() {
    let mut s = InMem::new_demo();
    assert_eq!(reveal_as(&mut s, "user1", "nope").err(), Some(GameError::RoundNotFound));
}

#[test]
fn reveal_by_other_user_uses_up_the_round() {
    let mut s = InMem::new_demo();
    let other = signup(&mut s, "other");
    start(&mut s, "user1", 10, jacks_hand(), "r1");
    assert_eq!(reveal_as(&mut s, &other, "r1").err(), Some(GameError::OwnerMismatch));
    assert_eq!(reveal_as(&mut s, "user1", "r1").err(), Some(GameError::RoundNotActive));
    assert_eq!(wallet(&s, "user1"), 990);
}

#[test]
fn short_pool_refunds_the_ante() {
    let mut s = InMem::new_demo();
    let other = signup(&mut s, "other");
    start(&mut s, "user1", 1000, straight_flush_hand(), "big");
    start(&mut s, &other, 10, four_kind_hand(), "small");
    let big = reveal_as(&mut s, "user1", "big").unwrap();
    assert_eq!(big.payout, 50_000);
    assert_eq!(big.win_pool, 0);
    assert_eq!(big.wallet, 50_000);
    assert_eq!(wallet(&s, &other), 990);
    assert_eq!(reveal_as(&mut s, &other, "small").err(), Some(GameError::PoolShortfall));
    assert_eq!(wallet(&s, &other), 1000);
    assert_eq!(s.get_pools().win_pool, 0);
    assert_eq!(s.get_round(&"small".to_string()).unwrap().status, RoundStatus::Revealed);
    // with an empty pool no ante is admissible
    let r = s.start(&StartRequest { user_id: other.clone(), ante: 10 });
    assert_eq!(r.err(), Some(GameError::PoolTooSmall { max_ante: 0 }));
    assert_eq!(wallet(&s, &other), 1000);
}

#[test]
fn pools_stay_non_negative() {
    let mut s = InMem::new_demo();
    for (i, hand) in [high_card_hand(), jacks_hand(), four_kind_hand(), high_card_hand()].into_iter().enumerate() {
        let rid = format!("r{}", i);
        start(&mut s, "user1", 20, hand, &rid);
        let _ = reveal_as(&mut s, "user1", &rid);
        let p = s.get_pools();
        assert!(p.win_pool >= 0 && p.house_profit >= 0);
    }
    let p = s.get_pools();
    // two losses of 20 give the house 5 each; the pool gets 15 each and pays 20 and 500
    assert_eq!(p.house_profit, 10);
    assert_eq!(p.win_pool, 50_000 + 15 - 20 - 500 + 15);
}
