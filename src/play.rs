//! The round operations: sign-up and sign-in, status, and a round's
//! start, discard and reveal, each one transaction on the store.

use vstd::prelude::*;
use crate::game::{deal_hand, deck_card, evaluate_hand, hand_rank_of, multiplier_of, new_deck, payout_multiplier, MAX_MULTIPLIER};
use crate::models::{
    Card, DiscardRequest, DiscardResponse, GameError, LoginResponse, Pools, RevealRequest, Round,
    RevealResponse, RoundStatus, RoundView, SignInRequest, SignUpRequest, StartRequest, StartResponse,
    StatusResponse,
};
use crate::store::{
    copy_cards, credentials_match, fresh_id, name_in_use, round_ok, with_cards, with_status, with_wallet, InMem,
    MAX_ANTE, STARTING_WALLET,
};

verus! {

/// Why a start is refused, if it is, in the order the checks are made.
pub open spec fn start_error(s: InMem, user_id: Seq<char>, ante: i64) -> Option<GameError> {
    if !s.users_view().contains_key(user_id) {
        Some(GameError::UserNotFound)
    } else if ante <= 0 {
        Some(GameError::InvalidAnte)
    } else if ante > s.users_view()[user_id].wallet {
        Some(GameError::InsufficientFunds)
    } else if s.pools_view().win_pool < ante * MAX_MULTIPLIER {
        Some(GameError::PoolTooSmall { max_ante: (s.pools_view().win_pool as int / MAX_MULTIPLIER as int) as i64 })
    } else {
        None
    }
}

/// Cost of discarding `n` cards: half the ante per card, rounded down.
pub open spec fn discard_cost(ante: int, n: int) -> int {
    ante * n / 2
}

/// `cards` after the `i`-th dealt card has been put at position
/// `indices[i]`, in order; positions outside the hand are skipped and a
/// repeated position is overwritten again.
pub open spec fn replace_at(cards: Seq<Card>, indices: Seq<usize>, dealt: Seq<Card>) -> Seq<Card>
    decreases indices.len(),
{
    if indices.len() == 0 {
        cards
    } else {
        let prev = replace_at(cards, indices.drop_last(), dealt);
        let k = indices.last();
        if k < prev.len() {
            prev.update(k as int, dealt[indices.len() - 1])
        } else {
            prev
        }
    }
}

/// Why a discard is refused, if it is, in the order the checks are made.
pub open spec fn discard_error(s: InMem, user_id: Seq<char>, round_id: Seq<char>, n: int) -> Option<GameError> {
    if !s.rounds_view().contains_key(round_id) {
        Some(GameError::RoundNotFound)
    } else if s.rounds_view()[round_id].user_id != user_id {
        Some(GameError::OwnerMismatch)
    } else if s.rounds_view()[round_id].status != RoundStatus::Active {
        Some(GameError::RoundNotActive)
    } else if !s.users_view().contains_key(user_id) {
        Some(GameError::UserNotFound)
    } else if s.users_view()[user_id].wallet < discard_cost(s.rounds_view()[round_id].ante as int, n) {
        Some(GameError::InsufficientFunds)
    } else {
        None
    }
}

/// The house's share of a lost ante: a quarter, rounded down.
pub open spec fn house_cut(ante: int) -> int {
    ante * 25 / 100
}

/// The round exists, is active and belongs to the requesting user.
pub open spec fn claimable(s: InMem, user_id: Seq<char>, round_id: Seq<char>) -> bool {
    &&& s.rounds_view().contains_key(round_id)
    &&& s.rounds_view()[round_id].status == RoundStatus::Active
    &&& s.rounds_view()[round_id].user_id == user_id
}

/// The round can be claimed by this user, whose wallet is known.
pub open spec fn settleable(s: InMem, user_id: Seq<char>, round_id: Seq<char>) -> bool {
    claimable(s, user_id, round_id) && s.users_view().contains_key(user_id)
}

/// Multiplier earned by the cards of a stored round.
pub open spec fn round_multiplier(rv: RoundView) -> int {
    multiplier_of(hand_rank_of(rv.cards)) as int
}

/// Settling this reveal would take a pool or the wallet past `i64::MAX`.
pub open spec fn reveal_overflows(s: InMem, user_id: Seq<char>, round_id: Seq<char>) -> bool {
    let rv = s.rounds_view()[round_id];
    let m = round_multiplier(rv);
    let w = s.users_view()[user_id].wallet;
    let p = s.pools_view();
    if m == 0 {
        p.win_pool + (rv.ante - house_cut(rv.ante as int)) > i64::MAX
            || p.house_profit + house_cut(rv.ante as int) > i64::MAX
    } else if p.win_pool < rv.ante * m {
        w + rv.ante > i64::MAX
    } else {
        w + rv.ante * m > i64::MAX
    }
}

/// Same store but for the round, now revealed.
pub open spec fn only_round_revealed(old_s: InMem, new_s: InMem, round_id: Seq<char>) -> bool {
    new_s.rounds_view() == old_s.rounds_view().insert(round_id,
        with_status(old_s.rounds_view()[round_id], RoundStatus::Revealed))
}

/// A start whose ante exceeds the user's wallet is refused with
/// `InsufficientFunds`, and (by `start`'s contract) changes nothing.
pub proof fn lemma_start_over_wallet_refused(s: InMem, user_id: Seq<char>, ante: i64)
    requires
        s.wf(),
        s.users_view().contains_key(user_id),
        ante > s.users_view()[user_id].wallet,
    ensures
        start_error(s, user_id, ante) == Some(GameError::InsufficientFunds),
{
    s.lemma_wallet_nonnegative(user_id);
}

/// A start for a known user with a positive ante the wallet covers, but
/// more than a fiftieth of the win pool, is refused with `PoolTooSmall`
/// naming the largest admissible ante, and (by `start`'s contract) changes nothing.
pub proof fn lemma_start_pool_too_small(s: InMem, user_id: Seq<char>, ante: i64)
    requires
        s.wf(),
        s.users_view().contains_key(user_id),
        0 < ante <= s.users_view()[user_id].wallet,
        s.pools_view().win_pool < ante * 50,
    ensures
        start_error(s, user_id, ante) == Some(GameError::PoolTooSmall { max_ante: (s.pools_view().win_pool / 50) as i64 }),
{
}

/// Once a reveal has claimed a round, the round is revealed for good: no
/// user can claim it again, so a second reveal is refused with `RoundNotActive`.
pub proof fn lemma_reveal_at_most_once(before: InMem, after: InMem, user_id: Seq<char>, round_id: Seq<char>, other: Seq<char>)
    requires
        before.rounds_view().contains_key(round_id),
        before.rounds_view()[round_id].status == RoundStatus::Active,
        only_round_revealed(before, after, round_id),
    ensures
        after.rounds_view().contains_key(round_id),
        after.rounds_view()[round_id].status == RoundStatus::Revealed,
        !claimable(after, other, round_id),
{
}

impl InMem {
    /// Signs a new user up; the name must not be in use.
    pub fn signup(&mut self, req: &SignUpRequest) -> (r: Result<LoginResponse, GameError>)
        requires
            old(self).wf(),
        ensures
            final(self).wf(),
            name_in_use(old(self).users_view(), req.name@) ==> r == Err::<LoginResponse, GameError>(GameError::DuplicateName),
            r is Err ==> *final(self) == *old(self),
            r matches Err(e) ==> e == GameError::DuplicateName || e == GameError::IdCollision,
            r == Err::<LoginResponse, GameError>(GameError::DuplicateName) ==> name_in_use(old(self).users_view(), req.name@),
            !name_in_use(old(self).users_view(), req.name@) && old(self).users_view().is_empty() ==> r is Ok,
            r matches Ok(resp) ==> !name_in_use(old(self).users_view(), req.name@)
                && resp.name@ == req.name@ && resp.wallet == STARTING_WALLET
                && final(self).users_view().contains_key(resp.id@)
                && !old(self).users_view().contains_key(resp.id@)
                && final(self).users_view()[resp.id@].name@ == req.name@
                && final(self).users_view()[resp.id@].password@ == req.password@
                && final(self).users_view() == old(self).users_view().insert(resp.id@, final(self).users_view()[resp.id@])
                && final(self).rounds_view() == old(self).rounds_view()
                && final(self).pools_view() == old(self).pools_view(),
    {
        match self.create_user_if_unique(req.name.as_str(), req.password.as_str()) {
            Ok(u) => Ok(LoginResponse { id: u.id, name: u.name, wallet: u.wallet }),
            Err(e) => Err(e),
        }
    }

    /// Signs an existing user in by name and password.
    pub fn signin(&self, req: &SignInRequest) -> (r: Result<LoginResponse, GameError>)
        requires
            self.wf(),
        ensures
            r is Ok <==> credentials_match(self.users_view(), req.name@, req.password@),
            r is Err ==> r == Err::<LoginResponse, GameError>(GameError::InvalidCredentials),
            r matches Ok(resp) ==> self.users_view().contains_key(resp.id@)
                && self.users_view()[resp.id@].name@ == req.name@
                && self.users_view()[resp.id@].password@ == req.password@
                && resp.name@ == req.name@ && resp.wallet == self.users_view()[resp.id@].wallet,
    {
        match self.login_user_if_exists(req.name.as_str(), req.password.as_str()) {
            Ok(u) => Ok(LoginResponse { id: u.id, name: u.name, wallet: u.wallet }),
            Err(e) => Err(e),
        }
    }

    /// The user's wallet and the pools.
    pub fn status(&self, user_id: &String) -> (r: Result<StatusResponse, GameError>)
        requires
            self.wf(),
        ensures
            r is Err <==> !self.users_view().contains_key(user_id@),
            r is Err ==> r == Err::<StatusResponse, GameError>(GameError::UserNotFound),
            r matches Ok(st) ==> st.wallet == self.users_view()[user_id@].wallet
                && st.win_pool == self.pools_view().win_pool
                && st.house_profit == self.pools_view().house_profit,
    {
        match self.get_user(user_id) {
            None => Err(GameError::UserNotFound),
            Some(u) => {
                let p = self.get_pools();
                Ok(StatusResponse { wallet: u.wallet, win_pool: p.win_pool, house_profit: p.house_profit })
            },
        }
    }

    /// Starts a round with five cards dealt from a freshly shuffled deck and a
    /// fresh random round id; see `start_with`.
    pub fn start(&mut self, req: &StartRequest) -> (r: Result<StartResponse, GameError>)
        requires
            old(self).wf(),
        ensures
            final(self).wf(),
            start_error(*old(self), req.user_id@, req.ante) matches Some(e)
                ==> r == Err::<StartResponse, GameError>(e) && *final(self) == *old(self),
            r matches Err(e) ==> *final(self) == *old(self)
                && (start_error(*old(self), req.user_id@, req.ante) == Some(e) || e == GameError::IdCollision),
            start_error(*old(self), req.user_id@, req.ante) is None && old(self).rounds_view().is_empty() ==> r is Ok,
            r matches Ok(resp) ==> start_error(*old(self), req.user_id@, req.ante) is None
                && !old(self).rounds_view().contains_key(resp.round_id@)
                && resp.cards@.len() == 5
                && resp.cards@.no_duplicates()
                && (forall|i: int| 0 <= i < 5 ==> exists|j: int| 0 <= j < 52 && #[trigger] resp.cards@[i] == deck_card(j))
                && resp.wallet == old(self).users_view()[req.user_id@].wallet - req.ante
                && resp.win_pool == old(self).pools_view().win_pool
                && final(self).users_view() == old(self).users_view().insert(req.user_id@,
                    with_wallet(old(self).users_view()[req.user_id@], resp.wallet))
                && final(self).rounds_view() == old(self).rounds_view().insert(resp.round_id@, RoundView {
                    id: resp.round_id@, user_id: req.user_id@, cards: resp.cards@, ante: req.ante,
                    status: RoundStatus::Active })
                && final(self).pools_view() == old(self).pools_view(),
    {
        let mut deck = new_deck();
        let ghost fresh = deck@;
        let hand = deal_hand(&mut deck, 5);
        proof {
            assert forall|i: int| 0 <= i < 5 implies exists|j: int| 0 <= j < 52 && #[trigger] hand@[i] == deck_card(j) by {
                assert(fresh.contains(hand@[i]));
                let j = choose|j: int| 0 <= j < fresh.len() && fresh[j] == hand@[i];
                assert(fresh[j] == deck_card(j));
            }
        }
        let id = fresh_id();
        self.start_with(req, hand, id)
    }

    /// Replaces the cards at the given positions by the dealt ones, for half
    /// the ante per position, on an active round of the requesting user.
    /// The round's ante, and so the reported total bet, stay as they were.
    pub fn discard_with(&mut self, req: &DiscardRequest, dealt: Vec<Card>) -> (r: Result<DiscardResponse, GameError>)
        requires
            old(self).wf(),
            dealt@.len() == req.discard_indices@.len(),
        ensures
            final(self).wf(),
            discard_error(*old(self), req.user_id@, req.round_id@, req.discard_indices@.len() as int) matches Some(e)
                ==> r == Err::<DiscardResponse, GameError>(e) && *final(self) == *old(self),
            discard_error(*old(self), req.user_id@, req.round_id@, req.discard_indices@.len() as int) is None
                ==> (r matches Ok(resp)
                && resp.cards@ == replace_at(old(self).rounds_view()[req.round_id@].cards, req.discard_indices@, dealt@)
                && resp.cards@.len() == 5
                && resp.wallet == old(self).users_view()[req.user_id@].wallet
                    - discard_cost(old(self).rounds_view()[req.round_id@].ante as int, req.discard_indices@.len() as int)
                && resp.total_bet == old(self).rounds_view()[req.round_id@].ante
                && final(self).users_view() == old(self).users_view().insert(req.user_id@,
                    with_wallet(old(self).users_view()[req.user_id@], resp.wallet))
                && final(self).rounds_view() == old(self).rounds_view().insert(req.round_id@,
                    with_cards(old(self).rounds_view()[req.round_id@], resp.cards@))
                && final(self).pools_view() == old(self).pools_view()),
    {
        let (round, cost) = match self.discard_check(req) {
            Ok(found) => found,
            Err(e) => return Err(e),
        };
        let n = req.discard_indices.len();
        let wallet = match self.debit_wallet(&req.user_id, cost) {
            Ok(w) => w,
            Err(e) => return Err(e),
        };
        let mut cards = copy_cards(&round.cards);
        let mut i: usize = 0;
        while i < n
            invariant
                n == req.discard_indices@.len() == dealt@.len(),
                i <= n,
                cards@ == replace_at(round.cards@, req.discard_indices@.subrange(0, i as int), dealt@),
                cards@.len() == 5,
            decreases n - i,
        {
            let k = req.discard_indices[i];
            proof {
                assert(req.discard_indices@.subrange(0, i as int + 1).drop_last()
                    =~= req.discard_indices@.subrange(0, i as int));
            }
            if k < cards.len() {
                cards.set(k, dealt[i]);
            }
            i += 1;
        }
        assert(req.discard_indices@.subrange(0, n as int) =~= req.discard_indices@);
        let out = copy_cards(&cards);
        match self.update_round_cards(&req.round_id, cards) {
            Ok(()) => Ok(DiscardResponse { cards: out, wallet, total_bet: round.ante }),
            Err(e) => Err(e),
        }
    }

    /// The checks of a discard, in order: the round, its owner, its status,
    /// the user, and the wallet against the cost. Gives back the round and
    /// the cost when they all pass.
    fn discard_check(&self, req: &DiscardRequest) -> (r: Result<(Round, i64), GameError>)
        requires
            self.wf(),
        ensures
            r matches Err(e) ==> discard_error(*self, req.user_id@, req.round_id@, req.discard_indices@.len() as int) == Some(e),
            r matches Ok((rd, cost)) ==> discard_error(*self, req.user_id@, req.round_id@, req.discard_indices@.len() as int) is None
                && rd@ == self.rounds_view()[req.round_id@]
                && round_ok(rd@)
                && cost == discard_cost(rd.ante as int, req.discard_indices@.len() as int),
    {
        let round = match self.get_round(&req.round_id) {
            None => return Err(GameError::RoundNotFound),
            Some(rd) => rd,
        };
        if round.user_id != req.user_id {
            return Err(GameError::OwnerMismatch);
        }
        if round.status != RoundStatus::Active {
            return Err(GameError::RoundNotActive);
        }
        let user = match self.get_user(&req.user_id) {
            None => return Err(GameError::UserNotFound),
            Some(u) => u,
        };
        let n = req.discard_indices.len();
        assert(0 <= round.ante as int * n as int <= MAX_ANTE as int * usize::MAX as int) by (nonlinear_arith)
            requires 1 <= round.ante <= MAX_ANTE, 0 <= n <= usize::MAX;
        let wide: i128 = (round.ante as i128) * (n as i128) / 2;
        if (user.wallet as i128) < wide {
            return Err(GameError::InsufficientFunds);
        }
        Ok((round, wide as i64))
    }

    /// Discards as `discard_with` does, with replacement cards dealt from a
    /// freshly shuffled deck. Once the round, owner, status and funds pass,
    /// more positions than a deck has cards are refused.
    pub fn discard(&mut self, req: &DiscardRequest) -> (r: Result<DiscardResponse, GameError>)
        requires
            old(self).wf(),
        ensures
            final(self).wf(),
            discard_error(*old(self), req.user_id@, req.round_id@, req.discard_indices@.len() as int) matches Some(e)
                ==> r == Err::<DiscardResponse, GameError>(e) && *final(self) == *old(self),
            discard_error(*old(self), req.user_id@, req.round_id@, req.discard_indices@.len() as int) is None
                && req.discard_indices@.len() > 52
                ==> r == Err::<DiscardResponse, GameError>(GameError::InvalidIndices) && *final(self) == *old(self),
            req.discard_indices@.len() <= 52
                && discard_error(*old(self), req.user_id@, req.round_id@, req.discard_indices@.len() as int) is None
                ==> (r matches Ok(resp)
                && (exists|dealt: Seq<Card>| dealt.len() == req.discard_indices@.len()
                    && dealt.no_duplicates()
                    && (forall|i: int| 0 <= i < dealt.len() ==> exists|j: int| 0 <= j < 52 && #[trigger] dealt[i] == deck_card(j))
                    && resp.cards@ == replace_at(old(self).rounds_view()[req.round_id@].cards, req.discard_indices@, dealt))
                && resp.cards@.len() == 5
                && resp.wallet == old(self).users_view()[req.user_id@].wallet
                    - discard_cost(old(self).rounds_view()[req.round_id@].ante as int, req.discard_indices@.len() as int)
                && resp.total_bet == old(self).rounds_view()[req.round_id@].ante
                && final(self).users_view() == old(self).users_view().insert(req.user_id@,
                    with_wallet(old(self).users_view()[req.user_id@], resp.wallet))
                && final(self).rounds_view() == old(self).rounds_view().insert(req.round_id@,
                    with_cards(old(self).rounds_view()[req.round_id@], resp.cards@))
                && final(self).pools_view() == old(self).pools_view()),
    {
        match self.discard_check(req) {
            Ok(_) => {},
            Err(e) => return Err(e),
        }
        let n = req.discard_indices.len();
        if n > 52 {
            return Err(GameError::InvalidIndices);
        }
        let mut deck = new_deck();
        let ghost fresh = deck@;
        let dealt = deal_hand(&mut deck, n);
        let ghost d = dealt@;
        proof {
            assert forall|i: int| 0 <= i < d.len() implies exists|j: int| 0 <= j < 52 && #[trigger] d[i] == deck_card(j) by {
                assert(fresh.contains(d[i]));
                let j = choose|j: int| 0 <= j < fresh.len() && fresh[j] == d[i];
                assert(fresh[j] == deck_card(j));
            }
        }
        let r = self.discard_with(req, dealt);
        proof {
            if r is Ok {
                assert(d.len() == req.discard_indices@.len());
            }
        }
        r
    }

    /// Reveals a round: claims it (it must exist and be active), checks its
    /// owner, then settles it. A losing hand splits the ante between the house
    /// (a quarter) and the win pool (the rest). A winning hand is paid ante
    /// times multiplier out of the win pool; where the pool is short the ante
    /// is refunded instead and `PoolShortfall` reported. A mismatched owner
    /// still uses up the round's one reveal.
    pub fn reveal_round(&mut self, req: &RevealRequest) -> (r: Result<RevealResponse, GameError>)
        requires
            old(self).wf(),
        ensures
            final(self).wf(),
            !old(self).rounds_view().contains_key(req.round_id@)
                ==> r == Err::<RevealResponse, GameError>(GameError::RoundNotFound) && *final(self) == *old(self),
            old(self).rounds_view().contains_key(req.round_id@)
                && old(self).rounds_view()[req.round_id@].status != RoundStatus::Active
                ==> r == Err::<RevealResponse, GameError>(GameError::RoundNotActive) && *final(self) == *old(self),
            old(self).rounds_view().contains_key(req.round_id@)
                && old(self).rounds_view()[req.round_id@].status == RoundStatus::Active
                && old(self).rounds_view()[req.round_id@].user_id != req.user_id@
                ==> r == Err::<RevealResponse, GameError>(GameError::OwnerMismatch)
                && only_round_revealed(*old(self), *final(self), req.round_id@)
                && final(self).users_view() == old(self).users_view()
                && final(self).pools_view() == old(self).pools_view(),
            claimable(*old(self), req.user_id@, req.round_id@) && !old(self).users_view().contains_key(req.user_id@)
                ==> r == Err::<RevealResponse, GameError>(GameError::UserNotFound) && *final(self) == *old(self),
            settleable(*old(self), req.user_id@, req.round_id@) && reveal_overflows(*old(self), req.user_id@, req.round_id@)
                ==> r == Err::<RevealResponse, GameError>(GameError::Overflow) && *final(self) == *old(self),
            settleable(*old(self), req.user_id@, req.round_id@) && !reveal_overflows(*old(self), req.user_id@, req.round_id@)
                ==> only_round_revealed(*old(self), *final(self), req.round_id@),
            settleable(*old(self), req.user_id@, req.round_id@) && !reveal_overflows(*old(self), req.user_id@, req.round_id@)
                && round_multiplier(old(self).rounds_view()[req.round_id@]) == 0
                ==> r == Ok::<RevealResponse, GameError>(RevealResponse {
                    wallet: old(self).users_view()[req.user_id@].wallet,
                    win_pool: final(self).pools_view().win_pool,
                    house_profit: final(self).pools_view().house_profit,
                    hand_rank: hand_rank_of(old(self).rounds_view()[req.round_id@].cards),
                    multiplier: 0,
                    payout: 0,
                })
                && final(self).pools_view().win_pool == old(self).pools_view().win_pool
                    + old(self).rounds_view()[req.round_id@].ante - house_cut(old(self).rounds_view()[req.round_id@].ante as int)
                && final(self).pools_view().house_profit == old(self).pools_view().house_profit
                    + house_cut(old(self).rounds_view()[req.round_id@].ante as int)
                && final(self).users_view() == old(self).users_view(),
            settleable(*old(self), req.user_id@, req.round_id@) && !reveal_overflows(*old(self), req.user_id@, req.round_id@)
                && round_multiplier(old(self).rounds_view()[req.round_id@]) > 0
                && old(self).pools_view().win_pool < old(self).rounds_view()[req.round_id@].ante
                    * round_multiplier(old(self).rounds_view()[req.round_id@])
                ==> r == Err::<RevealResponse, GameError>(GameError::PoolShortfall)
                && final(self).users_view() == old(self).users_view().insert(req.user_id@,
                    with_wallet(old(self).users_view()[req.user_id@],
                        (old(self).users_view()[req.user_id@].wallet + old(self).rounds_view()[req.round_id@].ante) as i64))
                && final(self).pools_view() == old(self).pools_view(),
            settleable(*old(self), req.user_id@, req.round_id@) && !reveal_overflows(*old(self), req.user_id@, req.round_id@)
                && round_multiplier(old(self).rounds_view()[req.round_id@]) > 0
                && old(self).pools_view().win_pool >= old(self).rounds_view()[req.round_id@].ante
                    * round_multiplier(old(self).rounds_view()[req.round_id@])
                ==> r == Ok::<RevealResponse, GameError>(RevealResponse {
                    wallet: final(self).users_view()[req.user_id@].wallet,
                    win_pool: final(self).pools_view().win_pool,
                    house_profit: final(self).pools_view().house_profit,
                    hand_rank: hand_rank_of(old(self).rounds_view()[req.round_id@].cards),
                    multiplier: round_multiplier(old(self).rounds_view()[req.round_id@]) as u32,
                    payout: (old(self).rounds_view()[req.round_id@].ante
                        * round_multiplier(old(self).rounds_view()[req.round_id@])) as i64,
                })
                && final(self).users_view() == old(self).users_view().insert(req.user_id@,
                    with_wallet(old(self).users_view()[req.user_id@],
                        (old(self).users_view()[req.user_id@].wallet + old(self).rounds_view()[req.round_id@].ante
                        * round_multiplier(old(self).rounds_view()[req.round_id@])) as i64))
                && final(self).pools_view() == (Pools {
                    win_pool: (old(self).pools_view().win_pool - old(self).rounds_view()[req.round_id@].ante
                        * round_multiplier(old(self).rounds_view()[req.round_id@])) as i64,
                    house_profit: old(self).pools_view().house_profit,
                }),
    {
        let round = match self.get_round(&req.round_id) {
            None => return Err(GameError::RoundNotFound),
            Some(rd) => rd,
        };
        if round.status != RoundStatus::Active {
            return Err(GameError::RoundNotActive);
        }
        if round.user_id != req.user_id {
            return match self.claim_round_for_reveal(&req.round_id) {
                Ok(_) => Err(GameError::OwnerMismatch),
                Err(e) => Err(e),
            };
        }
        let hr = evaluate_hand(round.cards.as_slice());
        let mult = payout_multiplier(&hr);
        let user = match self.get_user(&req.user_id) {
            None => return Err(GameError::UserNotFound),
            Some(u) => u,
        };
        let pools = self.get_pools();
        let ante = round.ante;
        proof {
            self.lemma_pools_nonnegative();
        }
        if mult == 0 {
            let house = ante * 25 / 100;
            let win = ante - house;
            if pools.win_pool > i64::MAX - win || pools.house_profit > i64::MAX - house {
                return Err(GameError::Overflow);
            }
            match self.claim_round_for_reveal(&req.round_id) {
                Ok(_) => {},
                Err(e) => return Err(e),
            }
            let after = match self.add_to_pools(win, house) {
                Ok(p) => p,
                Err(e) => return Err(e),
            };
            return Ok(RevealResponse {
                wallet: user.wallet,
                win_pool: after.win_pool,
                house_profit: after.house_profit,
                hand_rank: hr,
                multiplier: mult,
                payout: 0,
            });
        }
        assert(ante as int * mult as int <= MAX_ANTE as int * 50) by (nonlinear_arith)
            requires 1 <= ante <= MAX_ANTE, 0 <= mult <= 50;
        let payout = ante * (mult as i64);
        if pools.win_pool < payout {
            if user.wallet > i64::MAX - ante {
                return Err(GameError::Overflow);
            }
            match self.claim_round_for_reveal(&req.round_id) {
                Ok(_) => {},
                Err(e) => return Err(e),
            }
            return match self.credit_wallet(&req.user_id, ante) {
                Ok(_) => Err(GameError::PoolShortfall),
                Err(e) => Err(e),
            };
        }
        if user.wallet > i64::MAX - payout {
            return Err(GameError::Overflow);
        }
        match self.claim_round_for_reveal(&req.round_id) {
            Ok(_) => {},
            Err(e) => return Err(e),
        }
        let win_pool = match self.sub_from_win_pool(payout) {
            Ok(w) => w,
            Err(e) => return Err(e),
        };
        let wallet = match self.credit_wallet(&req.user_id, payout) {
            Ok(w) => w,
            Err(e) => return Err(e),
        };
        Ok(RevealResponse {
            wallet,
            win_pool,
            house_profit: pools.house_profit,
            hand_rank: hr,
            multiplier: mult,
            payout,
        })
    }

    /// Starts a round with the given hand and round id: checks the user, the
    /// ante and the pool's capacity, takes the ante and stores an active round.
    pub fn start_with(&mut self, req: &StartRequest, hand: Vec<Card>, round_id: String)
        -> (r: Result<StartResponse, GameError>)
        requires
            old(self).wf(),
            hand@.len() == 5,
        ensures
            final(self).wf(),
            start_error(*old(self), req.user_id@, req.ante) matches Some(e)
                ==> r == Err::<StartResponse, GameError>(e) && *final(self) == *old(self),
            start_error(*old(self), req.user_id@, req.ante) is None && old(self).rounds_view().contains_key(round_id@)
                ==> r == Err::<StartResponse, GameError>(GameError::IdCollision) && *final(self) == *old(self),
            start_error(*old(self), req.user_id@, req.ante) is None && !old(self).rounds_view().contains_key(round_id@)
                ==> (r matches Ok(resp)
                && resp.round_id@ == round_id@
                && resp.cards@ == hand@
                && resp.wallet == old(self).users_view()[req.user_id@].wallet - req.ante
                && resp.win_pool == old(self).pools_view().win_pool
                && final(self).users_view() == old(self).users_view().insert(req.user_id@,
                    with_wallet(old(self).users_view()[req.user_id@], resp.wallet))
                && final(self).rounds_view() == old(self).rounds_view().insert(round_id@, RoundView {
                    id: round_id@, user_id: req.user_id@, cards: hand@, ante: req.ante,
                    status: RoundStatus::Active })
                && final(self).pools_view() == old(self).pools_view()),
    {
        let user = match self.get_user(&req.user_id) {
            None => return Err(GameError::UserNotFound),
            Some(u) => u,
        };
        if req.ante <= 0 {
            return Err(GameError::InvalidAnte);
        }
        if req.ante > user.wallet {
            return Err(GameError::InsufficientFunds);
        }
        let pools = self.get_pools();
        proof {
            self.lemma_pools_nonnegative();
        }
        let max_ante = pools.win_pool / 50;
        assert(pools.win_pool < req.ante * 50 <==> max_ante < req.ante);
        if max_ante < req.ante {
            return Err(GameError::PoolTooSmall { max_ante });
        }
        assert(req.ante <= MAX_ANTE);
        if self.get_round(&round_id).is_some() {
            return Err(GameError::IdCollision);
        }
        let cards = copy_cards(&hand);
        let wallet = match self.debit_wallet(&req.user_id, req.ante) {
            Ok(w) => w,
            Err(e) => return Err(e),
        };
        let created = self.create_round_with_id(round_id, req.user_id.clone(), req.ante, hand);
        match created {
            Ok(rid) => Ok(StartResponse { round_id: rid, cards, wallet, win_pool: pools.win_pool }),
            Err(e) => Err(e),
        }
    }
}

} // verus!
