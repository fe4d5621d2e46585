//! The economy store: users, rounds and the shared pools, with the atomic
//! operations that are the only way to change them.

use vstd::prelude::*;
use crate::models::{Card, GameError, Pools, Round, RoundStatus, RoundView, User};

verus! {

/// Wallet of a newly created user.
pub const STARTING_WALLET: i64 = 1000;

/// Largest ante a round may carry, `i64::MAX / 50` rounded down: fifty times it fits in an `i64`.
pub const MAX_ANTE: i64 = 184467440737095516;

/// No two entries of `s` share a key.
pub open spec fn keys_unique<T>(s: Seq<T>, key: spec_fn(T) -> Seq<char>) -> bool {
    forall|i: int, j: int|
        0 <= i < s.len() && 0 <= j < s.len() && i != j ==> key(s[i]) != key(s[j])
}

/// The entries of `s` as a map from their keys.
pub open spec fn keyed<T>(s: Seq<T>, key: spec_fn(T) -> Seq<char>) -> Map<Seq<char>, T> {
    Map::new(
        |k: Seq<char>| exists|i: int| 0 <= i < s.len() && key(s[i]) == k,
        |k: Seq<char>| s[choose|i: int| 0 <= i < s.len() && key(s[i]) == k],
    )
}

proof fn lemma_keyed_index<T>(s: Seq<T>, key: spec_fn(T) -> Seq<char>, i: int)
    requires
        keys_unique(s, key),
        0 <= i < s.len(),
    ensures
        keyed(s, key).contains_key(key(s[i])),
        keyed(s, key)[key(s[i])] == s[i],
{
    let k = key(s[i]);
    assert(exists|j: int| 0 <= j < s.len() && key(s[j]) == k);
    let j = choose|j: int| 0 <= j < s.len() && key(s[j]) == k;
    assert(j == i);
}

proof fn lemma_keyed_push<T>(s: Seq<T>, key: spec_fn(T) -> Seq<char>, x: T)
    requires
        keys_unique(s, key),
        !keyed(s, key).contains_key(key(x)),
    ensures
        keys_unique(s.push(x), key),
        keyed(s.push(x), key) == keyed(s, key).insert(key(x), x),
{
    let t = s.push(x);
    assert forall|i: int| 0 <= i < s.len() implies key(s[i]) != key(x) by {
        lemma_keyed_index(s, key, i);
    }
    assert(keys_unique(t, key));
    assert forall|k: Seq<char>| #[trigger] keyed(t, key).contains_key(k)
        == keyed(s, key).insert(key(x), x).contains_key(k) by {
        if keyed(s, key).contains_key(k) {
            let i = choose|i: int| 0 <= i < s.len() && key(s[i]) == k;
            assert(t[i] == s[i]);
        }
        if keyed(t, key).contains_key(k) && k != key(x) {
            let i = choose|i: int| 0 <= i < t.len() && key(t[i]) == k;
            assert(i < s.len());
            assert(s[i] == t[i]);
        }
        if k == key(x) {
            assert(t[s.len() as int] == x);
        }
    }
    assert forall|k: Seq<char>| #[trigger] keyed(t, key).contains_key(k)
        implies keyed(t, key)[k] == keyed(s, key).insert(key(x), x)[k] by {
        let i = choose|i: int| 0 <= i < t.len() && key(t[i]) == k;
        lemma_keyed_index(t, key, i);
        if i < s.len() {
            assert(t[i] == s[i]);
            lemma_keyed_index(s, key, i);
        }
    }
    assert(keyed(t, key) =~= keyed(s, key).insert(key(x), x));
}

proof fn lemma_keyed_update<T>(s: Seq<T>, key: spec_fn(T) -> Seq<char>, i: int, x: T)
    requires
        keys_unique(s, key),
        0 <= i < s.len(),
        key(x) == key(s[i]),
    ensures
        keys_unique(s.update(i, x), key),
        keyed(s.update(i, x), key) == keyed(s, key).insert(key(x), x),
{
    let t = s.update(i, x);
    assert(keys_unique(t, key));
    assert forall|k: Seq<char>| #[trigger] keyed(t, key).contains_key(k)
        == keyed(s, key).insert(key(x), x).contains_key(k) by {
        if keyed(s, key).contains_key(k) {
            let j = choose|j: int| 0 <= j < s.len() && key(s[j]) == k;
            assert(key(t[j]) == k);
        }
        if keyed(t, key).contains_key(k) {
            let j = choose|j: int| 0 <= j < t.len() && key(t[j]) == k;
            assert(key(s[j]) == k);
        }
    }
    assert forall|k: Seq<char>| #[trigger] keyed(t, key).contains_key(k)
        implies keyed(t, key)[k] == keyed(s, key).insert(key(x), x)[k] by {
        let j = choose|j: int| 0 <= j < t.len() && key(t[j]) == k;
        lemma_keyed_index(t, key, j);
        if j != i {
            lemma_keyed_index(s, key, j);
        }
    }
    assert(keyed(t, key) =~= keyed(s, key).insert(key(x), x));
}

pub open spec fn user_key() -> spec_fn(User) -> Seq<char> {
    |u: User| u.id@
}

pub open spec fn round_key() -> spec_fn(RoundView) -> Seq<char> {
    |r: RoundView| r.id
}

/// The views of a sequence of rounds.
pub open spec fn round_views(s: Seq<Round>) -> Seq<RoundView> {
    s.map_values(|r: Round| r@)
}

/// Some user is called `name`.
pub open spec fn name_in_use(users: Map<Seq<char>, User>, name: Seq<char>) -> bool {
    exists|k: Seq<char>| users.contains_key(k) && (#[trigger] users[k]).name@ == name
}

/// Some user has both this name and this password.
pub open spec fn credentials_match(users: Map<Seq<char>, User>, name: Seq<char>, password: Seq<char>) -> bool {
    exists|k: Seq<char>|
        users.contains_key(k) && (#[trigger] users[k]).name@ == name && users[k].password@ == password
}

/// `u` with its wallet set to `w`.
pub open spec fn with_wallet(u: User, w: i64) -> User {
    User { id: u.id, name: u.name, password: u.password, wallet: w }
}

/// `r` with its status set to `st`.
pub open spec fn with_status(r: RoundView, st: RoundStatus) -> RoundView {
    RoundView { status: st, ..r }
}

/// `r` with its cards set to `c`.
pub open spec fn with_cards(r: RoundView, c: Seq<Card>) -> RoundView {
    RoundView { cards: c, ..r }
}

/// Relies on uuid's `Uuid::new_v4` and its text form: a random identifier;
/// nothing is known of its value.
#[verifier::external_body]
pub(crate) fn fresh_id() -> (id: String) {
    uuid::Uuid::new_v4().to_string()
}

fn copy_user(u: &User) -> (r: User)
    ensures
        r == *u,
{
    User { id: u.id.clone(), name: u.name.clone(), password: u.password.clone(), wallet: u.wallet }
}

pub(crate) fn copy_cards(cards: &Vec<Card>) -> (r: Vec<Card>)
    ensures
        r@ == cards@,
{
    let mut r: Vec<Card> = Vec::with_capacity(cards.len());
    let mut i: usize = 0;
    while i < cards.len()
        invariant
            i <= cards@.len(),
            r@ == cards@.subrange(0, i as int),
        decreases cards@.len() - i,
    {
        r.push(cards[i]);
        i += 1;
    }
    assert(r@ =~= cards@);
    r
}

fn copy_round(r: &Round) -> (c: Round)
    ensures
        c@ == r@,
{
    Round {
        id: r.id.clone(),
        user_id: r.user_id.clone(),
        cards: copy_cards(&r.cards),
        ante: r.ante,
        status: r.status,
    }
}

/// Shared state of every player and round.
pub struct InMem {
    users: Vec<User>,
    rounds: Vec<Round>,
    pools: Pools,
}

impl InMem {
    /// Users by id.
    pub closed spec fn users_view(&self) -> Map<Seq<char>, User> {
        keyed(self.users@, user_key())
    }

    /// Rounds by id.
    pub closed spec fn rounds_view(&self) -> Map<Seq<char>, RoundView> {
        keyed(round_views(self.rounds@), round_key())
    }

    pub closed spec fn pools_view(&self) -> Pools {
        self.pools
    }

    /// The store's invariant: ids and names unique, pools and wallets not
    /// negative, every round with five cards and an ante in `1..=MAX_ANTE`.
    pub closed spec fn wf(&self) -> bool {
        &&& keys_unique(self.users@, user_key())
        &&& keys_unique(round_views(self.rounds@), round_key())
        &&& forall|i: int, j: int|
            0 <= i < self.users@.len() && 0 <= j < self.users@.len() && i != j
                ==> self.users@[i].name@ != self.users@[j].name@
        &&& forall|i: int| 0 <= i < self.users@.len() ==> #[trigger] self.users@[i].wallet >= 0
        &&& forall|i: int| 0 <= i < self.rounds@.len() ==> #[trigger] round_ok(self.rounds@[i]@)
        &&& self.pools.win_pool >= 0
        &&& self.pools.house_profit >= 0
    }

    /// An empty store with empty pools.
    pub fn new() -> (s: InMem)
        ensures
            s.wf(),
            s.users_view().is_empty(),
            s.rounds_view().is_empty(),
            s.pools_view() == (Pools { win_pool: 0, house_profit: 0 }),
    {
        let s = InMem { users: Vec::new(), rounds: Vec::new(), pools: Pools::default() };
        assert(s.users_view() =~= Map::empty());
        assert(s.rounds_view() =~= Map::empty());
        s
    }

    fn find_user(&self, id: &String) -> (r: Option<usize>)
        requires
            self.wf(),
        ensures
            r is None <==> !self.users_view().contains_key(id@),
            r matches Some(i) ==> i < self.users@.len() && self.users@[i as int].id@ == id@
                && self.users_view()[id@] == self.users@[i as int],
    {
        let mut i: usize = 0;
        while i < self.users.len()
            invariant
                self.wf(),
                i <= self.users@.len(),
                forall|j: int| 0 <= j < i ==> self.users@[j].id@ != id@,
            decreases self.users@.len() - i,
        {
            if self.users[i].id == *id {
                proof {
                    lemma_keyed_index(self.users@, user_key(), i as int);
                }
                return Some(i);
            }
            i += 1;
        }
        None
    }

    fn find_name(&self, name: &String) -> (r: Option<usize>)
        requires
            self.wf(),
        ensures
            r is None <==> !name_in_use(self.users_view(), name@),
            r matches Some(i) ==> i < self.users@.len() && self.users@[i as int].name@ == name@
                && self.users_view().contains_key(self.users@[i as int].id@)
                && self.users_view()[self.users@[i as int].id@] == self.users@[i as int],
    {
        let mut i: usize = 0;
        while i < self.users.len()
            invariant
                self.wf(),
                i <= self.users@.len(),
                forall|j: int| 0 <= j < i ==> self.users@[j].name@ != name@,
            decreases self.users@.len() - i,
        {
            if self.users[i].name == *name {
                proof {
                    lemma_keyed_index(self.users@, user_key(), i as int);
                }
                return Some(i);
            }
            i += 1;
        }
        proof {
            assert forall|k: Seq<char>| self.users_view().contains_key(k)
                implies (#[trigger] self.users_view()[k]).name@ != name@ by {
                let j = choose|j: int| 0 <= j < self.users@.len() && self.users@[j].id@ == k;
                lemma_keyed_index(self.users@, user_key(), j);
            }
        }
        None
    }

    /// Adds a user with the given id, the starting wallet, and this name and
    /// password, unless the name or the id is taken.
    pub fn create_user_with_id(&mut self, id: String, name: &str, password: &str) -> (r: Result<User, GameError>)
        requires
            old(self).wf(),
        ensures
            final(self).wf(),
            name_in_use(old(self).users_view(), name@) ==> r == Err::<User, GameError>(GameError::DuplicateName)
                && *final(self) == *old(self),
            !name_in_use(old(self).users_view(), name@) && old(self).users_view().contains_key(id@)
                ==> r == Err::<User, GameError>(GameError::IdCollision) && *final(self) == *old(self),
            !name_in_use(old(self).users_view(), name@) && !old(self).users_view().contains_key(id@)
                ==> (r matches Ok(u) && u.id@ == id@ && u.name@ == name@ && u.password@ == password@
                && u.wallet == STARTING_WALLET
                && final(self).users_view() == old(self).users_view().insert(id@, u)
                && final(self).rounds_view() == old(self).rounds_view()
                && final(self).pools_view() == old(self).pools_view()),
    {
        let name_s = name.to_owned();
        if self.find_name(&name_s).is_some() {
            return Err(GameError::DuplicateName);
        }
        if self.find_user(&id).is_some() {
            return Err(GameError::IdCollision);
        }
        let user = User { id, name: name_s, password: password.to_owned(), wallet: STARTING_WALLET };
        let ghost old_users = self.users@;
        let ghost old_map = self.users_view();
        let out = copy_user(&user);
        self.users.push(user);
        proof {
            lemma_keyed_push(old_users, user_key(), out);
            assert forall|i: int, j: int|
                0 <= i < self.users@.len() && 0 <= j < self.users@.len() && i != j
                    implies self.users@[i].name@ != self.users@[j].name@ by {
                if i < old_users.len() {
                    lemma_keyed_index(old_users, user_key(), i);
                }
                if j < old_users.len() {
                    lemma_keyed_index(old_users, user_key(), j);
                }
            }
        }
        Ok(out)
    }

    /// Creates a user with a fresh random id; see `create_user_with_id`.
    pub fn create_user_if_unique(&mut self, name: &str, password: &str) -> (r: Result<User, GameError>)
        requires
            old(self).wf(),
        ensures
            final(self).wf(),
            name_in_use(old(self).users_view(), name@) ==> r == Err::<User, GameError>(GameError::DuplicateName),
            r is Err ==> *final(self) == *old(self),
            r matches Ok(u) ==> !name_in_use(old(self).users_view(), name@)
                && !old(self).users_view().contains_key(u.id@)
                && u.name@ == name@ && u.password@ == password@ && u.wallet == STARTING_WALLET
                && final(self).users_view() == old(self).users_view().insert(u.id@, u)
                && final(self).rounds_view() == old(self).rounds_view()
                && final(self).pools_view() == old(self).pools_view(),
            r matches Err(e) ==> e == GameError::DuplicateName || e == GameError::IdCollision,
            r == Err::<User, GameError>(GameError::DuplicateName) ==> name_in_use(old(self).users_view(), name@),
            !name_in_use(old(self).users_view(), name@) && old(self).users_view().is_empty() ==> r is Ok,
    {
        let id = fresh_id();
        self.create_user_with_id(id, name, password)
    }

    /// The user with this name, if the password matches it.
    pub fn login_user_if_exists(&self, name: &str, password: &str) -> (r: Result<User, GameError>)
        requires
            self.wf(),
        ensures
            r is Ok <==> credentials_match(self.users_view(), name@, password@),
            r is Err ==> r == Err::<User, GameError>(GameError::InvalidCredentials),
            r matches Ok(u) ==> self.users_view().contains_key(u.id@) && self.users_view()[u.id@] == u
                && u.name@ == name@ && u.password@ == password@,
    {
        let name_s = name.to_owned();
        let password_s = password.to_owned();
        match self.find_name(&name_s) {
            Some(i) => {
                if self.users[i].password == password_s {
                    Ok(copy_user(&self.users[i]))
                } else {
                    proof {
                        if credentials_match(self.users_view(), name@, password@) {
                            let k = choose|k: Seq<char>| self.users_view().contains_key(k)
                                && (#[trigger] self.users_view()[k]).name@ == name@
                                && self.users_view()[k].password@ == password@;
                            let j = choose|j: int| 0 <= j < self.users@.len() && self.users@[j].id@ == k;
                            lemma_keyed_index(self.users@, user_key(), j);
                        }
                    }
                    Err(GameError::InvalidCredentials)
                }
            },
            None => Err(GameError::InvalidCredentials),
        }
    }

    /// A copy of the user with this id.
    pub fn get_user(&self, user_id: &String) -> (r: Option<User>)
        requires
            self.wf(),
        ensures
            r is None <==> !self.users_view().contains_key(user_id@),
            r matches Some(u) ==> u == self.users_view()[user_id@] && u.id@ == user_id@,
    {
        match self.find_user(user_id) {
            Some(i) => Some(copy_user(&self.users[i])),
            None => None,
        }
    }

    fn set_wallet(&mut self, i: usize, w: i64)
        requires
            old(self).wf(),
            i < old(self).users@.len(),
            w >= 0,
        ensures
            final(self).wf(),
            final(self).users_view() == old(self).users_view().insert(
                old(self).users@[i as int].id@, with_wallet(old(self).users@[i as int], w)),
            final(self).rounds_view() == old(self).rounds_view(),
            final(self).pools_view() == old(self).pools_view(),
    {
        let ghost old_users = self.users@;
        let ghost old_map = self.users_view();
        let mut u = copy_user(&self.users[i]);
        u.wallet = w;
        self.users.set(i, u);
        proof {
            lemma_keyed_update(old_users, user_key(), i as int, self.users@[i as int]);
            assert(self.users@[i as int] == with_wallet(old_users[i as int], w));
        }
    }

    /// Takes `amount` from the user's wallet, checked against its balance now.
    pub fn debit_wallet(&mut self, user_id: &String, amount: i64) -> (r: Result<i64, GameError>)
        requires
            old(self).wf(),
            amount >= 0,
        ensures
            final(self).wf(),
            !old(self).users_view().contains_key(user_id@)
                ==> r == Err::<i64, GameError>(GameError::UserNotFound) && *final(self) == *old(self),
            old(self).users_view().contains_key(user_id@) && old(self).users_view()[user_id@].wallet < amount
                ==> r == Err::<i64, GameError>(GameError::InsufficientFunds) && *final(self) == *old(self),
            old(self).users_view().contains_key(user_id@) && old(self).users_view()[user_id@].wallet >= amount
                ==> r == Ok::<i64, GameError>((old(self).users_view()[user_id@].wallet - amount) as i64)
                && final(self).users_view() == old(self).users_view().insert(user_id@,
                    with_wallet(old(self).users_view()[user_id@], (old(self).users_view()[user_id@].wallet - amount) as i64))
                && final(self).rounds_view() == old(self).rounds_view()
                && final(self).pools_view() == old(self).pools_view(),
    {
        match self.find_user(user_id) {
            None => Err(GameError::UserNotFound),
            Some(i) => {
                let w = self.users[i].wallet;
                if w < amount {
                    Err(GameError::InsufficientFunds)
                } else {
                    self.set_wallet(i, w - amount);
                    Ok(w - amount)
                }
            },
        }
    }

    /// Adds `amount` to the user's wallet.
    pub fn credit_wallet(&mut self, user_id: &String, amount: i64) -> (r: Result<i64, GameError>)
        requires
            old(self).wf(),
            amount >= 0,
        ensures
            final(self).wf(),
            !old(self).users_view().contains_key(user_id@)
                ==> r == Err::<i64, GameError>(GameError::UserNotFound) && *final(self) == *old(self),
            old(self).users_view().contains_key(user_id@)
                && old(self).users_view()[user_id@].wallet + amount > i64::MAX
                ==> r == Err::<i64, GameError>(GameError::Overflow) && *final(self) == *old(self),
            old(self).users_view().contains_key(user_id@)
                && old(self).users_view()[user_id@].wallet + amount <= i64::MAX
                ==> r == Ok::<i64, GameError>((old(self).users_view()[user_id@].wallet + amount) as i64)
                && final(self).users_view() == old(self).users_view().insert(user_id@,
                    with_wallet(old(self).users_view()[user_id@], (old(self).users_view()[user_id@].wallet + amount) as i64))
                && final(self).rounds_view() == old(self).rounds_view()
                && final(self).pools_view() == old(self).pools_view(),
    {
        match self.find_user(user_id) {
            None => Err(GameError::UserNotFound),
            Some(i) => {
                let w = self.users[i].wallet;
                if w > i64::MAX - amount {
                    Err(GameError::Overflow)
                } else {
                    self.set_wallet(i, w + amount);
                    Ok(w + amount)
                }
            },
        }
    }

    /// A store holding one demo user ("user1", password "pass1", the
    /// starting wallet) and a win pool of 50 000.
    pub fn new_demo() -> (s: InMem)
        ensures
            s.wf(),
            s.users_view().dom() == set!["user1"@],
            s.users_view()["user1"@].id@ == "user1"@,
            s.users_view()["user1"@].name@ == "user1"@,
            s.users_view()["user1"@].password@ == "pass1"@,
            s.users_view()["user1"@].wallet == STARTING_WALLET,
            s.rounds_view().is_empty(),
            s.pools_view() == (Pools { win_pool: 50_000, house_profit: 0 }),
    {
        let mut s = InMem::new();
        let r = s.create_user_with_id("user1".to_owned(), "user1", "pass1");
        assert(r is Ok);
        s.pools.win_pool = 50_000;
        assert(s.users_view().dom() =~= set!["user1"@]);
        s
    }

    fn set_round(&mut self, i: usize, r: Round)
        requires
            old(self).wf(),
            i < old(self).rounds@.len(),
            r.id@ == old(self).rounds@[i as int].id@,
            round_ok(r@),
        ensures
            final(self).wf(),
            final(self).rounds_view() == old(self).rounds_view().insert(r.id@, r@),
            final(self).users_view() == old(self).users_view(),
            final(self).pools_view() == old(self).pools_view(),
    {
        let ghost old_views = round_views(self.rounds@);
        let ghost rv = r@;
        self.rounds.set(i, r);
        proof {
            assert(round_views(self.rounds@) =~= old_views.update(i as int, rv));
            lemma_keyed_update(old_views, round_key(), i as int, rv);
        }
    }

    /// Stores a new active round under the given id, unless the id is taken.
    pub fn create_round_with_id(&mut self, id: String, user_id: String, ante: i64, cards: Vec<Card>)
        -> (r: Result<String, GameError>)
        requires
            old(self).wf(),
            cards@.len() == 5,
            1 <= ante <= MAX_ANTE,
        ensures
            final(self).wf(),
            old(self).rounds_view().contains_key(id@)
                ==> r == Err::<String, GameError>(GameError::IdCollision) && *final(self) == *old(self),
            !old(self).rounds_view().contains_key(id@)
                ==> (r matches Ok(rid) && rid@ == id@
                && final(self).rounds_view() == old(self).rounds_view().insert(id@, RoundView {
                    id: id@, user_id: user_id@, cards: cards@, ante, status: RoundStatus::Active })
                && final(self).users_view() == old(self).users_view()
                && final(self).pools_view() == old(self).pools_view()),
    {
        if self.find_round(&id).is_some() {
            return Err(GameError::IdCollision);
        }
        let out = id.clone();
        let round = Round { id, user_id, cards, ante, status: RoundStatus::Active };
        let ghost old_views = round_views(self.rounds@);
        let ghost rv = round@;
        self.rounds.push(round);
        proof {
            assert(round_views(self.rounds@) =~= old_views.push(rv));
            lemma_keyed_push(old_views, round_key(), rv);
            assert forall|j: int| 0 <= j < self.rounds@.len()
                implies #[trigger] round_ok(self.rounds@[j]@) by {
                if j < old_views.len() {
                    assert(self.rounds@[j]@ == old_views[j]);
                }
            }
        }
        Ok(out)
    }

    /// Stores a new active round under a fresh random id; see `create_round_with_id`.
    pub fn create_round(&mut self, user_id: String, ante: i64, cards: Vec<Card>) -> (r: Result<String, GameError>)
        requires
            old(self).wf(),
            cards@.len() == 5,
            1 <= ante <= MAX_ANTE,
        ensures
            final(self).wf(),
            r is Err ==> r == Err::<String, GameError>(GameError::IdCollision) && *final(self) == *old(self),
            old(self).rounds_view().is_empty() ==> r is Ok,
            r matches Ok(rid) ==> !old(self).rounds_view().contains_key(rid@)
                && final(self).rounds_view() == old(self).rounds_view().insert(rid@, RoundView {
                    id: rid@, user_id: user_id@, cards: cards@, ante, status: RoundStatus::Active })
                && final(self).users_view() == old(self).users_view()
                && final(self).pools_view() == old(self).pools_view(),
    {
        let id = fresh_id();
        self.create_round_with_id(id, user_id, ante, cards)
    }

    /// A copy of the round with this id.
    pub fn get_round(&self, round_id: &String) -> (r: Option<Round>)
        requires
            self.wf(),
        ensures
            r is None <==> !self.rounds_view().contains_key(round_id@),
            r matches Some(rd) ==> rd@ == self.rounds_view()[round_id@]
                && round_ok(rd@),
    {
        match self.find_round(round_id) {
            Some(i) => {
                assert(round_ok(self.rounds@[i as int]@));
                Some(copy_round(&self.rounds[i]))
            },
            None => None,
        }
    }

    /// Overwrites the cards of a round that is still active.
    pub fn update_round_cards(&mut self, round_id: &String, cards: Vec<Card>) -> (r: Result<(), GameError>)
        requires
            old(self).wf(),
            cards@.len() == 5,
        ensures
            final(self).wf(),
            !old(self).rounds_view().contains_key(round_id@)
                ==> r == Err::<(), GameError>(GameError::RoundNotFound) && *final(self) == *old(self),
            old(self).rounds_view().contains_key(round_id@)
                && old(self).rounds_view()[round_id@].status != RoundStatus::Active
                ==> r == Err::<(), GameError>(GameError::RoundNotActive) && *final(self) == *old(self),
            old(self).rounds_view().contains_key(round_id@)
                && old(self).rounds_view()[round_id@].status == RoundStatus::Active
                ==> r is Ok && final(self).rounds_view() == old(self).rounds_view().insert(
                    round_id@, with_cards(old(self).rounds_view()[round_id@], cards@))
                && final(self).users_view() == old(self).users_view()
                && final(self).pools_view() == old(self).pools_view(),
    {
        match self.find_round(round_id) {
            None => Err(GameError::RoundNotFound),
            Some(i) => {
                if self.rounds[i].status != RoundStatus::Active {
                    return Err(GameError::RoundNotActive);
                }
                let mut rd = copy_round(&self.rounds[i]);
                assert(round_ok(self.rounds@[i as int]@));
                rd.cards = cards;
                self.set_round(i, rd);
                Ok(())
            },
        }
    }

    /// The one step that lets a round be revealed: if it is active, marks it
    /// revealed and hands back what it held before.
    pub fn claim_round_for_reveal(&mut self, round_id: &String) -> (r: Result<Round, GameError>)
        requires
            old(self).wf(),
        ensures
            final(self).wf(),
            !old(self).rounds_view().contains_key(round_id@)
                ==> r == Err::<Round, GameError>(GameError::RoundNotFound) && *final(self) == *old(self),
            old(self).rounds_view().contains_key(round_id@)
                && old(self).rounds_view()[round_id@].status != RoundStatus::Active
                ==> r == Err::<Round, GameError>(GameError::RoundNotActive) && *final(self) == *old(self),
            old(self).rounds_view().contains_key(round_id@)
                && old(self).rounds_view()[round_id@].status == RoundStatus::Active
                ==> (r matches Ok(rd) && rd@ == old(self).rounds_view()[round_id@]
                && round_ok(rd@)
                && final(self).rounds_view() == old(self).rounds_view().insert(
                    round_id@, with_status(old(self).rounds_view()[round_id@], RoundStatus::Revealed))
                && final(self).users_view() == old(self).users_view()
                && final(self).pools_view() == old(self).pools_view()),
    {
        match self.find_round(round_id) {
            None => Err(GameError::RoundNotFound),
            Some(i) => {
                if self.rounds[i].status != RoundStatus::Active {
                    return Err(GameError::RoundNotActive);
                }
                let before = copy_round(&self.rounds[i]);
                assert(round_ok(self.rounds@[i as int]@));
                let mut rd = copy_round(&self.rounds[i]);
                rd.status = RoundStatus::Revealed;
                self.set_round(i, rd);
                Ok(before)
            },
        }
    }

    /// A copy of the pools.
    pub fn get_pools(&self) -> (p: Pools)
        ensures
            p == self.pools_view(),
    {
        self.pools
    }

    /// Adds `win` to the win pool and `house` to the house profit, both or neither.
    pub fn add_to_pools(&mut self, win: i64, house: i64) -> (r: Result<Pools, GameError>)
        requires
            old(self).wf(),
            win >= 0,
            house >= 0,
        ensures
            final(self).wf(),
            old(self).pools_view().win_pool + win > i64::MAX || old(self).pools_view().house_profit + house > i64::MAX
                ==> r == Err::<Pools, GameError>(GameError::Overflow) && *final(self) == *old(self),
            old(self).pools_view().win_pool + win <= i64::MAX && old(self).pools_view().house_profit + house <= i64::MAX
                ==> r == Ok::<Pools, GameError>(final(self).pools_view())
                && final(self).pools_view().win_pool == old(self).pools_view().win_pool + win
                && final(self).pools_view().house_profit == old(self).pools_view().house_profit + house
                && final(self).users_view() == old(self).users_view()
                && final(self).rounds_view() == old(self).rounds_view(),
    {
        if self.pools.win_pool > i64::MAX - win || self.pools.house_profit > i64::MAX - house {
            return Err(GameError::Overflow);
        }
        let ghost before = *self;
        self.pools = Pools { win_pool: self.pools.win_pool + win, house_profit: self.pools.house_profit + house };
        proof {
            self.lemma_wf_pools_only(before);
        }
        Ok(self.pools)
    }

    /// Takes `amount` from the win pool, checked against the pool now.
    pub fn sub_from_win_pool(&mut self, amount: i64) -> (r: Result<i64, GameError>)
        requires
            old(self).wf(),
            amount >= 0,
        ensures
            final(self).wf(),
            old(self).pools_view().win_pool < amount
                ==> r == Err::<i64, GameError>(GameError::PoolInsufficient) && *final(self) == *old(self),
            old(self).pools_view().win_pool >= amount
                ==> r == Ok::<i64, GameError>(final(self).pools_view().win_pool)
                && final(self).pools_view() == (Pools {
                    win_pool: (old(self).pools_view().win_pool - amount) as i64,
                    house_profit: old(self).pools_view().house_profit })
                && final(self).users_view() == old(self).users_view()
                && final(self).rounds_view() == old(self).rounds_view(),
    {
        if self.pools.win_pool < amount {
            return Err(GameError::PoolInsufficient);
        }
        let ghost before = *self;
        self.pools.win_pool = self.pools.win_pool - amount;
        proof {
            self.lemma_wf_pools_only(before);
        }
        Ok(self.pools.win_pool)
    }

    proof fn lemma_wf_pools_only(&self, before: InMem)
        requires
            before.wf(),
            self.users == before.users,
            self.rounds == before.rounds,
            self.pools.win_pool >= 0,
            self.pools.house_profit >= 0,
        ensures
            self.wf(),
            self.users_view() == before.users_view(),
            self.rounds_view() == before.rounds_view(),
    {
        assert forall|i: int| 0 <= i < self.rounds@.len()
            implies #[trigger] round_ok(self.rounds@[i]@) by {
            assert(round_ok(before.rounds@[i]@));
        }
    }

    /// Wallets are never negative in a well-formed store.
    pub proof fn lemma_wallet_nonnegative(&self, user_id: Seq<char>)
        requires
            self.wf(),
            self.users_view().contains_key(user_id),
        ensures
            self.users_view()[user_id].wallet >= 0,
    {
        let i = choose|i: int| 0 <= i < self.users@.len() && self.users@[i].id@ == user_id;
        lemma_keyed_index(self.users@, user_key(), i);
    }

    /// Every stored round is filed under its own id, holds five cards and an
    /// ante in `1..=MAX_ANTE`.
    pub proof fn lemma_round_ok(&self, round_id: Seq<char>)
        requires
            self.wf(),
            self.rounds_view().contains_key(round_id),
        ensures
            self.rounds_view()[round_id].id == round_id,
            round_ok(self.rounds_view()[round_id]),
    {
        let i = choose|i: int| 0 <= i < self.rounds@.len() && round_views(self.rounds@)[i].id == round_id;
        lemma_keyed_index(round_views(self.rounds@), round_key(), i);
        assert(round_ok(self.rounds@[i]@));
    }

    /// Win pool and house profit are never negative in a well-formed store;
    /// every operation keeps the store well-formed, so this holds after any
    /// sequence of operations.
    pub proof fn lemma_pools_nonnegative(&self)
        requires
            self.wf(),
        ensures
            self.pools_view().win_pool >= 0,
            self.pools_view().house_profit >= 0,
    {
    }

    fn find_round(&self, id: &String) -> (r: Option<usize>)
        requires
            self.wf(),
        ensures
            r is None <==> !self.rounds_view().contains_key(id@),
            r matches Some(i) ==> i < self.rounds@.len() && self.rounds@[i as int].id@ == id@
                && self.rounds_view()[id@] == self.rounds@[i as int]@,
    {
        let mut i: usize = 0;
        while i < self.rounds.len()
            invariant
                self.wf(),
                i <= self.rounds@.len(),
                forall|j: int| 0 <= j < i ==> self.rounds@[j].id@ != id@,
            decreases self.rounds@.len() - i,
        {
            if self.rounds[i].id == *id {
                proof {
                    lemma_keyed_index(round_views(self.rounds@), round_key(), i as int);
                }
                return Some(i);
            }
            i += 1;
        }
        None
    }
}

/// A stored round holds five cards and an ante in `1..=MAX_ANTE`.
pub open spec fn round_ok(r: RoundView) -> bool {
    &&& r.cards.len() == 5
    &&& 1 <= r.ante <= MAX_ANTE
}

} // verus!
