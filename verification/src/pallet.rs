//! The pool calls on the pool storage.

use crate::bounded::{
    list_accounts, list_clone, list_default, list_len, list_remove, list_try_insert, list_try_push,
    string_bytes, string_clone, string_to_vec, string_try_from, AccountId, BoundedString,
};
use crate::dispatch::{ensure_signed, vote_result_bytes, DispatchError, Error, Event, Origin};
use crate::laws::{
    cancel_join_keeps_consistency, create_keeps_consistency, join_keeps_consistency,
    leave_pool_keeps_consistency, vote_keeps_consistency,
};
use crate::model::{lemma_request_counted, outcome, PoolsState};
use crate::search::{binary_search, lemma_index_of_sorted, lemma_insert_point_unique};
use crate::types::{Config, Pool, PoolId, PoolRequest, User, UserView, VoteResult};
use std::collections::BTreeMap;
use vstd::prelude::*;

verus! {

broadcast use vstd::laws_cmp::group_laws_cmp;

/// The views of the values of a map.
pub open spec fn views<K, V: View>(m: Map<K, V>) -> Map<K, V::V> {
    m.map_values(|v: V| v@)
}

proof fn lemma_views_insert<K, V: View>(m: Map<K, V>, k: K, v: V)
    ensures
        views(m.insert(k, v)) == views(m).insert(k, v@),
{
    assert(views(m.insert(k, v)) =~= views(m).insert(k, v@));
}

proof fn lemma_views_remove<K, V: View>(m: Map<K, V>, k: K)
    ensures
        views(m.remove(k)) == views(m).remove(k),
{
    assert(views(m.remove(k)) =~= views(m).remove(k));
}

/// Whether two byte vectors hold the same bytes.
fn bytes_equal(a: &Vec<u8>, b: &Vec<u8>) -> (r: bool)
    ensures
        r == (a@ == b@),
{
    if a.len() != b.len() {
        return false;
    }
    let mut i: usize = 0;
    while i < a.len()
        invariant
            a.len() == b.len(),
            0 <= i <= a.len(),
            forall|j: int| 0 <= j < i ==> a@[j] == b@[j],
        decreases a.len() - i,
    {
        if a[i] != b[i] {
            return false;
        }
        i = i + 1;
    }
    assert(a@ =~= b@);
    true
}

/// The pool storage and the calls on it.
pub struct Pallet {
    config: Config,
    last_pool_id: PoolId,
    max_pools: Option<PoolId>,
    pools: BTreeMap<PoolId, Pool>,
    requests: BTreeMap<(PoolId, AccountId), PoolRequest>,
    users: BTreeMap<AccountId, User>,
}

impl View for Pallet {
    type V = PoolsState;

    closed spec fn view(&self) -> PoolsState {
        PoolsState {
            config: self.config,
            last_pool_id: self.last_pool_id,
            max_pools: self.max_pools,
            pools: views(self.pools@),
            requests: views(self.requests@),
            users: views(self.users@),
        }
    }
}

impl Pallet {
    /// Empty storage under the configured limits: no pools, requests or
    /// users; pool ids may be capped by `max_pools`.
    pub fn new(config: Config, max_pools: Option<PoolId>) -> (p: Pallet)
        requires
            config.fits(),
        ensures
            p@ == PoolsState::genesis(config, max_pools),
            p@.wf(),
    {
        let p = Pallet {
            config,
            last_pool_id: 0,
            max_pools,
            pools: BTreeMap::new(),
            requests: BTreeMap::new(),
            users: BTreeMap::new(),
        };
        assert(p@.pools =~= Map::empty());
        assert(p@.requests =~= Map::empty());
        assert(p@.users =~= Map::empty());
        p
    }

    /// The configured limits.
    pub fn config(&self) -> (r: Config)
        ensures
            r == self@.config,
    {
        self.config
    }

    /// The last pool id handed out.
    pub fn last_pool_id(&self) -> (r: PoolId)
        ensures
            r == self@.last_pool_id,
    {
        self.last_pool_id
    }

    /// The cap on pool ids, if any.
    pub fn max_pools(&self) -> (r: Option<PoolId>)
        ensures
            r == self@.max_pools,
    {
        self.max_pools
    }

    /// The pool with this id, if any.
    pub fn pool(&self, pool_id: PoolId) -> (r: Option<&Pool>)
        ensures
            match r {
                Some(p) => self@.pools.contains_key(pool_id) && p@ == self@.pools[pool_id],
                None => !self@.pools.contains_key(pool_id),
            },
    {
        self.pools.get(&pool_id)
    }

    /// The request of the account to join the pool, if any.
    pub fn request(&self, pool_id: PoolId, account: AccountId) -> (r: Option<&PoolRequest>)
        ensures
            match r {
                Some(q) => self@.requests.contains_key((pool_id, account)) && q@ == self@.requests[(pool_id, account)],
                None => !self@.requests.contains_key((pool_id, account)),
            },
    {
        self.requests.get(&(pool_id, account))
    }

    /// The record of the account, if any.
    pub fn user(&self, account: AccountId) -> (r: Option<&User>)
        ensures
            match r {
                Some(u) => self@.users.contains_key(account) && u@ == self@.users[account],
                None => !self@.users.contains_key(account),
            },
    {
        self.users.get(&account)
    }

    /// Gets or creates a user: the record of the account, or, for an
    /// account without one, a new user's record, which is then stored.
    fn get_or_create_user(&mut self, who: AccountId) -> (u: User)
        ensures
            u@ == old(self)@.user_or_fresh(who),
            final(self)@ == (PoolsState {
                users: old(self)@.users.insert(who, old(self)@.user_or_fresh(who)),
                ..old(self)@
            }),
            old(self)@.users.contains_key(who) ==> final(self)@ == old(self)@,
    {
        match self.users.get(&who) {
            Some(user) => {
                proof {
                    assert(old(self)@.users.insert(who, old(self)@.users[who]) =~= old(self)@.users);
                }
                return user.duplicate();
            },
            None => {},
        }
        let user = User::default();
        let stored = user.duplicate();
        proof {
            lemma_views_insert(self.users@, who, stored);
        }
        self.users.insert(who, stored);
        user
    }

    /// For a call that fails after `get_or_create_user`: a record that it
    /// created goes again, so that the failed call leaves the storage as it
    /// found it.
    fn forget_created_user(&mut self, who: AccountId, created: bool, Ghost(before): Ghost<PoolsState>)
        requires
            created ==> !before.users.contains_key(who) && old(self)@ == (PoolsState {
                users: before.users.insert(who, UserView::fresh()),
                ..before
            }),
            !created ==> old(self)@ == before,
        ensures
            final(self)@ == before,
    {
        if created {
            self.users.remove(&who);
            proof {
                lemma_views_remove(old(self).users@, who);
                assert(before.users.insert(who, UserView::fresh()).remove(who) =~= before.users);
            }
        }
    }

    /// The record of the account, or `UserDoesNotExist`.
    fn get_user(&self, who: AccountId) -> (r: Result<User, DispatchError>)
        ensures
            match r {
                Ok(u) => self@.users.contains_key(who) && u@ == self@.users[who],
                Err(e) => !self@.users.contains_key(who) && e == DispatchError::Module(Error::UserDoesNotExist),
            },
    {
        match self.users.get(&who) {
            Some(user) => Ok(user.duplicate()),
            None => Err(DispatchError::Module(Error::UserDoesNotExist)),
        }
    }

    /// Drops the join request of `who` to the pool and counts one request
    /// fewer for the pool.
    fn remove_pool_request(&mut self, who: AccountId, pool_id: PoolId)
        requires
            old(self)@.pools.contains_key(pool_id),
            old(self)@.pools[pool_id].request_number >= 1,
        ensures
            final(self)@ == old(self)@.remove_pool_request(who, pool_id),
    {
        let ghost before = self.pools@;
        self.requests.remove(&(pool_id, who));
        proof {
            lemma_views_remove(old(self).requests@, (pool_id, who));
        }
        match self.pools.remove(&pool_id) {
            Some(pool) => {
                let mut pool = pool;
                pool.request_number = pool.request_number - 1;
                self.pools.insert(pool_id, pool);
                proof {
                    lemma_views_insert(before.remove(pool_id), pool_id, pool);
                    lemma_views_insert(before, pool_id, pool);
                    assert(before.remove(pool_id).insert(pool_id, pool) =~= before.insert(pool_id, pool));
                }
            },
            None => {},
        }
    }

    /// What follows a vote on the request of `who` to the pool, `request`
    /// being the request with the new vote and `result` the outcome of its
    /// votes.
    fn process_vote_result(
        &mut self,
        who: AccountId,
        pool_id: PoolId,
        request: PoolRequest,
        result: VoteResult,
    ) -> (r: Result<Event, DispatchError>)
        requires
            old(self)@.wf(),
            old(self)@.pools.contains_key(pool_id),
            old(self)@.requests.contains_key((pool_id, who)),
        ensures
            outcome(old(self)@.process_vote_result(who, pool_id, request@, result), old(self)@, final(self)@, r),
    {
        proof {
            lemma_request_counted(self@, (pool_id, who));
        }
        match result {
            VoteResult::Accepted => {
                let mut user = match self.get_user(who) {
                    Ok(u) => u,
                    Err(e) => return Err(e),
                };
                let ghost pools0 = self.pools@;
                let index = match self.pools.get(&pool_id) {
                    Some(pool) => match binary_search(&pool.participants, who) {
                        Ok(_) => return Err(DispatchError::Module(Error::InternalError)),
                        Err(index) => {
                            if list_len(&pool.participants) >= self.config.max_pool_participants as usize {
                                return Err(DispatchError::Module(Error::InternalError));
                            }
                            index
                        },
                    },
                    None => return Err(DispatchError::Module(Error::InternalError)),
                };
                let mut pool = match self.pools.remove(&pool_id) {
                    Some(pool) => pool,
                    None => return Err(DispatchError::Module(Error::InternalError)),
                };
                let ghost ps = list_accounts(pool.participants);
                match list_try_insert(&mut pool.participants, index, who) {
                    Ok(()) => {},
                    Err(_) => {
                        self.pools.insert(pool_id, pool);
                        proof {
                            assert(pools0.remove(pool_id).insert(pool_id, pool) =~= pools0);
                        }
                        return Err(DispatchError::Module(Error::InternalError));
                    },
                }
                proof {
                    lemma_insert_point_unique(ps, who, index as int, choose|i: int| crate::search::is_insert_point(ps, who, i));
                }
                user.pool_id = Some(pool_id);
                user.request_pool_id = None;
                user.peer_id = request.peer_id;
                self.users.insert(who, user);
                self.pools.insert(pool_id, pool);
                proof {
                    lemma_views_insert(old(self).users@, who, user);
                    lemma_views_insert(pools0, pool_id, pool);
                    assert(pools0.remove(pool_id).insert(pool_id, pool) =~= pools0.insert(pool_id, pool));
                }
                self.requests.remove(&(pool_id, who));
                proof {
                    lemma_views_remove(old(self).requests@, (pool_id, who));
                }
                self.remove_pool_request(who, pool_id);
                proof {
                    assert(old(self).requests@.remove((pool_id, who)).remove((pool_id, who)) =~= old(self).requests@.remove((pool_id, who)));
                    let sr = old(self)@.process_vote_result(who, pool_id, request@, result);
                    assert(sr is Ok);
                    assert(self@.users == sr->Ok_0.0.users);
                    assert(self@.requests == sr->Ok_0.0.requests);
                    assert(self@.pools == sr->Ok_0.0.pools);
                }
                Ok(Event::VotingResult { pool_id, account: who, result: vote_result_bytes(VoteResult::Accepted) })
            },
            VoteResult::Denied => {
                let mut user = match self.get_user(who) {
                    Ok(u) => u,
                    Err(e) => return Err(e),
                };
                user.request_pool_id = None;
                self.users.insert(who, user);
                proof {
                    lemma_views_insert(old(self).users@, who, user);
                }
                self.remove_pool_request(who, pool_id);
                Ok(Event::VotingResult { pool_id, account: who, result: vote_result_bytes(VoteResult::Denied) })
            },
            VoteResult::Inconclusive => {
                self.requests.insert((pool_id, who), request);
                proof {
                    lemma_views_insert(old(self).requests@, (pool_id, who), request);
                }
                Ok(Event::VotingResult { pool_id, account: who, result: vote_result_bytes(VoteResult::Inconclusive) })
            },
        }
    }

    /// Creates a new pool, owned by the signer, with the signer as its only
    /// participant, under the next pool id; `peer_id` is a libp2p peer id
    /// validated on the client side.
    pub fn create(
        &mut self,
        origin: Origin,
        name: Vec<u8>,
        region: Vec<u8>,
        peer_id: BoundedString,
    ) -> (r: Result<Event, DispatchError>)
        requires
            old(self)@.wf(),
            old(self)@.create_draws_id(origin) ==> old(self)@.last_pool_id < PoolId::MAX,
        ensures
            outcome(old(self)@.create(origin, name@, region@, string_bytes(peer_id)), old(self)@, final(self)@, r),
            final(self)@.wf(),
    {
        proof {
            create_keeps_consistency(self@, origin, name@, region@, string_bytes(peer_id));
        }
        let owner = match ensure_signed(origin) {
            Ok(who) => who,
            Err(e) => return Err(e),
        };
        let created = self.users.get(&owner).is_none();
        let mut user = self.get_or_create_user(owner);
        if !user.is_free() {
            return Err(DispatchError::Module(Error::UserBusy));
        }
        if let Some(max_pools) = self.max_pools {
            if !(max_pools > self.last_pool_id) {
                self.forget_created_user(owner, created, Ghost(old(self)@));
                return Err(DispatchError::Module(Error::MaxPools));
            }
        }
        let pool_id = self.last_pool_id + 1;
        if name.len() > self.config.string_limit as usize || region.len() > self.config.string_limit as usize {
            self.forget_created_user(owner, created, Ghost(old(self)@));
            return Err(DispatchError::Module(Error::NameTooLong));
        }
        let bounded_name = match string_try_from(name) {
            Ok(b) => b,
            Err(_) => {
                self.forget_created_user(owner, created, Ghost(old(self)@));
                return Err(DispatchError::Module(Error::NameTooLong));
            },
        };
        let bounded_region = match string_try_from(region) {
            Ok(b) => b,
            Err(_) => {
                self.forget_created_user(owner, created, Ghost(old(self)@));
                return Err(DispatchError::Module(Error::NameTooLong));
            },
        };
        let mut participants = list_default();
        if self.config.max_pool_participants == 0 {
            self.forget_created_user(owner, created, Ghost(old(self)@));
            return Err(DispatchError::Module(Error::CapacityReached));
        }
        match list_try_push(&mut participants, owner) {
            Ok(()) => {},
            Err(_) => {
                self.forget_created_user(owner, created, Ghost(old(self)@));
                return Err(DispatchError::Module(Error::CapacityReached));
            },
        }
        let pool = Pool {
            name: bounded_name,
            region: bounded_region,
            owner: Some(owner),
            parent: None,
            participants,
            request_number: 0,
        };
        proof {
            assert(list_accounts(participants) =~= seq![owner]);
            lemma_views_insert(self.pools@, pool_id, pool);
        }
        self.last_pool_id = pool_id;
        self.pools.insert(pool_id, pool);
        user.pool_id = Some(pool_id);
        user.peer_id = peer_id;
        proof {
            lemma_views_insert(self.users@, owner, user);
            assert(old(self)@.users.insert(owner, old(self)@.user_or_fresh(owner)).insert(owner, user@) =~= old(self)@.users.insert(owner, user@));
        }
        self.users.insert(owner, user);
        Ok(Event::PoolCreated { pool_id, owner: Some(owner) })
    }

    /// The signer leaves the pool that it is a member of.
    pub fn leave_pool(&mut self, origin: Origin, pool_id: PoolId) -> (r: Result<Event, DispatchError>)
        requires
            old(self)@.wf(),
        ensures
            outcome(old(self)@.leave_pool(origin, pool_id), old(self)@, final(self)@, r),
            final(self)@.wf(),
    {
        proof {
            leave_pool_keeps_consistency(self@, origin, pool_id);
        }
        let account = match ensure_signed(origin) {
            Ok(who) => who,
            Err(e) => return Err(e),
        };
        let mut user = match self.get_user(account) {
            Ok(u) => u,
            Err(e) => return Err(e),
        };
        if !(user.pool_id == Some(pool_id)) {
            return Err(DispatchError::Module(Error::AccessDenied));
        }
        let found = match self.pools.get(&pool_id) {
            Some(pool) => binary_search(&pool.participants, account),
            None => return Err(DispatchError::Module(Error::PoolDoesNotExist)),
        };
        match found {
            Ok(index) => {
                let ghost pools0 = self.pools@;
                let mut pool = match self.pools.remove(&pool_id) {
                    Some(pool) => pool,
                    None => return Err(DispatchError::Module(Error::InternalError)),
                };
                proof {
                    lemma_index_of_sorted(list_accounts(pool.participants), index as int);
                }
                list_remove(&mut pool.participants, index);
                self.pools.insert(pool_id, pool);
                proof {
                    lemma_views_insert(pools0, pool_id, pool);
                    assert(pools0.remove(pool_id).insert(pool_id, pool) =~= pools0.insert(pool_id, pool));
                }
                user.pool_id = None;
                proof {
                    lemma_views_insert(self.users@, account, user);
                }
                self.users.insert(account, user);
                Ok(Event::ParticipantLeft { pool_id, account })
            },
            Err(_) => Err(DispatchError::Module(Error::InternalError)),
        }
    }

    /// The signer asks to join the pool, naming its libp2p peer id.
    pub fn join(&mut self, origin: Origin, pool_id: PoolId, peer_id: BoundedString) -> (r: Result<Event, DispatchError>)
        requires
            old(self)@.wf(),
        ensures
            outcome(old(self)@.join(origin, pool_id, string_bytes(peer_id)), old(self)@, final(self)@, r),
            final(self)@.wf(),
    {
        proof {
            join_keeps_consistency(self@, origin, pool_id, string_bytes(peer_id));
        }
        let account = match ensure_signed(origin) {
            Ok(who) => who,
            Err(e) => return Err(e),
        };
        match self.pools.get(&pool_id) {
            Some(pool) => {
                if pool.is_full(self.config.max_pool_participants) {
                    return Err(DispatchError::Module(Error::CapacityReached));
                }
            },
            None => return Err(DispatchError::Module(Error::PoolDoesNotExist)),
        }
        let mut user = self.get_or_create_user(account);
        if !user.is_free() {
            return Err(DispatchError::Module(Error::UserBusy));
        }
        user.request_pool_id = Some(pool_id);
        user.peer_id = string_clone(&peer_id);
        proof {
            lemma_views_insert(self.users@, account, user);
            assert(old(self)@.users.insert(account, old(self)@.user_or_fresh(account)).insert(account, user@) =~= old(self)@.users.insert(account, user@));
        }
        self.users.insert(account, user);
        let mut request = PoolRequest::default();
        request.peer_id = peer_id;
        proof {
            lemma_views_insert(self.requests@, (pool_id, account), request);
        }
        self.requests.insert((pool_id, account), request);
        let ghost pools0 = self.pools@;
        let mut pool = match self.pools.remove(&pool_id) {
            Some(pool) => pool,
            None => return Err(DispatchError::Module(Error::InternalError)),
        };
        pool.request_number = pool.request_number + 1;
        self.pools.insert(pool_id, pool);
        proof {
            lemma_views_insert(pools0, pool_id, pool);
            assert(pools0.remove(pool_id).insert(pool_id, pool) =~= pools0.insert(pool_id, pool));
        }
        Ok(Event::JoinRequested { pool_id, account })
    }

    /// The signer withdraws its request to join the pool.
    pub fn cancel_join(&mut self, origin: Origin, pool_id: PoolId) -> (r: Result<Event, DispatchError>)
        requires
            old(self)@.wf(),
        ensures
            outcome(old(self)@.cancel_join(origin, pool_id), old(self)@, final(self)@, r),
            final(self)@.wf(),
    {
        proof {
            cancel_join_keeps_consistency(self@, origin, pool_id);
        }
        let account = match ensure_signed(origin) {
            Ok(who) => who,
            Err(e) => return Err(e),
        };
        if self.requests.get(&(pool_id, account)).is_none() {
            return Err(DispatchError::Module(Error::RequestDoesNotExist));
        }
        let mut user = match self.users.get(&account) {
            Some(u) => u.duplicate(),
            None => return Err(DispatchError::Module(Error::UserDoesNotExist)),
        };
        if self.pools.get(&pool_id).is_none() {
            return Err(DispatchError::Module(Error::PoolDoesNotExist));
        }
        proof {
            lemma_request_counted(self@, (pool_id, account));
        }
        user.request_pool_id = None;
        proof {
            lemma_views_insert(self.users@, account, user);
        }
        self.users.insert(account, user);
        self.requests.remove(&(pool_id, account));
        proof {
            lemma_views_remove(old(self).requests@, (pool_id, account));
        }
        self.remove_pool_request(account, pool_id);
        proof {
            assert(old(self).requests@.remove((pool_id, account)).remove((pool_id, account)) =~= old(self).requests@.remove((pool_id, account)));
            let sr = old(self)@.cancel_join(origin, pool_id);
            assert(sr is Ok);
            assert(self@.users == sr->Ok_0.0.users);
            assert(self@.requests == sr->Ok_0.0.requests);
            assert(self@.pools == sr->Ok_0.0.pools);
        }
        Ok(Event::RequestWithdrawn { pool_id, account })
    }

    /// The signer, a member of the pool, votes for (`positive`) or against
    /// the request of `account` to join it, naming the request's peer id;
    /// the request is then decided by the votes so far.
    pub fn vote(
        &mut self,
        origin: Origin,
        pool_id: PoolId,
        account: AccountId,
        positive: bool,
        peer_id: BoundedString,
    ) -> (r: Result<Event, DispatchError>)
        requires
            old(self)@.wf(),
        ensures
            outcome(old(self)@.vote(origin, pool_id, account, positive, string_bytes(peer_id)), old(self)@, final(self)@, r),
            final(self)@.wf(),
    {
        proof {
            vote_keeps_consistency(self@, origin, pool_id, account, positive, string_bytes(peer_id));
        }
        let voter = match ensure_signed(origin) {
            Ok(who) => who,
            Err(e) => return Err(e),
        };
        let voter_user = match self.get_user(voter) {
            Ok(u) => u,
            Err(e) => return Err(e),
        };
        let stored = match self.requests.get(&(pool_id, account)) {
            Some(q) => q,
            None => return Err(DispatchError::Module(Error::RequestDoesNotExist)),
        };
        if !(voter_user.pool_id == Some(pool_id)) {
            return Err(DispatchError::Module(Error::AccessDenied));
        }
        if !bytes_equal(&string_to_vec(&stored.peer_id), &string_to_vec(&peer_id)) {
            return Err(DispatchError::Module(Error::AccessDenied));
        }
        let mut voted = list_clone(&stored.voted);
        let index = match binary_search(&voted, voter) {
            Ok(_) => return Err(DispatchError::Module(Error::AlreadyVoted)),
            Err(index) => index,
        };
        if list_len(&voted) >= self.config.max_pool_participants as usize {
            return Err(DispatchError::Module(Error::InternalError));
        }
        let ghost vs = list_accounts(voted);
        match list_try_insert(&mut voted, index, voter) {
            Ok(()) => {},
            Err(_) => return Err(DispatchError::Module(Error::InternalError)),
        }
        proof {
            lemma_insert_point_unique(vs, voter, index as int, choose|i: int| crate::search::is_insert_point(vs, voter, i));
        }
        let mut request = PoolRequest { voted, positive_votes: stored.positive_votes, peer_id: string_clone(&stored.peer_id) };
        if positive {
            request.positive_votes = request.positive_votes + 1;
        }
        let num_participants = match self.pools.get(&pool_id) {
            Some(pool) => {
                if pool.is_full(self.config.max_pool_participants) {
                    return Err(DispatchError::Module(Error::CapacityReached));
                }
                list_len(&pool.participants) as u16
            },
            None => return Err(DispatchError::Module(Error::PoolDoesNotExist)),
        };
        let result = request.check_votes(num_participants);
        self.process_vote_result(account, pool_id, request, result)
    }
}

/// What other modules may ask of the pools: whether an account is a member
/// of a pool.
pub trait PoolInterface {
    type AccountId;
    type PoolId;

    /// Whether the account is recorded as a member of the pool.
    spec fn member_of(&self, account: Self::AccountId, pool: Self::PoolId) -> bool;

    /// Whether the account is a member of the pool.
    fn is_member(&self, account: Self::AccountId, pool: Self::PoolId) -> (r: bool)
        ensures
            r == self.member_of(account, pool),
    ;
}

impl PoolInterface for Pallet {
    type AccountId = AccountId;
    type PoolId = PoolId;

    /// The account's record names the pool as the pool it is a member of;
    /// false for an account without a record.
    open spec fn member_of(&self, account: AccountId, pool: PoolId) -> bool {
        self@.is_member(account, pool)
    }

    fn is_member(&self, account: AccountId, pool: PoolId) -> (r: bool)
        ensures
            r == (self@.users.contains_key(account) && self@.users[account].pool_id == Some(pool)),
    {
        match self.users.get(&account) {
            Some(u) => match u.pool_id {
                Some(v) => v == pool,
                None => false,
            },
            None => false,
        }
    }
}

/// Membership as other modules see it: an account is a member of a pool
/// exactly when its record names that pool, which in consistent storage is
/// exactly when it is one of the pool's participants; so it is a member of
/// at most one pool.
pub proof fn membership_seen_by_others(p: &Pallet, account: AccountId, pool: PoolId, other: PoolId)
    requires
        p@.wf(),
    ensures
        p.member_of(account, pool) <==> (p@.users.contains_key(account) && p@.users[account].pool_id == Some(pool)),
        p.member_of(account, pool) <==> (p@.pools.contains_key(pool) && p@.pools[pool].participants.contains(account)),
        p.member_of(account, pool) && p.member_of(account, other) ==> pool == other,
{
    crate::laws::membership_is_participation(p@, account, pool);
}

} // verus!
