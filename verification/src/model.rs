//! The pool storage as plain values, and what each call does to it.

use crate::bounded::AccountId;
use crate::search::{insert_sorted, remove_account};
use crate::dispatch::{fail, signer_of, vote_result_name, DispatchError, Error, Event, EventView, Origin};
use crate::types::{strictly_sorted, vote_outcome, Config, PoolId, PoolRequestView, PoolView, UserView, VoteResult};
use vstd::prelude::*;

verus! {

/// Whether a request key names the pool.
pub open spec fn to_pool(pool: PoolId) -> spec_fn((PoolId, AccountId)) -> bool {
    |k: (PoolId, AccountId)| k.0 == pool
}

/// The pool storage: the configured limits, the last pool id handed out,
/// the optional cap on pool ids, the pools, the join requests by pool and
/// account, and the users.
pub struct PoolsState {
    pub config: Config,
    pub last_pool_id: PoolId,
    pub max_pools: Option<PoolId>,
    pub pools: Map<PoolId, PoolView>,
    pub requests: Map<(PoolId, AccountId), PoolRequestView>,
    pub users: Map<AccountId, UserView>,
}

/// What a call does: the storage after it and the event it deposits, or the
/// error it fails with, in which case the storage stays as it was.
pub type Step = Result<(PoolsState, EventView), DispatchError>;

/// A join request is well formed: its voters are in increasing order, no
/// more of them voted for than voted at all, and there is room for one more
/// under the participant limit.
pub open spec fn request_wf(r: PoolRequestView, max_pool_participants: u32) -> bool {
    &&& strictly_sorted(r.voted)
    &&& r.positive_votes <= r.voted.len()
    &&& r.voted.len() < max_pool_participants
}

impl PoolsState {
    /// The user record of an account, or the record of a new user.
    pub open spec fn user_or_fresh(self, who: AccountId) -> UserView {
        if self.users.contains_key(who) {
            self.users[who]
        } else {
            UserView::fresh()
        }
    }

    /// Whether the account is recorded as a member of the pool.
    pub open spec fn is_member(self, account: AccountId, pool: PoolId) -> bool {
        self.users.contains_key(account) && self.users[account].pool_id == Some(pool)
    }

    /// The join requests to the pool.
    pub open spec fn requests_to(self, pool: PoolId) -> Set<(PoolId, AccountId)> {
        self.requests.dom().filter(to_pool(pool))
    }

    /// The storage is consistent: pool ids are at most the last one handed
    /// out; each pool's participants are in increasing order and, with its
    /// outstanding requests, fit in the pool; its request count is the number
    /// of requests to it; a user is a participant of exactly the pool that
    /// its record names; a user waiting to join a pool has a request to it and
    /// is in no pool; and each request belongs to a recorded user and pool.
    pub open spec fn wf(self) -> bool {
        &&& self.config.fits()
        &&& self.requests.dom().finite()
        &&& forall|p: PoolId| #[trigger] self.pools.contains_key(p) ==> {
            let pool = self.pools[p];
            &&& p <= self.last_pool_id
            &&& strictly_sorted(pool.participants)
            &&& pool.participants.len() + pool.request_number <= self.config.max_pool_participants
            &&& pool.request_number == self.requests_to(p).len()
        }
        &&& forall|p: PoolId, a: AccountId|
            #![trigger self.pools[p].participants.contains(a)]
            self.pools.contains_key(p) && self.pools[p].participants.contains(a) ==> self.is_member(a, p)
        &&& forall|a: AccountId| #[trigger] self.users.contains_key(a) ==> {
            let u = self.users[a];
            &&& (u.pool_id matches Some(p) ==> self.pools.contains_key(p) && self.pools[p].participants.contains(a))
            &&& (u.request_pool_id matches Some(p) ==> u.pool_id is None && self.requests.contains_key((p, a)))
        }
        &&& forall|k: (PoolId, AccountId)| #[trigger] self.requests.contains_key(k) ==> {
            &&& self.users.contains_key(k.1)
            &&& self.users[k.1].request_pool_id == Some(k.0)
            &&& self.pools.contains_key(k.0)
            &&& request_wf(self.requests[k], self.config.max_pool_participants)
        }
    }

    /// The storage before any call: no pools, requests or users.
    pub open spec fn genesis(config: Config, max_pools: Option<PoolId>) -> PoolsState {
        PoolsState {
            config,
            last_pool_id: 0,
            max_pools,
            pools: Map::empty(),
            requests: Map::empty(),
            users: Map::empty(),
        }
    }

    /// The checks of `create` that come before a new pool id is drawn pass.
    pub open spec fn create_draws_id(self, origin: Origin) -> bool {
        &&& signer_of(origin) is Ok
        &&& self.user_or_fresh(signer_of(origin)->Ok_0).is_free()
        &&& (self.max_pools matches Some(m) ==> m > self.last_pool_id)
    }

    /// `create`: a signed, free user opens a new pool under the next pool
    /// id, as its owner and only participant.
    pub open spec fn create(self, origin: Origin, name: Seq<u8>, region: Seq<u8>, peer_id: Seq<u8>) -> Step {
        match signer_of(origin) {
            Err(e) => Err(e),
            Ok(owner) => {
                let user = self.user_or_fresh(owner);
                if !user.is_free() {
                    Err(fail(Error::UserBusy))
                } else if self.max_pools matches Some(m) && m <= self.last_pool_id {
                    Err(fail(Error::MaxPools))
                } else if name.len() > self.config.string_limit || region.len() > self.config.string_limit {
                    Err(fail(Error::NameTooLong))
                } else if self.config.max_pool_participants == 0 {
                    Err(fail(Error::CapacityReached))
                } else {
                    let id = (self.last_pool_id + 1) as PoolId;
                    let pool = PoolView {
                        name,
                        owner: Some(owner),
                        parent: None,
                        participants: seq![owner],
                        request_number: 0,
                        region,
                    };
                    Ok((
                        PoolsState {
                            last_pool_id: id,
                            pools: self.pools.insert(id, pool),
                            users: self.users.insert(owner, UserView { pool_id: Some(id), peer_id, ..user }),
                            ..self
                        },
                        EventView::PoolCreated { owner: Some(owner), pool_id: id },
                    ))
                }
            },
        }
    }

    /// `leave_pool`: a signed member of the pool leaves it.
    pub open spec fn leave_pool(self, origin: Origin, pool_id: PoolId) -> Step {
        match signer_of(origin) {
            Err(e) => Err(e),
            Ok(account) => {
                if !self.users.contains_key(account) {
                    Err(fail(Error::UserDoesNotExist))
                } else if self.users[account].pool_id != Some(pool_id) {
                    Err(fail(Error::AccessDenied))
                } else if !self.pools.contains_key(pool_id) {
                    Err(fail(Error::PoolDoesNotExist))
                } else if !self.pools[pool_id].participants.contains(account) {
                    Err(fail(Error::InternalError))
                } else {
                    let pool = self.pools[pool_id];
                    let user = self.users[account];
                    Ok((
                        PoolsState {
                            pools: self.pools.insert(
                                pool_id,
                                PoolView { participants: remove_account(pool.participants, account), ..pool },
                            ),
                            users: self.users.insert(account, UserView { pool_id: None, ..user }),
                            ..self
                        },
                        EventView::ParticipantLeft { account, pool_id },
                    ))
                }
            },
        }
    }

    /// `join`: a signed, free user asks to join a pool that is not full.
    pub open spec fn join(self, origin: Origin, pool_id: PoolId, peer_id: Seq<u8>) -> Step {
        match signer_of(origin) {
            Err(e) => Err(e),
            Ok(account) => {
                if !self.pools.contains_key(pool_id) {
                    Err(fail(Error::PoolDoesNotExist))
                } else if self.pools[pool_id].is_full(self.config.max_pool_participants) {
                    Err(fail(Error::CapacityReached))
                } else if !self.user_or_fresh(account).is_free() {
                    Err(fail(Error::UserBusy))
                } else {
                    let pool = self.pools[pool_id];
                    let user = self.user_or_fresh(account);
                    let request = PoolRequestView { voted: Seq::empty(), positive_votes: 0, peer_id };
                    Ok((
                        PoolsState {
                            pools: self.pools.insert(
                                pool_id,
                                PoolView { request_number: (pool.request_number + 1) as u8, ..pool },
                            ),
                            requests: self.requests.insert((pool_id, account), request),
                            users: self.users.insert(
                                account,
                                UserView { request_pool_id: Some(pool_id), peer_id, ..user },
                            ),
                            ..self
                        },
                        EventView::JoinRequested { account, pool_id },
                    ))
                }
            },
        }
    }

    /// Drops the join request of `who` to the pool and counts one request
    /// fewer for the pool.
    pub open spec fn remove_pool_request(self, who: AccountId, pool_id: PoolId) -> PoolsState {
        let pool = self.pools[pool_id];
        PoolsState {
            requests: self.requests.remove((pool_id, who)),
            pools: self.pools.insert(
                pool_id,
                PoolView { request_number: (pool.request_number - 1) as u8, ..pool },
            ),
            ..self
        }
    }

    /// `cancel_join`: a signed user withdraws its request to join a pool.
    pub open spec fn cancel_join(self, origin: Origin, pool_id: PoolId) -> Step {
        match signer_of(origin) {
            Err(e) => Err(e),
            Ok(account) => {
                if !self.requests.contains_key((pool_id, account)) {
                    Err(fail(Error::RequestDoesNotExist))
                } else if !self.users.contains_key(account) {
                    Err(fail(Error::UserDoesNotExist))
                } else if !self.pools.contains_key(pool_id) {
                    Err(fail(Error::PoolDoesNotExist))
                } else {
                    let user = self.users[account];
                    let s = PoolsState {
                        users: self.users.insert(account, UserView { request_pool_id: None, ..user }),
                        ..self
                    };
                    Ok((s.remove_pool_request(account, pool_id), EventView::RequestWithdrawn { account, pool_id }))
                }
            },
        }
    }

    /// What follows a vote on the request of `who` to the pool, the request
    /// with the new vote being `request`: on acceptance `who` becomes a
    /// participant and the request goes; on denial the request goes; else the
    /// request with the new vote is kept.
    pub open spec fn process_vote_result(
        self,
        who: AccountId,
        pool_id: PoolId,
        request: PoolRequestView,
        result: VoteResult,
    ) -> Step {
        let pool = self.pools[pool_id];
        let event = EventView::VotingResult { account: who, pool_id, result: vote_result_name(result) };
        match result {
            VoteResult::Accepted => {
                if !self.users.contains_key(who) {
                    Err(fail(Error::UserDoesNotExist))
                } else if pool.participants.contains(who) {
                    Err(fail(Error::InternalError))
                } else if pool.participants.len() >= self.config.max_pool_participants {
                    Err(fail(Error::InternalError))
                } else {
                    let user = UserView { pool_id: Some(pool_id), request_pool_id: None, peer_id: request.peer_id };
                    let s = PoolsState {
                        users: self.users.insert(who, user),
                        pools: self.pools.insert(
                            pool_id,
                            PoolView { participants: insert_sorted(pool.participants, who), ..pool },
                        ),
                        ..self
                    };
                    Ok((s.remove_pool_request(who, pool_id), event))
                }
            },
            VoteResult::Denied => {
                if !self.users.contains_key(who) {
                    Err(fail(Error::UserDoesNotExist))
                } else {
                    let user = self.users[who];
                    let s = PoolsState {
                        users: self.users.insert(who, UserView { request_pool_id: None, ..user }),
                        ..self
                    };
                    Ok((s.remove_pool_request(who, pool_id), event))
                }
            },
            VoteResult::Inconclusive => {
                Ok((PoolsState { requests: self.requests.insert((pool_id, who), request), ..self }, event))
            },
        }
    }

    /// `vote`: a signed member of the pool votes for or against the request
    /// of `account` to join it, naming the peer id of the request; the
    /// request is then decided by the votes so far.
    pub open spec fn vote(
        self,
        origin: Origin,
        pool_id: PoolId,
        account: AccountId,
        positive: bool,
        peer_id: Seq<u8>,
    ) -> Step {
        match signer_of(origin) {
            Err(e) => Err(e),
            Ok(voter) => {
                if !self.users.contains_key(voter) {
                    Err(fail(Error::UserDoesNotExist))
                } else if !self.requests.contains_key((pool_id, account)) {
                    Err(fail(Error::RequestDoesNotExist))
                } else if self.users[voter].pool_id != Some(pool_id) {
                    Err(fail(Error::AccessDenied))
                } else if self.requests[(pool_id, account)].peer_id != peer_id {
                    Err(fail(Error::AccessDenied))
                } else if self.requests[(pool_id, account)].voted.contains(voter) {
                    Err(fail(Error::AlreadyVoted))
                } else if self.requests[(pool_id, account)].voted.len() >= self.config.max_pool_participants {
                    Err(fail(Error::InternalError))
                } else if !self.pools.contains_key(pool_id) {
                    Err(fail(Error::PoolDoesNotExist))
                } else if self.pools[pool_id].is_full(self.config.max_pool_participants) {
                    Err(fail(Error::CapacityReached))
                } else {
                    let request = self.requests[(pool_id, account)];
                    let updated = PoolRequestView {
                        voted: insert_sorted(request.voted, voter),
                        positive_votes: if positive {
                            (request.positive_votes + 1) as u16
                        } else {
                            request.positive_votes
                        },
                        peer_id: request.peer_id,
                    };
                    let result = vote_outcome(
                        updated.positive_votes as int,
                        updated.voted.len() as int,
                        self.pools[pool_id].participants.len() as int,
                    );
                    self.process_vote_result(account, pool_id, updated, result)
                }
            },
        }
    }
}

/// The call's result and the storage after it are what `step` says: on
/// success the new storage and the event, on failure the error and the
/// storage as it was.
pub open spec fn outcome(step: Step, before: PoolsState, after: PoolsState, r: Result<Event, DispatchError>) -> bool {
    match step {
        Ok((s, ev)) => after == s && (r matches Ok(e) && e@ == ev),
        Err(err) => after == before && r == Err::<Event, DispatchError>(err),
    }
}

/// In consistent storage, a join request counts towards its pool's
/// request count, which is therefore at least one.
pub proof fn lemma_request_counted(s: PoolsState, k: (PoolId, AccountId))
    requires
        s.wf(),
        s.requests.contains_key(k),
    ensures
        s.pools.contains_key(k.0),
        s.pools[k.0].request_number >= 1,
        s.requests_to(k.0).finite(),
        s.requests_to(k.0).contains(k),
{
    s.requests.dom().lemma_len_filter(to_pool(k.0));
    let set = s.requests_to(k.0);
    assert(set.contains(k));
    vstd::set::axiom_set_remove_len(set, k);
}

} // verus!
