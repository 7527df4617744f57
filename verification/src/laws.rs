//! What every call keeps, and what calls do in sequence.

use crate::bounded::AccountId;
use crate::dispatch::{fail, signer_of, DispatchError, Error, EventView, Origin};
use crate::model::{lemma_request_counted, request_wf, to_pool, PoolsState};
use crate::search::{lemma_insert_sorted, lemma_remove_account, remove_account};
use crate::types::{strictly_sorted, Config, vote_outcome, PoolId, PoolRequestView, PoolView, UserView, VoteResult};
use vstd::prelude::*;

verus! {

/// Adding a key to a finite set of request keys adds one request to its
/// pool, unless the key was there already.
proof fn lemma_count_insert(d: Set<(PoolId, AccountId)>, k: (PoolId, AccountId), p: PoolId)
    requires
        d.finite(),
    ensures
        d.insert(k).filter(to_pool(p)).finite(),
        d.insert(k).filter(to_pool(p)).len() == d.filter(to_pool(p)).len() + (if k.0 == p && !d.contains(k) {
            1int
        } else {
            0int
        }),
{
    d.lemma_len_filter(to_pool(p));
    if k.0 == p {
        assert(d.insert(k).filter(to_pool(p)) =~= d.filter(to_pool(p)).insert(k));
    } else {
        assert(d.insert(k).filter(to_pool(p)) =~= d.filter(to_pool(p)));
    }
}

/// Taking a key out of a finite set of request keys takes one request from
/// its pool, if the key was there.
proof fn lemma_count_remove(d: Set<(PoolId, AccountId)>, k: (PoolId, AccountId), p: PoolId)
    requires
        d.finite(),
    ensures
        d.remove(k).filter(to_pool(p)).finite(),
        d.remove(k).filter(to_pool(p)).len() + (if k.0 == p && d.contains(k) {
            1int
        } else {
            0int
        }) == d.filter(to_pool(p)).len(),
{
    d.lemma_len_filter(to_pool(p));
    if k.0 == p {
        assert(d.remove(k).filter(to_pool(p)) =~= d.filter(to_pool(p)).remove(k));
    } else {
        assert(d.remove(k).filter(to_pool(p)) =~= d.filter(to_pool(p)));
    }
}

/// A pool that no request names has no requests.
proof fn lemma_count_none(s: PoolsState, p: PoolId)
    requires
        s.requests.dom().finite(),
        forall|k: (PoolId, AccountId)| s.requests.contains_key(k) ==> k.0 != p,
    ensures
        s.requests_to(p).len() == 0,
{
    assert(s.requests_to(p) =~= Set::empty());
}

/// The storage before any call is consistent.
pub proof fn genesis_is_consistent(config: Config, max_pools: Option<PoolId>)
    requires
        config.fits(),
    ensures
        PoolsState::genesis(config, max_pools).wf(),
{
}

/// Creating a pool keeps the storage consistent.
pub proof fn create_keeps_consistency(
    s: PoolsState,
    origin: Origin,
    name: Seq<u8>,
    region: Seq<u8>,
    peer_id: Seq<u8>,
)
    requires
        s.wf(),
        s.create_draws_id(origin) ==> s.last_pool_id < PoolId::MAX,
    ensures
        s.create(origin, name, region, peer_id) matches Ok((t, _)) ==> t.wf(),
{
    if let Ok((t, _)) = s.create(origin, name, region, peer_id) {
        let owner = signer_of(origin)->Ok_0;
        let id = t.last_pool_id;
        assert(id == s.last_pool_id + 1);
        assert(!s.pools.contains_key(id));
        assert forall|k: (PoolId, AccountId)| s.requests.contains_key(k) implies k.0 != id by {
            assert(s.pools.contains_key(k.0));
        }
        lemma_count_none(s, id);
        assert(t.requests_to(id) == s.requests_to(id));
        assert forall|p: PoolId| #[trigger] t.pools.contains_key(p) implies {
            let pool = t.pools[p];
            &&& p <= t.last_pool_id
            &&& strictly_sorted(pool.participants)
            &&& pool.participants.len() + pool.request_number <= t.config.max_pool_participants
            &&& pool.request_number == t.requests_to(p).len()
        } by {
            if p != id {
                assert(s.pools.contains_key(p));
            }
        }
        assert forall|p: PoolId, a: AccountId|
            #![trigger t.pools[p].participants.contains(a)]
            t.pools.contains_key(p) && t.pools[p].participants.contains(a) implies t.is_member(a, p) by {
            if p == id {
                assert(t.pools[p].participants =~= seq![owner]);
                assert(a == owner);
            } else {
                assert(s.pools[p].participants.contains(a));
                assert(s.is_member(a, p));
            }
        }
        assert forall|a: AccountId| #[trigger] t.users.contains_key(a) implies {
            let u = t.users[a];
            &&& (u.pool_id matches Some(p) ==> t.pools.contains_key(p) && t.pools[p].participants.contains(a))
            &&& (u.request_pool_id matches Some(p) ==> u.pool_id is None && t.requests.contains_key((p, a)))
        } by {
            if a == owner {
                assert(t.pools[id].participants[0] == owner);
            } else {
                assert(s.users.contains_key(a));
                if let Some(p) = s.users[a].pool_id {
                    assert(s.pools.contains_key(p));
                }
            }
        }
        assert forall|k: (PoolId, AccountId)| #[trigger] t.requests.contains_key(k) implies {
            &&& t.users.contains_key(k.1)
            &&& t.users[k.1].request_pool_id == Some(k.0)
            &&& t.pools.contains_key(k.0)
            &&& request_wf(t.requests[k], t.config.max_pool_participants)
        } by {
            assert(s.requests.contains_key(k));
        }
    }
}

/// Leaving a pool keeps the storage consistent.
pub proof fn leave_pool_keeps_consistency(s: PoolsState, origin: Origin, pool_id: PoolId)
    requires
        s.wf(),
    ensures
        s.leave_pool(origin, pool_id) matches Ok((t, _)) ==> t.wf(),
{
    if let Ok((t, _)) = s.leave_pool(origin, pool_id) {
        let account = signer_of(origin)->Ok_0;
        let ps = s.pools[pool_id].participants;
        assert(s.pools.contains_key(pool_id));
        lemma_remove_account(ps, account);
        assert(t.requests == s.requests);
        assert forall|p: PoolId| #[trigger] t.pools.contains_key(p) implies {
            let pool = t.pools[p];
            &&& p <= t.last_pool_id
            &&& strictly_sorted(pool.participants)
            &&& pool.participants.len() + pool.request_number <= t.config.max_pool_participants
            &&& pool.request_number == t.requests_to(p).len()
        } by {
            assert(s.pools.contains_key(p));
        }
        assert forall|p: PoolId, a: AccountId|
            #![trigger t.pools[p].participants.contains(a)]
            t.pools.contains_key(p) && t.pools[p].participants.contains(a) implies t.is_member(a, p) by {
            assert(s.pools.contains_key(p));
            assert(s.pools[p].participants.contains(a));
            assert(s.is_member(a, p));
        }
        assert forall|a: AccountId| #[trigger] t.users.contains_key(a) implies {
            let u = t.users[a];
            &&& (u.pool_id matches Some(p) ==> t.pools.contains_key(p) && t.pools[p].participants.contains(a))
            &&& (u.request_pool_id matches Some(p) ==> u.pool_id is None && t.requests.contains_key((p, a)))
        } by {
            assert(s.users.contains_key(a));
            if let Some(p) = s.users[a].pool_id {
                assert(s.pools.contains_key(p));
                assert(s.pools[p].participants.contains(a));
            }
        }
        assert forall|k: (PoolId, AccountId)| #[trigger] t.requests.contains_key(k) implies {
            &&& t.users.contains_key(k.1)
            &&& t.users[k.1].request_pool_id == Some(k.0)
            &&& t.pools.contains_key(k.0)
            &&& request_wf(t.requests[k], t.config.max_pool_participants)
        } by {
            assert(s.requests.contains_key(k));
            assert(s.users.contains_key(k.1));
        }
    }
}

/// Asking to join a pool keeps the storage consistent.
pub proof fn join_keeps_consistency(s: PoolsState, origin: Origin, pool_id: PoolId, peer_id: Seq<u8>)
    requires
        s.wf(),
    ensures
        s.join(origin, pool_id, peer_id) matches Ok((t, _)) ==> t.wf(),
{
    if let Ok((t, _)) = s.join(origin, pool_id, peer_id) {
        let account = signer_of(origin)->Ok_0;
        let key = (pool_id, account);
        assert(!s.requests.contains_key(key)) by {
            if s.requests.contains_key(key) {
                assert(s.users.contains_key(account));
            }
        }
        assert(t.requests.dom() == s.requests.dom().insert(key));
        assert forall|p: PoolId| #[trigger] t.pools.contains_key(p) implies {
            let pool = t.pools[p];
            &&& p <= t.last_pool_id
            &&& strictly_sorted(pool.participants)
            &&& pool.participants.len() + pool.request_number <= t.config.max_pool_participants
            &&& pool.request_number == t.requests_to(p).len()
        } by {
            assert(s.pools.contains_key(p));
            lemma_count_insert(s.requests.dom(), key, p);
        }
        assert forall|p: PoolId, a: AccountId|
            #![trigger t.pools[p].participants.contains(a)]
            t.pools.contains_key(p) && t.pools[p].participants.contains(a) implies t.is_member(a, p) by {
            assert(s.pools.contains_key(p));
            assert(s.pools[p].participants.contains(a));
            assert(s.is_member(a, p));
        }
        assert forall|a: AccountId| #[trigger] t.users.contains_key(a) implies {
            let u = t.users[a];
            &&& (u.pool_id matches Some(p) ==> t.pools.contains_key(p) && t.pools[p].participants.contains(a))
            &&& (u.request_pool_id matches Some(p) ==> u.pool_id is None && t.requests.contains_key((p, a)))
        } by {
            if a != account {
                assert(s.users.contains_key(a));
                if let Some(p) = s.users[a].pool_id {
                    assert(s.pools.contains_key(p));
                    assert(s.pools[p].participants.contains(a));
                }
            }
        }
        assert forall|k: (PoolId, AccountId)| #[trigger] t.requests.contains_key(k) implies {
            &&& t.users.contains_key(k.1)
            &&& t.users[k.1].request_pool_id == Some(k.0)
            &&& t.pools.contains_key(k.0)
            &&& request_wf(t.requests[k], t.config.max_pool_participants)
        } by {
            if k != key {
                assert(s.requests.contains_key(k));
                assert(s.users.contains_key(k.1));
            } else {
                assert(strictly_sorted(t.requests[k].voted));
            }
        }
    }
}

/// Drops the request of `who` to the pool from consistent storage in which
/// the user no longer waits for it: the storage stays consistent once the
/// user record changes no participant relation.
proof fn lemma_drop_request_keeps_consistency(s: PoolsState, m: PoolsState, who: AccountId, pool_id: PoolId)
    requires
        s.wf(),
        s.requests.contains_key((pool_id, who)),
        m.config == s.config,
        m.last_pool_id == s.last_pool_id,
        m.requests == s.requests,
        m.pools.dom() == s.pools.dom(),
        forall|p: PoolId| #[trigger] m.pools.contains_key(p) ==> {
            &&& m.pools[p].request_number == s.pools[p].request_number
            &&& strictly_sorted(m.pools[p].participants)
            &&& m.pools[p].participants.len() + m.pools[p].request_number <= m.config.max_pool_participants
        },
        forall|p: PoolId, a: AccountId|
            #![trigger m.pools[p].participants.contains(a)]
            m.pools.contains_key(p) && m.pools[p].participants.contains(a) ==> m.is_member(a, p),
        m.users.dom() == s.users.dom(),
        m.users[who].request_pool_id is None,
        m.users[who].pool_id matches Some(p) ==> m.pools.contains_key(p) && m.pools[p].participants.contains(who),
        forall|a: AccountId| #[trigger] m.users.contains_key(a) && a != who ==> m.users[a] == s.users[a],
        forall|a: AccountId| #[trigger] m.users.contains_key(a) && a != who ==> (m.users[a].pool_id matches Some(p) ==> m.pools[p].participants.contains(a)),
    ensures
        m.remove_pool_request(who, pool_id).wf(),
{
    let t = m.remove_pool_request(who, pool_id);
    let key = (pool_id, who);
    lemma_request_counted(s, key);
    assert(t.requests.dom() == s.requests.dom().remove(key));
    assert forall|p: PoolId| #[trigger] t.pools.contains_key(p) implies {
        let pool = t.pools[p];
        &&& p <= t.last_pool_id
        &&& strictly_sorted(pool.participants)
        &&& pool.participants.len() + pool.request_number <= t.config.max_pool_participants
        &&& pool.request_number == t.requests_to(p).len()
    } by {
        assert(s.pools.contains_key(p));
        assert(m.pools.contains_key(p));
        lemma_count_remove(s.requests.dom(), key, p);
    }
    assert forall|p: PoolId, a: AccountId|
        #![trigger t.pools[p].participants.contains(a)]
        t.pools.contains_key(p) && t.pools[p].participants.contains(a) implies t.is_member(a, p) by {
        assert(m.pools.contains_key(p));
        assert(m.pools[p].participants.contains(a));
    }
    assert forall|a: AccountId| #[trigger] t.users.contains_key(a) implies {
        let u = t.users[a];
        &&& (u.pool_id matches Some(p) ==> t.pools.contains_key(p) && t.pools[p].participants.contains(a))
        &&& (u.request_pool_id matches Some(p) ==> u.pool_id is None && t.requests.contains_key((p, a)))
    } by {
        if a != who {
            assert(s.users.contains_key(a));
            assert(m.users[a] == s.users[a]);
            if let Some(p) = s.users[a].request_pool_id {
                assert(s.requests.contains_key((p, a)));
            }
        }
    }
    assert forall|k: (PoolId, AccountId)| #[trigger] t.requests.contains_key(k) implies {
        &&& t.users.contains_key(k.1)
        &&& t.users[k.1].request_pool_id == Some(k.0)
        &&& t.pools.contains_key(k.0)
        &&& request_wf(t.requests[k], t.config.max_pool_participants)
    } by {
        assert(s.requests.contains_key(k));
        assert(s.users.contains_key(k.1));
        if k.1 == who {
            assert(s.users[who].request_pool_id == Some(pool_id));
        }
    }
}

/// Withdrawing a request to join a pool keeps the storage consistent.
pub proof fn cancel_join_keeps_consistency(s: PoolsState, origin: Origin, pool_id: PoolId)
    requires
        s.wf(),
    ensures
        s.cancel_join(origin, pool_id) matches Ok((t, _)) ==> t.wf(),
{
    if let Ok((t, _)) = s.cancel_join(origin, pool_id) {
        let account = signer_of(origin)->Ok_0;
        let user = s.users[account];
        let m = PoolsState { users: s.users.insert(account, UserView { request_pool_id: None, ..user }), ..s };
        assert(m.users.dom() =~= s.users.dom());
        assert forall|p: PoolId, a: AccountId|
            #![trigger m.pools[p].participants.contains(a)]
            m.pools.contains_key(p) && m.pools[p].participants.contains(a) implies m.is_member(a, p) by {
            assert(s.is_member(a, p));
        }
        assert forall|a: AccountId| #[trigger] m.users.contains_key(a) && a != account implies (m.users[a].pool_id matches Some(p) ==> m.pools[p].participants.contains(a)) by {
            assert(s.users.contains_key(a));
        }
        if let Some(p) = user.pool_id {
            assert(s.users.contains_key(account));
        }
        lemma_drop_request_keeps_consistency(s, m, account, pool_id);
    }
}

/// Voting on a request to join a pool keeps the storage consistent.
pub proof fn vote_keeps_consistency(
    s: PoolsState,
    origin: Origin,
    pool_id: PoolId,
    account: AccountId,
    positive: bool,
    peer_id: Seq<u8>,
)
    requires
        s.wf(),
    ensures
        s.vote(origin, pool_id, account, positive, peer_id) matches Ok((t, _)) ==> t.wf(),
{
    if let Ok((t, _)) = s.vote(origin, pool_id, account, positive, peer_id) {
        let voter = signer_of(origin)->Ok_0;
        let key = (pool_id, account);
        let request = s.requests[key];
        let pool = s.pools[pool_id];
        lemma_request_counted(s, key);
        lemma_insert_sorted(request.voted, voter);
        let updated = PoolRequestView {
            voted: crate::search::insert_sorted(request.voted, voter),
            positive_votes: if positive {
                (request.positive_votes + 1) as u16
            } else {
                request.positive_votes
            },
            peer_id: request.peer_id,
        };
        let result = vote_outcome(
            updated.positive_votes as int,
            updated.voted.len() as int,
            pool.participants.len() as int,
        );
        assert(s.users.contains_key(account));
        let user = s.users[account];
        match result {
            VoteResult::Inconclusive => {
                assert(t == PoolsState { requests: s.requests.insert(key, updated), ..s });
                assert(updated.voted.len() <= pool.participants.len());
                assert(t.requests.dom() =~= s.requests.dom());
                assert forall|p: PoolId| #[trigger] t.pools.contains_key(p) implies {
                    let pool = t.pools[p];
                    &&& p <= t.last_pool_id
                    &&& strictly_sorted(pool.participants)
                    &&& pool.participants.len() + pool.request_number <= t.config.max_pool_participants
                    &&& pool.request_number == t.requests_to(p).len()
                } by {
                    assert(s.pools.contains_key(p));
                }
                assert forall|p: PoolId, a: AccountId|
                    #![trigger t.pools[p].participants.contains(a)]
                    t.pools.contains_key(p) && t.pools[p].participants.contains(a) implies t.is_member(a, p) by {
                    assert(s.pools[p].participants.contains(a));
                }
                assert forall|a: AccountId| #[trigger] t.users.contains_key(a) implies {
                    let u = t.users[a];
                    &&& (u.pool_id matches Some(p) ==> t.pools.contains_key(p) && t.pools[p].participants.contains(a))
                    &&& (u.request_pool_id matches Some(p) ==> u.pool_id is None && t.requests.contains_key((p, a)))
                } by {
                    assert(s.users.contains_key(a));
                    if let Some(p) = s.users[a].pool_id {
                        assert(s.pools[p].participants.contains(a));
                    }
                }
                assert forall|k: (PoolId, AccountId)| #[trigger] t.requests.contains_key(k) implies {
                    &&& t.users.contains_key(k.1)
                    &&& t.users[k.1].request_pool_id == Some(k.0)
                    &&& t.pools.contains_key(k.0)
                    &&& request_wf(t.requests[k], t.config.max_pool_participants)
                } by {
                    assert(s.requests.contains_key(k));
                }
            },
            VoteResult::Denied => {
                let m = PoolsState { users: s.users.insert(account, UserView { request_pool_id: None, ..user }), ..s };
                assert(m.users.dom() =~= s.users.dom());
                assert forall|p: PoolId, a: AccountId|
                    #![trigger m.pools[p].participants.contains(a)]
                    m.pools.contains_key(p) && m.pools[p].participants.contains(a) implies m.is_member(a, p) by {
                    assert(s.is_member(a, p));
                }
                assert forall|a: AccountId| #[trigger] m.users.contains_key(a) && a != account implies (m.users[a].pool_id matches Some(p) ==> m.pools[p].participants.contains(a)) by {
                    assert(s.users.contains_key(a));
                }
                lemma_drop_request_keeps_consistency(s, m, account, pool_id);
            },
            VoteResult::Accepted => {
                let ps = pool.participants;
                lemma_insert_sorted(ps, account);
                let new_user = UserView { pool_id: Some(pool_id), request_pool_id: None, peer_id: updated.peer_id };
                let m = PoolsState {
                    users: s.users.insert(account, new_user),
                    pools: s.pools.insert(pool_id, crate::types::PoolView { participants: crate::search::insert_sorted(ps, account), ..pool }),
                    ..s
                };
                assert(m.users.dom() =~= s.users.dom());
                assert(m.pools.dom() =~= s.pools.dom());
                assert(user.pool_id is None);
                assert forall|p: PoolId| #[trigger] m.pools.contains_key(p) implies {
                    &&& m.pools[p].request_number == s.pools[p].request_number
                    &&& strictly_sorted(m.pools[p].participants)
                    &&& m.pools[p].participants.len() + m.pools[p].request_number <= m.config.max_pool_participants
                } by {
                    assert(s.pools.contains_key(p));
                }
                assert forall|p: PoolId, a: AccountId|
                    #![trigger m.pools[p].participants.contains(a)]
                    m.pools.contains_key(p) && m.pools[p].participants.contains(a) implies m.is_member(a, p) by {
                    if a != account {
                        if p == pool_id {
                            assert(ps.contains(a));
                        }
                        assert(s.pools[p].participants.contains(a));
                        assert(s.is_member(a, p));
                    } else if p != pool_id {
                        assert(s.pools[p].participants.contains(a));
                        assert(s.is_member(a, p));
                    }
                }
                assert forall|a: AccountId| #[trigger] m.users.contains_key(a) && a != account implies (m.users[a].pool_id matches Some(p) ==> m.pools[p].participants.contains(a)) by {
                    assert(s.users.contains_key(a));
                    if let Some(p) = s.users[a].pool_id {
                        assert(s.pools[p].participants.contains(a));
                    }
                }
                lemma_drop_request_keeps_consistency(s, m, account, pool_id);
            },
        }
    }
}

/// In consistent storage an account is recorded as a member of a pool
/// exactly when it is one of the pool's participants.
pub proof fn membership_is_participation(s: PoolsState, account: AccountId, pool_id: PoolId)
    requires
        s.wf(),
    ensures
        s.is_member(account, pool_id) <==> (s.pools.contains_key(pool_id) && s.pools[pool_id].participants.contains(account)),
{
    if s.is_member(account, pool_id) {
        assert(s.users.contains_key(account));
    }
}

/// A user that is a member of a pool or waits to join one can neither
/// create a pool nor ask to join one.
pub proof fn busy_users_cannot_create_or_join(
    s: PoolsState,
    account: AccountId,
    pool_id: PoolId,
    name: Seq<u8>,
    region: Seq<u8>,
    peer_id: Seq<u8>,
)
    requires
        !s.user_or_fresh(account).is_free(),
    ensures
        s.create(Origin::Signed(account), name, region, peer_id) is Err,
        s.join(Origin::Signed(account), pool_id, peer_id) is Err,
{
}

/// In consistent storage a new pool gets an id that no pool has, the next
/// one after the last id handed out, and its creator is its owner, its only
/// participant and a member of it.
pub proof fn create_uses_fresh_id(
    s: PoolsState,
    account: AccountId,
    name: Seq<u8>,
    region: Seq<u8>,
    peer_id: Seq<u8>,
)
    requires
        s.wf(),
        s.last_pool_id < PoolId::MAX,
    ensures
        s.create(Origin::Signed(account), name, region, peer_id) matches Ok((t, _)) ==> {
            &&& t.last_pool_id == s.last_pool_id + 1
            &&& !s.pools.contains_key(t.last_pool_id)
            &&& t.pools.dom() == s.pools.dom().insert(t.last_pool_id)
            &&& t.pools[t.last_pool_id].owner == Some(account)
            &&& t.pools[t.last_pool_id].participants == seq![account]
            &&& t.is_member(account, t.last_pool_id)
        },
{
}

/// Right after creating a pool its creator is a member of that pool and of
/// no other, and can leave it; leaving makes the creator free and a member
/// of no pool, and keeps the pool, now without participants, with its name,
/// region and owner.
pub proof fn creator_can_leave(
    s: PoolsState,
    account: AccountId,
    name: Seq<u8>,
    region: Seq<u8>,
    peer_id: Seq<u8>,
)
    requires
        s.wf(),
        s.last_pool_id < PoolId::MAX,
    ensures
        s.create(Origin::Signed(account), name, region, peer_id) matches Ok((t, _)) ==> {
            let id = t.last_pool_id;
            &&& t.is_member(account, id)
            &&& forall|q: PoolId| q != id ==> !t.is_member(account, q)
            &&& t.leave_pool(Origin::Signed(account), id) matches Ok((u, ev))
            &&& ev == (EventView::ParticipantLeft { account, pool_id: id })
            &&& u.users[account] == (UserView { pool_id: None, request_pool_id: None, peer_id })
            &&& u.pools[id] == (PoolView {
                name,
                owner: Some(account),
                parent: None,
                participants: Seq::empty(),
                request_number: 0,
                region,
            })
            &&& u.last_pool_id == id
            &&& forall|q: PoolId| !u.is_member(account, q)
        },
{
    if let Ok((t, _)) = s.create(Origin::Signed(account), name, region, peer_id) {
        let id = t.last_pool_id;
        assert(t.pools[id].participants[0] == account);
        lemma_remove_account(t.pools[id].participants, account);
        assert(remove_account(t.pools[id].participants, account) =~= Seq::empty());
    }
}

/// A new pool is open to others: right after it is created, another free
/// user can ask to join it, which opens a request without votes and counts
/// one request for the pool.
pub proof fn new_pool_is_open_to_join(
    s: PoolsState,
    owner: AccountId,
    other: AccountId,
    name: Seq<u8>,
    region: Seq<u8>,
    peer_id: Seq<u8>,
    other_peer_id: Seq<u8>,
)
    requires
        s.wf(),
        s.last_pool_id < PoolId::MAX,
        owner != other,
        s.user_or_fresh(other).is_free(),
        s.config.max_pool_participants >= 2,
    ensures
        s.create(Origin::Signed(owner), name, region, peer_id) matches Ok((t, _)) ==> {
            let id = t.last_pool_id;
            &&& t.join(Origin::Signed(other), id, other_peer_id) matches Ok((u, ev))
            &&& ev == (EventView::JoinRequested { account: other, pool_id: id })
            &&& u.requests[(id, other)] == (PoolRequestView { voted: Seq::empty(), positive_votes: 0, peer_id: other_peer_id })
            &&& u.pools[id].request_number == 1
            &&& u.pools[id].participants == seq![owner]
        },
{
}

/// Withdrawing a request to join a pool right after making it puts the
/// pools and requests back as they were; the user's record keeps only the
/// peer id it named.
pub proof fn cancel_join_undoes_join(s: PoolsState, account: AccountId, pool_id: PoolId, peer_id: Seq<u8>)
    requires
        s.wf(),
    ensures
        s.join(Origin::Signed(account), pool_id, peer_id) matches Ok((t, _)) ==> {
            &&& t.cancel_join(Origin::Signed(account), pool_id) matches Ok((u, _))
            &&& u == PoolsState {
                users: s.users.insert(account, UserView { peer_id, ..s.user_or_fresh(account) }),
                ..s
            }
        },
{
    if let Ok((t, _)) = s.join(Origin::Signed(account), pool_id, peer_id) {
        let key = (pool_id, account);
        assert(!s.requests.contains_key(key)) by {
            if s.requests.contains_key(key) {
                assert(s.users.contains_key(account));
            }
        }
        assert(s.pools.contains_key(pool_id));
        if let Ok((u, _)) = t.cancel_join(Origin::Signed(account), pool_id) {
            assert(u.requests =~= s.requests);
            assert(u.pools =~= s.pools);
            assert(u.users =~= s.users.insert(account, UserView { peer_id, ..s.user_or_fresh(account) }));
        }
    }
}

/// Once an account has voted on a request that stays open, it cannot vote
/// on it again.
pub proof fn voters_vote_once(
    s: PoolsState,
    origin: Origin,
    pool_id: PoolId,
    account: AccountId,
    positive: bool,
    again: bool,
    peer_id: Seq<u8>,
)
    requires
        s.wf(),
    ensures
        s.vote(origin, pool_id, account, positive, peer_id) matches Ok((t, _)) ==> (
            t.requests.contains_key((pool_id, account)) ==>
                t.vote(origin, pool_id, account, again, peer_id) == Err::<(PoolsState, crate::dispatch::EventView), DispatchError>(fail(Error::AlreadyVoted))
        ),
{
    if let Ok((t, _)) = s.vote(origin, pool_id, account, positive, peer_id) {
        let voter = signer_of(origin)->Ok_0;
        let key = (pool_id, account);
        let request = s.requests[key];
        lemma_insert_sorted(request.voted, voter);
        if t.requests.contains_key(key) {
            assert(t.users == s.users);
            assert(t.requests[key].voted == crate::search::insert_sorted(request.voted, voter));
            assert(t.requests[key].voted.contains(voter));
        }
    }
}

/// In consistent storage leaving a pool never fails with an internal error.
pub proof fn leave_pool_has_no_internal_error(s: PoolsState, origin: Origin, pool_id: PoolId)
    requires
        s.wf(),
    ensures
        s.leave_pool(origin, pool_id) != Err::<(PoolsState, crate::dispatch::EventView), DispatchError>(fail(Error::InternalError)),
{
    if let Ok(account) = signer_of(origin) {
        if s.users.contains_key(account) {
            if s.users[account].pool_id == Some(pool_id) {
                assert(s.pools[pool_id].participants.contains(account));
            }
        }
    }
}

/// In consistent storage voting never fails with an internal error, nor
/// because the pool of an open request is missing.
pub proof fn vote_has_no_internal_error(
    s: PoolsState,
    origin: Origin,
    pool_id: PoolId,
    account: AccountId,
    positive: bool,
    peer_id: Seq<u8>,
)
    requires
        s.wf(),
    ensures
        s.vote(origin, pool_id, account, positive, peer_id) != Err::<(PoolsState, crate::dispatch::EventView), DispatchError>(fail(Error::InternalError)),
        s.vote(origin, pool_id, account, positive, peer_id) != Err::<(PoolsState, crate::dispatch::EventView), DispatchError>(fail(Error::PoolDoesNotExist)),
{
    let key = (pool_id, account);
    if s.requests.contains_key(key) {
        lemma_request_counted(s, key);
        assert(s.users.contains_key(account));
        let pool = s.pools[pool_id];
        if pool.participants.contains(account) {
            assert(s.is_member(account, pool_id));
        }
    }
}

/// A vote admits the account exactly when, with it, more than half of the
/// pool's current participants have voted for the account; the request
/// stays open exactly when neither more than half voted for it nor more than
/// half against it.
pub proof fn vote_admits_on_majority(
    s: PoolsState,
    origin: Origin,
    pool_id: PoolId,
    account: AccountId,
    positive: bool,
    peer_id: Seq<u8>,
)
    requires
        s.wf(),
    ensures
        s.vote(origin, pool_id, account, positive, peer_id) matches Ok((t, _)) ==> {
            let request = s.requests[(pool_id, account)];
            let half = s.pools[pool_id].participants.len() / 2;
            let votes_for = request.positive_votes + (if positive { 1int } else { 0int });
            let votes_against = request.voted.len() + 1 - votes_for;
            &&& t.is_member(account, pool_id) <==> votes_for > half
            &&& t.requests.contains_key((pool_id, account)) <==> (votes_for <= half && votes_against <= half)
        },
{
    if let Ok((t, _)) = s.vote(origin, pool_id, account, positive, peer_id) {
        let voter = signer_of(origin)->Ok_0;
        let key = (pool_id, account);
        let request = s.requests[key];
        lemma_insert_sorted(request.voted, voter);
        assert(s.users.contains_key(account));
        assert(s.users[account].pool_id is None);
    }
}

/// In consistent storage an account is a participant of at most one pool.
pub proof fn participant_of_one_pool(s: PoolsState, account: AccountId, p: PoolId, q: PoolId)
    requires
        s.wf(),
        s.pools.contains_key(p),
        s.pools.contains_key(q),
        s.pools[p].participants.contains(account),
        s.pools[q].participants.contains(account),
    ensures
        p == q,
{
    assert(s.is_member(account, p));
    assert(s.is_member(account, q));
}

/// In consistent storage an account that asked to join a pool is a
/// participant of no pool, and has no other open request.
pub proof fn applicants_are_in_no_pool(s: PoolsState, account: AccountId, p: PoolId, q: PoolId)
    requires
        s.wf(),
        s.requests.contains_key((p, account)),
    ensures
        s.pools.contains_key(q) ==> !s.pools[q].participants.contains(account),
        s.requests.contains_key((q, account)) ==> p == q,
{
    assert(s.users.contains_key(account));
    if s.pools.contains_key(q) && s.pools[q].participants.contains(account) {
        assert(s.is_member(account, q));
    }
    if s.requests.contains_key((q, account)) {
        assert(s.users[account].request_pool_id == Some(q));
    }
}

/// A vote that leaves a request open records it: the stored request then
/// has one more voter, the voter, and one more vote for exactly when the
/// vote was for, with its peer id unchanged.
pub proof fn open_request_records_the_vote(
    s: PoolsState,
    voter: AccountId,
    pool_id: PoolId,
    account: AccountId,
    positive: bool,
    peer_id: Seq<u8>,
)
    requires
        s.wf(),
    ensures
        s.vote(Origin::Signed(voter), pool_id, account, positive, peer_id) matches Ok((t, _)) ==> (
            t.requests.contains_key((pool_id, account)) ==> {
                let before = s.requests[(pool_id, account)];
                let after = t.requests[(pool_id, account)];
                &&& after.positive_votes == before.positive_votes + (if positive { 1int } else { 0int })
                &&& after.voted.len() == before.voted.len() + 1
                &&& !before.voted.contains(voter)
                &&& forall|x: AccountId| #[trigger] after.voted.contains(x) <==> (before.voted.contains(x) || x == voter)
                &&& strictly_sorted(after.voted)
                &&& after.peer_id == before.peer_id
                &&& t.users == s.users
                &&& t.pools == s.pools
            }
        ),
{
    if let Ok((t, _)) = s.vote(Origin::Signed(voter), pool_id, account, positive, peer_id) {
        let key = (pool_id, account);
        lemma_insert_sorted(s.requests[key].voted, voter);
        if t.requests.contains_key(key) {
            lemma_request_counted(s, key);
            assert(s.users.contains_key(account));
        }
    }
}

/// In consistent storage an account can always withdraw its open request
/// to join a pool, whatever votes it has: the request goes, the pool counts
/// one request fewer, the account is free again and nothing else changes.
pub proof fn open_request_can_be_withdrawn(s: PoolsState, account: AccountId, pool_id: PoolId)
    requires
        s.wf(),
        s.requests.contains_key((pool_id, account)),
    ensures
        s.cancel_join(Origin::Signed(account), pool_id) matches Ok((t, ev)) && {
            &&& ev == (EventView::RequestWithdrawn { account, pool_id })
            &&& t.requests == s.requests.remove((pool_id, account))
            &&& t.pools.dom() == s.pools.dom()
            &&& t.pools[pool_id].request_number == s.pools[pool_id].request_number - 1
            &&& t.pools[pool_id].participants == s.pools[pool_id].participants
            &&& forall|q: PoolId| q != pool_id && #[trigger] s.pools.contains_key(q) ==> t.pools[q] == s.pools[q]
            &&& t.users.dom() == s.users.dom()
            &&& t.users[account].is_free()
            &&& t.users[account].peer_id == s.users[account].peer_id
            &&& forall|b: AccountId| b != account && #[trigger] s.users.contains_key(b) ==> t.users[b] == s.users[b]
        },
{
    lemma_request_counted(s, (pool_id, account));
    assert(s.users.contains_key(account));
    if let Ok((t, _)) = s.cancel_join(Origin::Signed(account), pool_id) {
        assert(t.pools.dom() =~= s.pools.dom());
        assert(t.users.dom() =~= s.users.dom());
    }
}

/// In consistent storage a member can always leave its pool, whatever
/// requests to it are open: exactly that account leaves the participants,
/// the account is free again and the requests stay as they were.
pub proof fn member_can_always_leave(s: PoolsState, account: AccountId, pool_id: PoolId)
    requires
        s.wf(),
        s.is_member(account, pool_id),
    ensures
        s.leave_pool(Origin::Signed(account), pool_id) matches Ok((t, ev)) && {
            let before = s.pools[pool_id].participants;
            let after = t.pools[pool_id].participants;
            &&& ev == (EventView::ParticipantLeft { account, pool_id })
            &&& before.contains(account)
            &&& after.len() == before.len() - 1
            &&& forall|x: AccountId| #[trigger] after.contains(x) <==> (before.contains(x) && x != account)
            &&& t.pools[pool_id].request_number == s.pools[pool_id].request_number
            &&& t.pools.dom() == s.pools.dom()
            &&& forall|q: PoolId| q != pool_id && #[trigger] s.pools.contains_key(q) ==> t.pools[q] == s.pools[q]
            &&& t.requests == s.requests
            &&& t.users[account].is_free()
            &&& forall|b: AccountId| b != account && #[trigger] s.users.contains_key(b) ==> t.users[b] == s.users[b]
        },
{
    assert(s.users.contains_key(account));
    assert(s.pools[pool_id].participants.contains(account));
    lemma_remove_account(s.pools[pool_id].participants, account);
    if let Ok((t, _)) = s.leave_pool(Origin::Signed(account), pool_id) {
        assert(t.pools.dom() =~= s.pools.dom());
    }
}

/// In consistent storage a free account can ask to join any pool that is
/// not full, and its request starts with no voters, no votes for and the
/// peer id it named; the pool counts one request more and the account
/// waits for that pool under that peer id.
pub proof fn free_user_can_join(s: PoolsState, account: AccountId, pool_id: PoolId, peer_id: Seq<u8>)
    requires
        s.wf(),
        s.pools.contains_key(pool_id),
        s.pools[pool_id].participants.len() + s.pools[pool_id].request_number < s.config.max_pool_participants,
        s.user_or_fresh(account).is_free(),
    ensures
        s.join(Origin::Signed(account), pool_id, peer_id) matches Ok((t, ev)) && {
            &&& ev == (EventView::JoinRequested { account, pool_id })
            &&& !s.requests.contains_key((pool_id, account))
            &&& t.requests.contains_key((pool_id, account))
            &&& t.requests[(pool_id, account)].voted.len() == 0
            &&& t.requests[(pool_id, account)].positive_votes == 0
            &&& t.requests[(pool_id, account)].peer_id == peer_id
            &&& forall|k: (PoolId, AccountId)| k != (pool_id, account) && #[trigger] s.requests.contains_key(k) ==> t.requests[k] == s.requests[k]
            &&& t.pools[pool_id].request_number == s.pools[pool_id].request_number + 1
            &&& t.pools[pool_id].participants == s.pools[pool_id].participants
            &&& t.users[account].request_pool_id == Some(pool_id)
            &&& t.users[account].pool_id is None
            &&& t.users[account].peer_id == peer_id
        },
{
    let key = (pool_id, account);
    assert(!s.requests.contains_key(key)) by {
        if s.requests.contains_key(key) {
            assert(s.users.contains_key(account));
        }
    }
}

/// A vote that decides a request closes it: the request goes and the pool
/// counts one request fewer; on acceptance the account joins the pool's
/// participants, in order, and becomes a member under the request's peer
/// id; on denial the participants stay and the account is free again.
/// Nobody else's record changes.
pub proof fn decided_request_is_closed(
    s: PoolsState,
    voter: AccountId,
    pool_id: PoolId,
    account: AccountId,
    positive: bool,
    peer_id: Seq<u8>,
)
    requires
        s.wf(),
    ensures
        s.vote(Origin::Signed(voter), pool_id, account, positive, peer_id) matches Ok((t, _)) ==> (
            !t.requests.contains_key((pool_id, account)) ==> {
                let before = s.pools[pool_id].participants;
                let after = t.pools[pool_id].participants;
                &&& t.requests == s.requests.remove((pool_id, account))
                &&& t.pools[pool_id].request_number == s.pools[pool_id].request_number - 1
                &&& t.pools.dom() == s.pools.dom()
                &&& forall|q: PoolId| q != pool_id && #[trigger] s.pools.contains_key(q) ==> t.pools[q] == s.pools[q]
                &&& t.users[account].request_pool_id is None
                &&& forall|b: AccountId| b != account && #[trigger] s.users.contains_key(b) ==> t.users[b] == s.users[b]
                &&& (t.is_member(account, pool_id) ==> {
                    &&& t.users[account].peer_id == s.requests[(pool_id, account)].peer_id
                    &&& !before.contains(account)
                    &&& after.len() == before.len() + 1
                    &&& strictly_sorted(after)
                    &&& forall|x: AccountId| #[trigger] after.contains(x) <==> (before.contains(x) || x == account)
                })
                &&& (!t.is_member(account, pool_id) ==> after == before && t.users[account].is_free())
            }
        ),
{
    if let Ok((t, _)) = s.vote(Origin::Signed(voter), pool_id, account, positive, peer_id) {
        let key = (pool_id, account);
        lemma_request_counted(s, key);
        assert(s.users.contains_key(account));
        let ps = s.pools[pool_id].participants;
        if !ps.contains(account) {
            lemma_insert_sorted(ps, account);
        } else {
            assert(s.is_member(account, pool_id));
        }
        if !t.requests.contains_key(key) {
            assert(t.pools.dom() =~= s.pools.dom());
        }
    }
}

/// A call succeeds only for a signed account allowed to make it: a vote
/// only by a member of the pool, naming the request's peer id, on an open
/// request the voter has not voted on, while the pool is not full; leaving
/// only by a member; withdrawing only an open request; joining only by a
/// free account, to an existing pool that is not full; creating only by a
/// free account, with name and region within the string limit.
pub proof fn calls_succeed_only_when_allowed(
    s: PoolsState,
    origin: Origin,
    pool_id: PoolId,
    account: AccountId,
    positive: bool,
    name: Seq<u8>,
    region: Seq<u8>,
    peer_id: Seq<u8>,
)
    requires
        s.wf(),
    ensures
        s.vote(origin, pool_id, account, positive, peer_id) is Ok ==> {
            &&& origin matches Origin::Signed(voter)
            &&& s.is_member(voter, pool_id)
            &&& s.requests.contains_key((pool_id, account))
            &&& s.requests[(pool_id, account)].peer_id == peer_id
            &&& !s.requests[(pool_id, account)].voted.contains(voter)
            &&& !s.pools[pool_id].is_full(s.config.max_pool_participants)
        },
        s.leave_pool(origin, pool_id) is Ok ==> (origin matches Origin::Signed(a) && s.is_member(a, pool_id)),
        s.cancel_join(origin, pool_id) is Ok ==> (origin matches Origin::Signed(a) && s.requests.contains_key((pool_id, a))),
        s.join(origin, pool_id, peer_id) is Ok ==> {
            &&& origin matches Origin::Signed(a)
            &&& s.user_or_fresh(a).is_free()
            &&& s.pools.contains_key(pool_id)
            &&& s.pools[pool_id].participants.len() + s.pools[pool_id].request_number < s.config.max_pool_participants
        },
        s.create(origin, name, region, peer_id) is Ok ==> {
            &&& origin matches Origin::Signed(a)
            &&& s.user_or_fresh(a).is_free()
            &&& name.len() <= s.config.string_limit
            &&& region.len() <= s.config.string_limit
            &&& s.config.max_pool_participants >= 1
            &&& (s.max_pools matches Some(m) ==> m > s.last_pool_id)
        },
{
    if s.join(origin, pool_id, peer_id) is Ok {
        assert(s.pools.contains_key(pool_id));
    }
}

} // verus!
