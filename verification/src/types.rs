//! The records that the pool storage holds, with their mathematical views.

use crate::bounded::{
    list_accounts, list_default, list_len, string_bytes, string_clone, string_default, AccountId,
    AccountList, BoundedString, LIST_CAPACITY,
};
use vstd::prelude::*;

verus! {

/// Identifier of a pool.
pub type PoolId = u32;

/// A list of accounts in strictly increasing order, hence without repeats.
pub open spec fn strictly_sorted(s: Seq<AccountId>) -> bool {
    forall|i: int, j: int| 0 <= i < j < s.len() ==> s[i] < s[j]
}

/// The limits that a runtime configures for the pools.
#[derive(Clone, Copy, Debug, PartialEq, Eq)]
pub struct Config {
    /// The maximum length of a name, a region or a peer id.
    pub string_limit: u32,
    /// The maximum number of participants of a pool, open join requests
    /// included; also the most voters a request can record.
    pub max_pool_participants: u32,
}

impl Config {
    /// The participant limit fits the account lists and the `u8` count of
    /// open requests.
    pub open spec fn fits(self) -> bool {
        self.max_pool_participants <= LIST_CAPACITY
    }
}

/// A pool.
pub struct Pool {
    /// Pool name, at most the configured string limit in bytes.
    pub name: BoundedString,
    /// Optional owner; there is no owner when the system created the pool.
    pub owner: Option<AccountId>,
    /// Optional parent, only set when the system created the pool.
    pub parent: Option<PoolId>,
    /// The current pool participants, in increasing order.
    pub participants: AccountList,
    /// Number of outstanding join requests.
    pub request_number: u8,
    /// Region of the pool.
    pub region: BoundedString,
}

/// What a pool holds, as plain values.
pub struct PoolView {
    pub name: Seq<u8>,
    pub owner: Option<AccountId>,
    pub parent: Option<PoolId>,
    pub participants: Seq<AccountId>,
    pub request_number: u8,
    pub region: Seq<u8>,
}

impl PoolView {
    /// Participants and outstanding requests together fill every place,
    /// of which there are `max_pool_participants`.
    pub open spec fn is_full(self, max_pool_participants: u32) -> bool {
        self.participants.len() + self.request_number == max_pool_participants
    }
}

impl View for Pool {
    type V = PoolView;

    open spec fn view(&self) -> PoolView {
        PoolView {
            name: string_bytes(self.name),
            owner: self.owner,
            parent: self.parent,
            participants: list_accounts(self.participants),
            request_number: self.request_number,
            region: string_bytes(self.region),
        }
    }
}

impl Pool {
    /// Whether participants and outstanding requests together fill every
    /// place of the pool, of which there are `max_pool_participants`.
    pub fn is_full(&self, max_pool_participants: u32) -> (r: bool)
        ensures
            r == self@.is_full(max_pool_participants),
    {
        list_len(&self.participants) + self.request_number as usize == max_pool_participants as usize
    }
}

/// What the pool system knows of an account.
pub struct User {
    /// The pool that the account is a member of, if any.
    pub pool_id: Option<PoolId>,
    /// The pool that the account asked to join, if any; when it is set,
    /// `pool_id` is not.
    pub request_pool_id: Option<PoolId>,
    /// libp2p peer id, validated on the client side.
    pub peer_id: BoundedString,
}

/// What a user record holds, as plain values.
pub struct UserView {
    pub pool_id: Option<PoolId>,
    pub request_pool_id: Option<PoolId>,
    pub peer_id: Seq<u8>,
}

impl UserView {
    /// A user that is neither a member of a pool nor waiting to join one.
    pub open spec fn is_free(self) -> bool {
        self.pool_id is None && self.request_pool_id is None
    }

    /// The record of an account that the pool system has not seen before.
    pub open spec fn fresh() -> UserView {
        UserView { pool_id: None, request_pool_id: None, peer_id: Seq::empty() }
    }
}

impl View for User {
    type V = UserView;

    open spec fn view(&self) -> UserView {
        UserView {
            pool_id: self.pool_id,
            request_pool_id: self.request_pool_id,
            peer_id: string_bytes(self.peer_id),
        }
    }
}

impl User {
    /// Whether the user can create or join a pool: it is neither a member of
    /// a pool nor waiting to join one.
    pub fn is_free(&self) -> (r: bool)
        ensures
            r == self@.is_free(),
    {
        self.pool_id.is_none() && self.request_pool_id.is_none()
    }

    /// A copy of the record.
    pub fn duplicate(&self) -> (r: User)
        ensures
            r@ == self@,
    {
        User { pool_id: self.pool_id, request_pool_id: self.request_pool_id, peer_id: string_clone(&self.peer_id) }
    }
}

impl Default for User {
    fn default() -> (r: User)
        ensures
            r@ == UserView::fresh(),
    {
        User { pool_id: None, request_pool_id: None, peer_id: string_default() }
    }
}

/// The outcome of the votes on a join request so far.
#[derive(Clone, Copy, Debug, PartialEq, Eq)]
pub enum VoteResult {
    /// Majority voted for.
    Accepted,
    /// Majority voted against.
    Denied,
    /// Not conclusive yet.
    Inconclusive,
}

/// The outcome of `positive` votes for and `voted - positive` votes against,
/// in a pool of `participants` members: more than half of them for, or else
/// more than half of them against, decides.
pub open spec fn vote_outcome(positive: int, voted: int, participants: int) -> VoteResult {
    if positive > participants / 2 {
        VoteResult::Accepted
    } else if voted - positive > participants / 2 {
        VoteResult::Denied
    } else {
        VoteResult::Inconclusive
    }
}

/// A request to join a pool, with the votes cast on it so far.
pub struct PoolRequest {
    /// Everyone who voted, in increasing order; nobody votes twice.
    pub voted: AccountList,
    /// The votes for; those against are the others in `voted`.
    pub positive_votes: u16,
    /// libp2p peer id, validated on the client side; voters must name it.
    pub peer_id: BoundedString,
}

/// What a join request holds, as plain values.
pub struct PoolRequestView {
    pub voted: Seq<AccountId>,
    pub positive_votes: u16,
    pub peer_id: Seq<u8>,
}

impl View for PoolRequest {
    type V = PoolRequestView;

    open spec fn view(&self) -> PoolRequestView {
        PoolRequestView {
            voted: list_accounts(self.voted),
            positive_votes: self.positive_votes,
            peer_id: string_bytes(self.peer_id),
        }
    }
}

impl Default for PoolRequest {
    fn default() -> (r: PoolRequest)
        ensures
            r@ == (PoolRequestView { voted: Seq::empty(), positive_votes: 0, peer_id: Seq::empty() }),
    {
        PoolRequest { positive_votes: 0, voted: list_default(), peer_id: string_default() }
    }
}

impl PoolRequest {
    /// Whether the account has been accepted to the pool, denied, or neither
    /// yet, in a pool of `num_participants` members.
    pub fn check_votes(&self, num_participants: u16) -> (r: VoteResult)
        requires
            self.positive_votes <= self@.voted.len(),
        ensures
            r == vote_outcome(self.positive_votes as int, self@.voted.len() as int, num_participants as int),
    {
        // More than half of the participants voted for this user.
        if self.positive_votes > num_participants / 2 {
            return VoteResult::Accepted;
        }
        // More than half of the participants voted against this user.
        if list_len(&self.voted) as u16 - self.positive_votes > num_participants / 2 {
            return VoteResult::Denied;
        }
        VoteResult::Inconclusive
    }
}

} // verus!
