//! Origins, errors and events of the pool calls.

use crate::bounded::AccountId;
use crate::types::{PoolId, VoteResult};
use vstd::prelude::*;

verus! {

/// Who dispatched a call.
#[derive(Clone, Copy, Debug, PartialEq, Eq)]
pub enum Origin {
    /// The root of the system.
    Root,
    /// An account that signed the call.
    Signed(AccountId),
    /// Nobody: an unsigned call.
    Unsigned,
}

/// The signer of a call, or `BadOrigin` where the call is not signed.
pub open spec fn signer_of(origin: Origin) -> Result<AccountId, DispatchError> {
    match origin {
        Origin::Signed(who) => Ok(who),
        _ => Err(DispatchError::BadOrigin),
    }
}

/// The account that signed the call; `BadOrigin` for any other origin.
pub fn ensure_signed(origin: Origin) -> (r: Result<AccountId, DispatchError>)
    ensures
        r == signer_of(origin),
{
    match origin {
        Origin::Signed(who) => Ok(who),
        _ => Err(DispatchError::BadOrigin),
    }
}

/// The errors of the pool calls.
#[derive(Clone, Copy, Debug, PartialEq, Eq)]
pub enum Error {
    /// User is already attached to a pool or has a pending join request.
    UserBusy,
    /// Maximum pool number has been reached.
    MaxPools,
    /// The pool name supplied was too long.
    NameTooLong,
    /// The pool does not exist.
    PoolDoesNotExist,
    /// The pool join request does not exist.
    RequestDoesNotExist,
    /// The pool is at max capacity.
    CapacityReached,
    /// The user does not exist.
    UserDoesNotExist,
    /// Access denied due to invalid data, e.g. user is trying to leave the
    /// pool that it does not belong to or vote without rights.
    AccessDenied,
    /// Internal error.
    InternalError,
    /// The user has already voted.
    AlreadyVoted,
}

/// Why a call failed.
#[derive(Clone, Copy, Debug, PartialEq, Eq)]
pub enum DispatchError {
    /// The call was not signed.
    BadOrigin,
    /// The pool calls refused it.
    Module(Error),
}

/// The error of the pool calls, as a dispatch error.
pub open spec fn fail(e: Error) -> DispatchError {
    DispatchError::Module(e)
}

/// The events of the pool calls.
#[derive(Debug, PartialEq, Eq)]
pub enum Event {
    /// A pool has been created.
    PoolCreated { owner: Option<AccountId>, pool_id: PoolId },
    /// A user requested to join a pool.
    JoinRequested { account: AccountId, pool_id: PoolId },
    /// A user has withdrawn their request to join a pool.
    RequestWithdrawn { account: AccountId, pool_id: PoolId },
    /// Results of the voting process.
    VotingResult { account: AccountId, pool_id: PoolId, result: Vec<u8> },
    /// Pool's capacity has been reached.
    CapacityReached { pool_id: PoolId },
    /// Pool participant left.
    ParticipantLeft { account: AccountId, pool_id: PoolId },
}

/// What an event says, as plain values.
pub enum EventView {
    PoolCreated { owner: Option<AccountId>, pool_id: PoolId },
    JoinRequested { account: AccountId, pool_id: PoolId },
    RequestWithdrawn { account: AccountId, pool_id: PoolId },
    VotingResult { account: AccountId, pool_id: PoolId, result: Seq<u8> },
    CapacityReached { pool_id: PoolId },
    ParticipantLeft { account: AccountId, pool_id: PoolId },
}

impl View for Event {
    type V = EventView;

    open spec fn view(&self) -> EventView {
        match self {
            Event::PoolCreated { owner, pool_id } => EventView::PoolCreated { owner: *owner, pool_id: *pool_id },
            Event::JoinRequested { account, pool_id } => EventView::JoinRequested { account: *account, pool_id: *pool_id },
            Event::RequestWithdrawn { account, pool_id } => EventView::RequestWithdrawn { account: *account, pool_id: *pool_id },
            Event::VotingResult { account, pool_id, result } => EventView::VotingResult { account: *account, pool_id: *pool_id, result: result@ },
            Event::CapacityReached { pool_id } => EventView::CapacityReached { pool_id: *pool_id },
            Event::ParticipantLeft { account, pool_id } => EventView::ParticipantLeft { account: *account, pool_id: *pool_id },
        }
    }
}

/// The name of a vote outcome in ASCII ("Accepted", "Denied" or
/// "Inconclusive"), as the voting event carries it.
pub open spec fn vote_result_name(r: VoteResult) -> Seq<u8> {
    match r {
        VoteResult::Accepted => seq![65u8, 99, 99, 101, 112, 116, 101, 100],
        VoteResult::Denied => seq![68u8, 101, 110, 105, 101, 100],
        VoteResult::Inconclusive => seq![73u8, 110, 99, 111, 110, 99, 108, 117, 115, 105, 118, 101],
    }
}

/// The name of a vote outcome in ASCII.
pub fn vote_result_bytes(r: VoteResult) -> (b: Vec<u8>)
    ensures
        b@ == vote_result_name(r),
{
    match r {
        VoteResult::Accepted => vec![65u8, 99, 99, 101, 112, 116, 101, 100],
        VoteResult::Denied => vec![68u8, 101, 110, 105, 101, 100],
        VoteResult::Inconclusive => vec![73u8, 110, 99, 111, 110, 99, 108, 117, 115, 105, 118, 101],
    }
}

} // verus!
