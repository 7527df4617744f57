//! Pools of nodes that share resources. Anyone may create a pool and becomes
//! its first participant; anyone free may ask to join a pool; the current
//! participants vote on each request, and more than half of them for (or
//! against) decides it; requests can be withdrawn and participants can leave.
//!
//! `model` states what each call does to the storage as plain values,
//! `pallet` runs the calls and is proved to do exactly that, and `laws`
//! proves what the calls keep and how they combine.

pub mod bounded;
pub mod dispatch;
pub mod laws;
pub mod model;
pub mod pallet;
pub mod search;
pub mod types;

pub use dispatch::{DispatchError, Error, Event, Origin};
pub use pallet::{Pallet, PoolInterface};
pub use types::{Config, Pool, PoolId, PoolRequest, User, VoteResult};
