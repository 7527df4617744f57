//! Bounded vectors of the `bounded-collections` crate, as the pool storage
//! holds them: byte strings of at most `STRING_CAPACITY` bytes and account
//! lists of at most `LIST_CAPACITY` accounts. The limits that a runtime
//! configures (see `Config`) lie within these capacities.

use bounded_collections::{BoundedVec, ConstU32};
use vstd::prelude::*;

verus! {

/// Identifier of an account.
pub type AccountId = u64;

/// The most bytes that a bounded string can hold: any configured string
/// limit fits.
pub const STRING_CAPACITY: u32 = 4294967295;

/// The most accounts that an account list can hold: the participants of a
/// pool and the voters on a request. A pool counts its open requests in a
/// `u8`, so no configured participant limit exceeds this.
pub const LIST_CAPACITY: u32 = 255;

/// A byte string of at most `STRING_CAPACITY` bytes.
pub type BoundedString = BoundedVec<u8, ConstU32<STRING_CAPACITY>>;

/// A list of at most `LIST_CAPACITY` accounts.
pub type AccountList = BoundedVec<AccountId, ConstU32<LIST_CAPACITY>>;

#[verifier::external_type_specification]
#[verifier::external_body]
#[verifier::reject_recursive_types(T)]
#[verifier::reject_recursive_types(S)]
pub struct ExBoundedVec<T, S>(BoundedVec<T, S>);

#[verifier::external_type_specification]
#[verifier::external_body]
pub struct ExConstU32<const N: u32>(ConstU32<N>);

/// The bytes that a bounded string holds, in order.
pub uninterp spec fn string_bytes(v: BoundedVec<u8, ConstU32<STRING_CAPACITY>>) -> Seq<u8>;

/// The accounts that an account list holds, in order.
pub uninterp spec fn list_accounts(v: BoundedVec<AccountId, ConstU32<LIST_CAPACITY>>) -> Seq<AccountId>;

/// `<BoundedVec<u8, _> as TryFrom<Vec<u8>>>::try_from`: succeeds with the
/// same bytes exactly when the vector is no longer than the bound, and hands
/// the vector back otherwise.
#[verifier::external_body]
pub(crate) fn string_try_from(v: Vec<u8>) -> (r: Result<BoundedString, Vec<u8>>)
    ensures
        match r {
            Ok(b) => v@.len() <= STRING_CAPACITY && string_bytes(b) == v@,
            Err(e) => v@.len() > STRING_CAPACITY && e@ == v@,
        },
{
    BoundedString::try_from(v)
}

/// `BoundedVec::<u8, _>::clone`: a copy with the same bytes.
#[verifier::external_body]
pub(crate) fn string_clone(b: &BoundedString) -> (c: BoundedString)
    ensures
        string_bytes(c) == string_bytes(*b),
{
    b.clone()
}

/// `to_vec` of the slice that a `BoundedVec<u8, _>` dereferences to: a
/// vector with the same bytes.
#[verifier::external_body]
pub(crate) fn string_to_vec(b: &BoundedString) -> (v: Vec<u8>)
    ensures
        v@ == string_bytes(*b),
{
    b.to_vec()
}

/// `<BoundedVec<u8, _> as Default>::default`: the empty string.
#[verifier::external_body]
pub(crate) fn string_default() -> (b: BoundedString)
    ensures
        string_bytes(b) == Seq::<u8>::empty(),
{
    BoundedString::default()
}

/// `<BoundedVec<AccountId, _> as Default>::default`: the empty list.
#[verifier::external_body]
pub(crate) fn list_default() -> (b: AccountList)
    ensures
        list_accounts(b) == Seq::<AccountId>::empty(),
{
    AccountList::default()
}

/// `BoundedVec::<AccountId, _>::clone`: a copy with the same accounts.
#[verifier::external_body]
pub(crate) fn list_clone(b: &AccountList) -> (c: AccountList)
    ensures
        list_accounts(c) == list_accounts(*b),
{
    b.clone()
}

/// `len` of the vector that a `BoundedVec<AccountId, _>` dereferences to:
/// the number of accounts, which every operation of the crate keeps within
/// the bound.
#[verifier::external_body]
pub(crate) fn list_len(b: &AccountList) -> (n: usize)
    ensures
        n == list_accounts(*b).len(),
        n <= LIST_CAPACITY,
{
    b.len()
}

/// Indexing a `BoundedVec<AccountId, _>` (it panics out of bounds): the
/// account at that position.
#[verifier::external_body]
pub(crate) fn list_index(b: &AccountList, i: usize) -> (a: AccountId)
    requires
        i < list_accounts(*b).len(),
    ensures
        a == list_accounts(*b)[i as int],
{
    b[i]
}

/// `BoundedVec::<AccountId, _>::try_push`: appends the account when the list
/// is below the bound; otherwise leaves the list as it was and hands the
/// account back.
#[verifier::external_body]
pub(crate) fn list_try_push(b: &mut AccountList, a: AccountId) -> (r: Result<(), AccountId>)
    ensures
        list_accounts(*old(b)).len() < LIST_CAPACITY ==> {
            &&& r is Ok
            &&& list_accounts(*final(b)) == list_accounts(*old(b)).push(a)
        },
        list_accounts(*old(b)).len() >= LIST_CAPACITY ==> {
            &&& r == Err::<(), AccountId>(a)
            &&& list_accounts(*final(b)) == list_accounts(*old(b))
        },
{
    b.try_push(a)
}

/// `BoundedVec::<AccountId, _>::try_insert` (it panics on a position past
/// the end when there is room): inserts the account at the position when the
/// list is below the bound; otherwise leaves the list as it was and hands
/// the account back.
#[verifier::external_body]
pub(crate) fn list_try_insert(b: &mut AccountList, i: usize, a: AccountId) -> (r: Result<(), AccountId>)
    requires
        list_accounts(*old(b)).len() < LIST_CAPACITY ==> i <= list_accounts(*old(b)).len(),
    ensures
        list_accounts(*old(b)).len() < LIST_CAPACITY ==> {
            &&& r is Ok
            &&& list_accounts(*final(b)) == list_accounts(*old(b)).insert(i as int, a)
        },
        list_accounts(*old(b)).len() >= LIST_CAPACITY ==> {
            &&& r == Err::<(), AccountId>(a)
            &&& list_accounts(*final(b)) == list_accounts(*old(b))
        },
{
    b.try_insert(i, a)
}

/// `BoundedVec::<AccountId, _>::remove` (it panics out of bounds): takes out
/// and returns the account at the position.
#[verifier::external_body]
pub(crate) fn list_remove(b: &mut AccountList, i: usize) -> (a: AccountId)
    requires
        i < list_accounts(*old(b)).len(),
    ensures
        a == list_accounts(*old(b))[i as int],
        list_accounts(*final(b)) == list_accounts(*old(b)).remove(i as int),
{
    b.remove(i)
}

} // verus!
