use bounded_collections::BoundedVec;
use fula_pool::bounded::{AccountList, BoundedString};
use fula_pool::dispatch::{ensure_signed, vote_result_bytes, DispatchError, Origin};
use fula_pool::search::binary_search;
use fula_pool::types::{Pool, PoolRequest, User, VoteResult};

fn accounts(v: Vec<u64>) -> AccountList {
    BoundedVec::try_from(v).unwrap()
}

fn text(v: &[u8]) -> BoundedString {
    BoundedVec::try_from(v.to_vec()).unwrap()
}

fn pool_with(participants: Vec<u64>, request_number: u8) -> Pool {
    Pool {
        name: text(b"pool"),
        owner: Some(1),
        parent: None,
        participants: accounts(participants),
        request_number,
        region: text(b"eu"),
    }
}

fn request_with(voted: Vec<u64>, positive_votes: u16) -> PoolRequest {
    PoolRequest { voted: accounts(voted), positive_votes, peer_id: text(b"peer") }
}

#[test]
fn pool_is_full_when_participants_and_requests_fill_it() {
    assert!(pool_with((1..=255).collect(), 0).is_full(255));
    assert!(pool_with((1..=200).collect(), 55).is_full(255));
    assert!(!pool_with((1..=200).collect(), 54).is_full(255));
    assert!(!pool_with(vec![1], 0).is_full(255));
    assert!(pool_with(vec![1, 2], 1).is_full(3));
    assert!(!pool_with(vec![1], 1).is_full(3));
    assert!(pool_with(vec![], 0).is_full(0));
}

#[test]
fn new_user_is_free() {
    let u = User::default();
    assert!(u.is_free());
    assert_eq!(u.pool_id, None);
    assert_eq!(u.request_pool_id, None);
    assert!(u.peer_id.is_empty());
}

#[test]
fn member_or_applicant_is_not_free() {
    let mut u = User::default();
    u.pool_id = Some(3);
    assert!(!u.is_free());
    let mut v = User::default();
    v.request_pool_id = Some(3);
    assert!(!v.is_free());
}

#[test]
fn duplicate_copies_the_record() {
    let u = User { pool_id: Some(4), request_pool_id: None, peer_id: text(b"abc") };
    let c = u.duplicate();
    assert_eq!(c.pool_id, Some(4));
    assert_eq!(c.request_pool_id, None);
    assert_eq!(c.peer_id.to_vec(), b"abc".to_vec());
}

#[test]
fn default_request_is_empty() {
    let r = PoolRequest::default();
    assert!(r.voted.is_empty());
    assert_eq!(r.positive_votes, 0);
    assert!(r.peer_id.is_empty());
}

#[test]
fn majority_for_accepts() {
    // 3 participants: more than 1 vote decides.
    assert_eq!(request_with(vec![1, 2], 2).check_votes(3), VoteResult::Accepted);
    assert_eq!(request_with(vec![1], 1).check_votes(1), VoteResult::Accepted);
    assert_eq!(request_with(vec![1, 2, 3], 3).check_votes(4), VoteResult::Accepted);
}

#[test]
fn majority_against_denies() {
    assert_eq!(request_with(vec![1, 2], 0).check_votes(3), VoteResult::Denied);
    assert_eq!(request_with(vec![1], 0).check_votes(1), VoteResult::Denied);
}

#[test]
fn no_majority_is_inconclusive() {
    assert_eq!(request_with(vec![1], 1).check_votes(3), VoteResult::Inconclusive);
    assert_eq!(request_with(vec![1, 2], 1).check_votes(3), VoteResult::Inconclusive);
    assert_eq!(request_with(vec![], 0).check_votes(0), VoteResult::Inconclusive);
    // Half is not more than half.
    assert_eq!(request_with(vec![1, 2, 3, 4], 2).check_votes(4), VoteResult::Inconclusive);
}

#[test]
fn signed_origin_gives_its_account() {
    assert_eq!(ensure_signed(Origin::Signed(7)), Ok(7));
    assert_eq!(ensure_signed(Origin::Root), Err(DispatchError::BadOrigin));
    assert_eq!(ensure_signed(Origin::Unsigned), Err(DispatchError::BadOrigin));
}

#[test]
fn vote_result_names() {
    assert_eq!(vote_result_bytes(VoteResult::Accepted), b"Accepted".to_vec());
    assert_eq!(vote_result_bytes(VoteResult::Denied), b"Denied".to_vec());
    assert_eq!(vote_result_bytes(VoteResult::Inconclusive), b"Inconclusive".to_vec());
}

#[test]
fn binary_search_finds_or_places() {
    let list = accounts(vec![2, 4, 6, 8]);
    assert_eq!(binary_search(&list, 2), Ok(0));
    assert_eq!(binary_search(&list, 6), Ok(2));
    assert_eq!(binary_search(&list, 8), Ok(3));
    assert_eq!(binary_search(&list, 1), Err(0));
    assert_eq!(binary_search(&list, 5), Err(2));
    assert_eq!(binary_search(&list, 9), Err(4));
    assert_eq!(binary_search(&accounts(vec![]), 3), Err(0));
}
