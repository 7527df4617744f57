use bounded_collections::BoundedVec;
use fula_pool::bounded::BoundedString;
use fula_pool::dispatch::{DispatchError, Error, Event, Origin};
use fula_pool::pallet::{Pallet, PoolInterface};
use fula_pool::types::Config;

fn peer(v: &[u8]) -> BoundedString {
    BoundedVec::try_from(v.to_vec()).unwrap()
}

/// Limits of 255, as a runtime aiming at `u8::MAX` configures them.
fn wide() -> Config {
    Config { string_limit: 255, max_pool_participants: 255 }
}

fn signed(a: u64) -> Origin {
    Origin::Signed(a)
}

fn err(e: Error) -> Result<Event, DispatchError> {
    Err(DispatchError::Module(e))
}

fn participants(p: &Pallet, pool_id: u32) -> Vec<u64> {
    p.pool(pool_id).unwrap().participants.to_vec()
}

/// A pallet with pool 1 created by account 1.
fn with_pool() -> Pallet {
    let mut p = Pallet::new(wide(), None);
    p.create(signed(1), b"pool".to_vec(), b"eu".to_vec(), peer(b"p1")).unwrap();
    p
}

/// A pallet with pool 1 whose members are the given accounts, the first
/// being its creator.
fn with_members(members: &[u64]) -> Pallet {
    let mut p = Pallet::new(wide(), None);
    p.create(signed(members[0]), b"pool".to_vec(), b"eu".to_vec(), peer(b"p")).unwrap();
    for (i, &m) in members.iter().enumerate().skip(1) {
        p.join(signed(m), 1, peer(b"q")).unwrap();
        // Every current member votes for the newcomer until it is in.
        for &v in &members[..i] {
            let r = p.vote(signed(v), 1, m, true, peer(b"q")).unwrap();
            if p.is_member(m, 1) {
                assert_eq!(
                    r,
                    Event::VotingResult { account: m, pool_id: 1, result: b"Accepted".to_vec() }
                );
                break;
            }
        }
        assert!(p.is_member(m, 1));
    }
    p
}

#[test]
fn create_opens_pool_with_creator_as_only_participant() {
    let mut p = Pallet::new(wide(), None);
    let r = p.create(signed(1), b"pool".to_vec(), b"eu".to_vec(), peer(b"p1"));
    assert_eq!(r, Ok(Event::PoolCreated { owner: Some(1), pool_id: 1 }));
    assert_eq!(p.last_pool_id(), 1);
    let pool = p.pool(1).unwrap();
    assert_eq!(pool.name.to_vec(), b"pool".to_vec());
    assert_eq!(pool.region.to_vec(), b"eu".to_vec());
    assert_eq!(pool.owner, Some(1));
    assert_eq!(pool.parent, None);
    assert_eq!(pool.request_number, 0);
    assert_eq!(participants(&p, 1), vec![1]);
    let user = p.user(1).unwrap();
    assert_eq!(user.pool_id, Some(1));
    assert_eq!(user.request_pool_id, None);
    assert_eq!(user.peer_id.to_vec(), b"p1".to_vec());
    assert!(p.is_member(1, 1));
}

#[test]
fn pool_ids_count_up() {
    let mut p = with_pool();
    let r = p.create(signed(2), b"other".to_vec(), b"us".to_vec(), peer(b"p2"));
    assert_eq!(r, Ok(Event::PoolCreated { owner: Some(2), pool_id: 2 }));
    assert_eq!(p.last_pool_id(), 2);
    assert_eq!(participants(&p, 2), vec![2]);
    assert_eq!(participants(&p, 1), vec![1]);
}

#[test]
fn create_needs_a_signer() {
    let mut p = Pallet::new(wide(), None);
    assert_eq!(p.create(Origin::Root, b"a".to_vec(), b"b".to_vec(), peer(b"c")), Err(DispatchError::BadOrigin));
    assert_eq!(p.create(Origin::Unsigned, b"a".to_vec(), b"b".to_vec(), peer(b"c")), Err(DispatchError::BadOrigin));
    assert_eq!(p.last_pool_id(), 0);
    assert!(p.pool(1).is_none());
}

#[test]
fn create_refuses_busy_user() {
    let mut p = with_pool();
    assert_eq!(p.create(signed(1), b"again".to_vec(), b"eu".to_vec(), peer(b"p1")), err(Error::UserBusy));
    assert_eq!(p.last_pool_id(), 1);
    p.join(signed(2), 1, peer(b"p2")).unwrap();
    assert_eq!(p.create(signed(2), b"mine".to_vec(), b"eu".to_vec(), peer(b"p2")), err(Error::UserBusy));
}

#[test]
fn create_refuses_long_name_or_region() {
    let mut p = Pallet::new(wide(), None);
    assert_eq!(p.create(signed(1), vec![7u8; 256], b"eu".to_vec(), peer(b"p")), err(Error::NameTooLong));
    assert_eq!(p.create(signed(1), b"pool".to_vec(), vec![7u8; 256], peer(b"p")), err(Error::NameTooLong));
    assert_eq!(p.last_pool_id(), 0);
    assert!(p.user(1).is_none());
    // 255 bytes fit.
    assert!(p.create(signed(1), vec![7u8; 255], vec![8u8; 255], peer(b"p")).is_ok());
}

#[test]
fn create_respects_max_pools() {
    let mut p = Pallet::new(wide(), Some(1));
    assert_eq!(p.max_pools(), Some(1));
    assert!(p.create(signed(1), b"a".to_vec(), b"b".to_vec(), peer(b"c")).is_ok());
    assert_eq!(p.create(signed(2), b"a".to_vec(), b"b".to_vec(), peer(b"c")), err(Error::MaxPools));
    assert_eq!(p.last_pool_id(), 1);
}

#[test]
fn join_opens_a_request() {
    let mut p = with_pool();
    assert_eq!(p.join(signed(2), 1, peer(b"p2")), Ok(Event::JoinRequested { account: 2, pool_id: 1 }));
    assert_eq!(p.pool(1).unwrap().request_number, 1);
    let req = p.request(1, 2).unwrap();
    assert!(req.voted.is_empty());
    assert_eq!(req.positive_votes, 0);
    assert_eq!(req.peer_id.to_vec(), b"p2".to_vec());
    let user = p.user(2).unwrap();
    assert_eq!(user.request_pool_id, Some(1));
    assert_eq!(user.pool_id, None);
    assert!(!p.is_member(2, 1));
}

#[test]
fn join_errors() {
    let mut p = with_pool();
    assert_eq!(p.join(Origin::Root, 1, peer(b"x")), Err(DispatchError::BadOrigin));
    assert_eq!(p.join(signed(2), 9, peer(b"x")), err(Error::PoolDoesNotExist));
    assert_eq!(p.join(signed(1), 1, peer(b"x")), err(Error::UserBusy));
    p.join(signed(2), 1, peer(b"x")).unwrap();
    assert_eq!(p.join(signed(2), 1, peer(b"x")), err(Error::UserBusy));
    assert_eq!(p.pool(1).unwrap().request_number, 1);
}

#[test]
fn join_refuses_full_pool() {
    let mut p = with_pool();
    for a in 2..=255u64 {
        p.join(signed(a), 1, peer(b"x")).unwrap();
    }
    assert_eq!(p.pool(1).unwrap().request_number, 254);
    assert!(p.pool(1).unwrap().is_full(255));
    assert_eq!(p.join(signed(300), 1, peer(b"x")), err(Error::CapacityReached));
    assert!(p.user(300).is_none());
}

#[test]
fn cancel_join_withdraws_the_request() {
    let mut p = with_pool();
    p.join(signed(2), 1, peer(b"p2")).unwrap();
    assert_eq!(p.cancel_join(signed(2), 1), Ok(Event::RequestWithdrawn { account: 2, pool_id: 1 }));
    assert!(p.request(1, 2).is_none());
    assert_eq!(p.pool(1).unwrap().request_number, 0);
    assert!(p.user(2).unwrap().is_free());
    // The user may now create its own pool.
    assert!(p.create(signed(2), b"own".to_vec(), b"eu".to_vec(), peer(b"p2")).is_ok());
}

#[test]
fn cancel_join_errors() {
    let mut p = with_pool();
    assert_eq!(p.cancel_join(Origin::Unsigned, 1), Err(DispatchError::BadOrigin));
    assert_eq!(p.cancel_join(signed(2), 1), err(Error::RequestDoesNotExist));
    p.join(signed(2), 1, peer(b"p2")).unwrap();
    assert_eq!(p.cancel_join(signed(2), 5), err(Error::RequestDoesNotExist));
}

#[test]
fn single_member_accepts_with_one_vote() {
    let mut p = with_pool();
    p.join(signed(2), 1, peer(b"p2")).unwrap();
    let r = p.vote(signed(1), 1, 2, true, peer(b"p2"));
    assert_eq!(r, Ok(Event::VotingResult { account: 2, pool_id: 1, result: b"Accepted".to_vec() }));
    assert_eq!(participants(&p, 1), vec![1, 2]);
    assert!(p.request(1, 2).is_none());
    assert_eq!(p.pool(1).unwrap().request_number, 0);
    let user = p.user(2).unwrap();
    assert_eq!(user.pool_id, Some(1));
    assert_eq!(user.request_pool_id, None);
    assert_eq!(user.peer_id.to_vec(), b"p2".to_vec());
    assert!(p.is_member(2, 1));
}

#[test]
fn single_member_denies_with_one_vote() {
    let mut p = with_pool();
    p.join(signed(2), 1, peer(b"p2")).unwrap();
    let r = p.vote(signed(1), 1, 2, false, peer(b"p2"));
    assert_eq!(r, Ok(Event::VotingResult { account: 2, pool_id: 1, result: b"Denied".to_vec() }));
    assert_eq!(participants(&p, 1), vec![1]);
    assert!(p.request(1, 2).is_none());
    assert_eq!(p.pool(1).unwrap().request_number, 0);
    assert!(p.user(2).unwrap().is_free());
    assert!(!p.is_member(2, 1));
}

#[test]
fn three_members_need_two_votes() {
    let mut p = with_members(&[1, 5, 9]);
    assert_eq!(participants(&p, 1), vec![1, 5, 9]);
    p.join(signed(7), 1, peer(b"p7")).unwrap();
    let r = p.vote(signed(5), 1, 7, true, peer(b"p7"));
    assert_eq!(r, Ok(Event::VotingResult { account: 7, pool_id: 1, result: b"Inconclusive".to_vec() }));
    let req = p.request(1, 7).unwrap();
    assert_eq!(req.voted.to_vec(), vec![5]);
    assert_eq!(req.positive_votes, 1);
    assert_eq!(p.vote(signed(5), 1, 7, true, peer(b"p7")), err(Error::AlreadyVoted));
    let r = p.vote(signed(1), 1, 7, true, peer(b"p7"));
    assert_eq!(r, Ok(Event::VotingResult { account: 7, pool_id: 1, result: b"Accepted".to_vec() }));
    // Participants stay in increasing order.
    assert_eq!(participants(&p, 1), vec![1, 5, 7, 9]);
}

#[test]
fn votes_against_deny() {
    let mut p = with_members(&[1, 2, 3]);
    p.join(signed(4), 1, peer(b"p4")).unwrap();
    assert!(p.vote(signed(3), 1, 4, false, peer(b"p4")).is_ok());
    assert_eq!(p.request(1, 4).unwrap().voted.to_vec(), vec![3]);
    assert!(p.vote(signed(1), 1, 4, true, peer(b"p4")).is_ok());
    assert_eq!(p.request(1, 4).unwrap().voted.to_vec(), vec![1, 3]);
    assert_eq!(p.request(1, 4).unwrap().positive_votes, 1);
    let r = p.vote(signed(2), 1, 4, false, peer(b"p4"));
    assert_eq!(r, Ok(Event::VotingResult { account: 4, pool_id: 1, result: b"Denied".to_vec() }));
    assert!(p.request(1, 4).is_none());
    assert!(p.user(4).unwrap().is_free());
}

#[test]
fn vote_errors() {
    let mut p = with_pool();
    p.join(signed(2), 1, peer(b"p2")).unwrap();
    assert_eq!(p.vote(Origin::Root, 1, 2, true, peer(b"p2")), Err(DispatchError::BadOrigin));
    // Unknown voter.
    assert_eq!(p.vote(signed(8), 1, 2, true, peer(b"p2")), err(Error::UserDoesNotExist));
    // No such request.
    assert_eq!(p.vote(signed(1), 1, 3, true, peer(b"p2")), err(Error::RequestDoesNotExist));
    // Voter is not a member of the pool.
    p.join(signed(3), 1, peer(b"p3")).unwrap();
    assert_eq!(p.vote(signed(3), 1, 2, true, peer(b"p2")), err(Error::AccessDenied));
    // Wrong peer id.
    assert_eq!(p.vote(signed(1), 1, 2, true, peer(b"p9")), err(Error::AccessDenied));
    assert_eq!(p.request(1, 2).unwrap().voted.len(), 0);
}

#[test]
fn votes_fail_while_pool_is_full() {
    let mut p = with_pool();
    for a in 2..=255u64 {
        p.join(signed(a), 1, peer(b"x")).unwrap();
    }
    assert_eq!(p.vote(signed(1), 1, 2, true, peer(b"x")), err(Error::CapacityReached));
    assert!(p.request(1, 2).unwrap().voted.is_empty());
    // Once a request is withdrawn there is room again.
    p.cancel_join(signed(255), 1).unwrap();
    assert!(p.vote(signed(1), 1, 2, true, peer(b"x")).is_ok());
    assert!(p.is_member(2, 1));
}

#[test]
fn leave_pool_removes_the_member() {
    let mut p = with_members(&[1, 2, 3]);
    assert_eq!(p.leave_pool(signed(2), 1), Ok(Event::ParticipantLeft { account: 2, pool_id: 1 }));
    assert_eq!(participants(&p, 1), vec![1, 3]);
    assert!(p.user(2).unwrap().is_free());
    assert!(!p.is_member(2, 1));
    assert!(p.is_member(3, 1));
}

#[test]
fn creator_can_leave_its_pool() {
    let mut p = with_pool();
    assert!(p.leave_pool(signed(1), 1).is_ok());
    assert!(participants(&p, 1).is_empty());
    assert!(p.user(1).unwrap().is_free());
    // The pool stays, with its owner, name and region recorded.
    let pool = p.pool(1).unwrap();
    assert_eq!(pool.owner, Some(1));
    assert_eq!(pool.name.to_vec(), b"pool".to_vec());
    assert_eq!(pool.region.to_vec(), b"eu".to_vec());
    assert_eq!(pool.request_number, 0);
    assert_eq!(p.last_pool_id(), 1);
    assert_eq!(p.user(1).unwrap().peer_id.to_vec(), b"p1".to_vec());
    assert!(!p.is_member(1, 1));
}

#[test]
fn failed_create_stores_no_new_user() {
    let mut p = Pallet::new(wide(), Some(0));
    assert_eq!(p.create(signed(4), b"a".to_vec(), b"b".to_vec(), peer(b"c")), err(Error::MaxPools));
    assert!(p.user(4).is_none());
    // A user record that was there before stays as it was.
    let mut q = with_pool();
    q.join(signed(2), 1, peer(b"p2")).unwrap();
    q.cancel_join(signed(2), 1).unwrap();
    assert_eq!(q.create(signed(2), vec![0u8; 300], b"b".to_vec(), peer(b"c")), err(Error::NameTooLong));
    assert_eq!(q.user(2).unwrap().peer_id.to_vec(), b"p2".to_vec());
    assert!(q.user(2).unwrap().is_free());
}

#[test]
fn leave_pool_errors() {
    let mut p = with_pool();
    assert_eq!(p.leave_pool(Origin::Root, 1), Err(DispatchError::BadOrigin));
    assert_eq!(p.leave_pool(signed(2), 1), err(Error::UserDoesNotExist));
    assert_eq!(p.leave_pool(signed(1), 2), err(Error::AccessDenied));
    p.join(signed(2), 1, peer(b"p2")).unwrap();
    assert_eq!(p.leave_pool(signed(2), 1), err(Error::AccessDenied));
    assert_eq!(participants(&p, 1), vec![1]);
}

#[test]
fn is_member_for_unknown_accounts_and_pools() {
    let p = with_pool();
    assert!(p.is_member(1, 1));
    assert!(!p.is_member(1, 2));
    assert!(!p.is_member(2, 1));
}

#[test]
fn cancel_after_join_restores_pool_and_requests() {
    let mut p = with_members(&[1, 2]);
    let before = p.pool(1).unwrap().request_number;
    p.join(signed(3), 1, peer(b"p3")).unwrap();
    p.cancel_join(signed(3), 1).unwrap();
    assert_eq!(p.pool(1).unwrap().request_number, before);
    assert_eq!(participants(&p, 1), vec![1, 2]);
    assert!(p.request(1, 3).is_none());
    let user = p.user(3).unwrap();
    assert!(user.is_free());
    assert_eq!(user.peer_id.to_vec(), b"p3".to_vec());
}

#[test]
fn refused_calls_change_nothing() {
    let mut p = with_members(&[1, 2]);
    p.join(signed(3), 1, peer(b"p3")).unwrap();
    p.vote(signed(1), 1, 3, false, peer(b"p3")).unwrap_err_or_ok();
    // The first vote against with two members is inconclusive.
    assert_eq!(p.request(1, 3).unwrap().voted.to_vec(), vec![1]);
    assert!(p.vote(signed(1), 1, 3, true, peer(b"p3")).is_err());
    assert!(p.leave_pool(signed(3), 1).is_err());
    assert!(p.create(signed(3), b"x".to_vec(), b"y".to_vec(), peer(b"z")).is_err());
    let req = p.request(1, 3).unwrap();
    assert_eq!(req.voted.to_vec(), vec![1]);
    assert_eq!(req.positive_votes, 0);
    assert_eq!(p.pool(1).unwrap().request_number, 1);
    assert_eq!(participants(&p, 1), vec![1, 2]);
    assert_eq!(p.last_pool_id(), 1);
}

trait UnwrapEither {
    fn unwrap_err_or_ok(self);
}

impl UnwrapEither for Result<Event, DispatchError> {
    fn unwrap_err_or_ok(self) {
        assert!(self.is_ok());
    }
}

#[test]
fn members_stay_in_one_pool() {
    let mut p = with_pool();
    p.create(signed(2), b"second".to_vec(), b"us".to_vec(), peer(b"p2")).unwrap();
    assert_eq!(p.join(signed(1), 2, peer(b"p1")), err(Error::UserBusy));
    assert_eq!(participants(&p, 1), vec![1]);
    assert_eq!(participants(&p, 2), vec![2]);
    assert!(p.is_member(1, 1) && !p.is_member(1, 2));
}

#[test]
fn applicants_wait_outside_every_pool() {
    let mut p = with_pool();
    p.create(signed(2), b"second".to_vec(), b"us".to_vec(), peer(b"p2")).unwrap();
    p.join(signed(3), 1, peer(b"p3")).unwrap();
    assert_eq!(p.join(signed(3), 2, peer(b"p3")), err(Error::UserBusy));
    assert!(p.request(2, 3).is_none());
    assert!(!participants(&p, 1).contains(&3));
    assert!(!participants(&p, 2).contains(&3));
}

#[test]
fn configured_string_limit_bounds_names() {
    let mut p = Pallet::new(Config { string_limit: 10, max_pool_participants: 255 }, None);
    assert_eq!(p.config().string_limit, 10);
    assert_eq!(p.create(signed(1), vec![1u8; 20], b"eu".to_vec(), peer(b"p")), err(Error::NameTooLong));
    assert_eq!(p.create(signed(1), b"pool".to_vec(), vec![1u8; 11], peer(b"p")), err(Error::NameTooLong));
    assert!(p.user(1).is_none());
    assert!(p.create(signed(1), vec![1u8; 10], vec![2u8; 10], peer(b"p")).is_ok());
    // A wider limit takes longer names.
    let mut q = Pallet::new(Config { string_limit: 1000, max_pool_participants: 255 }, None);
    assert!(q.create(signed(1), vec![1u8; 600], b"eu".to_vec(), peer(b"p")).is_ok());
    assert_eq!(q.pool(1).unwrap().name.len(), 600);
}

#[test]
fn configured_participant_limit_bounds_pools() {
    let mut p = Pallet::new(Config { string_limit: 255, max_pool_participants: 3 }, None);
    p.create(signed(1), b"pool".to_vec(), b"eu".to_vec(), peer(b"p")).unwrap();
    p.join(signed(2), 1, peer(b"q")).unwrap();
    p.join(signed(3), 1, peer(b"q")).unwrap();
    assert!(p.pool(1).unwrap().is_full(3));
    assert_eq!(p.join(signed(4), 1, peer(b"q")), err(Error::CapacityReached));
    // A full pool refuses votes too.
    assert_eq!(p.vote(signed(1), 1, 2, true, peer(b"q")), err(Error::CapacityReached));
    p.cancel_join(signed(3), 1).unwrap();
    assert!(p.vote(signed(1), 1, 2, true, peer(b"q")).is_ok());
    assert_eq!(participants(&p, 1), vec![1, 2]);
    // Members and open requests together stay within the limit.
    p.join(signed(4), 1, peer(b"q")).unwrap();
    assert_eq!(p.join(signed(5), 1, peer(b"q")), err(Error::CapacityReached));
}

#[test]
fn no_pool_without_places() {
    let mut p = Pallet::new(Config { string_limit: 255, max_pool_participants: 0 }, None);
    assert_eq!(p.create(signed(1), b"pool".to_vec(), b"eu".to_vec(), peer(b"p")), err(Error::CapacityReached));
    assert!(p.user(1).is_none());
    assert_eq!(p.last_pool_id(), 0);
}
