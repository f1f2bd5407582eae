use voting_dapp::address::{addr_eq, ballot_address, candidate_address, election_address};
use voting_dapp::machine::VotingStateMachine;
use voting_dapp::records::{BallotRecord, Candidate, Election, Record, VotingError};
use voting_dapp::store::RecordStore;

fn eid(b: u8) -> [u8; 16] {
    [b; 16]
}

fn setup_open_election(m: &mut VotingStateMachine, id: &[u8; 16], name: &[u8]) {
    assert!(m.initialize_election(id, b"Test".to_vec(), 1000, 2000).is_ok());
    assert!(m.initialize_candidate(id, name.to_vec()).is_ok());
}

#[test]
fn first_vote_counts_second_is_rejected() {
    let mut m = VotingStateMachine::new();
    let e1 = eid(1);
    assert_eq!(m.initialize_election(&e1, b"Test".to_vec(), 1000, 2000), Ok(()));
    assert_eq!(m.initialize_candidate(&e1, b"Alice".to_vec()), Ok(()));
    let v1 = vec![10u8; 32];
    assert_eq!(m.cast_vote(&e1, &b"Alice".to_vec(), &v1, 1500), Ok(()));
    assert_eq!(m.vote_count(&e1, &b"Alice".to_vec()), Some(1));
    assert_eq!(m.total_votes(&e1), Some(1));
    assert!(m.has_voted(&e1, &v1));
    assert_eq!(
        m.cast_vote(&e1, &b"Alice".to_vec(), &v1, 1600),
        Err(VotingError::AlreadyVoted)
    );
    assert_eq!(m.vote_count(&e1, &b"Alice".to_vec()), Some(1));
    assert_eq!(m.total_votes(&e1), Some(1));
}

#[test]
fn double_vote_rejected_even_for_other_candidate() {
    let mut m = VotingStateMachine::new();
    let e1 = eid(1);
    setup_open_election(&mut m, &e1, b"Alice");
    assert!(m.initialize_candidate(&e1, b"Bob".to_vec()).is_ok());
    let v1 = vec![10u8; 32];
    assert_eq!(m.cast_vote(&e1, &b"Alice".to_vec(), &v1, 1500), Ok(()));
    assert_eq!(
        m.cast_vote(&e1, &b"Bob".to_vec(), &v1, 1500),
        Err(VotingError::AlreadyVoted)
    );
    assert_eq!(m.vote_count(&e1, &b"Bob".to_vec()), Some(0));
    assert_eq!(m.total_votes(&e1), Some(1));
}

#[test]
fn unknown_candidate_mutates_nothing() {
    let mut m = VotingStateMachine::new();
    let e1 = eid(1);
    setup_open_election(&mut m, &e1, b"Alice");
    let v2 = vec![20u8; 32];
    assert_eq!(
        m.cast_vote(&e1, &b"Bob".to_vec(), &v2, 1500),
        Err(VotingError::CandidateNotFound)
    );
    assert_eq!(m.total_votes(&e1), Some(0));
    assert_eq!(m.vote_count(&e1, &b"Alice".to_vec()), Some(0));
    assert_eq!(m.vote_count(&e1, &b"Bob".to_vec()), None);
    assert!(!m.has_voted(&e1, &v2));
}

#[test]
fn vote_at_window_start_succeeds() {
    let mut m = VotingStateMachine::new();
    let e1 = eid(1);
    setup_open_election(&mut m, &e1, b"Alice");
    let v1 = vec![10u8; 32];
    assert_eq!(m.cast_vote(&e1, &b"Alice".to_vec(), &v1, 1000), Ok(()));
    assert_eq!(m.total_votes(&e1), Some(1));
}

#[test]
fn vote_before_window_times_out() {
    let mut m = VotingStateMachine::new();
    let e1 = eid(1);
    setup_open_election(&mut m, &e1, b"Alice");
    let v1 = vec![10u8; 32];
    assert_eq!(
        m.cast_vote(&e1, &b"Alice".to_vec(), &v1, 999),
        Err(VotingError::VotingTimedOut)
    );
    assert_eq!(m.total_votes(&e1), Some(0));
    assert!(!m.has_voted(&e1, &v1));
}

#[test]
fn vote_at_window_end_succeeds() {
    // The comparison rejecting late votes is `end < now`, so the upper
    // bound is part of the window.
    let mut m = VotingStateMachine::new();
    let e1 = eid(1);
    setup_open_election(&mut m, &e1, b"Alice");
    let v1 = vec![10u8; 32];
    assert_eq!(m.cast_vote(&e1, &b"Alice".to_vec(), &v1, 2000), Ok(()));
    assert_eq!(m.total_votes(&e1), Some(1));
}

#[test]
fn vote_after_window_times_out() {
    let mut m = VotingStateMachine::new();
    let e1 = eid(1);
    setup_open_election(&mut m, &e1, b"Alice");
    let v1 = vec![10u8; 32];
    assert_eq!(
        m.cast_vote(&e1, &b"Alice".to_vec(), &v1, 2001),
        Err(VotingError::VotingTimedOut)
    );
    assert_eq!(m.total_votes(&e1), Some(0));
}

#[test]
fn already_voted_takes_precedence_over_closed_window() {
    let mut m = VotingStateMachine::new();
    let e1 = eid(1);
    setup_open_election(&mut m, &e1, b"Alice");
    let v1 = vec![10u8; 32];
    assert_eq!(m.cast_vote(&e1, &b"Alice".to_vec(), &v1, 1500), Ok(()));
    // The ballot check runs before the window check.
    assert_eq!(
        m.cast_vote(&e1, &b"Alice".to_vec(), &v1, 5000),
        Err(VotingError::AlreadyVoted)
    );
}

#[test]
fn closed_window_takes_precedence_over_unknown_candidate() {
    let mut m = VotingStateMachine::new();
    let e1 = eid(1);
    setup_open_election(&mut m, &e1, b"Alice");
    let v1 = vec![10u8; 32];
    // The window check runs before the candidate lookup.
    assert_eq!(
        m.cast_vote(&e1, &b"Bob".to_vec(), &v1, 5000),
        Err(VotingError::VotingTimedOut)
    );
}

#[test]
fn duplicate_election_leaves_original_unchanged() {
    let mut m = VotingStateMachine::new();
    let e1 = eid(1);
    assert_eq!(m.initialize_election(&e1, b"Test".to_vec(), 1000, 2000), Ok(()));
    assert_eq!(
        m.initialize_election(&e1, b"Other".to_vec(), 5, 6),
        Err(VotingError::ElectionAlreadyInitialized)
    );
    assert_eq!(m.election_description(&e1), Some(b"Test".to_vec()));
    assert_eq!(m.election_window(&e1), Some((1000, 2000)));
    assert_eq!(m.total_votes(&e1), Some(0));
}

#[test]
fn duplicate_candidate_is_rejected() {
    let mut m = VotingStateMachine::new();
    let e1 = eid(1);
    assert_eq!(m.initialize_candidate(&e1, b"Alice".to_vec()), Ok(()));
    assert_eq!(
        m.initialize_candidate(&e1, b"Alice".to_vec()),
        Err(VotingError::CandidateAlreadyInitialized)
    );
    assert_eq!(m.vote_count(&e1, &b"Alice".to_vec()), Some(0));
}

#[test]
fn vote_in_unknown_election_fails() {
    let mut m = VotingStateMachine::new();
    let e1 = eid(1);
    let v1 = vec![10u8; 32];
    assert_eq!(
        m.cast_vote(&e1, &b"Alice".to_vec(), &v1, 1500),
        Err(VotingError::ElectionNotFound)
    );
    assert_eq!(m.total_votes(&e1), None);
}

#[test]
fn candidate_may_precede_its_election() {
    let mut m = VotingStateMachine::new();
    let e1 = eid(1);
    assert_eq!(m.initialize_candidate(&e1, b"Alice".to_vec()), Ok(()));
    assert_eq!(m.initialize_election(&e1, b"Test".to_vec(), 1000, 2000), Ok(()));
    let v1 = vec![10u8; 32];
    assert_eq!(m.cast_vote(&e1, &b"Alice".to_vec(), &v1, 1500), Ok(()));
    assert_eq!(m.total_votes(&e1), Some(1));
    assert_eq!(m.vote_count(&e1, &b"Alice".to_vec()), Some(1));
}

#[test]
fn tallies_add_up_across_voters_and_candidates() {
    let mut m = VotingStateMachine::new();
    let e1 = eid(1);
    setup_open_election(&mut m, &e1, b"Alice");
    assert!(m.initialize_candidate(&e1, b"Bob".to_vec()).is_ok());
    let v1 = vec![10u8; 32];
    let v2 = vec![20u8; 32];
    let v3 = vec![30u8; 32];
    assert_eq!(m.cast_vote(&e1, &b"Alice".to_vec(), &v1, 1500), Ok(()));
    assert_eq!(m.cast_vote(&e1, &b"Bob".to_vec(), &v2, 1600), Ok(()));
    assert_eq!(m.cast_vote(&e1, &b"Alice".to_vec(), &v3, 1700), Ok(()));
    assert_eq!(m.vote_count(&e1, &b"Alice".to_vec()), Some(2));
    assert_eq!(m.vote_count(&e1, &b"Bob".to_vec()), Some(1));
    assert_eq!(m.total_votes(&e1), Some(3));
}

#[test]
fn elections_are_independent() {
    let mut m = VotingStateMachine::new();
    let e1 = eid(1);
    let e2 = eid(2);
    setup_open_election(&mut m, &e1, b"Alice");
    setup_open_election(&mut m, &e2, b"Alice");
    let v1 = vec![10u8; 32];
    assert_eq!(m.cast_vote(&e1, &b"Alice".to_vec(), &v1, 1500), Ok(()));
    // The same voter still votes freely in the other election.
    assert_eq!(m.cast_vote(&e2, &b"Alice".to_vec(), &v1, 1500), Ok(()));
    assert_eq!(m.total_votes(&e1), Some(1));
    assert_eq!(m.total_votes(&e2), Some(1));
    assert_eq!(m.vote_count(&e1, &b"Alice".to_vec()), Some(1));
    assert_eq!(m.vote_count(&e2, &b"Alice".to_vec()), Some(1));
}

#[test]
fn derived_addresses_distinguish_records() {
    let e1 = eid(1);
    let e2 = eid(2);
    let alice = b"Alice".to_vec();
    let v1 = vec![10u8; 32];
    let ea1 = election_address(&e1);
    let ea2 = election_address(&e2);
    let ca1 = candidate_address(&e1, &alice);
    let ca2 = candidate_address(&e2, &alice);
    let ba1 = ballot_address(&e1, &v1);
    assert!(addr_eq(&ea1, &election_address(&e1)));
    assert!(!addr_eq(&ea1, &ea2));
    assert!(!addr_eq(&ca1, &ca2));
    assert!(!addr_eq(&ea1, &ca1));
    assert!(!addr_eq(&ea1, &ba1));
    assert!(!addr_eq(&ca1, &ba1));
}

#[test]
fn store_create_read_write_roundtrip() {
    let mut st = RecordStore::new();
    let e1 = eid(1);
    let addr = election_address(&e1);
    assert!(matches!(st.read(&addr), None));
    let rec = Record::Election(Election {
        id: e1,
        description: b"Test".to_vec(),
        start: 1,
        end: 2,
        total_votes: 0,
    });
    assert!(st.create(addr, rec));
    match st.read(&election_address(&e1)) {
        Some(Record::Election(el)) => {
            assert_eq!(el.description, b"Test".to_vec());
            assert_eq!(el.total_votes, 0);
        }
        _ => panic!("expected the election record"),
    }
    let rec2 = Record::Election(Election {
        id: e1,
        description: b"Test".to_vec(),
        start: 1,
        end: 2,
        total_votes: 5,
    });
    assert!(!st.create(election_address(&e1), rec2));
    let rec3 = Record::Election(Election {
        id: e1,
        description: b"Test".to_vec(),
        start: 1,
        end: 2,
        total_votes: 7,
    });
    assert!(st.mutate(&election_address(&e1), rec3));
    match st.read(&election_address(&e1)) {
        Some(Record::Election(el)) => assert_eq!(el.total_votes, 7),
        _ => panic!("expected the election record"),
    }
}

#[test]
fn store_mutate_of_absent_address_reports_not_found() {
    let mut st = RecordStore::new();
    let e1 = eid(1);
    let rec = Record::Ballot(BallotRecord { has_voted: true });
    assert!(!st.mutate(&ballot_address(&e1, &vec![10u8; 32]), rec));
    assert!(st.read(&ballot_address(&e1, &vec![10u8; 32])).is_none());
}

#[test]
fn store_get_or_create_is_idempotent() {
    let mut st = RecordStore::new();
    let e1 = eid(1);
    let v1 = vec![10u8; 32];
    let addr = ballot_address(&e1, &v1);
    let first = st.get_or_create(addr, Record::Ballot(BallotRecord { has_voted: false }));
    assert!(matches!(first, Record::Ballot(BallotRecord { has_voted: false })));
    // A second call sees the stored record, not the new default.
    let second = st.get_or_create(
        ballot_address(&e1, &v1),
        Record::Ballot(BallotRecord { has_voted: true }),
    );
    assert!(matches!(second, Record::Ballot(BallotRecord { has_voted: false })));
}

#[test]
fn candidate_record_keeps_its_name() {
    let mut st = RecordStore::new();
    let e1 = eid(1);
    let alice = b"Alice".to_vec();
    let addr = candidate_address(&e1, &alice);
    assert!(st.create(addr, Record::Candidate(Candidate { name: alice.clone(), vote_count: 0 })));
    match st.read(&candidate_address(&e1, &alice)) {
        Some(Record::Candidate(c)) => assert_eq!(c.name, alice),
        _ => panic!("expected the candidate record"),
    }
}
