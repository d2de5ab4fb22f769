use tokenized_estate::governance::engine::GovernanceStore;
use tokenized_estate::governance::engine::NANOS_PER_DAY;
use tokenized_estate::governance::result::Ratio;
use tokenized_estate::governance::result::project;
use tokenized_estate::governance::types::CastVoteRequest;
use tokenized_estate::governance::types::CreateProposalRequest;
use tokenized_estate::governance::types::GovernanceError;
use tokenized_estate::governance::types::Proposal;
use tokenized_estate::stable::MemoryPool;

fn request(property_id: u64, days: u64) -> CreateProposalRequest {
    CreateProposalRequest {
        property_id,
        title: "Replace the roof".to_string(),
        description: "The roof leaks over the east wing.".to_string(),
        proposal_type: "maintenance".to_string(),
        voting_duration_days: days,
        execution_data: Some("{\"budget\":125000}".to_string()),
    }
}

fn ballot(proposal_id: u64, vote_choice: bool, voting_power: u64) -> CastVoteRequest {
    CastVoteRequest { proposal_id, vote_choice, voting_power }
}

fn voter(name: &str) -> Vec<u8> {
    name.as_bytes().to_vec()
}

fn rate(r: Ratio) -> f64 {
    if r.denominator == 0 {
        0.0
    } else {
        r.numerator as f64 / r.denominator as f64
    }
}

#[test]
fn create_proposal_stores_an_active_proposal_with_zeroed_tallies() {
    let mut store = GovernanceStore::new(MemoryPool::open());
    let now = 1_700_000_000_000_000_000;
    let p = store.create_proposal(request(4, 7), voter("owner"), now).unwrap();
    assert_eq!(
        p,
        Proposal {
            id: 1,
            property_id: 4,
            title: "Replace the roof".to_string(),
            description: "The roof leaks over the east wing.".to_string(),
            proposal_type: "maintenance".to_string(),
            proposer: voter("owner"),
            votes_for: 0,
            votes_against: 0,
            voting_power_for: 0,
            voting_power_against: 0,
            status: "active".to_string(),
            created_at: now,
            voting_deadline: now + 604_800_000_000_000,
            execution_data: Some("{\"budget\":125000}".to_string()),
        }
    );
    assert_eq!(store.get_proposal(1), Some(p));
    assert_eq!(store.get_proposal(2), None);
}

#[test]
fn a_day_is_86400_seconds_of_nanoseconds() {
    assert_eq!(NANOS_PER_DAY, 24 * 60 * 60 * 1_000_000_000);
}

#[test]
fn proposal_identifiers_count_up_from_one() {
    let mut store = GovernanceStore::new(MemoryPool::open());
    assert_eq!(store.last_proposal_id(), 0);
    let a = store.create_proposal(request(1, 1), voter("a"), 10).unwrap();
    let b = store.create_proposal(request(1, 1), voter("b"), 11).unwrap();
    let c = store.create_proposal(request(2, 1), voter("a"), 12).unwrap();
    assert_eq!((a.id, b.id, c.id), (1, 2, 3));
    assert_eq!(store.last_proposal_id(), 3);
    assert_eq!(store.last_vote_id(), 0);
}

#[test]
fn vote_identifiers_count_up_independently_of_proposals() {
    let mut store = GovernanceStore::new(MemoryPool::open());
    let p = store.create_proposal(request(1, 1), voter("a"), 10).unwrap();
    let q = store.create_proposal(request(1, 1), voter("a"), 10).unwrap();
    let v1 = store.cast_vote(ballot(q.id, true, 5), voter("x"), 11).unwrap();
    let v2 = store.cast_vote(ballot(p.id, false, 6), voter("x"), 12).unwrap();
    let v3 = store.cast_vote(ballot(p.id, false, 7), voter("y"), 13).unwrap();
    assert_eq!((v1.id, v2.id, v3.id), (1, 2, 3));
    assert_eq!(store.last_vote_id(), 3);
    assert_eq!(store.last_proposal_id(), 2);
}

#[test]
fn scenario_votes_for_and_against_and_a_duplicate() {
    let mut store = GovernanceStore::new(MemoryPool::open());
    let now = 5_000;
    let p = store.create_proposal(request(9, 7), voter("owner"), now).unwrap();

    let a = store.cast_vote(ballot(p.id, true, 100), voter("A"), now + 1).unwrap();
    assert_eq!(a.proposal_id, p.id);
    assert_eq!(a.voter, voter("A"));
    assert_eq!(a.vote_power, 100);
    assert!(a.vote_choice);
    assert_eq!(a.timestamp, now + 1);
    let after_a = store.get_proposal(p.id).unwrap();
    assert_eq!(after_a.votes_for, 1);
    assert_eq!(after_a.voting_power_for, 100);
    assert_eq!(after_a.votes_against, 0);
    assert_eq!(after_a.voting_power_against, 0);
    assert_eq!(after_a.status, "active");

    let again = store.cast_vote(ballot(p.id, false, 1), voter("A"), now + 2);
    assert_eq!(again, Err(GovernanceError::DuplicateVote));
    assert_eq!(store.get_proposal(p.id).unwrap(), after_a);
    assert_eq!(store.last_vote_id(), 1);

    store.cast_vote(ballot(p.id, false, 50), voter("B"), now + 3).unwrap();
    let after_b = store.get_proposal(p.id).unwrap();
    assert_eq!(after_b.votes_for, 1);
    assert_eq!(after_b.voting_power_for, 100);
    assert_eq!(after_b.votes_against, 1);
    assert_eq!(after_b.voting_power_against, 50);

    let result = store.get_proposal_result(p.id).unwrap();
    assert_eq!(result.proposal, after_b);
    assert_eq!(result.total_voting_power, 150);
    assert_eq!(result.approval_rate, Ratio { numerator: 100, denominator: 150 });
    assert!((rate(result.approval_rate) - 0.667).abs() < 0.001);
    assert_eq!(result.participation_rate, Ratio { numerator: 2, denominator: 100 });
    assert!((rate(result.participation_rate) - 0.02).abs() < 1e-12);
}

#[test]
fn scenario_vote_after_the_deadline() {
    let mut store = GovernanceStore::new(MemoryPool::open());
    let now = 77;
    let p = store.create_proposal(request(9, 1), voter("owner"), now).unwrap();
    store.cast_vote(ballot(p.id, true, 10), voter("A"), now).unwrap();
    let at_deadline = store.cast_vote(ballot(p.id, true, 10), voter("B"), p.voting_deadline);
    assert!(at_deadline.is_ok());
    let late = store.cast_vote(ballot(p.id, false, 10), voter("C"), p.voting_deadline + 1);
    assert_eq!(late, Err(GovernanceError::DeadlinePassed));
    let kept = store.get_proposal(p.id).unwrap();
    assert_eq!((kept.votes_for, kept.votes_against), (2, 0));
    assert_eq!((kept.voting_power_for, kept.voting_power_against), (20, 0));
}

#[test]
fn vote_on_a_missing_proposal_is_not_found() {
    let mut store = GovernanceStore::new(MemoryPool::open());
    let r = store.cast_vote(ballot(1, true, 1), voter("A"), 0);
    assert_eq!(r, Err(GovernanceError::NotFound));
    assert_eq!(store.last_vote_id(), 0);
    assert!(store.get_user_votes(&voter("A")).is_empty());
}

#[test]
fn vote_on_a_proposal_that_is_not_active_is_invalid_state() {
    let mut store = GovernanceStore::new(MemoryPool::open());
    let p = store.create_proposal(request(1, 1), voter("o"), 10).unwrap();
    store.update_proposal_status(p.id, "passed".to_string()).unwrap();
    let r = store.cast_vote(ballot(p.id, true, 1), voter("A"), 11);
    assert_eq!(r, Err(GovernanceError::InvalidState));
}

#[test]
fn refusals_come_in_the_order_of_the_checks() {
    let mut store = GovernanceStore::new(MemoryPool::open());
    let p = store.create_proposal(request(1, 1), voter("o"), 10).unwrap();
    store.cast_vote(ballot(p.id, true, 1), voter("A"), 11).unwrap();
    let late = p.voting_deadline + 1;

    // not active, past the deadline and a duplicate at once
    store.update_proposal_status(p.id, "rejected".to_string()).unwrap();
    assert_eq!(
        store.cast_vote(ballot(p.id, true, 1), voter("A"), late),
        Err(GovernanceError::InvalidState)
    );
    // past the deadline and a duplicate at once
    store.update_proposal_status(p.id, "active".to_string()).unwrap();
    assert_eq!(
        store.cast_vote(ballot(p.id, true, 1), voter("A"), late),
        Err(GovernanceError::DeadlinePassed)
    );
    // a missing proposal, whatever else
    assert_eq!(
        store.cast_vote(ballot(p.id + 1, true, 1), voter("A"), late),
        Err(GovernanceError::NotFound)
    );
    // only a duplicate
    assert_eq!(
        store.cast_vote(ballot(p.id, false, 1), voter("A"), 12),
        Err(GovernanceError::DuplicateVote)
    );
}

#[test]
fn the_same_voter_may_vote_on_two_proposals() {
    let mut store = GovernanceStore::new(MemoryPool::open());
    let p = store.create_proposal(request(1, 1), voter("o"), 10).unwrap();
    let q = store.create_proposal(request(1, 1), voter("o"), 10).unwrap();
    assert!(store.cast_vote(ballot(p.id, true, 3), voter("A"), 11).is_ok());
    assert!(store.cast_vote(ballot(q.id, false, 4), voter("A"), 11).is_ok());
    assert_eq!(
        store.cast_vote(ballot(q.id, true, 4), voter("A"), 11),
        Err(GovernanceError::DuplicateVote)
    );
    let mine = store.get_user_votes(&voter("A"));
    assert_eq!(mine.len(), 2);
    assert_eq!((mine[0].proposal_id, mine[1].proposal_id), (p.id, q.id));
}

#[test]
fn a_duplicate_stays_a_duplicate_after_a_status_change() {
    let mut store = GovernanceStore::new(MemoryPool::open());
    let p = store.create_proposal(request(1, 1), voter("o"), 10).unwrap();
    store.cast_vote(ballot(p.id, true, 3), voter("A"), 11).unwrap();
    store.update_proposal_status(p.id, "passed".to_string()).unwrap();
    store.update_proposal_status(p.id, "active".to_string()).unwrap();
    assert_eq!(
        store.cast_vote(ballot(p.id, true, 3), voter("A"), 12),
        Err(GovernanceError::DuplicateVote)
    );
}

#[test]
fn tallies_are_the_sums_of_the_stored_votes() {
    let mut store = GovernanceStore::new(MemoryPool::open());
    let p = store.create_proposal(request(1, 2), voter("o"), 10).unwrap();
    let q = store.create_proposal(request(1, 2), voter("o"), 10).unwrap();
    let powers = [7u64, 11, 13, 17, 19, 23];
    for (i, power) in powers.iter().enumerate() {
        let who = vec![i as u8];
        store.cast_vote(ballot(p.id, i % 2 == 0, *power), who.clone(), 20).unwrap();
        if i < 2 {
            store.cast_vote(ballot(q.id, false, 1000), who, 21).unwrap();
        }
    }
    for id in [p.id, q.id] {
        let stored = store.get_proposal(id).unwrap();
        let votes = store.get_proposal_votes(id);
        let count_for = votes.iter().filter(|v| v.vote_choice).count() as u64;
        let count_against = votes.iter().filter(|v| !v.vote_choice).count() as u64;
        let power_for: u64 = votes.iter().filter(|v| v.vote_choice).map(|v| v.vote_power).sum();
        let power_against: u64 =
            votes.iter().filter(|v| !v.vote_choice).map(|v| v.vote_power).sum();
        assert_eq!(stored.votes_for + stored.votes_against, votes.len() as u64);
        assert_eq!(stored.votes_for, count_for);
        assert_eq!(stored.votes_against, count_against);
        assert_eq!(stored.voting_power_for, power_for);
        assert_eq!(stored.voting_power_against, power_against);
    }
    let stored = store.get_proposal(p.id).unwrap();
    assert_eq!((stored.votes_for, stored.votes_against), (3, 3));
    assert_eq!((stored.voting_power_for, stored.voting_power_against), (39, 51));
    let other = store.get_proposal(q.id).unwrap();
    assert_eq!((other.votes_for, other.votes_against), (0, 2));
    assert_eq!((other.voting_power_for, other.voting_power_against), (0, 2000));
}

#[test]
fn at_most_one_vote_per_voter_and_proposal() {
    let mut store = GovernanceStore::new(MemoryPool::open());
    let p = store.create_proposal(request(1, 2), voter("o"), 10).unwrap();
    for round in 0..3u64 {
        for who in ["A", "B", "C"] {
            let r = store.cast_vote(ballot(p.id, round % 2 == 0, 1), voter(who), 20 + round);
            assert_eq!(r.is_ok(), round == 0);
        }
    }
    let votes = store.get_proposal_votes(p.id);
    assert_eq!(votes.len(), 3);
    for who in ["A", "B", "C"] {
        assert_eq!(votes.iter().filter(|v| v.voter == voter(who)).count(), 1);
    }
}

#[test]
fn result_of_an_untallied_proposal_is_zero() {
    let mut store = GovernanceStore::new(MemoryPool::open());
    let p = store.create_proposal(request(1, 2), voter("o"), 10).unwrap();
    let result = store.get_proposal_result(p.id).unwrap();
    assert_eq!(result.total_voting_power, 0);
    assert_eq!(result.approval_rate, Ratio { numerator: 0, denominator: 0 });
    assert_eq!(rate(result.approval_rate), 0.0);
    assert_eq!(rate(result.participation_rate), 0.0);
    assert_eq!(result.proposal, p);
}

#[test]
fn result_of_a_missing_proposal_is_none() {
    let store = GovernanceStore::new(MemoryPool::open());
    assert!(store.get_proposal_result(1).is_none());
}

#[test]
fn projection_measures_participation_against_the_given_voters() {
    let mut store = GovernanceStore::new(MemoryPool::open());
    let p = store.create_proposal(request(1, 2), voter("o"), 10).unwrap();
    store.cast_vote(ballot(p.id, true, 30), voter("A"), 11).unwrap();
    store.cast_vote(ballot(p.id, true, 10), voter("B"), 11).unwrap();
    store.cast_vote(ballot(p.id, false, 60), voter("C"), 11).unwrap();
    let stored = store.get_proposal(p.id).unwrap();
    let result = project(stored, 12);
    assert_eq!(result.total_voting_power, 100);
    assert_eq!(result.approval_rate, Ratio { numerator: 40, denominator: 100 });
    assert_eq!(result.participation_rate, Ratio { numerator: 3, denominator: 12 });
    assert_eq!(rate(result.participation_rate), 0.25);
}

#[test]
fn update_proposal_status_overwrites_any_status_with_any_other() {
    let mut store = GovernanceStore::new(MemoryPool::open());
    let p = store.create_proposal(request(1, 2), voter("o"), 10).unwrap();
    let q = store.update_proposal_status(p.id, "executed".to_string()).unwrap();
    assert_eq!(q.status, "executed");
    assert_eq!(Proposal { status: "active".to_string(), ..q.clone() }, p);
    let r = store.update_proposal_status(p.id, "no such status".to_string()).unwrap();
    assert_eq!(r.status, "no such status");
    assert_eq!(store.get_proposal(p.id), Some(r));
    assert_eq!(
        store.update_proposal_status(p.id + 1, "passed".to_string()),
        Err(GovernanceError::NotFound)
    );
}

#[test]
fn listings_are_in_ascending_order_and_filtered() {
    let mut store = GovernanceStore::new(MemoryPool::open());
    let a = store.create_proposal(request(1, 1), voter("o"), 10).unwrap();
    let b = store.create_proposal(request(2, 3), voter("o"), 10).unwrap();
    let c = store.create_proposal(request(1, 5), voter("o"), 10).unwrap();
    let d = store.create_proposal(request(1, 5), voter("o"), 10).unwrap();
    let d = store.update_proposal_status(d.id, "passed".to_string()).unwrap();

    assert_eq!(store.get_proposals(), vec![a.clone(), b.clone(), c.clone(), d.clone()]);
    assert_eq!(store.get_property_proposals(1), vec![a.clone(), c.clone(), d.clone()]);
    assert_eq!(store.get_property_proposals(2), vec![b.clone()]);
    assert!(store.get_property_proposals(3).is_empty());

    // active means: status active and the deadline still ahead
    assert_eq!(store.get_active_proposals(10), vec![a.clone(), b.clone(), c.clone()]);
    assert_eq!(store.get_active_proposals(a.voting_deadline - 1).len(), 3);
    assert_eq!(store.get_active_proposals(a.voting_deadline), vec![b.clone(), c.clone()]);
    assert_eq!(store.get_active_proposals(b.voting_deadline), vec![c.clone()]);
    assert!(store.get_active_proposals(c.voting_deadline).is_empty());
}

#[test]
fn votes_are_listed_by_proposal_and_by_voter() {
    let mut store = GovernanceStore::new(MemoryPool::open());
    let p = store.create_proposal(request(1, 1), voter("o"), 10).unwrap();
    let q = store.create_proposal(request(1, 1), voter("o"), 10).unwrap();
    let v1 = store.cast_vote(ballot(p.id, true, 1), voter("A"), 11).unwrap();
    let v2 = store.cast_vote(ballot(q.id, true, 2), voter("A"), 12).unwrap();
    let v3 = store.cast_vote(ballot(p.id, false, 3), voter("B"), 13).unwrap();
    assert_eq!(store.get_proposal_votes(p.id), vec![v1.clone(), v3.clone()]);
    assert_eq!(store.get_proposal_votes(q.id), vec![v2.clone()]);
    assert!(store.get_proposal_votes(q.id + 1).is_empty());
    assert_eq!(store.get_user_votes(&voter("A")), vec![v1, v2]);
    assert_eq!(store.get_user_votes(&voter("B")), vec![v3]);
    assert!(store.get_user_votes(&voter("")).is_empty());
}

#[test]
fn room_is_checked_before_a_vote_that_would_overflow() {
    let mut store = GovernanceStore::new(MemoryPool::open());
    let p = store.create_proposal(request(1, 1), voter("o"), 10).unwrap();
    store.cast_vote(ballot(p.id, true, u64::MAX - 5), voter("A"), 11).unwrap();
    assert!(store.has_room_for_vote(&ballot(p.id, true, 5), &voter("B"), 12));
    assert!(!store.has_room_for_vote(&ballot(p.id, true, 6), &voter("B"), 12));
    assert!(store.has_room_for_vote(&ballot(p.id, false, u64::MAX), &voter("B"), 12));
    assert!(store.has_room_for_vote(&ballot(p.id + 1, true, u64::MAX), &voter("B"), 12));
    store.cast_vote(ballot(p.id, true, 5), voter("B"), 12).unwrap();
    let full = store.get_proposal(p.id).unwrap();
    assert_eq!(full.voting_power_for, u64::MAX);
    assert!(!store.has_room_for_vote(&ballot(p.id, true, 1), &voter("C"), 12));
    assert!(store.has_room_for_vote(&ballot(p.id, true, 0), &voter("C"), 12));
    // a vote without room is refused, and nothing changes
    assert_eq!(
        store.cast_vote(ballot(p.id, true, 1), voter("C"), 12),
        Err(GovernanceError::StorageFailure)
    );
    assert_eq!(store.get_proposal(p.id).unwrap(), full);
    assert_eq!(store.last_vote_id(), 2);
    assert!(store.get_user_votes(&voter("C")).is_empty());
    // a duplicate is a duplicate before it is a vote without room
    assert_eq!(
        store.cast_vote(ballot(p.id, true, 1), voter("A"), 12),
        Err(GovernanceError::DuplicateVote)
    );
    assert!(store.cast_vote(ballot(p.id, true, 0), voter("C"), 12).is_ok());
}

#[test]
fn room_is_checked_before_a_proposal_whose_deadline_would_overflow() {
    let store = GovernanceStore::new(MemoryPool::open());
    let who = voter("o");
    assert!(store.has_room_for_proposal(&request(1, 7), &who, 0));
    assert!(store.has_room_for_proposal(&request(1, 213_503), &who, 0));
    assert!(!store.has_room_for_proposal(&request(1, 213_504), &who, 0));
    assert!(!store.has_room_for_proposal(&request(1, 1), &who, u64::MAX - NANOS_PER_DAY + 1));
    assert!(store.has_room_for_proposal(&request(1, 1), &who, u64::MAX - NANOS_PER_DAY));
    let mut store = store;
    assert_eq!(
        store.create_proposal(request(1, 213_504), who.clone(), 0),
        Err(GovernanceError::StorageFailure)
    );
    assert_eq!(store.last_proposal_id(), 0);
    assert!(store.get_proposals().is_empty());
    let p = store.create_proposal(request(1, 1), who, u64::MAX - NANOS_PER_DAY).unwrap();
    assert_eq!((p.id, p.voting_deadline), (1, u64::MAX));
}

#[test]
fn text_and_identities_of_any_bytes_are_stored_as_they_are() {
    let mut store = GovernanceStore::new(MemoryPool::open());
    let req = CreateProposalRequest {
        property_id: 0,
        title: "Dach — крыша — 屋根 🏠".to_string(),
        description: String::new(),
        proposal_type: "sale".to_string(),
        voting_duration_days: 0,
        execution_data: None,
    };
    let who = vec![0u8, 255, 128, 0, 7];
    let p = store.create_proposal(req, who.clone(), 3).unwrap();
    let back = store.get_proposal(p.id).unwrap();
    assert_eq!(back.title, "Dach — крыша — 屋根 🏠");
    assert_eq!(back.description, "");
    assert_eq!(back.execution_data, None);
    assert_eq!(back.proposer, who);
    assert_eq!(back.voting_deadline, 3);
    let empty = CreateProposalRequest {
        property_id: 0,
        title: String::new(),
        description: String::new(),
        proposal_type: String::new(),
        voting_duration_days: 0,
        execution_data: Some(String::new()),
    };
    let q = store.create_proposal(empty, Vec::new(), 3).unwrap();
    assert_eq!(store.get_proposal(q.id).unwrap().execution_data, Some(String::new()));
}

#[test]
fn init_leaves_issued_identifiers_issued() {
    let mut store = GovernanceStore::new(MemoryPool::open());
    let p = store.create_proposal(request(1, 1), voter("o"), 10).unwrap();
    store.cast_vote(ballot(p.id, true, 1), voter("A"), 11).unwrap();
    store.init();
    assert_eq!(store.last_proposal_id(), 1);
    assert_eq!(store.last_vote_id(), 1);
    let q = store.create_proposal(request(1, 1), voter("o"), 10).unwrap();
    let v = store.cast_vote(ballot(p.id, true, 1), voter("B"), 11).unwrap();
    assert_eq!((q.id, v.id), (2, 2));
    assert_eq!(store.get_proposal_votes(p.id).len(), 2);
}

#[test]
fn a_store_is_loaded_as_it_was_closed() {
    let mut store = GovernanceStore::new(MemoryPool::open());
    let p = store.create_proposal(request(1, 1), voter("o"), 10).unwrap();
    let v = store.cast_vote(ballot(p.id, false, 9), voter("A"), 11).unwrap();
    let stored = store.get_proposal(p.id).unwrap();
    let (counters, proposals, votes) = store.close();
    let mut again = GovernanceStore::load(counters, proposals, votes);
    assert_eq!(again.get_proposals(), vec![stored]);
    assert_eq!(again.get_proposal_votes(p.id), vec![v]);
    assert_eq!((again.last_proposal_id(), again.last_vote_id()), (1, 1));
    assert_eq!(
        again.cast_vote(ballot(p.id, true, 1), voter("A"), 12),
        Err(GovernanceError::DuplicateVote)
    );
    assert_eq!(again.create_proposal(request(1, 1), voter("o"), 10).unwrap().id, 2);
}

#[test]
fn init_sets_both_counters_to_zero() {
    let mut store = GovernanceStore::open(MemoryPool::open());
    store.init();
    assert_eq!(store.last_proposal_id(), 0);
    assert_eq!(store.last_vote_id(), 0);
    assert!(store.get_proposals().is_empty());
    let p = store.create_proposal(request(1, 1), voter("o"), 10).unwrap();
    assert_eq!(p.id, 1);
}

#[test]
fn many_records_come_back_in_order() {
    let mut store = GovernanceStore::new(MemoryPool::open());
    for i in 0..200u64 {
        let p = store.create_proposal(request(i % 3, 1), voter("o"), i).unwrap();
        assert_eq!(p.id, i + 1);
    }
    let all = store.get_proposals();
    assert_eq!(all.len(), 200);
    for (i, p) in all.iter().enumerate() {
        assert_eq!(p.id, i as u64 + 1);
        assert_eq!(p.created_at, i as u64);
    }
    assert_eq!(store.get_property_proposals(2).len(), 66);
}

#[test]
fn check_vote_tells_the_refusal_and_changes_nothing() {
    let mut store = GovernanceStore::new(MemoryPool::open());
    assert_eq!(store.check_vote(1, &voter("A"), 0), Some(GovernanceError::NotFound));
    let p = store.create_proposal(request(1, 1), voter("o"), 10).unwrap();
    assert_eq!(store.check_vote(p.id, &voter("A"), 11), None);
    assert_eq!(store.check_vote(p.id, &voter("A"), p.voting_deadline), None);
    assert_eq!(
        store.check_vote(p.id, &voter("A"), p.voting_deadline + 1),
        Some(GovernanceError::DeadlinePassed)
    );
    store.cast_vote(ballot(p.id, true, 1), voter("A"), 11).unwrap();
    assert_eq!(store.check_vote(p.id, &voter("A"), 11), Some(GovernanceError::DuplicateVote));
    assert_eq!(store.check_vote(p.id, &voter("B"), 11), None);
    store.update_proposal_status(p.id, "Active".to_string()).unwrap();
    assert_eq!(store.check_vote(p.id, &voter("B"), 11), Some(GovernanceError::InvalidState));
    assert_eq!(store.last_vote_id(), 1);
    assert_eq!(store.get_proposal_votes(p.id).len(), 1);
}

#[test]
fn a_status_of_any_length_within_reach_has_room() {
    let mut store = GovernanceStore::new(MemoryPool::open());
    let p = store.create_proposal(request(1, 1), voter("o"), 10).unwrap();
    let long = "x".repeat(100_000);
    assert!(store.has_room_for_status(p.id, &long));
    assert!(store.has_room_for_status(p.id + 1, &long));
    let q = store.update_proposal_status(p.id, long.clone()).unwrap();
    assert_eq!(q.status, long);
    assert_eq!(store.get_proposal(p.id).unwrap().status.len(), 100_000);
}
