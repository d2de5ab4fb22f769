use tokenized_estate::governance::ledgers::ProposalLedger;
use tokenized_estate::governance::ledgers::VoteLedger;
use tokenized_estate::governance::types::GovernanceError;
use tokenized_estate::governance::types::Proposal;
use tokenized_estate::governance::types::Vote;
use tokenized_estate::ids::IdAllocator;
use tokenized_estate::stable::MemoryPool;
use tokenized_estate::stable::Region;

fn proposal(id: u64, property_id: u64) -> Proposal {
    Proposal {
        id,
        property_id,
        title: format!("proposal {}", id),
        description: String::new(),
        proposal_type: "improvement".to_string(),
        proposer: vec![7],
        votes_for: 0,
        votes_against: 0,
        voting_power_for: 0,
        voting_power_against: 0,
        status: "active".to_string(),
        created_at: 100,
        voting_deadline: 200,
        execution_data: None,
    }
}

fn region() -> Region {
    MemoryPool::open().split(0, 1, 2).0
}

fn vote(id: u64, proposal_id: u64, voter: u8, vote_choice: bool) -> Vote {
    Vote { id, proposal_id, voter: vec![voter], vote_power: id * 10, vote_choice, timestamp: 150 }
}

#[test]
fn the_allocator_counts_each_sequence_from_one() {
    let mut ids = IdAllocator::new(region());
    assert_eq!(ids.last(0), 0);
    assert_eq!(ids.last(1), 0);
    assert_eq!(ids.next(0), 1);
    assert_eq!(ids.next(0), 2);
    assert_eq!(ids.next(1), 1);
    assert_eq!(ids.next(0), 3);
    assert_eq!(ids.next(255), 1);
    assert_eq!(ids.last(0), 3);
    assert_eq!(ids.last(1), 1);
    assert_eq!(ids.last(2), 0);
    assert_eq!(ids.last(255), 1);
}

#[test]
fn identifiers_strictly_ascend_and_never_repeat() {
    let mut ids = IdAllocator::new(region());
    let mut seen = [Vec::new(), Vec::new(), Vec::new()];
    for i in 0..300usize {
        let key = (i * 7 % 3) as u8;
        seen[key as usize].push(ids.next(key));
    }
    for issued in seen.iter() {
        assert_eq!(issued.len(), 100);
        for pair in issued.windows(2) {
            assert!(pair[0] < pair[1]);
        }
        assert_eq!(issued[0], 1);
        assert_eq!(issued[99], 100);
    }
}

#[test]
fn starting_a_sequence_leaves_a_stored_counter_as_it_is() {
    let mut ids = IdAllocator::new(region());
    ids.start(4);
    assert_eq!(ids.last(4), 0);
    ids.next(4);
    ids.next(4);
    ids.next(5);
    ids.start(4);
    ids.start(5);
    ids.start(6);
    assert_eq!((ids.last(4), ids.last(5), ids.last(6)), (2, 1, 0));
    assert_eq!(ids.next(4), 3);
    assert_eq!(ids.next(6), 1);
}

#[test]
fn a_counter_survives_reopening_its_region() {
    let mut ids = IdAllocator::new(region());
    ids.next(0);
    ids.next(0);
    ids.next(1);
    let mut again = IdAllocator::open(ids.close());
    assert_eq!(again.last(0), 2);
    assert_eq!(again.next(0), 3);
    assert_eq!(again.next(1), 2);
}

#[test]
fn ledgers_in_different_regions_do_not_touch_each_other() {
    let (_, first, second) = MemoryPool::open().split(0, 1, 2);
    let mut proposals = ProposalLedger::new(first);
    let mut votes = VoteLedger::new(second);
    proposals.insert(&proposal(1, 1)).unwrap();
    votes.insert(&vote(1, 1, 1, true));
    votes.insert(&vote(2, 1, 2, true));
    assert_eq!(proposals.list().len(), 1);
    assert_eq!(votes.list_for_proposal(1).len(), 2);
    assert_eq!(proposals.get(2), None);
    assert_eq!(votes.get(2), Some(vote(2, 1, 2, true)));
    assert_eq!(votes.get(3), None);
}

#[test]
fn insert_refuses_an_identifier_that_is_taken() {
    let mut ledger = ProposalLedger::new(region());
    assert_eq!(ledger.insert(&proposal(5, 1)), Ok(()));
    let other = Proposal { title: "another".to_string(), ..proposal(5, 2) };
    assert_eq!(ledger.insert(&other), Err(GovernanceError::StorageFailure));
    assert_eq!(ledger.get(5), Some(proposal(5, 1)));
    assert_eq!(ledger.list(), vec![proposal(5, 1)]);
}

#[test]
fn the_ledger_lists_in_ascending_order_whatever_the_order_of_insertion() {
    let mut ledger = ProposalLedger::new(region());
    for id in [40u64, 3, 1000, 7, 1, u64::MAX, 0] {
        ledger.insert(&proposal(id, id % 2)).unwrap();
    }
    let ids: Vec<u64> = ledger.list().iter().map(|p| p.id).collect();
    assert_eq!(ids, vec![0, 1, 3, 7, 40, 1000, u64::MAX]);
    let odd: Vec<u64> = ledger.list_for_property(1).iter().map(|p| p.id).collect();
    assert_eq!(odd, vec![1, 3, 7, u64::MAX]);
}

#[test]
fn list_open_wants_the_active_status_and_a_deadline_ahead() {
    let mut ledger = ProposalLedger::new(region());
    ledger.insert(&proposal(1, 1)).unwrap();
    ledger.insert(&Proposal { status: "passed".to_string(), ..proposal(2, 1) }).unwrap();
    ledger.insert(&Proposal { voting_deadline: 300, ..proposal(3, 1) }).unwrap();
    let open = |now: u64| -> Vec<u64> { ledger.list_open(now).iter().map(|p| p.id).collect() };
    assert_eq!(open(0), vec![1, 3]);
    assert_eq!(open(199), vec![1, 3]);
    assert_eq!(open(200), vec![3]);
    assert_eq!(open(299), vec![3]);
    assert_eq!(open(300), Vec::<u64>::new());
}

#[test]
fn apply_vote_raises_one_count_and_one_sum_and_checks_nothing_else() {
    let mut ledger = ProposalLedger::new(region());
    let closed = Proposal { status: "executed".to_string(), voting_deadline: 0, ..proposal(1, 1) };
    ledger.insert(&closed).unwrap();
    let p = ledger.apply_vote(1, true, 25).unwrap();
    assert_eq!(p, Proposal { votes_for: 1, voting_power_for: 25, ..closed.clone() });
    let p = ledger.apply_vote(1, false, 4).unwrap();
    let last = ledger.apply_vote(1, false, 0).unwrap();
    assert_eq!(p.votes_against, 1);
    assert_eq!(
        last,
        Proposal {
            votes_for: 1,
            voting_power_for: 25,
            votes_against: 2,
            voting_power_against: 4,
            ..closed
        }
    );
    assert_eq!(ledger.get(1), Some(last));
    assert_eq!(ledger.apply_vote(2, true, 1), Err(GovernanceError::NotFound));
    assert_eq!(ledger.list().len(), 1);
}

#[test]
fn set_status_overwrites_without_asking() {
    let mut ledger = ProposalLedger::new(region());
    ledger.insert(&proposal(1, 1)).unwrap();
    let p = ledger.set_status(1, "executed".to_string()).unwrap();
    assert_eq!(p, Proposal { status: "executed".to_string(), ..proposal(1, 1) });
    let p = ledger.set_status(1, "active".to_string()).unwrap();
    assert_eq!(p, proposal(1, 1));
    let p = ledger.set_status(1, String::new()).unwrap();
    assert_eq!(p.status, "");
    assert_eq!(ledger.set_status(9, "passed".to_string()), Err(GovernanceError::NotFound));
}

#[test]
fn find_existing_finds_the_vote_of_a_voter_on_a_proposal() {
    let mut ledger = VoteLedger::new(region());
    assert_eq!(ledger.find_existing(1, &vec![1]), None);
    ledger.insert(&vote(1, 1, 1, true));
    ledger.insert(&vote(2, 2, 1, false));
    ledger.insert(&vote(3, 1, 2, false));
    assert_eq!(ledger.find_existing(1, &vec![1]), Some(vote(1, 1, 1, true)));
    assert_eq!(ledger.find_existing(2, &vec![1]), Some(vote(2, 2, 1, false)));
    assert_eq!(ledger.find_existing(1, &vec![2]), Some(vote(3, 1, 2, false)));
    assert_eq!(ledger.find_existing(2, &vec![2]), None);
    assert_eq!(ledger.find_existing(1, &vec![1, 0]), None);
    assert_eq!(ledger.find_existing(1, &vec![]), None);
    // of several, the one with the lowest identifier
    ledger.insert(&vote(9, 2, 2, true));
    ledger.insert(&vote(4, 2, 2, false));
    assert_eq!(ledger.find_existing(2, &vec![2]), Some(vote(4, 2, 2, false)));
}

#[test]
fn votes_are_listed_in_ascending_order() {
    let mut ledger = VoteLedger::new(region());
    for (id, pid, who) in [(5u64, 1u64, 1u8), (2, 1, 2), (9, 2, 1), (1, 2, 2), (3, 1, 3)] {
        ledger.insert(&vote(id, pid, who, id % 2 == 0));
    }
    let on_one: Vec<u64> = ledger.list_for_proposal(1).iter().map(|v| v.id).collect();
    assert_eq!(on_one, vec![2, 3, 5]);
    let by_one: Vec<u64> = ledger.list_for_voter(&vec![1]).iter().map(|v| v.id).collect();
    assert_eq!(by_one, vec![5, 9]);
    assert!(ledger.list_for_proposal(3).is_empty());
}

#[test]
fn a_vote_stored_twice_under_one_identifier_is_stored_once() {
    let mut ledger = VoteLedger::new(region());
    ledger.insert(&vote(1, 1, 1, true));
    ledger.insert(&vote(1, 1, 2, false));
    assert_eq!(ledger.list_for_proposal(1), vec![vote(1, 1, 2, false)]);
}

#[test]
fn a_ledger_survives_reopening_its_region() {
    let (_, _, fourth) = MemoryPool::open().split(0, 200, 4);
    let mut ledger = ProposalLedger::new(fourth);
    ledger.insert(&proposal(1, 1)).unwrap();
    ledger.insert(&proposal(2, 1)).unwrap();
    let again = ProposalLedger::open(ledger.close());
    assert_eq!(again.list(), vec![proposal(1, 1), proposal(2, 1)]);
    let fresh = ProposalLedger::new(again.close());
    assert!(fresh.list().is_empty());
    let empty = ProposalLedger::open(fresh.close());
    assert!(empty.list().is_empty());
}

#[test]
fn a_region_that_held_nothing_opens_empty() {
    let (a, b, c) = MemoryPool::open().split(7, 8, 254);
    assert!(ProposalLedger::open(a).list().is_empty());
    assert!(VoteLedger::open(b).list_for_proposal(1).is_empty());
    assert_eq!(IdAllocator::open(c).last(0), 0);
}

#[test]
fn a_vote_ledger_is_opened_as_it_was_closed() {
    let mut ledger = VoteLedger::new(region());
    ledger.insert(&vote(1, 1, 1, true));
    ledger.insert(&vote(2, 1, 2, false));
    let again = VoteLedger::open(ledger.close());
    assert_eq!(again.list_for_proposal(1), vec![vote(1, 1, 1, true), vote(2, 1, 2, false)]);
}
