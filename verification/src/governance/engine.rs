//! The voting engine: creates proposals and admits votes through the two
//! ledgers and the identifier allocator, and answers queries from them.
//!
//! The engine keeps no state of its own. What it keeps true of the ledgers is
//! [`consistent`]: identifiers come from the allocator, a vote names a stored
//! proposal, a voter has at most one vote on a proposal, and the tallies of a
//! proposal are the counts and sums of the votes stored for it.
use crate::governance::ledgers::by_voter;
use crate::governance::ledgers::on_property;
use crate::governance::ledgers::on_proposal;
use crate::governance::ledgers::open_at;
use crate::governance::ledgers::vote_fits;
use crate::governance::ledgers::with_status;
use crate::governance::ledgers::with_vote;
use crate::governance::ledgers::ProposalLedger;
use crate::governance::ledgers::VoteLedger;
use crate::governance::result::project;
use crate::governance::result::projection;
use crate::governance::result::result_fits;
use crate::governance::result::ProposalResult;
use crate::governance::result::ASSUMED_ELIGIBLE_VOTERS;
use crate::governance::tally::counted;
use crate::governance::tally::lemma_counted_after_vote;
use crate::governance::tally::tallies_match;
use crate::governance::tally::vote_count;
use crate::governance::tally::vote_power;
use crate::governance::tally::votes_counted;
use crate::governance::types::copy_opt_text;
use crate::governance::types::opt_text_view;
use crate::governance::types::CastVoteRequest;
use crate::governance::types::CreateProposalRequest;
use crate::governance::types::GovernanceError;
use crate::governance::types::Proposal;
use crate::governance::types::ProposalView;
use crate::governance::types::Vote;
use crate::governance::types::VoteView;
use crate::ids::counters_of;
use crate::ids::issue;
use crate::ids::level;
use crate::ids::IdAllocator;
use crate::ordered::lemma_selection_empty;
use crate::ordered::listing;
use crate::records::can_store;
use crate::records::fits;
use crate::records::records;
use crate::records::views;
use crate::stable::region_rows;
use crate::stable::MemoryPool;
use crate::stable::Region;
use crate::text::copy_bytes;
use crate::text::text_is;
use vstd::prelude::*;

verus! {

/// The sequence of proposal identifiers.
pub const PROPOSAL_SEQUENCE: u8 = 0;

/// The sequence of vote identifiers.
pub const VOTE_SEQUENCE: u8 = 1;

/// The length of a day in the ledgers' time unit, the nanosecond.
pub const NANOS_PER_DAY: u64 = 86_400_000_000_000;

/// No voter has two votes on one proposal.
pub open spec fn one_vote_per_voter(votes: Map<u64, VoteView>) -> bool {
    forall|a: u64, b: u64|
        votes.contains_key(a) && votes.contains_key(b) && (#[trigger] votes[a]).proposal_id == (
        #[trigger] votes[b]).proposal_id && votes[a].voter == votes[b].voter ==> a == b
}

/// The ledgers and the counters agree with each other.
pub open spec fn consistent(
    counters: Map<u8, u64>,
    proposals: Map<u64, ProposalView>,
    votes: Map<u64, VoteView>,
) -> bool {
    &&& forall|k: u64| #[trigger]
        proposals.contains_key(k) ==> {
            &&& proposals[k].id == k
            &&& 1 <= k <= level(counters, PROPOSAL_SEQUENCE)
            &&& proposals[k].created_at <= proposals[k].voting_deadline
            &&& tallies_match(proposals[k], votes)
        }
    &&& forall|k: u64| #[trigger]
        votes.contains_key(k) ==> {
            &&& votes[k].id == k
            &&& 1 <= k <= level(counters, VOTE_SEQUENCE)
            &&& proposals.contains_key(votes[k].proposal_id)
        }
    &&& one_vote_per_voter(votes)
}

/// The proposal that a request creates under the identifier `id`, for the
/// proposer `proposer` at the time `now`: active, with zeroed tallies, and
/// with its deadline the requested number of days after `now`.
pub open spec fn new_proposal(
    id: u64,
    req: CreateProposalRequest,
    proposer: Seq<u8>,
    now: u64,
) -> ProposalView {
    ProposalView {
        id,
        property_id: req.property_id,
        title: req.title@,
        description: req.description@,
        proposal_type: req.proposal_type@,
        proposer,
        votes_for: 0,
        votes_against: 0,
        voting_power_for: 0,
        voting_power_against: 0,
        status: "active"@,
        created_at: now,
        voting_deadline: (now + req.voting_duration_days * NANOS_PER_DAY) as u64,
        execution_data: opt_text_view(req.execution_data),
    }
}

/// The vote that a request records under the identifier `id`, for the voter
/// `voter` at the time `now`.
pub open spec fn new_vote(id: u64, req: CastVoteRequest, voter: Seq<u8>, now: u64) -> VoteView {
    VoteView {
        id,
        proposal_id: req.proposal_id,
        voter,
        vote_power: req.voting_power,
        vote_choice: req.vote_choice,
        timestamp: now,
    }
}

/// Why a vote of `voter` on the proposal `proposal_id` at the time `now` is
/// refused, or `None` if it is admitted. The checks come in this order:
/// the proposal exists, it is active, its deadline has not passed, the voter
/// has no vote on it yet.
pub open spec fn verdict(
    proposals: Map<u64, ProposalView>,
    votes: Map<u64, VoteView>,
    proposal_id: u64,
    voter: Seq<u8>,
    now: u64,
) -> Option<GovernanceError> {
    if !proposals.contains_key(proposal_id) {
        Some(GovernanceError::NotFound)
    } else if proposals[proposal_id].status != "active"@ {
        Some(GovernanceError::InvalidState)
    } else if now > proposals[proposal_id].voting_deadline {
        Some(GovernanceError::DeadlinePassed)
    } else if exists|k: u64| #[trigger]
        votes.contains_key(k) && votes[k].proposal_id == proposal_id && votes[k].voter == voter {
        Some(GovernanceError::DuplicateVote)
    } else {
        None
    }
}

/// Creating a proposal under the next identifier keeps the ledgers
/// consistent.
pub proof fn lemma_create_keeps_consistent(
    counters: Map<u8, u64>,
    proposals: Map<u64, ProposalView>,
    votes: Map<u64, VoteView>,
    p: ProposalView,
)
    requires
        consistent(counters, proposals, votes),
        level(counters, PROPOSAL_SEQUENCE) < u64::MAX,
        p.id == level(counters, PROPOSAL_SEQUENCE) + 1,
        p.created_at <= p.voting_deadline,
        p.votes_for == 0,
        p.votes_against == 0,
        p.voting_power_for == 0,
        p.voting_power_against == 0,
    ensures
        !proposals.contains_key(p.id),
        consistent(issue(counters, PROPOSAL_SEQUENCE), proposals.insert(p.id, p), votes),
{
    let after = proposals.insert(p.id, p);
    assert forall|k: u64| votes.contains_key(k) implies !counted(p.id, true)(#[trigger] votes[k])
        && !counted(p.id, false)(votes[k]) by {
        assert(proposals.contains_key(votes[k].proposal_id));
    }
    lemma_selection_empty(votes, counted(p.id, true));
    lemma_selection_empty(votes, counted(p.id, false));
    assert(votes_counted(votes, p.id, true) =~= Seq::<VoteView>::empty());
    assert(votes_counted(votes, p.id, false) =~= Seq::<VoteView>::empty());
    assert(tallies_match(p, votes));
    assert forall|k: u64| #[trigger] after.contains_key(k) implies after[k].id == k && 1 <= k
        <= level(issue(counters, PROPOSAL_SEQUENCE), PROPOSAL_SEQUENCE) && after[k].created_at
        <= after[k].voting_deadline && tallies_match(after[k], votes) by {
        if k != p.id {
            assert(proposals.contains_key(k));
        }
    }
    assert forall|k: u64| #[trigger] votes.contains_key(k) implies votes[k].id == k && 1 <= k
        <= level(issue(counters, PROPOSAL_SEQUENCE), VOTE_SEQUENCE) && after.contains_key(
        votes[k].proposal_id,
    ) by {
        assert(proposals.contains_key(votes[k].proposal_id));
    }
}

/// Admitting a vote under the next identifier, and counting it on its
/// proposal, keeps the ledgers consistent.
pub proof fn lemma_vote_keeps_consistent(
    counters: Map<u8, u64>,
    proposals: Map<u64, ProposalView>,
    votes: Map<u64, VoteView>,
    v: VoteView,
    now: u64,
)
    requires
        consistent(counters, proposals, votes),
        verdict(proposals, votes, v.proposal_id, v.voter, now) is None,
        level(counters, VOTE_SEQUENCE) < u64::MAX,
        v.id == level(counters, VOTE_SEQUENCE) + 1,
        vote_fits(proposals[v.proposal_id], v.vote_choice, v.vote_power),
    ensures
        consistent(
            issue(counters, VOTE_SEQUENCE),
            proposals.insert(
                v.proposal_id,
                with_vote(proposals[v.proposal_id], v.vote_choice, v.vote_power),
            ),
            votes.insert(v.id, v),
        ),
{
    let pid = v.proposal_id;
    let counted_on = with_vote(proposals[pid], v.vote_choice, v.vote_power);
    let after_p = proposals.insert(pid, counted_on);
    let after_v = votes.insert(v.id, v);
    let after_c = issue(counters, VOTE_SEQUENCE);
    assert(forall|x: u64| votes.contains_key(x) ==> x < v.id);
    assert forall|k: u64| #[trigger] after_p.contains_key(k) implies after_p[k].id == k && 1 <= k
        <= level(after_c, PROPOSAL_SEQUENCE) && after_p[k].created_at <= after_p[k].voting_deadline
        && tallies_match(after_p[k], after_v) by {
        assert(proposals.contains_key(k));
        lemma_counted_after_vote(votes, v.id, v, k, true);
        lemma_counted_after_vote(votes, v.id, v, k, false);
    }
    assert forall|k: u64| #[trigger] after_v.contains_key(k) implies after_v[k].id == k && 1 <= k
        <= level(after_c, VOTE_SEQUENCE) && after_p.contains_key(after_v[k].proposal_id) by {
        if k != v.id {
            assert(votes.contains_key(k));
        }
    }
    assert forall|a: u64, b: u64|
        after_v.contains_key(a) && after_v.contains_key(b) && (#[trigger] after_v[a]).proposal_id
            == (#[trigger] after_v[b]).proposal_id && after_v[a].voter
            == after_v[b].voter implies a == b by {
        if a != v.id && b != v.id {
            assert(votes.contains_key(a) && votes.contains_key(b));
            assert(votes[a] == after_v[a] && votes[b] == after_v[b]);
        } else if a != v.id {
            assert(votes.contains_key(a));
        } else if b != v.id {
            assert(votes.contains_key(b));
        }
    }
}

/// Overwriting the status of a proposal keeps the ledgers consistent.
pub proof fn lemma_status_keeps_consistent(
    counters: Map<u8, u64>,
    proposals: Map<u64, ProposalView>,
    votes: Map<u64, VoteView>,
    id: u64,
    status: Seq<char>,
)
    requires
        consistent(counters, proposals, votes),
        proposals.contains_key(id),
    ensures
        consistent(counters, proposals.insert(id, with_status(proposals[id], status)), votes),
{
    let after = proposals.insert(id, with_status(proposals[id], status));
    assert forall|k: u64| #[trigger] after.contains_key(k) implies after[k].id == k && 1 <= k
        <= level(counters, PROPOSAL_SEQUENCE) && after[k].created_at <= after[k].voting_deadline
        && tallies_match(after[k], votes) by {
        assert(proposals.contains_key(k));
    }
    assert forall|k: u64| #[trigger] votes.contains_key(k) implies after.contains_key(
        votes[k].proposal_id,
    ) by {
        assert(proposals.contains_key(votes[k].proposal_id));
    }
}

/// The durable state of governance: the identifier counters, the proposal
/// ledger and the vote ledger.
pub struct GovernanceStore {
    ids: IdAllocator,
    proposals: ProposalLedger,
    votes: VoteLedger,
}

impl GovernanceStore {
    /// The identifier counters, by sequence.
    pub closed spec fn counters(&self) -> Map<u8, u64> {
        self.ids@
    }

    /// The stored proposals, by identifier.
    pub closed spec fn proposals(&self) -> Map<u64, ProposalView> {
        self.proposals@
    }

    /// The stored votes, by identifier.
    pub closed spec fn votes(&self) -> Map<u64, VoteView> {
        self.votes@
    }

    /// The ledgers and the counters agree with each other.
    pub open spec fn wf(&self) -> bool {
        consistent(self.counters(), self.proposals(), self.votes())
    }

    /// The identifier that the next proposal gets.
    pub open spec fn next_proposal_id(&self) -> u64 {
        (level(self.counters(), PROPOSAL_SEQUENCE) + 1) as u64
    }

    /// The identifier that the next vote gets.
    pub open spec fn next_vote_id(&self) -> u64 {
        (level(self.counters(), VOTE_SEQUENCE) + 1) as u64
    }

    /// The store can take the proposal that `req` asks for, for the proposer
    /// `proposer` at the time `now`: the next identifier and the deadline are
    /// within `u64`, and the proposal is short enough to be stored.
    pub open spec fn room_for_proposal(
        &self,
        req: CreateProposalRequest,
        proposer: Seq<u8>,
        now: u64,
    ) -> bool {
        &&& level(self.counters(), PROPOSAL_SEQUENCE) < u64::MAX
        &&& now + req.voting_duration_days * NANOS_PER_DAY <= u64::MAX
        &&& fits::<Proposal>(new_proposal(self.next_proposal_id(), req, proposer, now))
    }

    /// The store can take the vote that `req` asks for, for the voter `voter`
    /// at the time `now`: the next identifier is within `u64` and not taken,
    /// the vote is short enough to be stored, and the proposal, if it
    /// exists, has room in its tallies.
    pub open spec fn room_for_vote(&self, req: CastVoteRequest, voter: Seq<u8>, now: u64) -> bool {
        &&& level(self.counters(), VOTE_SEQUENCE) < u64::MAX
        &&& !self.votes().contains_key(self.next_vote_id())
        &&& fits::<Vote>(new_vote(self.next_vote_id(), req, voter, now))
        &&& self.proposals().contains_key(req.proposal_id) ==> vote_fits(
            self.proposals()[req.proposal_id],
            req.vote_choice,
            req.voting_power,
        )
    }

    /// The proposal `proposal_id`, if it exists, is short enough to be
    /// stored with the status `status`.
    pub open spec fn room_for_status(&self, proposal_id: u64, status: Seq<char>) -> bool {
        self.proposals().contains_key(proposal_id) ==> fits::<Proposal>(
            with_status(self.proposals()[proposal_id], status),
        )
    }

    /// A fresh store in the regions 0, 1 and 2 of the pool, whatever they
    /// held: both ledgers empty, both counters at zero.
    pub fn new(pool: MemoryPool) -> (s: GovernanceStore)
        ensures
            s.wf(),
            s.proposals() == Map::<u64, ProposalView>::empty(),
            s.votes() == Map::<u64, VoteView>::empty(),
            level(s.counters(), PROPOSAL_SEQUENCE) == 0,
            level(s.counters(), VOTE_SEQUENCE) == 0,
    {
        let (counters, proposals, votes) = pool.split(0, 1, 2);
        let mut ids = IdAllocator::new(counters);
        ids.start(PROPOSAL_SEQUENCE);
        ids.start(VOTE_SEQUENCE);
        let proposals = ProposalLedger::new(proposals);
        let votes = VoteLedger::new(votes);
        GovernanceStore { ids, proposals, votes }
    }

    /// The store that the regions 0, 1 and 2 of the pool hold: whatever
    /// counters and ledgers are stored there, and empty ones where none are.
    pub fn open(pool: MemoryPool) -> (s: GovernanceStore) {
        let (counters, proposals, votes) = pool.split(0, 1, 2);
        GovernanceStore::load(counters, proposals, votes)
    }

    /// The store that three regions hold: its counters, proposals and votes
    /// are those that are stored in the regions.
    pub fn load(counters: Region, proposals: Region, votes: Region) -> (s: GovernanceStore)
        ensures
            s.counters() == counters_of(region_rows(counters)),
            s.proposals() == records::<Proposal>(region_rows(proposals)),
            s.votes() == records::<Vote>(region_rows(votes)),
    {
        GovernanceStore {
            ids: IdAllocator::open(counters),
            proposals: ProposalLedger::open(proposals),
            votes: VoteLedger::open(votes),
        }
    }

    /// Gives the store up for its three regions, which hold its counters,
    /// its proposals and its votes, in this order. A store loaded from them
    /// is as this one was.
    pub fn close(self) -> (regions: (Region, Region, Region))
        ensures
            counters_of(region_rows(regions.0)) == self.counters(),
            records::<Proposal>(region_rows(regions.1)) == self.proposals(),
            records::<Vote>(region_rows(regions.2)) == self.votes(),
    {
        (self.ids.close(), self.proposals.close(), self.votes.close())
    }

    /// Starts both sequences: stores a counter of zero where none is stored,
    /// and leaves a stored counter as it is. Nothing that is stored changes,
    /// and no sequence stands elsewhere afterwards than before.
    pub fn init(&mut self)
        ensures
            final(self).counters().contains_key(PROPOSAL_SEQUENCE),
            final(self).counters().contains_key(VOTE_SEQUENCE),
            forall|k: u8| level(final(self).counters(), k) == level(old(self).counters(), k),
            final(self).proposals() == old(self).proposals(),
            final(self).votes() == old(self).votes(),
            old(self).wf() ==> final(self).wf(),
    {
        self.ids.start(PROPOSAL_SEQUENCE);
        self.ids.start(VOTE_SEQUENCE);
    }

    /// The identifier that was last given to a proposal, or zero.
    pub fn last_proposal_id(&self) -> (id: u64)
        ensures
            id == level(self.counters(), PROPOSAL_SEQUENCE),
    {
        self.ids.last(PROPOSAL_SEQUENCE)
    }

    /// The identifier that was last given to a vote, or zero.
    pub fn last_vote_id(&self) -> (id: u64)
        ensures
            id == level(self.counters(), VOTE_SEQUENCE),
    {
        self.ids.last(VOTE_SEQUENCE)
    }

    /// Whether the store can take the proposal that `req` asks for, for the
    /// proposer `proposer` at the time `now`.
    pub fn has_room_for_proposal(
        &self,
        req: &CreateProposalRequest,
        proposer: &Vec<u8>,
        now: u64,
    ) -> (b: bool)
        ensures
            b == self.room_for_proposal(*req, proposer@, now),
    {
        let last = self.ids.last(PROPOSAL_SEQUENCE);
        if last == u64::MAX {
            return false;
        }
        let voting_deadline = match req.voting_duration_days.checked_mul(NANOS_PER_DAY) {
            None => { return false; },
            Some(span) => match now.checked_add(span) {
                None => { return false; },
                Some(d) => d,
            },
        };
        let draft = Proposal {
            id: last + 1,
            property_id: req.property_id,
            title: req.title.clone(),
            description: req.description.clone(),
            proposal_type: req.proposal_type.clone(),
            proposer: copy_bytes(proposer),
            votes_for: 0,
            votes_against: 0,
            voting_power_for: 0,
            voting_power_against: 0,
            status: "active".to_owned(),
            created_at: now,
            voting_deadline,
            execution_data: copy_opt_text(&req.execution_data),
        };
        can_store(&draft)
    }

    /// Why a vote of `voter` on the proposal `proposal_id` at the time `now`
    /// would be refused, or `None` if it would be admitted. Changes nothing.
    pub fn check_vote(&self, proposal_id: u64, voter: &Vec<u8>, now: u64) -> (r: Option<
        GovernanceError,
    >)
        ensures
            r == verdict(self.proposals(), self.votes(), proposal_id, voter@, now),
    {
        let proposal = match self.proposals.get(proposal_id) {
            Some(p) => p,
            None => { return Some(GovernanceError::NotFound); },
        };
        if !text_is(&proposal.status, "active") {
            return Some(GovernanceError::InvalidState);
        }
        if now > proposal.voting_deadline {
            return Some(GovernanceError::DeadlinePassed);
        }
        if self.votes.find_existing(proposal_id, voter).is_some() {
            return Some(GovernanceError::DuplicateVote);
        }
        None
    }

    /// Whether the store can take the vote that `req` asks for, for the
    /// voter `voter` at the time `now`.
    pub fn has_room_for_vote(&self, req: &CastVoteRequest, voter: &Vec<u8>, now: u64) -> (b: bool)
        ensures
            b == self.room_for_vote(*req, voter@, now),
    {
        let last = self.ids.last(VOTE_SEQUENCE);
        if last == u64::MAX {
            return false;
        }
        if self.votes.get(last + 1).is_some() {
            return false;
        }
        let draft = Vote {
            id: last + 1,
            proposal_id: req.proposal_id,
            voter: copy_bytes(voter),
            vote_power: req.voting_power,
            vote_choice: req.vote_choice,
            timestamp: now,
        };
        if !can_store(&draft) {
            return false;
        }
        match self.proposals.get(req.proposal_id) {
            None => true,
            Some(p) => if req.vote_choice {
                p.votes_for < u64::MAX && p.voting_power_for.checked_add(req.voting_power).is_some()
            } else {
                p.votes_against < u64::MAX && p.voting_power_against.checked_add(
                    req.voting_power,
                ).is_some()
            },
        }
    }

    /// Whether the proposal `proposal_id`, if it exists, is short enough to
    /// be stored with the status `status`.
    pub fn has_room_for_status(&self, proposal_id: u64, status: &String) -> (b: bool)
        ensures
            b == self.room_for_status(proposal_id, status@),
    {
        match self.proposals.get(proposal_id) {
            None => true,
            Some(mut p) => {
                p.status = status.clone();
                can_store(&p)
            },
        }
    }

    /// The store takes the proposal that `req` asks for: there is room for
    /// it, and the next identifier is not taken.
    pub open spec fn takes_proposal(
        &self,
        req: CreateProposalRequest,
        proposer: Seq<u8>,
        now: u64,
    ) -> bool {
        &&& self.room_for_proposal(req, proposer, now)
        &&& !self.proposals().contains_key(self.next_proposal_id())
    }

    /// Creates a proposal: issues the next proposal identifier, and stores
    /// under it an active proposal with zeroed tallies whose deadline is the
    /// requested number of days after `now`. Where the store does not take
    /// the proposal, the result is `StorageFailure` and nothing changes. A
    /// consistent store takes every proposal that it has room for.
    pub fn create_proposal(&mut self, req: CreateProposalRequest, proposer: Vec<u8>, now: u64) -> (r:
        Result<Proposal, GovernanceError>)
        ensures
            final(self).votes() == old(self).votes(),
            match r {
                Ok(p) => {
                    &&& old(self).takes_proposal(req, proposer@, now)
                    &&& p@ == new_proposal(old(self).next_proposal_id(), req, proposer@, now)
                    &&& final(self).counters() == issue(old(self).counters(), PROPOSAL_SEQUENCE)
                    &&& final(self).proposals() == old(self).proposals().insert(p.id, p@)
                },
                Err(e) => {
                    &&& !old(self).takes_proposal(req, proposer@, now)
                    &&& e == GovernanceError::StorageFailure
                    &&& final(self).counters() == old(self).counters()
                    &&& final(self).proposals() == old(self).proposals()
                },
            },
            old(self).wf() ==> final(self).wf(),
            old(self).wf() && old(self).room_for_proposal(req, proposer@, now) ==> r is Ok,
    {
        if !self.has_room_for_proposal(&req, &proposer, now) {
            return Err(GovernanceError::StorageFailure);
        }
        if self.proposals.get(self.ids.last(PROPOSAL_SEQUENCE) + 1).is_some() {
            return Err(GovernanceError::StorageFailure);
        }
        let id = self.ids.next(PROPOSAL_SEQUENCE);
        let voting_deadline = now + req.voting_duration_days * NANOS_PER_DAY;
        let proposal = Proposal {
            id,
            property_id: req.property_id,
            title: req.title,
            description: req.description,
            proposal_type: req.proposal_type,
            proposer,
            votes_for: 0,
            votes_against: 0,
            voting_power_for: 0,
            voting_power_against: 0,
            status: "active".to_owned(),
            created_at: now,
            voting_deadline,
            execution_data: req.execution_data,
        };
        proof {
            if old(self).wf() {
                lemma_create_keeps_consistent(
                    old(self).counters(),
                    old(self).proposals(),
                    old(self).votes(),
                    proposal@,
                );
            }
        }
        let stored = self.proposals.insert(&proposal);
        assert(stored is Ok);
        Ok(proposal)
    }

    /// Casts a vote of `voter` at the time `now`. The vote is refused with
    /// the error that [`verdict`] names; or, where none is named but the
    /// store has no room for the vote, with `StorageFailure`; and then
    /// nothing changes. Otherwise it is admitted: it is stored under the
    /// next vote identifier and counted on its proposal, both or neither.
    pub fn cast_vote(&mut self, req: CastVoteRequest, voter: Vec<u8>, now: u64) -> (r: Result<
        Vote,
        GovernanceError,
    >)
        ensures
            match verdict(old(self).proposals(), old(self).votes(), req.proposal_id, voter@, now) {
                Some(e) => {
                    &&& r == Err::<Vote, GovernanceError>(e)
                    &&& final(self).counters() == old(self).counters()
                    &&& final(self).proposals() == old(self).proposals()
                    &&& final(self).votes() == old(self).votes()
                },
                None => if old(self).room_for_vote(req, voter@, now) {
                    &&& r is Ok
                    &&& r.unwrap()@ == new_vote(old(self).next_vote_id(), req, voter@, now)
                    &&& final(self).counters() == issue(old(self).counters(), VOTE_SEQUENCE)
                    &&& final(self).votes() == old(self).votes().insert(
                        old(self).next_vote_id(),
                        r.unwrap()@,
                    )
                    &&& final(self).proposals() == old(self).proposals().insert(
                        req.proposal_id,
                        with_vote(
                            old(self).proposals()[req.proposal_id],
                            req.vote_choice,
                            req.voting_power,
                        ),
                    )
                } else {
                    &&& r == Err::<Vote, GovernanceError>(GovernanceError::StorageFailure)
                    &&& final(self).counters() == old(self).counters()
                    &&& final(self).proposals() == old(self).proposals()
                    &&& final(self).votes() == old(self).votes()
                },
            },
            forall|k: u64| #[trigger]
                old(self).votes().contains_key(k) ==> final(self).votes().contains_key(k)
                    && final(self).votes()[k] == old(self).votes()[k],
            one_vote_per_voter(old(self).votes()) ==> one_vote_per_voter(final(self).votes()),
            old(self).wf() ==> final(self).wf(),
            old(self).wf() && verdict(
                old(self).proposals(),
                old(self).votes(),
                req.proposal_id,
                voter@,
                now,
            ) is None && level(old(self).counters(), VOTE_SEQUENCE) < u64::MAX && fits::<Vote>(
                new_vote(old(self).next_vote_id(), req, voter@, now),
            ) && vote_fits(
                old(self).proposals()[req.proposal_id],
                req.vote_choice,
                req.voting_power,
            ) ==> r is Ok,
    {
        match self.check_vote(req.proposal_id, &voter, now) {
            Some(e) => { return Err(e); },
            None => {},
        }
        if !self.has_room_for_vote(&req, &voter, now) {
            return Err(GovernanceError::StorageFailure);
        }
        let id = self.ids.next(VOTE_SEQUENCE);
        let vote = Vote {
            id,
            proposal_id: req.proposal_id,
            voter,
            vote_power: req.voting_power,
            vote_choice: req.vote_choice,
            timestamp: now,
        };
        proof {
            if old(self).wf() {
                lemma_vote_keeps_consistent(
                    old(self).counters(),
                    old(self).proposals(),
                    old(self).votes(),
                    vote@,
                    now,
                );
            }
        }
        self.votes.insert(&vote);
        let counted = self.proposals.apply_vote(req.proposal_id, req.vote_choice, req.voting_power);
        assert(counted is Ok);
        Ok(vote)
    }

    /// All proposals, in ascending order of their identifiers.
    pub fn get_proposals(&self) -> (out: Vec<Proposal>)
        ensures
            views(out@) == listing(self.proposals()),
    {
        self.proposals.list()
    }

    /// The proposals that are active and whose deadline is after `now`, in
    /// ascending order of their identifiers.
    pub fn get_active_proposals(&self, now: u64) -> (out: Vec<Proposal>)
        ensures
            views(out@) == listing(self.proposals()).filter(open_at(now)),
    {
        self.proposals.list_open(now)
    }

    /// The proposal with the given identifier, if there is one.
    pub fn get_proposal(&self, proposal_id: u64) -> (r: Option<Proposal>)
        ensures
            r is Some <==> self.proposals().contains_key(proposal_id),
            r is Some ==> r.unwrap()@ == self.proposals()[proposal_id],
    {
        self.proposals.get(proposal_id)
    }

    /// The proposals on the given property, in ascending order of their
    /// identifiers.
    pub fn get_property_proposals(&self, property_id: u64) -> (out: Vec<Proposal>)
        ensures
            views(out@) == listing(self.proposals()).filter(on_property(property_id)),
    {
        self.proposals.list_for_property(property_id)
    }

    /// The votes on the given proposal, in ascending order of their
    /// identifiers.
    pub fn get_proposal_votes(&self, proposal_id: u64) -> (out: Vec<Vote>)
        ensures
            views(out@) == listing(self.votes()).filter(on_proposal(proposal_id)),
    {
        self.votes.list_for_proposal(proposal_id)
    }

    /// The votes of the given voter, in ascending order of their
    /// identifiers.
    pub fn get_user_votes(&self, voter: &Vec<u8>) -> (out: Vec<Vote>)
        ensures
            views(out@) == listing(self.votes()).filter(by_voter(voter@)),
    {
        self.votes.list_for_voter(voter)
    }

    /// Overwrites the status of a proposal with `new_status`, whatever the
    /// two are, and returns the proposal as it then is. Fails, and changes
    /// nothing, with `NotFound` if there is no such proposal, and otherwise
    /// with `StorageFailure` if the proposal is too long to be stored with
    /// the new status.
    pub fn update_proposal_status(&mut self, proposal_id: u64, new_status: String) -> (r: Result<
        Proposal,
        GovernanceError,
    >)
        ensures
            final(self).counters() == old(self).counters(),
            final(self).votes() == old(self).votes(),
            match r {
                Ok(p) => {
                    &&& old(self).proposals().contains_key(proposal_id)
                    &&& old(self).room_for_status(proposal_id, new_status@)
                    &&& p@ == with_status(old(self).proposals()[proposal_id], new_status@)
                    &&& final(self).proposals() == old(self).proposals().insert(proposal_id, p@)
                },
                Err(e) => {
                    &&& final(self).proposals() == old(self).proposals()
                    &&& if !old(self).proposals().contains_key(proposal_id) {
                        e == GovernanceError::NotFound
                    } else {
                        e == GovernanceError::StorageFailure && !old(self).room_for_status(
                            proposal_id,
                            new_status@,
                        )
                    }
                },
            },
            old(self).wf() ==> final(self).wf(),
    {
        if !self.has_room_for_status(proposal_id, &new_status) {
            return Err(GovernanceError::StorageFailure);
        }
        proof {
            if old(self).wf() && old(self).proposals().contains_key(proposal_id) {
                lemma_status_keeps_consistent(
                    old(self).counters(),
                    old(self).proposals(),
                    old(self).votes(),
                    proposal_id,
                    new_status@,
                );
            }
        }
        self.proposals.set_status(proposal_id, new_status)
    }

    /// The aggregates of a proposal, with participation measured against
    /// [`ASSUMED_ELIGIBLE_VOTERS`]; `None` if there is no such proposal.
    pub fn get_proposal_result(&self, proposal_id: u64) -> (r: Option<ProposalResult>)
        requires
            self.proposals().contains_key(proposal_id) ==> result_fits(
                self.proposals()[proposal_id],
            ),
        ensures
            r is Some <==> self.proposals().contains_key(proposal_id),
            r is Some ==> r.unwrap()@ == projection(
                self.proposals()[proposal_id],
                ASSUMED_ELIGIBLE_VOTERS,
            ),
    {
        match self.proposals.get(proposal_id) {
            None => None,
            Some(p) => Some(project(p, ASSUMED_ELIGIBLE_VOTERS)),
        }
    }
}

} // verus!
