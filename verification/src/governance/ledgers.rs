//! The two ledgers: proposals by identifier, votes by identifier.
//!
//! A ledger owns its table and is the only way to its records. Neither
//! ledger judges whether a change is allowed: that is the engine's part.
use crate::governance::types::GovernanceError;
use crate::governance::types::Proposal;
use crate::governance::types::ProposalView;
use crate::governance::types::Vote;
use crate::governance::types::VoteView;
use crate::ordered::listing;
use crate::ordered::lemma_first_selected;
use crate::records::fetch;
use crate::records::find_first;
use crate::records::fits;
use crate::records::lemma_fits_by_shape;
use crate::records::records;
use crate::records::scan;
use crate::records::scan_where;
use crate::records::store;
use crate::records::views;
use crate::stable::table_new;
use crate::stable::region_rows;
use crate::stable::table_close;
use crate::stable::table_open;
use crate::stable::table_rows;
use crate::stable::Region;
use crate::stable::Table;
use crate::text::same_bytes;
use crate::text::text_is;
use vstd::prelude::*;

verus! {

/// The proposals that are open to votes at the time `now`: active, with a
/// deadline after `now`.
pub open spec fn open_at(now: u64) -> spec_fn(ProposalView) -> bool {
    |p: ProposalView| p.status == "active"@ && p.voting_deadline > now
}

/// The proposals on one property.
pub open spec fn on_property(property_id: u64) -> spec_fn(ProposalView) -> bool {
    |p: ProposalView| p.property_id == property_id
}

/// The votes on one proposal.
pub open spec fn on_proposal(proposal_id: u64) -> spec_fn(VoteView) -> bool {
    |v: VoteView| v.proposal_id == proposal_id
}

/// The votes of one voter.
pub open spec fn by_voter(voter: Seq<u8>) -> spec_fn(VoteView) -> bool {
    |v: VoteView| v.voter == voter
}

/// The votes of one voter on one proposal.
pub open spec fn by_voter_on(proposal_id: u64, voter: Seq<u8>) -> spec_fn(VoteView) -> bool {
    |v: VoteView| v.proposal_id == proposal_id && v.voter == voter
}

/// The tallies have room for one more vote of the given choice and power.
pub open spec fn vote_fits(p: ProposalView, choice: bool, power: u64) -> bool {
    if choice {
        p.votes_for < u64::MAX && p.voting_power_for + power <= u64::MAX
    } else {
        p.votes_against < u64::MAX && p.voting_power_against + power <= u64::MAX
    }
}

/// The proposal with one more vote of the given choice and power counted:
/// the count of that choice is one higher, its power sum higher by `power`,
/// and nothing else differs.
pub open spec fn with_vote(p: ProposalView, choice: bool, power: u64) -> ProposalView {
    if choice {
        ProposalView {
            votes_for: (p.votes_for + 1) as u64,
            voting_power_for: (p.voting_power_for + power) as u64,
            ..p
        }
    } else {
        ProposalView {
            votes_against: (p.votes_against + 1) as u64,
            voting_power_against: (p.voting_power_against + power) as u64,
            ..p
        }
    }
}

/// The proposal with another status, and nothing else changed.
pub open spec fn with_status(p: ProposalView, status: Seq<char>) -> ProposalView {
    ProposalView { status, ..p }
}

/// The durable map from proposal identifiers to proposals.
pub struct ProposalLedger {
    table: Table,
}

impl View for ProposalLedger {
    type V = Map<u64, ProposalView>;

    /// The proposals that are stored, by identifier.
    closed spec fn view(&self) -> Map<u64, ProposalView> {
        records::<Proposal>(table_rows(self.table))
    }
}

impl ProposalLedger {
    /// A fresh, empty ledger in the region, whatever the region held.
    pub fn new(region: Region) -> (l: ProposalLedger)
        ensures
            l@ == Map::<u64, ProposalView>::empty(),
    {
        let l = ProposalLedger { table: table_new(region) };
        assert(l@ =~= Map::<u64, ProposalView>::empty());
        l
    }

    /// The ledger that the region holds: its proposals are those that are
    /// stored in the region.
    pub fn open(region: Region) -> (l: ProposalLedger)
        ensures
            l@ == records::<Proposal>(region_rows(region)),
    {
        ProposalLedger { table: table_open(region) }
    }

    /// Gives the ledger up for its region, which holds its proposals.
    pub fn close(self) -> (region: Region)
        ensures
            records::<Proposal>(region_rows(region)) == self@,
    {
        table_close(self.table)
    }

    /// Stores a new proposal under its identifier. Fails, and changes
    /// nothing, if the identifier is already taken.
    pub fn insert(&mut self, proposal: &Proposal) -> (r: Result<(), GovernanceError>)
        requires
            fits::<Proposal>(proposal@),
        ensures
            match r {
                Ok(_) => !old(self)@.contains_key(proposal.id) && final(self)@ == old(self)@.insert(
                    proposal.id,
                    proposal@,
                ),
                Err(e) => e == GovernanceError::StorageFailure && old(self)@.contains_key(
                    proposal.id,
                ) && final(self)@ == old(self)@,
            },
    {
        match fetch::<Proposal>(&self.table, proposal.id) {
            Some(_) => Err(GovernanceError::StorageFailure),
            None => {
                store(&mut self.table, proposal.id, proposal);
                Ok(())
            },
        }
    }

    /// The proposal with the given identifier, if there is one.
    pub fn get(&self, id: u64) -> (r: Option<Proposal>)
        ensures
            r is Some <==> self@.contains_key(id),
            r is Some ==> r.unwrap()@ == self@[id],
    {
        fetch::<Proposal>(&self.table, id)
    }

    /// All proposals, in ascending order of their identifiers.
    pub fn list(&self) -> (out: Vec<Proposal>)
        ensures
            views(out@) == listing(self@),
    {
        scan::<Proposal>(&self.table)
    }

    /// The proposals that are active and whose deadline is after `now`, in
    /// ascending order of their identifiers.
    pub fn list_open(&self, now: u64) -> (out: Vec<Proposal>)
        ensures
            views(out@) == listing(self@).filter(open_at(now)),
    {
        let keep = |p: &Proposal| -> (b: bool)
            ensures
                b == open_at(now)(p@),
            { text_is(&p.status, "active") && p.voting_deadline > now };
        scan_where::<Proposal, _>(&self.table, keep, Ghost(open_at(now)))
    }

    /// The proposals on the given property, in ascending order of their
    /// identifiers.
    pub fn list_for_property(&self, property_id: u64) -> (out: Vec<Proposal>)
        ensures
            views(out@) == listing(self@).filter(on_property(property_id)),
    {
        let keep = |p: &Proposal| -> (b: bool)
            ensures
                b == on_property(property_id)(p@),
            { p.property_id == property_id };
        scan_where::<Proposal, _>(&self.table, keep, Ghost(on_property(property_id)))
    }

    /// Counts one vote of the given choice and power on the proposal `id`,
    /// and returns the proposal as it then is. Checks nothing but that the
    /// proposal exists.
    pub fn apply_vote(&mut self, id: u64, choice: bool, power: u64) -> (r: Result<
        Proposal,
        GovernanceError,
    >)
        requires
            old(self)@.contains_key(id) ==> vote_fits(old(self)@[id], choice, power),
        ensures
            match r {
                Ok(p) => old(self)@.contains_key(id) && p@ == with_vote(
                    old(self)@[id],
                    choice,
                    power,
                ) && final(self)@ == old(self)@.insert(id, p@),
                Err(e) => e == GovernanceError::NotFound && !old(self)@.contains_key(id)
                    && final(self)@ == old(self)@,
            },
    {
        match fetch::<Proposal>(&self.table, id) {
            None => Err(GovernanceError::NotFound),
            Some(mut p) => {
                let ghost before = p@;
                if choice {
                    p.votes_for = p.votes_for + 1;
                    p.voting_power_for = p.voting_power_for + power;
                } else {
                    p.votes_against = p.votes_against + 1;
                    p.voting_power_against = p.voting_power_against + power;
                }
                proof {
                    lemma_fits_by_shape::<Proposal>(before, p@);
                }
                store(&mut self.table, id, &p);
                Ok(p)
            },
        }
    }

    /// Overwrites the status of the proposal `id`, whatever it was, and
    /// returns the proposal as it then is.
    pub fn set_status(&mut self, id: u64, status: String) -> (r: Result<Proposal, GovernanceError>)
        requires
            old(self)@.contains_key(id) ==> fits::<Proposal>(with_status(old(self)@[id], status@)),
        ensures
            match r {
                Ok(p) => old(self)@.contains_key(id) && p@ == with_status(old(self)@[id], status@)
                    && final(self)@ == old(self)@.insert(id, p@),
                Err(e) => e == GovernanceError::NotFound && !old(self)@.contains_key(id)
                    && final(self)@ == old(self)@,
            },
    {
        match fetch::<Proposal>(&self.table, id) {
            None => Err(GovernanceError::NotFound),
            Some(mut p) => {
                p.status = status;
                store(&mut self.table, id, &p);
                Ok(p)
            },
        }
    }
}

/// The durable map from vote identifiers to votes.
pub struct VoteLedger {
    table: Table,
}

impl View for VoteLedger {
    type V = Map<u64, VoteView>;

    /// The votes that are stored, by identifier.
    closed spec fn view(&self) -> Map<u64, VoteView> {
        records::<Vote>(table_rows(self.table))
    }
}

impl VoteLedger {
    /// A fresh, empty ledger in the region, whatever the region held.
    pub fn new(region: Region) -> (l: VoteLedger)
        ensures
            l@ == Map::<u64, VoteView>::empty(),
    {
        let l = VoteLedger { table: table_new(region) };
        assert(l@ =~= Map::<u64, VoteView>::empty());
        l
    }

    /// The ledger that the region holds: its votes are those that are
    /// stored in the region.
    pub fn open(region: Region) -> (l: VoteLedger)
        ensures
            l@ == records::<Vote>(region_rows(region)),
    {
        VoteLedger { table: table_open(region) }
    }

    /// Gives the ledger up for its region, which holds its votes.
    pub fn close(self) -> (region: Region)
        ensures
            records::<Vote>(region_rows(region)) == self@,
    {
        table_close(self.table)
    }

    /// Stores a vote under its identifier.
    pub fn insert(&mut self, vote: &Vote)
        requires
            fits::<Vote>(vote@),
        ensures
            final(self)@ == old(self)@.insert(vote.id, vote@),
    {
        store(&mut self.table, vote.id, vote);
    }

    /// The vote with the given identifier, if there is one.
    pub fn get(&self, id: u64) -> (r: Option<Vote>)
        ensures
            r is Some <==> self@.contains_key(id),
            r is Some ==> r.unwrap()@ == self@[id],
    {
        fetch::<Vote>(&self.table, id)
    }

    /// The vote that `voter` cast on the proposal `proposal_id`, if there is
    /// one: of several, the one with the lowest identifier.
    pub fn find_existing(&self, proposal_id: u64, voter: &Vec<u8>) -> (r: Option<Vote>)
        ensures
            r is Some <==> exists|k: u64| #[trigger]
                self@.contains_key(k) && self@[k].proposal_id == proposal_id && self@[k].voter
                    == voter@,
            r is Some ==> r.unwrap()@ == listing(self@).filter(by_voter_on(proposal_id, voter@))[0],
    {
        let keep = |v: &Vote| -> (b: bool)
            ensures
                b == by_voter_on(proposal_id, voter@)(v@),
            { v.proposal_id == proposal_id && same_bytes(&v.voter, voter) };
        match find_first::<Vote, _>(&self.table, keep, Ghost(by_voter_on(proposal_id, voter@))) {
            Some((k, vote)) => {
                proof {
                    lemma_first_selected(self@, by_voter_on(proposal_id, voter@), k);
                }
                Some(vote)
            },
            None => None,
        }
    }

    /// The votes on the given proposal, in ascending order of their
    /// identifiers.
    pub fn list_for_proposal(&self, proposal_id: u64) -> (out: Vec<Vote>)
        ensures
            views(out@) == listing(self@).filter(on_proposal(proposal_id)),
    {
        let keep = |v: &Vote| -> (b: bool)
            ensures
                b == on_proposal(proposal_id)(v@),
            { v.proposal_id == proposal_id };
        scan_where::<Vote, _>(&self.table, keep, Ghost(on_proposal(proposal_id)))
    }

    /// The votes of the given voter, in ascending order of their
    /// identifiers.
    pub fn list_for_voter(&self, voter: &Vec<u8>) -> (out: Vec<Vote>)
        ensures
            views(out@) == listing(self@).filter(by_voter(voter@)),
    {
        let keep = |v: &Vote| -> (b: bool)
            ensures
                b == by_voter(voter@)(v@),
            { same_bytes(&v.voter, voter) };
        scan_where::<Vote, _>(&self.table, keep, Ghost(by_voter(voter@)))
    }
}

} // verus!
