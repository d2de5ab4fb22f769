//! What holds of every consistent store. A store is consistent when it is
//! made, and every operation of the engine keeps it so.
use crate::governance::engine::consistent;
use crate::governance::engine::PROPOSAL_SEQUENCE;
use crate::governance::engine::VOTE_SEQUENCE;
use crate::governance::ledgers::by_voter_on;
use crate::governance::ledgers::on_proposal;
use crate::governance::result::projection;
use crate::governance::result::Ratio;
use crate::governance::tally::counted;
use crate::governance::tally::lemma_for_and_against;
use crate::governance::tally::total_power;
use crate::governance::tally::vote_count;
use crate::governance::tally::vote_power;
use crate::governance::tally::votes_counted;
use crate::governance::types::ProposalView;
use crate::governance::types::VoteView;
use crate::ids::level;
use crate::ordered::lemma_filter_two;
use crate::ordered::lemma_ordered_keys;
use crate::ordered::listing;
use crate::ordered::ordered_keys;
use vstd::prelude::*;

verus! {

/// One voter, one proposal, at most one vote: among the stored votes, those
/// of any one voter on any one proposal are at most one.
pub proof fn lemma_at_most_one_vote(
    counters: Map<u8, u64>,
    proposals: Map<u64, ProposalView>,
    votes: Map<u64, VoteView>,
    proposal_id: u64,
    voter: Seq<u8>,
)
    requires
        consistent(counters, proposals, votes),
    ensures
        listing(votes).filter(by_voter_on(proposal_id, voter)).len() <= 1,
{
    let all = listing(votes);
    let found = all.filter(by_voter_on(proposal_id, voter));
    if found.len() >= 2 {
        let (i, j) = lemma_filter_two(all, by_voter_on(proposal_id, voter));
        all.lemma_filter_pred(by_voter_on(proposal_id, voter), 0);
        all.lemma_filter_pred(by_voter_on(proposal_id, voter), 1);
        lemma_ordered_keys(votes.dom());
        let ks = ordered_keys(votes.dom());
        assert(ks[i] < ks[j]);
        assert(votes.contains_key(ks[i]) && votes.contains_key(ks[j]));
        assert(votes[ks[i]] == all[i] && votes[ks[j]] == all[j]);
    }
}

/// The tallies of a proposal are what its stored votes add up to: the two
/// counts together are the number of stored votes on the proposal, the count
/// for is the number of those with the choice for, the count against the
/// number of those with the choice against, and each power sum is the sum of
/// the powers of the votes with its choice.
pub proof fn lemma_tallies_are_sums(
    counters: Map<u8, u64>,
    proposals: Map<u64, ProposalView>,
    votes: Map<u64, VoteView>,
    proposal_id: u64,
)
    requires
        consistent(counters, proposals, votes),
        proposals.contains_key(proposal_id),
    ensures
        proposals[proposal_id].votes_for + proposals[proposal_id].votes_against == listing(
            votes,
        ).filter(on_proposal(proposal_id)).len(),
        proposals[proposal_id].votes_for == listing(votes).filter(
            counted(proposal_id, true),
        ).len(),
        proposals[proposal_id].votes_against == listing(votes).filter(
            counted(proposal_id, false),
        ).len(),
        proposals[proposal_id].voting_power_for == total_power(
            listing(votes).filter(counted(proposal_id, true)),
        ),
        proposals[proposal_id].voting_power_against == total_power(
            listing(votes).filter(counted(proposal_id, false)),
        ),
{
    lemma_for_and_against(listing(votes), proposal_id);
    assert(proposals[proposal_id].id == proposal_id);
    assert(proposals[proposal_id].votes_for == vote_count(votes, proposal_id, true));
    assert(proposals[proposal_id].voting_power_for == vote_power(votes, proposal_id, true));
}

/// A proposal on which no vote is counted projects to a total voting power
/// of zero and an approval rate of zero, whatever participation is measured
/// against.
pub proof fn lemma_untallied_projects_to_zero(
    counters: Map<u8, u64>,
    proposals: Map<u64, ProposalView>,
    votes: Map<u64, VoteView>,
    proposal_id: u64,
    eligible_voters: u64,
)
    requires
        consistent(counters, proposals, votes),
        proposals.contains_key(proposal_id),
        proposals[proposal_id].votes_for == 0,
        proposals[proposal_id].votes_against == 0,
    ensures
        projection(proposals[proposal_id], eligible_voters).total_voting_power == 0,
        projection(proposals[proposal_id], eligible_voters).approval_rate == (Ratio {
            numerator: 0,
            denominator: 0,
        }),
{
    assert(proposals[proposal_id].id == proposal_id);
    assert(votes_counted(votes, proposal_id, true) =~= Seq::<VoteView>::empty());
    assert(votes_counted(votes, proposal_id, false) =~= Seq::<VoteView>::empty());
}

/// No stored proposal or vote has an identifier that the allocator has not
/// issued yet: every identifier in the ledgers is at least one and at most
/// the counter of its sequence.
pub proof fn lemma_identifiers_were_issued(
    counters: Map<u8, u64>,
    proposals: Map<u64, ProposalView>,
    votes: Map<u64, VoteView>,
)
    requires
        consistent(counters, proposals, votes),
    ensures
        forall|k: u64| #[trigger]
            proposals.contains_key(k) ==> proposals[k].id == k && 1 <= k <= level(
                counters,
                PROPOSAL_SEQUENCE,
            ),
        forall|k: u64| #[trigger]
            votes.contains_key(k) ==> votes[k].id == k && 1 <= k <= level(counters, VOTE_SEQUENCE),
{
}

} // verus!
