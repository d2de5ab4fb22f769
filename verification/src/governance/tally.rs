//! What the tallies of a proposal are: counts and power sums over the votes
//! that are stored for it.
use crate::governance::ledgers::on_proposal;
use crate::governance::types::ProposalView;
use crate::governance::types::VoteView;
use crate::ordered::lemma_filter_push;
use crate::ordered::lemma_listing_push;
use crate::ordered::listing;
use vstd::prelude::*;

verus! {

/// The votes on one proposal with one choice.
pub open spec fn counted(proposal_id: u64, choice: bool) -> spec_fn(VoteView) -> bool {
    |v: VoteView| v.proposal_id == proposal_id && v.vote_choice == choice
}

/// The sum of the powers of a list of votes.
pub open spec fn total_power(vs: Seq<VoteView>) -> nat
    decreases vs.len(),
{
    if vs.len() == 0 {
        0
    } else {
        total_power(vs.drop_last()) + vs.last().vote_power as nat
    }
}

/// The stored votes on the proposal `proposal_id` with the choice `choice`,
/// in ascending order of their identifiers.
pub open spec fn votes_counted(votes: Map<u64, VoteView>, proposal_id: u64, choice: bool) -> Seq<
    VoteView,
> {
    listing(votes).filter(counted(proposal_id, choice))
}

/// How many stored votes on the proposal have the choice.
pub open spec fn vote_count(votes: Map<u64, VoteView>, proposal_id: u64, choice: bool) -> nat {
    votes_counted(votes, proposal_id, choice).len()
}

/// The sum of the powers of the stored votes on the proposal with the choice.
pub open spec fn vote_power(votes: Map<u64, VoteView>, proposal_id: u64, choice: bool) -> nat {
    total_power(votes_counted(votes, proposal_id, choice))
}

/// The tallies of the proposal are the counts and power sums of the stored
/// votes on it.
pub open spec fn tallies_match(p: ProposalView, votes: Map<u64, VoteView>) -> bool {
    &&& p.votes_for == vote_count(votes, p.id, true)
    &&& p.votes_against == vote_count(votes, p.id, false)
    &&& p.voting_power_for == vote_power(votes, p.id, true)
    &&& p.voting_power_against == vote_power(votes, p.id, false)
}

/// Storing a vote above all stored identifiers appends it to the votes that
/// are counted for its proposal and choice, and to no others.
pub proof fn lemma_counted_after_vote(
    votes: Map<u64, VoteView>,
    k: u64,
    v: VoteView,
    proposal_id: u64,
    choice: bool,
)
    requires
        forall|x: u64| votes.contains_key(x) ==> x < k,
    ensures
        votes_counted(votes.insert(k, v), proposal_id, choice) == if v.proposal_id == proposal_id
            && v.vote_choice == choice {
            votes_counted(votes, proposal_id, choice).push(v)
        } else {
            votes_counted(votes, proposal_id, choice)
        },
        vote_count(votes.insert(k, v), proposal_id, choice) == vote_count(
            votes,
            proposal_id,
            choice,
        ) + if v.proposal_id == proposal_id && v.vote_choice == choice {
            1nat
        } else {
            0nat
        },
        vote_power(votes.insert(k, v), proposal_id, choice) == vote_power(
            votes,
            proposal_id,
            choice,
        ) + if v.proposal_id == proposal_id && v.vote_choice == choice {
            v.vote_power as nat
        } else {
            0nat
        },
{
    lemma_listing_push(votes, k, v);
    lemma_filter_push(listing(votes), v, counted(proposal_id, choice));
    let before = votes_counted(votes, proposal_id, choice);
    if v.proposal_id == proposal_id && v.vote_choice == choice {
        assert(before.push(v).drop_last() =~= before);
    }
}

/// Among any votes, those on a proposal are as many as those for it and
/// those against it together.
pub proof fn lemma_for_and_against(vs: Seq<VoteView>, proposal_id: u64)
    ensures
        vs.filter(on_proposal(proposal_id)).len() == vs.filter(counted(proposal_id, true)).len()
            + vs.filter(counted(proposal_id, false)).len(),
    decreases vs.len(),
{
    reveal(Seq::filter);
    if vs.len() > 0 {
        lemma_for_and_against(vs.drop_last(), proposal_id);
    }
}

} // verus!
