//! The result projector: read-only aggregates derived from the tallies that
//! a proposal holds.
//!
//! Rates are exact: a [`Ratio`] holds the two integers of a quotient, and a
//! quotient with the denominator zero stands for the rate zero.
use crate::governance::types::Proposal;
use crate::governance::types::ProposalView;
use vstd::prelude::*;

verus! {

/// The number of eligible voters that participation is measured against
/// where nobody says how many there are.
pub const ASSUMED_ELIGIBLE_VOTERS: u64 = 100;

/// A rate as the quotient of two integers. With a denominator of zero it
/// stands for the rate zero.
#[derive(Clone, Copy, Debug, PartialEq, Eq, Structural)]
pub struct Ratio {
    pub numerator: u64,
    pub denominator: u64,
}

/// The aggregates of one proposal.
#[derive(Clone, Debug, PartialEq, Eq)]
pub struct ProposalResult {
    pub proposal: Proposal,
    pub total_voting_power: u64,
    pub participation_rate: Ratio,
    pub approval_rate: Ratio,
}

/// The mathematical value of a [`ProposalResult`].
pub struct ProposalResultView {
    pub proposal: ProposalView,
    pub total_voting_power: u64,
    pub participation_rate: Ratio,
    pub approval_rate: Ratio,
}

impl View for ProposalResult {
    type V = ProposalResultView;

    open spec fn view(&self) -> ProposalResultView {
        ProposalResultView {
            proposal: self.proposal@,
            total_voting_power: self.total_voting_power,
            participation_rate: self.participation_rate,
            approval_rate: self.approval_rate,
        }
    }
}

/// The sums that a projection takes are within `u64`.
pub open spec fn result_fits(p: ProposalView) -> bool {
    &&& p.voting_power_for + p.voting_power_against <= u64::MAX
    &&& p.votes_for + p.votes_against <= u64::MAX
}

/// The aggregates of a proposal, with participation measured against
/// `eligible_voters`: the total voting power is the power for plus the power
/// against; the approval rate is the power for over the total power; the
/// participation rate is the number of votes over the eligible voters.
pub open spec fn projection(p: ProposalView, eligible_voters: u64) -> ProposalResultView {
    ProposalResultView {
        proposal: p,
        total_voting_power: (p.voting_power_for + p.voting_power_against) as u64,
        participation_rate: Ratio {
            numerator: (p.votes_for + p.votes_against) as u64,
            denominator: eligible_voters,
        },
        approval_rate: Ratio {
            numerator: if p.voting_power_for + p.voting_power_against > 0 {
                p.voting_power_for
            } else {
                0
            },
            denominator: (p.voting_power_for + p.voting_power_against) as u64,
        },
    }
}

/// Whether the sums that a projection of the proposal takes are within
/// `u64`.
pub fn fits_result(proposal: &Proposal) -> (b: bool)
    ensures
        b == result_fits(proposal@),
{
    proposal.voting_power_for.checked_add(proposal.voting_power_against).is_some()
        && proposal.votes_for.checked_add(proposal.votes_against).is_some()
}

/// Projects the aggregates of a proposal, with participation measured
/// against `eligible_voters`.
pub fn project(proposal: Proposal, eligible_voters: u64) -> (r: ProposalResult)
    requires
        result_fits(proposal@),
    ensures
        r@ == projection(proposal@, eligible_voters),
{
    let total_voting_power = proposal.voting_power_for + proposal.voting_power_against;
    let total_votes = proposal.votes_for + proposal.votes_against;
    let approval_rate = if total_voting_power > 0 {
        Ratio { numerator: proposal.voting_power_for, denominator: total_voting_power }
    } else {
        Ratio { numerator: 0, denominator: 0 }
    };
    ProposalResult {
        proposal,
        total_voting_power,
        participation_rate: Ratio { numerator: total_votes, denominator: eligible_voters },
        approval_rate,
    }
}

} // verus!
