//! The records of governance, the requests that create them and the errors
//! that refuse them.
use crate::records::Record;
use crate::row::Row;
use crate::row::RowView;
use crate::text::bytes_text;
use crate::text::copy_bytes;
use crate::text::text_bytes;
use vstd::prelude::*;
use vstd::utf8::decode_utf8;
use vstd::utf8::decode_utf8_encode_utf8;
use vstd::utf8::encode_utf8;
use vstd::utf8::encode_utf8_decode_utf8;
use vstd::utf8::encode_utf8_valid_utf8;
use vstd::utf8::valid_utf8;

verus! {

/// A governance item put to the vote, scoped to one property.
#[derive(Clone, Debug, PartialEq, Eq)]
pub struct Proposal {
    pub id: u64,
    pub property_id: u64,
    pub title: String,
    pub description: String,
    /// "maintenance", "improvement", "sale" or "dividend".
    pub proposal_type: String,
    /// The identity of the proposer, as raw bytes.
    pub proposer: Vec<u8>,
    pub votes_for: u64,
    pub votes_against: u64,
    pub voting_power_for: u64,
    pub voting_power_against: u64,
    /// "active", "passed", "rejected" or "executed".
    pub status: String,
    pub created_at: u64,
    pub voting_deadline: u64,
    /// A payload for whoever executes the proposal; never read here.
    pub execution_data: Option<String>,
}

/// The mathematical value of a [`Proposal`].
pub struct ProposalView {
    pub id: u64,
    pub property_id: u64,
    pub title: Seq<char>,
    pub description: Seq<char>,
    pub proposal_type: Seq<char>,
    pub proposer: Seq<u8>,
    pub votes_for: u64,
    pub votes_against: u64,
    pub voting_power_for: u64,
    pub voting_power_against: u64,
    pub status: Seq<char>,
    pub created_at: u64,
    pub voting_deadline: u64,
    pub execution_data: Option<Seq<char>>,
}

/// The value of an optional text.
pub open spec fn opt_text_view(t: Option<String>) -> Option<Seq<char>> {
    match t {
        Some(s) => Some(s@),
        None => None,
    }
}

impl View for Proposal {
    type V = ProposalView;

    open spec fn view(&self) -> ProposalView {
        ProposalView {
            id: self.id,
            property_id: self.property_id,
            title: self.title@,
            description: self.description@,
            proposal_type: self.proposal_type@,
            proposer: self.proposer@,
            votes_for: self.votes_for,
            votes_against: self.votes_against,
            voting_power_for: self.voting_power_for,
            voting_power_against: self.voting_power_against,
            status: self.status@,
            created_at: self.created_at,
            voting_deadline: self.voting_deadline,
            execution_data: opt_text_view(self.execution_data),
        }
    }
}

/// A copy of an optional text.
pub fn copy_opt_text(t: &Option<String>) -> (r: Option<String>)
    ensures
        opt_text_view(r) == opt_text_view(*t),
{
    match t {
        Some(s) => Some(s.clone()),
        None => None,
    }
}

impl Proposal {
    /// A copy of this proposal.
    pub fn duplicate(&self) -> (r: Proposal)
        ensures
            r@ == self@,
    {
        Proposal {
            id: self.id,
            property_id: self.property_id,
            title: self.title.clone(),
            description: self.description.clone(),
            proposal_type: self.proposal_type.clone(),
            proposer: copy_bytes(&self.proposer),
            votes_for: self.votes_for,
            votes_against: self.votes_against,
            voting_power_for: self.voting_power_for,
            voting_power_against: self.voting_power_against,
            status: self.status.clone(),
            created_at: self.created_at,
            voting_deadline: self.voting_deadline,
            execution_data: copy_opt_text(&self.execution_data),
        }
    }
}

impl Record for Proposal {
    open spec fn row_of(v: ProposalView) -> RowView {
        RowView {
            nums: seq![
                v.id,
                v.property_id,
                v.votes_for,
                v.votes_against,
                v.voting_power_for,
                v.voting_power_against,
                v.created_at,
                v.voting_deadline,
                if v.execution_data is Some { 1u64 } else { 0u64 },
            ],
            blobs: seq![
                encode_utf8(v.title),
                encode_utf8(v.description),
                encode_utf8(v.proposal_type),
                v.proposer,
                encode_utf8(v.status),
                match v.execution_data {
                    Some(d) => encode_utf8(d),
                    None => Seq::empty(),
                },
            ],
        }
    }

    open spec fn of_row(row: RowView) -> Option<ProposalView> {
        if row.nums.len() == 9 && row.blobs.len() == 6 && valid_utf8(row.blobs[0]) && valid_utf8(
            row.blobs[1],
        ) && valid_utf8(row.blobs[2]) && valid_utf8(row.blobs[4]) && (row.nums[8] == 0
            && row.blobs[5].len() == 0 || row.nums[8] == 1 && valid_utf8(row.blobs[5])) {
            Some(
                ProposalView {
                    id: row.nums[0],
                    property_id: row.nums[1],
                    title: decode_utf8(row.blobs[0]),
                    description: decode_utf8(row.blobs[1]),
                    proposal_type: decode_utf8(row.blobs[2]),
                    proposer: row.blobs[3],
                    votes_for: row.nums[2],
                    votes_against: row.nums[3],
                    voting_power_for: row.nums[4],
                    voting_power_against: row.nums[5],
                    status: decode_utf8(row.blobs[4]),
                    created_at: row.nums[6],
                    voting_deadline: row.nums[7],
                    execution_data: if row.nums[8] == 1 {
                        Some(decode_utf8(row.blobs[5]))
                    } else {
                        None
                    },
                },
            )
        } else {
            None
        }
    }

    fn to_row(&self) -> (row: Row) {
        let mut nums: Vec<u64> = Vec::new();
        nums.push(self.id);
        nums.push(self.property_id);
        nums.push(self.votes_for);
        nums.push(self.votes_against);
        nums.push(self.voting_power_for);
        nums.push(self.voting_power_against);
        nums.push(self.created_at);
        nums.push(self.voting_deadline);
        let mut blobs: Vec<Vec<u8>> = Vec::new();
        blobs.push(text_bytes(&self.title));
        blobs.push(text_bytes(&self.description));
        blobs.push(text_bytes(&self.proposal_type));
        blobs.push(copy_bytes(&self.proposer));
        blobs.push(text_bytes(&self.status));
        match &self.execution_data {
            Some(d) => {
                nums.push(1);
                blobs.push(text_bytes(d));
            },
            None => {
                nums.push(0);
                blobs.push(Vec::new());
            },
        }
        let row = Row { nums, blobs };
        proof {
            assert(row@.nums =~= Self::row_of(self@).nums);
            assert(row@.blobs =~= Self::row_of(self@).blobs);
            encode_utf8_valid_utf8(self.title@);
            encode_utf8_decode_utf8(self.title@);
            encode_utf8_valid_utf8(self.description@);
            encode_utf8_decode_utf8(self.description@);
            encode_utf8_valid_utf8(self.proposal_type@);
            encode_utf8_decode_utf8(self.proposal_type@);
            encode_utf8_valid_utf8(self.status@);
            encode_utf8_decode_utf8(self.status@);
            if self.execution_data is Some {
                encode_utf8_valid_utf8(self.execution_data.unwrap()@);
                encode_utf8_decode_utf8(self.execution_data.unwrap()@);
            }
        }
        row
    }

    fn from_row(row: &Row) -> (r: Option<Proposal>) {
        if row.nums.len() != 9 || row.blobs.len() != 6 {
            return None;
        }
        assert(forall|i: int| 0 <= i < 6 ==> row@.blobs[i] == #[trigger] row.blobs@[i]@);
        let title = match bytes_text(&row.blobs[0]) {
            Some(t) => t,
            None => { return None; },
        };
        let description = match bytes_text(&row.blobs[1]) {
            Some(t) => t,
            None => { return None; },
        };
        let proposal_type = match bytes_text(&row.blobs[2]) {
            Some(t) => t,
            None => { return None; },
        };
        let status = match bytes_text(&row.blobs[4]) {
            Some(t) => t,
            None => { return None; },
        };
        let execution_data = if row.nums[8] == 0 {
            if row.blobs[5].len() != 0 {
                return None;
            }
            None
        } else if row.nums[8] == 1 {
            match bytes_text(&row.blobs[5]) {
                Some(t) => Some(t),
                None => { return None; },
            }
        } else {
            return None;
        };
        Some(
            Proposal {
                id: row.nums[0],
                property_id: row.nums[1],
                title,
                description,
                proposal_type,
                proposer: copy_bytes(&row.blobs[3]),
                votes_for: row.nums[2],
                votes_against: row.nums[3],
                voting_power_for: row.nums[4],
                voting_power_against: row.nums[5],
                status,
                created_at: row.nums[6],
                voting_deadline: row.nums[7],
                execution_data,
            },
        )
    }

    proof fn lemma_of_row_canonical(row: RowView) {
        let back = Self::row_of(Self::of_row(row).unwrap());
        decode_utf8_encode_utf8(row.blobs[0]);
        decode_utf8_encode_utf8(row.blobs[1]);
        decode_utf8_encode_utf8(row.blobs[2]);
        decode_utf8_encode_utf8(row.blobs[4]);
        if row.nums[8] == 1 {
            decode_utf8_encode_utf8(row.blobs[5]);
        }
        assert(back.nums =~= row.nums);
        assert(back.blobs[5] =~= row.blobs[5]);
        assert(back.blobs =~= row.blobs);
    }
}

/// One voter's single weighted choice on one proposal.
#[derive(Clone, Debug, PartialEq, Eq)]
pub struct Vote {
    pub id: u64,
    pub proposal_id: u64,
    /// The identity of the voter, as raw bytes.
    pub voter: Vec<u8>,
    pub vote_power: u64,
    /// `true` is for, `false` is against.
    pub vote_choice: bool,
    pub timestamp: u64,
}

/// The mathematical value of a [`Vote`].
pub struct VoteView {
    pub id: u64,
    pub proposal_id: u64,
    pub voter: Seq<u8>,
    pub vote_power: u64,
    pub vote_choice: bool,
    pub timestamp: u64,
}

impl View for Vote {
    type V = VoteView;

    open spec fn view(&self) -> VoteView {
        VoteView {
            id: self.id,
            proposal_id: self.proposal_id,
            voter: self.voter@,
            vote_power: self.vote_power,
            vote_choice: self.vote_choice,
            timestamp: self.timestamp,
        }
    }
}

impl Vote {
    /// A copy of this vote.
    pub fn duplicate(&self) -> (r: Vote)
        ensures
            r@ == self@,
    {
        Vote {
            id: self.id,
            proposal_id: self.proposal_id,
            voter: copy_bytes(&self.voter),
            vote_power: self.vote_power,
            vote_choice: self.vote_choice,
            timestamp: self.timestamp,
        }
    }
}

impl Record for Vote {
    open spec fn row_of(v: VoteView) -> RowView {
        RowView {
            nums: seq![
                v.id,
                v.proposal_id,
                v.vote_power,
                if v.vote_choice { 1u64 } else { 0u64 },
                v.timestamp,
            ],
            blobs: seq![v.voter],
        }
    }

    open spec fn of_row(row: RowView) -> Option<VoteView> {
        if row.nums.len() == 5 && row.blobs.len() == 1 && row.nums[3] <= 1 {
            Some(
                VoteView {
                    id: row.nums[0],
                    proposal_id: row.nums[1],
                    voter: row.blobs[0],
                    vote_power: row.nums[2],
                    vote_choice: row.nums[3] == 1,
                    timestamp: row.nums[4],
                },
            )
        } else {
            None
        }
    }

    fn to_row(&self) -> (row: Row) {
        let mut nums: Vec<u64> = Vec::new();
        nums.push(self.id);
        nums.push(self.proposal_id);
        nums.push(self.vote_power);
        nums.push(if self.vote_choice { 1 } else { 0 });
        nums.push(self.timestamp);
        let mut blobs: Vec<Vec<u8>> = Vec::new();
        blobs.push(copy_bytes(&self.voter));
        let row = Row { nums, blobs };
        proof {
            assert(row@.nums =~= Self::row_of(self@).nums);
            assert(row@.blobs =~= Self::row_of(self@).blobs);
        }
        row
    }

    fn from_row(row: &Row) -> (r: Option<Vote>) {
        if row.nums.len() != 5 || row.blobs.len() != 1 || row.nums[3] > 1 {
            return None;
        }
        assert(row@.blobs[0] == row.blobs@[0]@);
        Some(
            Vote {
                id: row.nums[0],
                proposal_id: row.nums[1],
                voter: copy_bytes(&row.blobs[0]),
                vote_power: row.nums[2],
                vote_choice: row.nums[3] == 1,
                timestamp: row.nums[4],
            },
        )
    }

    proof fn lemma_of_row_canonical(row: RowView) {
        let back = Self::row_of(Self::of_row(row).unwrap());
        assert(back.nums =~= row.nums);
        assert(back.blobs =~= row.blobs);
    }
}

/// What a caller supplies to create a proposal.
#[derive(Clone, Debug)]
pub struct CreateProposalRequest {
    pub property_id: u64,
    pub title: String,
    pub description: String,
    pub proposal_type: String,
    pub voting_duration_days: u64,
    pub execution_data: Option<String>,
}

/// What a caller supplies to cast a vote.
#[derive(Clone, Copy, Debug)]
pub struct CastVoteRequest {
    pub proposal_id: u64,
    pub vote_choice: bool,
    pub voting_power: u64,
}

/// Why an operation on the ledgers was refused.
#[derive(Clone, Copy, Debug, PartialEq, Eq, Structural)]
pub enum GovernanceError {
    /// The proposal that was named does not exist.
    NotFound,
    /// The proposal is not in the `active` status.
    InvalidState,
    /// The current time is beyond the proposal's voting deadline.
    DeadlinePassed,
    /// The voter is already recorded for the proposal.
    DuplicateVote,
    /// The store cannot take the record: the next identifier is beyond
    /// `u64` or taken, a tally or a deadline would be beyond `u64`, or the
    /// record is too long for a table.
    StorageFailure,
}

impl GovernanceError {
    /// What is said to the caller of a refused operation.
    pub open spec fn text(self) -> Seq<char> {
        match self {
            GovernanceError::NotFound => "Proposal not found"@,
            GovernanceError::InvalidState => "Proposal is not active"@,
            GovernanceError::DeadlinePassed => "Voting deadline has passed"@,
            GovernanceError::DuplicateVote => "User has already voted on this proposal"@,
            GovernanceError::StorageFailure => "The store cannot take the record"@,
        }
    }

    /// What is said to the caller of a refused operation.
    pub fn message(&self) -> (s: String)
        ensures
            s@ == self.text(),
    {
        match self {
            GovernanceError::NotFound => "Proposal not found".to_owned(),
            GovernanceError::InvalidState => "Proposal is not active".to_owned(),
            GovernanceError::DeadlinePassed => "Voting deadline has passed".to_owned(),
            GovernanceError::DuplicateVote => "User has already voted on this proposal".to_owned(),
            GovernanceError::StorageFailure => "The store cannot take the record".to_owned(),
        }
    }
}

} // verus!
