//! The three record shapes persisted by the store, and the domain errors.

use vstd::prelude::*;

verus! {

/// A voting event: identifier, description, open time window, running tally.
pub struct Election {
    /// 16-byte opaque identifier, chosen by the creator, immutable.
    pub id: [u8; 16],
    /// Free-form description, at most 280 bytes.
    pub description: Vec<u8>,
    /// First second (inclusive) at which votes are accepted.
    pub start: u64,
    /// Votes arriving strictly after this second are rejected.
    pub end: u64,
    /// Total number of votes cast in this election.
    pub total_votes: u64,
}

/// An entrant in one election; its election is fixed by its storage address.
pub struct Candidate {
    /// Candidate name, at most 50 bytes, unique within an election.
    pub name: Vec<u8>,
    /// Number of votes received.
    pub vote_count: u64,
}

/// Per-voter-per-election marker preventing repeat voting.
pub struct BallotRecord {
    /// Set to true exactly once, when the voter's vote is committed.
    pub has_voted: bool,
}

/// A record as held by the store: one of the three shapes.
pub enum Record {
    Election(Election),
    Candidate(Candidate),
    Ballot(BallotRecord),
}

/// Terminal domain errors; none is recovered internally.
#[derive(Clone, Copy, PartialEq, Eq, Debug)]
pub enum VotingError {
    /// An election with this identifier already exists.
    ElectionAlreadyInitialized,
    /// A candidate with this name already exists under this election.
    CandidateAlreadyInitialized,
    /// No election exists under the given identifier.
    ElectionNotFound,
    /// No candidate with this name is bound to the given election.
    CandidateNotFound,
    /// The current time lies outside the election's open window.
    VotingTimedOut,
    /// This voter has already cast a vote in this election.
    AlreadyVoted,
}

/// Mathematical model of an [`Election`] record.
pub struct ElectionV {
    pub id: Seq<u8>,
    pub description: Seq<u8>,
    pub start: u64,
    pub end: u64,
    pub total_votes: u64,
}

/// Mathematical model of a [`Candidate`] record.
pub struct CandidateV {
    pub name: Seq<u8>,
    pub vote_count: u64,
}

/// Mathematical model of a [`BallotRecord`].
pub struct BallotV {
    pub has_voted: bool,
}

/// Mathematical model of a [`Record`].
pub enum RecordV {
    Election(ElectionV),
    Candidate(CandidateV),
    Ballot(BallotV),
}

impl View for Election {
    type V = ElectionV;

    open spec fn view(&self) -> ElectionV {
        ElectionV {
            id: self.id@,
            description: self.description@,
            start: self.start,
            end: self.end,
            total_votes: self.total_votes,
        }
    }
}

impl View for Candidate {
    type V = CandidateV;

    open spec fn view(&self) -> CandidateV {
        CandidateV { name: self.name@, vote_count: self.vote_count }
    }
}

impl View for BallotRecord {
    type V = BallotV;

    open spec fn view(&self) -> BallotV {
        BallotV { has_voted: self.has_voted }
    }
}

impl View for Record {
    type V = RecordV;

    open spec fn view(&self) -> RecordV {
        match self {
            Record::Election(e) => RecordV::Election(e@),
            Record::Candidate(c) => RecordV::Candidate(c@),
            Record::Ballot(b) => RecordV::Ballot(b@),
        }
    }
}

/// Copies a record, field by field.
pub fn clone_record(r: &Record) -> (c: Record)
    ensures
        c@ == r@,
{
    match r {
        Record::Election(e) => Record::Election(
            Election {
                id: e.id,
                description: crate::address::copy_bytes(&e.description),
                start: e.start,
                end: e.end,
                total_votes: e.total_votes,
            },
        ),
        Record::Candidate(c) => Record::Candidate(
            Candidate { name: crate::address::copy_bytes(&c.name), vote_count: c.vote_count },
        ),
        Record::Ballot(b) => Record::Ballot(BallotRecord { has_voted: b.has_voted }),
    }
}

} // verus!
