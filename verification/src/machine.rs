//! The voting state machine: the three public operations, proved to do
//! exactly what the ledger model's step functions say, and to preserve the
//! ledger invariant.

use vstd::prelude::*;

use crate::address::{
    ballot_address, ballot_addr, bytes_eq, candidate_address, candidate_addr, copy_bytes,
    election_address, election_addr, id_eq,
};
use crate::model::{
    ballot_voted, contains_addr, find_rec, index_of, lemma_find_after_update,
    lemma_index_of_props, lemma_step_cast_vote_props, lemma_step_initialize_candidate_inv,
    lemma_step_initialize_election_inv, step_cast_vote, step_initialize_candidate,
    step_initialize_election, EntryV,
};
use crate::records::{BallotRecord, Candidate, Election, Record, RecordV, VotingError};
use crate::store::RecordStore;

verus! {

/// The ballot ledger and its operations.
pub struct VotingStateMachine {
    pub store: RecordStore,
}

impl View for VotingStateMachine {
    type V = Seq<EntryV>;

    open spec fn view(&self) -> Seq<EntryV> {
        self.store@
    }
}

impl VotingStateMachine {
    /// The ledger invariant, maintained by every operation; it carries the
    /// tally consistency law: every election's `total_votes` equals the
    /// sum of `vote_count` over its candidates.
    pub open spec fn inv(&self) -> bool {
        crate::model::inv(self@)
    }

    /// Creates an empty ledger.
    pub fn new() -> (m: Self)
        ensures
            m@ == Seq::<EntryV>::empty(),
            m.inv(),
    {
        let m = VotingStateMachine { store: RecordStore::new() };
        proof {
            crate::model::lemma_inv_empty();
        }
        m
    }

    /// Creates the election with identifier `id`: fails with
    /// `ElectionAlreadyInitialized` if one exists, otherwise records it
    /// with the given description and window and a zero tally.
    pub fn initialize_election(
        &mut self,
        id: &[u8; 16],
        description: Vec<u8>,
        start: u64,
        end: u64,
    ) -> (r: Result<(), VotingError>)
        requires
            old(self).inv(),
            description@.len() <= 280,
        ensures
            final(self).inv(),
            r == step_initialize_election(old(self)@, id@, description@, start, end).result,
            final(self)@ == step_initialize_election(old(self)@, id@, description@, start, end).post,
    {
        proof {
            lemma_step_initialize_election_inv(self@, id@, description@, start, end);
        }
        let addr = election_address(id);
        let rec = Record::Election(
            Election { id: *id, description, start, end, total_votes: 0 },
        );
        if self.store.create(addr, rec) {
            Result::Ok(())
        } else {
            Result::Err(VotingError::ElectionAlreadyInitialized)
        }
    }

    /// Registers the candidate `name` under election `election_id`: fails
    /// with `CandidateAlreadyInitialized` if one exists, otherwise records
    /// it with a zero count. The election itself is not required to exist.
    pub fn initialize_candidate(&mut self, election_id: &[u8; 16], name: Vec<u8>) -> (r:
        Result<(), VotingError>)
        requires
            old(self).inv(),
            name@.len() <= 50,
        ensures
            final(self).inv(),
            r == step_initialize_candidate(old(self)@, election_id@, name@).result,
            final(self)@ == step_initialize_candidate(old(self)@, election_id@, name@).post,
    {
        proof {
            lemma_step_initialize_candidate_inv(self@, election_id@, name@);
        }
        let addr = candidate_address(election_id, &name);
        let rec = Record::Candidate(Candidate { name, vote_count: 0 });
        if self.store.create(addr, rec) {
            Result::Ok(())
        } else {
            Result::Err(VotingError::CandidateAlreadyInitialized)
        }
    }

    /// Casts the vote of `voter` for `candidate_name` in `election_id` at
    /// time `now`. The checks run in order: a voter who already voted is
    /// rejected with `AlreadyVoted`; a missing election with
    /// `ElectionNotFound`; a `now` outside the window with
    /// `VotingTimedOut`; a missing or differently named candidate with
    /// `CandidateNotFound`; an election record whose own identifier
    /// differs with `ElectionNotFound`. Only when all checks pass are the
    /// candidate count, the election tally, and the voter's ballot updated,
    /// together, the ballot record being created on the voter's first vote
    /// in the election. The operation is one atomic transaction: every
    /// failure leaves the ledger untouched, so a failed first attempt
    /// leaves no ballot record behind.
    pub fn cast_vote(
        &mut self,
        election_id: &[u8; 16],
        candidate_name: &Vec<u8>,
        voter: &Vec<u8>,
        now: u64,
    ) -> (r: Result<(), VotingError>)
        requires
            old(self).inv(),
            (match find_rec(old(self)@, election_addr(election_id@)) {
                Option::Some(RecordV::Election(el)) => el.total_votes < u64::MAX,
                _ => true,
            }),
            (match find_rec(old(self)@, candidate_addr(election_id@, candidate_name@)) {
                Option::Some(RecordV::Candidate(c)) => c.vote_count < u64::MAX,
                _ => true,
            }),
        ensures
            final(self).inv(),
            r == step_cast_vote(old(self)@, election_id@, candidate_name@, voter@, now).result,
            final(self)@ == step_cast_vote(
                old(self)@,
                election_id@,
                candidate_name@,
                voter@,
                now,
            ).post,
    {
        proof {
            lemma_step_cast_vote_props(self@, election_id@, candidate_name@, voter@, now);
        }
        let ghost s = self@;
        // The voter's ballot must not be marked.
        let baddr = ballot_address(election_id, voter);
        let mut ballot_exists: bool = false;
        let already: bool = match self.store.read(&baddr) {
            Option::Some(rec) => match rec {
                Record::Ballot(b) => {
                    ballot_exists = true;
                    b.has_voted
                },
                _ => {
                    ballot_exists = true;
                    false
                },
            },
            Option::None => false,
        };
        proof {
            assert(already == ballot_voted(s, election_id@, voter@));
            assert(ballot_exists == contains_addr(s, ballot_addr(election_id@, voter@)));
        }
        if already {
            return Result::Err(VotingError::AlreadyVoted);
        }
        // The election must exist and be open at `now`.
        let eaddr = election_address(election_id);
        let (estart, eend, etotal, eid_arr, edesc, id_ok): (
            u64,
            u64,
            u64,
            [u8; 16],
            Vec<u8>,
            bool,
        ) = match self.store.read(&eaddr) {
            Option::Some(rec) => match rec {
                Record::Election(el) => (
                    el.start,
                    el.end,
                    el.total_votes,
                    el.id,
                    copy_bytes(&el.description),
                    id_eq(&el.id, election_id),
                ),
                _ => {
                    return Result::Err(VotingError::ElectionNotFound);
                },
            },
            Option::None => {
                return Result::Err(VotingError::ElectionNotFound);
            },
        };
        let ghost elv = find_rec(s, election_addr(election_id@))->Some_0->Election_0;
        proof {
            assert(estart == elv.start && eend == elv.end && etotal == elv.total_votes);
            assert(eid_arr@ == elv.id && edesc@ == elv.description);
            assert(id_ok == (elv.id == election_id@));
        }
        if estart > now || eend < now {
            return Result::Err(VotingError::VotingTimedOut);
        }
        // The candidate must exist under this election, name matching.
        let caddr = candidate_address(election_id, candidate_name);
        let (ccount, name_ok): (u64, bool) = match self.store.read(&caddr) {
            Option::Some(rec) => match rec {
                Record::Candidate(c) => (c.vote_count, bytes_eq(&c.name, candidate_name)),
                _ => {
                    return Result::Err(VotingError::CandidateNotFound);
                },
            },
            Option::None => {
                return Result::Err(VotingError::CandidateNotFound);
            },
        };
        let ghost cv = find_rec(s, candidate_addr(election_id@, candidate_name@))
            ->Some_0->Candidate_0;
        proof {
            assert(ccount == cv.vote_count);
            assert(name_ok == (cv.name == candidate_name@));
        }
        if !name_ok {
            return Result::Err(VotingError::CandidateNotFound);
        }
        // The election record's own identifier must match the request.
        if !id_ok {
            return Result::Err(VotingError::ElectionNotFound);
        }
        // Commit: candidate count, election tally, and ballot marker are
        // updated together; no failure is possible past this point.
        proof {
            lemma_index_of_props(s, caddr@);
            lemma_index_of_props(s, eaddr@);
        }
        let ghost ci = index_of(s, caddr@);
        let ghost ei = index_of(s, eaddr@);
        let new_cand = Record::Candidate(
            Candidate { name: copy_bytes(candidate_name), vote_count: ccount + 1 },
        );
        let ghost centry = EntryV { addr: caddr@, rec: new_cand@ };
        let _had_candidate = self.store.mutate(&caddr, new_cand);
        let ghost s1 = self@;
        proof {
            assert(s1 == s.update(ci, centry));
            lemma_find_after_update(s, ci, centry, eaddr@);
            lemma_find_after_update(s, ci, centry, baddr@);
            assert(find_rec(s1, eaddr@) == find_rec(s, eaddr@));
            assert(index_of(s1, eaddr@) == ei);
        }
        let new_elec = Record::Election(
            Election {
                id: eid_arr,
                description: edesc,
                start: estart,
                end: eend,
                total_votes: etotal + 1,
            },
        );
        let ghost eentry = EntryV { addr: eaddr@, rec: new_elec@ };
        let _had_election = self.store.mutate(&eaddr, new_elec);
        let ghost s2 = self@;
        proof {
            assert(s2 == s1.update(ei, eentry));
            assert(s1[ei] == s[ei]);
            lemma_find_after_update(s1, ei, eentry, baddr@);
            assert(find_rec(s2, baddr@) == find_rec(s, baddr@));
            assert(index_of(s2, baddr@) == index_of(s, baddr@));
        }
        let new_ballot = Record::Ballot(BallotRecord { has_voted: true });
        if ballot_exists {
            let _had_ballot = self.store.mutate(&baddr, new_ballot);
        } else {
            let _created = self.store.create(baddr, new_ballot);
        }
        proof {
            assert(self@ == crate::model::commit_vote(
                s,
                election_id@,
                candidate_name@,
                voter@,
            ));
        }
        Result::Ok(())
    }

    /// The election's total vote count, if the election exists.
    pub fn total_votes(&self, id: &[u8; 16]) -> (r: Option<u64>)
        ensures
            r == (match find_rec(self@, election_addr(id@)) {
                Option::Some(RecordV::Election(el)) => Option::Some(el.total_votes),
                _ => Option::<u64>::None,
            }),
    {
        let addr = election_address(id);
        match self.store.read(&addr) {
            Option::Some(rec) => match rec {
                Record::Election(el) => Option::Some(el.total_votes),
                _ => Option::None,
            },
            Option::None => Option::None,
        }
    }

    /// The election's open window `(start, end)`, if the election exists.
    pub fn election_window(&self, id: &[u8; 16]) -> (r: Option<(u64, u64)>)
        ensures
            r == (match find_rec(self@, election_addr(id@)) {
                Option::Some(RecordV::Election(el)) => Option::Some((el.start, el.end)),
                _ => Option::<(u64, u64)>::None,
            }),
    {
        let addr = election_address(id);
        match self.store.read(&addr) {
            Option::Some(rec) => match rec {
                Record::Election(el) => Option::Some((el.start, el.end)),
                _ => Option::None,
            },
            Option::None => Option::None,
        }
    }

    /// A copy of the election's description, if the election exists.
    pub fn election_description(&self, id: &[u8; 16]) -> (r: Option<Vec<u8>>)
        ensures
            match find_rec(self@, election_addr(id@)) {
                Option::Some(RecordV::Election(el)) => r matches Option::Some(d) && d@
                    == el.description,
                _ => r is None,
            },
    {
        let addr = election_address(id);
        match self.store.read(&addr) {
            Option::Some(rec) => match rec {
                Record::Election(el) => Option::Some(copy_bytes(&el.description)),
                _ => Option::None,
            },
            Option::None => Option::None,
        }
    }

    /// The candidate's vote count, if the candidate exists under this
    /// election.
    pub fn vote_count(&self, election_id: &[u8; 16], name: &Vec<u8>) -> (r: Option<u64>)
        ensures
            r == (match find_rec(self@, candidate_addr(election_id@, name@)) {
                Option::Some(RecordV::Candidate(c)) => Option::Some(c.vote_count),
                _ => Option::<u64>::None,
            }),
    {
        let addr = candidate_address(election_id, name);
        match self.store.read(&addr) {
            Option::Some(rec) => match rec {
                Record::Candidate(c) => Option::Some(c.vote_count),
                _ => Option::None,
            },
            Option::None => Option::None,
        }
    }

    /// Whether `voter` has already voted in this election.
    pub fn has_voted(&self, election_id: &[u8; 16], voter: &Vec<u8>) -> (r: bool)
        ensures
            r == ballot_voted(self@, election_id@, voter@),
    {
        let addr = ballot_address(election_id, voter);
        match self.store.read(&addr) {
            Option::Some(rec) => match rec {
                Record::Ballot(b) => b.has_voted,
                _ => false,
            },
            Option::None => false,
        }
    }
}

} // verus!
