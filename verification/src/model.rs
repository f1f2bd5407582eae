//! Mathematical model of the ballot ledger.
//!
//! The ledger is modelled as the sequence of its records in order of
//! creation, each paired with its derived address. Lookup returns the first
//! record at an address; the ledger invariant keeps addresses unique, so the
//! first match is the only one. The three public operations are modelled as
//! pure step functions from ledger state to result and next state; the
//! executable state machine is proved to return exactly what the step
//! functions say.

use vstd::prelude::*;

use crate::address::{ballot_addr, candidate_addr, election_addr, ns_ballot};
use crate::records::{BallotV, CandidateV, ElectionV, RecordV, VotingError};

verus! {

/// One ledger entry: a record together with the address it was created at.
pub struct EntryV {
    pub addr: Seq<Seq<u8>>,
    pub rec: RecordV,
}

/// The first record stored at address `a`, if any.
pub open spec fn find_rec(s: Seq<EntryV>, a: Seq<Seq<u8>>) -> Option<RecordV>
    decreases s.len(),
{
    if s.len() == 0 {
        Option::None
    } else if s[0].addr == a {
        Option::Some(s[0].rec)
    } else {
        find_rec(s.drop_first(), a)
    }
}

/// Whether some record is stored at address `a`.
pub open spec fn contains_addr(s: Seq<EntryV>, a: Seq<Seq<u8>>) -> bool {
    find_rec(s, a) is Some
}

/// Index of the first record stored at address `a`; meaningful only when
/// one exists.
pub open spec fn index_of(s: Seq<EntryV>, a: Seq<Seq<u8>>) -> int
    decreases s.len(),
{
    if s.len() == 0 {
        0
    } else if s[0].addr == a {
        0
    } else {
        1 + index_of(s.drop_first(), a)
    }
}

/// An address is stored exactly when some entry carries it.
pub proof fn lemma_contains_iff_index(s: Seq<EntryV>, a: Seq<Seq<u8>>)
    ensures
        contains_addr(s, a) <==> exists|i: int| 0 <= i < s.len() && s[i].addr == a,
    decreases s.len(),
{
    if s.len() > 0 {
        lemma_contains_iff_index(s.drop_first(), a);
        if s[0].addr == a {
            assert(s[0].addr == a);
        } else {
            if contains_addr(s, a) {
                let i = choose|i: int|
                    0 <= i < s.drop_first().len() && s.drop_first()[i].addr == a;
                assert(s[i + 1].addr == a);
            }
            if exists|i: int| 0 <= i < s.len() && s[i].addr == a {
                let i = choose|i: int| 0 <= i < s.len() && s[i].addr == a;
                assert(s.drop_first()[i - 1].addr == a);
            }
        }
    }
}

/// When an address is stored, its index points at its first occurrence and
/// lookup returns the record there.
pub proof fn lemma_index_of_props(s: Seq<EntryV>, a: Seq<Seq<u8>>)
    requires
        contains_addr(s, a),
    ensures
        0 <= index_of(s, a) < s.len(),
        s[index_of(s, a)].addr == a,
        find_rec(s, a) == Option::Some(s[index_of(s, a)].rec),
        forall|j: int| 0 <= j < index_of(s, a) ==> s[j].addr != a,
    decreases s.len(),
{
    if s.len() > 0 && s[0].addr != a {
        lemma_index_of_props(s.drop_first(), a);
        assert forall|j: int| 0 <= j < index_of(s, a) implies s[j].addr != a by {
            if j > 0 {
                assert(s.drop_first()[j - 1].addr != a);
            }
        }
    }
}

/// An entry that matches an address, with no earlier match, is the one
/// lookup finds.
pub proof fn lemma_first_match(s: Seq<EntryV>, a: Seq<Seq<u8>>, i: int)
    requires
        0 <= i < s.len(),
        s[i].addr == a,
        forall|j: int| 0 <= j < i ==> s[j].addr != a,
    ensures
        contains_addr(s, a),
        index_of(s, a) == i,
        find_rec(s, a) == Option::Some(s[i].rec),
    decreases s.len(),
{
    if s[0].addr != a {
        assert forall|j: int| 0 <= j < i - 1 implies s.drop_first()[j].addr != a by {
            assert(s[j + 1].addr != a);
        }
        lemma_first_match(s.drop_first(), a, i - 1);
    }
}

/// How lookup behaves after replacing the record at an address: lookup at
/// that address returns the new record, lookup anywhere else is unchanged.
pub proof fn lemma_find_after_update(s: Seq<EntryV>, i: int, e: EntryV, a: Seq<Seq<u8>>)
    requires
        0 <= i < s.len(),
        e.addr == s[i].addr,
    ensures
        a != s[i].addr ==> find_rec(s.update(i, e), a) == find_rec(s, a),
        a != s[i].addr ==> index_of(s.update(i, e), a) == index_of(s, a),
        a == s[i].addr && i == index_of(s, a) ==> find_rec(s.update(i, e), a)
            == Option::Some(e.rec) && index_of(s.update(i, e), a) == i,
    decreases s.len(),
{
    let t = s.update(i, e);
    assert(t.len() == s.len());
    if i == 0 {
        assert(t[0] == e);
        assert(t.drop_first() =~= s.drop_first());
    } else {
        assert(t[0] == s[0]);
        assert(t.drop_first() =~= s.drop_first().update(i - 1, e));
        lemma_find_after_update(s.drop_first(), i - 1, e, a);
    }
}

/// How lookup behaves after appending an entry at a fresh address: lookup
/// at stored addresses is unchanged, lookup at the new address returns the
/// new record.
pub proof fn lemma_find_after_push(s: Seq<EntryV>, e: EntryV, a: Seq<Seq<u8>>)
    ensures
        contains_addr(s, a) ==> find_rec(s.push(e), a) == find_rec(s, a)
            && index_of(s.push(e), a) == index_of(s, a),
        !contains_addr(s, a) && a == e.addr ==> find_rec(s.push(e), a)
            == Option::Some(e.rec) && index_of(s.push(e), a) == s.len(),
        !contains_addr(s, a) && a != e.addr ==> !contains_addr(s.push(e), a),
    decreases s.len(),
{
    let t = s.push(e);
    if s.len() == 0 {
        assert(t[0] == e);
        assert(t.drop_first() =~= Seq::<EntryV>::empty());
        assert(find_rec(Seq::<EntryV>::empty(), a) is None);
    } else {
        assert(t[0] == s[0]);
        assert(t.drop_first() =~= s.drop_first().push(e));
        lemma_find_after_push(s.drop_first(), e, a);
    }
}

/// Whether an entry is a candidate record created under election `eid`.
pub open spec fn is_candidate_of(e: EntryV, eid: Seq<u8>) -> bool {
    &&& e.rec is Candidate
    &&& e.addr.len() == 2
    &&& e.addr[0] == eid
}

/// The votes an entry contributes to the tally of election `eid`.
pub open spec fn entry_votes(e: EntryV, eid: Seq<u8>) -> int {
    if is_candidate_of(e, eid) {
        match e.rec {
            RecordV::Candidate(c) => c.vote_count as int,
            _ => 0,
        }
    } else {
        0
    }
}

/// Sum of `vote_count` over all candidates created under election `eid`.
pub open spec fn sum_votes(s: Seq<EntryV>, eid: Seq<u8>) -> int
    decreases s.len(),
{
    if s.len() == 0 {
        0
    } else {
        entry_votes(s[0], eid) + sum_votes(s.drop_first(), eid)
    }
}

/// Appending an entry adds its contribution to every tally.
pub proof fn lemma_sum_after_push(s: Seq<EntryV>, e: EntryV, eid: Seq<u8>)
    ensures
        sum_votes(s.push(e), eid) == sum_votes(s, eid) + entry_votes(e, eid),
    decreases s.len(),
{
    let t = s.push(e);
    if s.len() == 0 {
        assert(t[0] == e);
        assert(t.drop_first() =~= Seq::<EntryV>::empty());
        assert(sum_votes(Seq::<EntryV>::empty(), eid) == 0);
    } else {
        assert(t[0] == s[0]);
        assert(t.drop_first() =~= s.drop_first().push(e));
        lemma_sum_after_push(s.drop_first(), e, eid);
    }
}

/// Replacing an entry shifts every tally by the difference of the old and
/// new contributions.
pub proof fn lemma_sum_after_update(s: Seq<EntryV>, i: int, e: EntryV, eid: Seq<u8>)
    requires
        0 <= i < s.len(),
    ensures
        sum_votes(s.update(i, e), eid) == sum_votes(s, eid) - entry_votes(s[i], eid)
            + entry_votes(e, eid),
    decreases s.len(),
{
    let t = s.update(i, e);
    if i == 0 {
        assert(t[0] == e);
        assert(t.drop_first() =~= s.drop_first());
    } else {
        assert(t[0] == s[0]);
        assert(t.drop_first() =~= s.drop_first().update(i - 1, e));
        lemma_sum_after_update(s.drop_first(), i - 1, e, eid);
    }
}

/// A tally over entries that contribute nothing is zero.
pub proof fn lemma_sum_zero(s: Seq<EntryV>, eid: Seq<u8>)
    requires
        forall|j: int| 0 <= j < s.len() ==> entry_votes(s[j], eid) == 0,
    ensures
        sum_votes(s, eid) == 0,
    decreases s.len(),
{
    if s.len() > 0 {
        assert forall|j: int| 0 <= j < s.drop_first().len() implies entry_votes(
            s.drop_first()[j],
            eid,
        ) == 0 by {
            assert(s.drop_first()[j] == s[j + 1]);
        }
        lemma_sum_zero(s.drop_first(), eid);
    }
}

/// Every contribution to a tally is non-negative, so each candidate's
/// count is bounded by its election's sum.
pub proof fn lemma_entry_votes_le_sum(s: Seq<EntryV>, i: int, eid: Seq<u8>)
    requires
        0 <= i < s.len(),
    ensures
        entry_votes(s[i], eid) <= sum_votes(s, eid),
        sum_votes(s, eid) >= 0,
    decreases s.len(),
{
    if s.len() > 0 {
        lemma_sum_nonneg(s.drop_first(), eid);
        if i > 0 {
            lemma_entry_votes_le_sum(s.drop_first(), i - 1, eid);
            assert(s.drop_first()[i - 1] == s[i]);
        }
    }
}

/// A tally is never negative.
pub proof fn lemma_sum_nonneg(s: Seq<EntryV>, eid: Seq<u8>)
    ensures
        sum_votes(s, eid) >= 0,
    decreases s.len(),
{
    if s.len() > 0 {
        lemma_sum_nonneg(s.drop_first(), eid);
    }
}

/// Well-formedness of a single entry: each record sits at the address
/// derived for it, so the address shape determines the record shape.
pub open spec fn entry_wf(e: EntryV) -> bool {
    match e.rec {
        RecordV::Election(el) => e.addr == election_addr(el.id) && el.id.len() == 16
            && el.description.len() <= 280,
        RecordV::Candidate(c) => e.addr.len() == 2 && e.addr[0].len() == 16
            && e.addr == candidate_addr(e.addr[0], c.name) && c.name.len() <= 50,
        RecordV::Ballot(_) => e.addr.len() == 3 && e.addr[0] == ns_ballot(),
    }
}

/// The ledger invariant.
///
/// - Addresses are unique: each record was created at most once.
/// - Every entry is well-formed: records sit at the addresses derived for
///   them, identifiers are 16 bytes, text fields respect their bounds.
/// - Tallies are consistent: every election's `total_votes` equals the sum
///   of `vote_count` over the candidates created under its identifier.
/// - Candidates of an election that was never initialized have no votes,
///   since casting a vote requires the election record.
pub open spec fn inv(s: Seq<EntryV>) -> bool {
    &&& forall|i: int, j: int| 0 <= i < j < s.len() ==> s[i].addr != s[j].addr
    &&& forall|i: int| 0 <= i < s.len() ==> entry_wf(#[trigger] s[i])
    &&& forall|i: int| 0 <= i < s.len() ==> match #[trigger] s[i].rec {
        RecordV::Election(el) => el.total_votes == sum_votes(s, el.id),
        _ => true,
    }
    &&& forall|i: int| 0 <= i < s.len() ==> match #[trigger] s[i].rec {
        RecordV::Candidate(c) => !contains_addr(s, election_addr(s[i].addr[0]))
            ==> c.vote_count == 0,
        _ => true,
    }
}

/// The empty ledger satisfies the invariant.
pub proof fn lemma_inv_empty()
    ensures
        inv(Seq::<EntryV>::empty()),
{
}

/// Result and next state of one operation on the ledger.
pub struct StepV {
    pub result: Result<(), VotingError>,
    pub post: Seq<EntryV>,
}

/// Whether the voter's ballot record for this election is marked as voted.
pub open spec fn ballot_voted(s: Seq<EntryV>, eid: Seq<u8>, voter: Seq<u8>) -> bool {
    match find_rec(s, ballot_addr(eid, voter)) {
        Option::Some(RecordV::Ballot(b)) => b.has_voted,
        _ => false,
    }
}

/// Creating an election: fails if a record already exists at the
/// election's address, otherwise appends a fresh election record with a
/// zero tally.
pub open spec fn step_initialize_election(
    s: Seq<EntryV>,
    id: Seq<u8>,
    description: Seq<u8>,
    start: u64,
    end: u64,
) -> StepV {
    if contains_addr(s, election_addr(id)) {
        StepV { result: Result::Err(VotingError::ElectionAlreadyInitialized), post: s }
    } else {
        StepV {
            result: Result::Ok(()),
            post: s.push(
                EntryV {
                    addr: election_addr(id),
                    rec: RecordV::Election(
                        ElectionV { id, description, start, end, total_votes: 0 },
                    ),
                },
            ),
        }
    }
}

/// Registering a candidate: fails if a record already exists at the
/// candidate's address, otherwise appends a fresh candidate record with a
/// zero count. The election itself is not required to exist.
pub open spec fn step_initialize_candidate(
    s: Seq<EntryV>,
    eid: Seq<u8>,
    name: Seq<u8>,
) -> StepV {
    if contains_addr(s, candidate_addr(eid, name)) {
        StepV { result: Result::Err(VotingError::CandidateAlreadyInitialized), post: s }
    } else {
        StepV {
            result: Result::Ok(()),
            post: s.push(
                EntryV {
                    addr: candidate_addr(eid, name),
                    rec: RecordV::Candidate(CandidateV { name, vote_count: 0 }),
                },
            ),
        }
    }
}

/// Casting a vote, with its checks in order: the voter must not have voted
/// in this election; the election must exist and be open at `now` (the
/// window includes both bounds, since only `now < start` or `end < now` is
/// rejected); the candidate must exist under this election with a matching
/// name; the election record's own identifier must match. Only then are
/// the candidate count, the election tally, and the ballot marker updated,
/// together; every failure leaves the ledger untouched.
pub open spec fn step_cast_vote(
    s: Seq<EntryV>,
    eid: Seq<u8>,
    name: Seq<u8>,
    voter: Seq<u8>,
    now: u64,
) -> StepV {
    if ballot_voted(s, eid, voter) {
        StepV { result: Result::Err(VotingError::AlreadyVoted), post: s }
    } else {
        match find_rec(s, election_addr(eid)) {
            Option::Some(RecordV::Election(el)) => if el.start > now || el.end < now {
                StepV { result: Result::Err(VotingError::VotingTimedOut), post: s }
            } else {
                match find_rec(s, candidate_addr(eid, name)) {
                    Option::Some(RecordV::Candidate(c)) => if c.name != name {
                        StepV { result: Result::Err(VotingError::CandidateNotFound), post: s }
                    } else if el.id != eid {
                        StepV { result: Result::Err(VotingError::ElectionNotFound), post: s }
                    } else {
                        StepV { result: Result::Ok(()), post: commit_vote(s, eid, name, voter) }
                    },
                    _ => StepV {
                        result: Result::Err(VotingError::CandidateNotFound),
                        post: s,
                    },
                }
            },
            _ => StepV { result: Result::Err(VotingError::ElectionNotFound), post: s },
        }
    }
}

/// The committed effect of a valid vote: the candidate's count and the
/// election's tally each grow by one, and the voter's ballot record is
/// created or updated with `has_voted` set.
pub open spec fn commit_vote(
    s: Seq<EntryV>,
    eid: Seq<u8>,
    name: Seq<u8>,
    voter: Seq<u8>,
) -> Seq<EntryV> {
    let el = find_rec(s, election_addr(eid))->Some_0->Election_0;
    let c = find_rec(s, candidate_addr(eid, name))->Some_0->Candidate_0;
    let s1 = s.update(
        index_of(s, candidate_addr(eid, name)),
        EntryV {
            addr: candidate_addr(eid, name),
            rec: RecordV::Candidate(
                CandidateV { name: c.name, vote_count: (c.vote_count + 1) as u64 },
            ),
        },
    );
    let s2 = s1.update(
        index_of(s, election_addr(eid)),
        EntryV {
            addr: election_addr(eid),
            rec: RecordV::Election(
                ElectionV { total_votes: (el.total_votes + 1) as u64, ..el },
            ),
        },
    );
    let bentry = EntryV {
        addr: ballot_addr(eid, voter),
        rec: RecordV::Ballot(BallotV { has_voted: true }),
    };
    if contains_addr(s, ballot_addr(eid, voter)) {
        s2.update(index_of(s, ballot_addr(eid, voter)), bentry)
    } else {
        s2.push(bentry)
    }
}

/// No operation mutates the ledger on any error path.
pub proof fn lemma_errors_leave_ledger_unchanged(
    s: Seq<EntryV>,
    id: Seq<u8>,
    description: Seq<u8>,
    start: u64,
    end: u64,
    eid: Seq<u8>,
    name: Seq<u8>,
    voter: Seq<u8>,
    now: u64,
)
    ensures
        step_initialize_election(s, id, description, start, end).result is Err
            ==> step_initialize_election(s, id, description, start, end).post == s,
        step_initialize_candidate(s, eid, name).result is Err
            ==> step_initialize_candidate(s, eid, name).post == s,
        step_cast_vote(s, eid, name, voter, now).result is Err ==> step_cast_vote(
            s,
            eid,
            name,
            voter,
            now,
        ).post == s,
{
}

/// Appending a well-formed entry at a fresh address keeps addresses unique
/// and leaves every stored record reachable.
proof fn lemma_push_fresh_basics(s: Seq<EntryV>, e: EntryV)
    requires
        forall|i: int| 0 <= i < s.len() ==> entry_wf(#[trigger] s[i]),
        entry_wf(e),
        !contains_addr(s, e.addr),
    ensures
        forall|i: int| 0 <= i < s.push(e).len() ==> entry_wf(#[trigger] s.push(e)[i]),
        forall|a: Seq<Seq<u8>>| contains_addr(s, a) ==> #[trigger] contains_addr(
            s.push(e),
            a,
        ) && find_rec(s.push(e), a) == find_rec(s, a),
        forall|a: Seq<Seq<u8>>| !contains_addr(s.push(e), a) ==> !contains_addr(s, a),
{
    lemma_contains_iff_index(s, e.addr);
    assert forall|a: Seq<Seq<u8>>| contains_addr(s, a) implies #[trigger] contains_addr(
        s.push(e),
        a,
    ) && find_rec(s.push(e), a) == find_rec(s, a) by {
        lemma_find_after_push(s, e, a);
    }
    assert forall|a: Seq<Seq<u8>>| !contains_addr(s.push(e), a) implies !contains_addr(
        s,
        a,
    ) by {
        lemma_find_after_push(s, e, a);
    }
}

/// Creating an election preserves the ledger invariant: the new election
/// starts with a zero tally, and every candidate already registered under
/// its identifier is provably unvoted.
pub proof fn lemma_step_initialize_election_inv(
    s: Seq<EntryV>,
    id: Seq<u8>,
    description: Seq<u8>,
    start: u64,
    end: u64,
)
    requires
        inv(s),
        id.len() == 16,
        description.len() <= 280,
    ensures
        inv(step_initialize_election(s, id, description, start, end).post),
{
    let a = election_addr(id);
    if !contains_addr(s, a) {
        let e = EntryV {
            addr: a,
            rec: RecordV::Election(ElectionV { id, description, start, end, total_votes: 0 }),
        };
        let t = s.push(e);
        lemma_contains_iff_index(s, a);
        lemma_push_fresh_basics(s, e);
        // Uniqueness: no old entry carries the new address.
        assert forall|i: int, j: int| 0 <= i < j < t.len() implies t[i].addr != t[j].addr by {
            if j < s.len() {
                assert(s[i].addr != s[j].addr);
            } else {
                assert(t[j] == e);
                assert(s[i].addr != a);
            }
        }
        // Tallies: pushing an election entry changes no sum.
        assert forall|i: int| 0 <= i < t.len() implies match #[trigger] t[i].rec {
            RecordV::Election(el) => el.total_votes == sum_votes(t, el.id),
            _ => true,
        } by {
            if i < s.len() {
                assert(t[i] == s[i]);
                match s[i].rec {
                    RecordV::Election(el) => {
                        lemma_sum_after_push(s, e, el.id);
                        assert(entry_votes(e, el.id) == 0);
                    },
                    _ => {},
                }
            } else {
                assert(t[i] == e);
                // Every candidate under `id` is dormant, so the sum is zero.
                assert forall|j: int| 0 <= j < s.len() implies entry_votes(
                    #[trigger] s[j],
                    id,
                ) == 0 by {
                    if is_candidate_of(s[j], id) {
                        assert(s[j].addr[0] == id);
                        match s[j].rec {
                            RecordV::Candidate(c) => {
                                assert(!contains_addr(s, election_addr(s[j].addr[0])));
                            },
                            _ => {},
                        }
                    }
                }
                lemma_sum_zero(s, id);
                lemma_sum_after_push(s, e, id);
                assert(entry_votes(e, id) == 0);
            }
        }
        // Dormant candidates stay dormant or their election now exists.
        assert forall|i: int| 0 <= i < t.len() implies match #[trigger] t[i].rec {
            RecordV::Candidate(c) => !contains_addr(t, election_addr(t[i].addr[0]))
                ==> c.vote_count == 0,
            _ => true,
        } by {
            if i < s.len() {
                assert(t[i] == s[i]);
            }
        }
    }
}

/// Registering a candidate preserves the ledger invariant: the fresh
/// record carries a zero count and so changes no tally.
pub proof fn lemma_step_initialize_candidate_inv(s: Seq<EntryV>, eid: Seq<u8>, name: Seq<u8>)
    requires
        inv(s),
        eid.len() == 16,
        name.len() <= 50,
    ensures
        inv(step_initialize_candidate(s, eid, name).post),
{
    let a = candidate_addr(eid, name);
    if !contains_addr(s, a) {
        let e = EntryV {
            addr: a,
            rec: RecordV::Candidate(CandidateV { name, vote_count: 0 }),
        };
        let t = s.push(e);
        lemma_contains_iff_index(s, a);
        lemma_push_fresh_basics(s, e);
        assert(entry_wf(e));
        assert forall|i: int, j: int| 0 <= i < j < t.len() implies t[i].addr != t[j].addr by {
            if j < s.len() {
                assert(s[i].addr != s[j].addr);
            } else {
                assert(t[j] == e);
                assert(s[i].addr != a);
            }
        }
        assert forall|i: int| 0 <= i < t.len() implies match #[trigger] t[i].rec {
            RecordV::Election(el) => el.total_votes == sum_votes(t, el.id),
            _ => true,
        } by {
            if i < s.len() {
                assert(t[i] == s[i]);
                match s[i].rec {
                    RecordV::Election(el) => {
                        lemma_sum_after_push(s, e, el.id);
                        assert(entry_votes(e, el.id) == 0);
                    },
                    _ => {},
                }
            }
        }
        assert forall|i: int| 0 <= i < t.len() implies match #[trigger] t[i].rec {
            RecordV::Candidate(c) => !contains_addr(t, election_addr(t[i].addr[0]))
                ==> c.vote_count == 0,
            _ => true,
        } by {
            if i < s.len() {
                assert(t[i] == s[i]);
            } else {
                assert(t[i] == e);
            }
        }
    }
}

/// Everything a committed vote does to the ledger: the invariant is kept,
/// the three touched records take their new values, and no other address
/// changes.
proof fn lemma_commit_vote_props(s: Seq<EntryV>, eid: Seq<u8>, name: Seq<u8>, voter: Seq<u8>)
    requires
        inv(s),
        eid.len() == 16,
        find_rec(s, election_addr(eid)) is Some,
        find_rec(s, election_addr(eid))->Some_0 is Election,
        find_rec(s, candidate_addr(eid, name)) is Some,
        find_rec(s, candidate_addr(eid, name))->Some_0 is Candidate,
        find_rec(s, election_addr(eid))->Some_0->Election_0.id == eid,
        find_rec(s, candidate_addr(eid, name))->Some_0->Candidate_0.name == name,
        find_rec(s, election_addr(eid))->Some_0->Election_0.total_votes < u64::MAX,
        find_rec(s, candidate_addr(eid, name))->Some_0->Candidate_0.vote_count < u64::MAX,
    ensures
        ({
            let post = commit_vote(s, eid, name, voter);
            let el = find_rec(s, election_addr(eid))->Some_0->Election_0;
            let c = find_rec(s, candidate_addr(eid, name))->Some_0->Candidate_0;
            &&& inv(post)
            &&& find_rec(post, election_addr(eid)) == Option::Some(
                RecordV::Election(
                    ElectionV { total_votes: (el.total_votes + 1) as u64, ..el },
                ),
            )
            &&& find_rec(post, candidate_addr(eid, name)) == Option::Some(
                RecordV::Candidate(
                    CandidateV { name: c.name, vote_count: (c.vote_count + 1) as u64 },
                ),
            )
            &&& ballot_voted(post, eid, voter)
            &&& forall|a: Seq<Seq<u8>>|
                a != election_addr(eid) && a != candidate_addr(eid, name) && a != ballot_addr(
                    eid,
                    voter,
                ) ==> #[trigger] find_rec(post, a) == find_rec(s, a)
        }),
{
    let eaddr = election_addr(eid);
    let caddr = candidate_addr(eid, name);
    let baddr = ballot_addr(eid, voter);
    let el = find_rec(s, eaddr)->Some_0->Election_0;
    let c = find_rec(s, caddr)->Some_0->Candidate_0;
    crate::address::lemma_addr_shapes_disjoint(eid, eid, name, eid, voter);
    lemma_index_of_props(s, eaddr);
    lemma_index_of_props(s, caddr);
    let ei = index_of(s, eaddr);
    let ci = index_of(s, caddr);
    assert(s[ei].rec == RecordV::Election(el));
    assert(s[ci].rec == RecordV::Candidate(c));
    assert(ei != ci);
    let centry = EntryV {
        addr: caddr,
        rec: RecordV::Candidate(
            CandidateV { name: c.name, vote_count: (c.vote_count + 1) as u64 },
        ),
    };
    let eentry = EntryV {
        addr: eaddr,
        rec: RecordV::Election(ElectionV { total_votes: (el.total_votes + 1) as u64, ..el }),
    };
    let bentry = EntryV { addr: baddr, rec: RecordV::Ballot(BallotV { has_voted: true }) };
    let s1 = s.update(ci, centry);
    let s2 = s1.update(ei, eentry);
    let post = commit_vote(s, eid, name, voter);

    // Lookup after the candidate update.
    assert forall|a: Seq<Seq<u8>>| a != caddr implies #[trigger] find_rec(s1, a) == find_rec(
        s,
        a,
    ) && index_of(s1, a) == index_of(s, a) by {
        lemma_find_after_update(s, ci, centry, a);
    }
    lemma_find_after_update(s, ci, centry, caddr);
    assert(find_rec(s1, caddr) == Option::Some(centry.rec));
    // Lookup after the election update.
    assert(s1[ei] == s[ei]);
    lemma_find_after_update(s, ci, centry, eaddr);
    assert(index_of(s1, eaddr) == ei);
    assert forall|a: Seq<Seq<u8>>| a != eaddr implies #[trigger] find_rec(s2, a) == find_rec(
        s1,
        a,
    ) && index_of(s2, a) == index_of(s1, a) by {
        lemma_find_after_update(s1, ei, eentry, a);
    }
    lemma_find_after_update(s1, ei, eentry, eaddr);
    assert(find_rec(s2, eaddr) == Option::Some(eentry.rec));
    // Lookup after the ballot write, and the shape of `post`.
    if contains_addr(s, baddr) {
        lemma_index_of_props(s, baddr);
        let bi = index_of(s, baddr);
        assert(s[bi].addr == baddr);
        assert(bi != ci && bi != ei);
        assert(s2[bi] == s[bi]);
        lemma_find_after_update(s, ci, centry, baddr);
        lemma_find_after_update(s1, ei, eentry, baddr);
        assert(index_of(s2, baddr) == bi);
        assert(post == s2.update(bi, bentry));
        assert forall|a: Seq<Seq<u8>>| a != baddr implies #[trigger] find_rec(post, a)
            == find_rec(s2, a) by {
            lemma_find_after_update(s2, bi, bentry, a);
        }
        lemma_find_after_update(s2, bi, bentry, baddr);
        assert(find_rec(post, baddr) == Option::Some(bentry.rec));
    } else {
        assert(!contains_addr(s2, baddr));
        assert(post == s2.push(bentry));
        assert forall|a: Seq<Seq<u8>>| a != baddr implies #[trigger] find_rec(post, a)
            == find_rec(s2, a) by {
            lemma_find_after_push(s2, bentry, a);
        }
        lemma_find_after_push(s2, bentry, baddr);
        assert(find_rec(post, baddr) == Option::Some(bentry.rec));
    }
    assert(find_rec(post, eaddr) == Option::Some(eentry.rec));
    assert(find_rec(post, caddr) == Option::Some(centry.rec));
    assert(ballot_voted(post, eid, voter));

    // Entries keep their addresses; only the three records change.
    assert forall|k: int| 0 <= k < s.len() implies #[trigger] post[k].addr == s[k].addr
        && (k != ei && k != ci && post[k].addr != baddr ==> post[k] == s[k]) by {
    }

    // Uniqueness.
    assert forall|i: int, j: int| 0 <= i < j < post.len() implies post[i].addr
        != post[j].addr by {
        if j < s.len() {
            assert(s[i].addr != s[j].addr);
        } else {
            assert(post[j] == bentry);
            lemma_contains_iff_index(s, baddr);
        }
    }

    // Well-formedness.
    assert(entry_wf(centry));
    assert(entry_wf(eentry));
    assert(entry_wf(bentry));
    assert forall|k: int| 0 <= k < post.len() implies entry_wf(#[trigger] post[k]) by {
        if k < s.len() {
            assert(entry_wf(s[k]));
            if k == ei {
                assert(post[k] == eentry);
            } else if k == ci {
                assert(post[k] == centry);
            } else if contains_addr(s, baddr) && k == index_of(s, baddr) {
                assert(post[k] == bentry);
            } else {
                assert(post[k] == s[k]);
            }
        } else {
            assert(post[k] == bentry);
        }
    }

    // Tallies.
    assert forall|k: int| 0 <= k < post.len() implies match #[trigger] post[k].rec {
        RecordV::Election(el2) => el2.total_votes == sum_votes(post, el2.id),
        _ => true,
    } by {
        match post[k].rec {
            RecordV::Election(el2) => {
                lemma_sum_after_update(s, ci, centry, el2.id);
                lemma_sum_after_update(s1, ei, eentry, el2.id);
                assert(entry_votes(s1[ei], el2.id) == 0);
                assert(entry_votes(eentry, el2.id) == 0);
                if contains_addr(s, baddr) {
                    let bi = index_of(s, baddr);
                    lemma_index_of_props(s, baddr);
                    assert(s2[bi] == s[bi]);
                    assert(entry_wf(s[bi]));
                    assert(s[bi].addr.len() == 3);
                    assert(s[bi].rec is Ballot);
                    assert(entry_votes(s[bi], el2.id) == 0);
                    lemma_sum_after_update(s2, bi, bentry, el2.id);
                } else {
                    lemma_sum_after_push(s2, bentry, el2.id);
                }
                assert(entry_votes(bentry, el2.id) == 0);
                if el2.id == eid {
                    assert(entry_votes(s[ci], eid) == c.vote_count as int);
                    assert(entry_votes(centry, eid) == c.vote_count + 1);
                    assert(sum_votes(post, eid) == sum_votes(s, eid) + 1);
                } else {
                    assert(entry_votes(s[ci], el2.id) == 0);
                    assert(entry_votes(centry, el2.id) == 0);
                    assert(sum_votes(post, el2.id) == sum_votes(s, el2.id));
                }
                if k == ei {
                    assert(post[k] == eentry);
                    assert(el.total_votes == sum_votes(s, el.id));
                } else {
                    assert(post[k] == s[k]);
                    assert(match s[k].rec {
                        RecordV::Election(e3) => e3.total_votes == sum_votes(s, e3.id),
                        _ => true,
                    });
                    if el2.id == eid {
                        assert(s[k].addr == election_addr(eid));
                        assert(s[k].addr == s[ei].addr);
                        assert(false);
                    }
                }
            },
            _ => {},
        }
    }

    // Dormant candidates.
    assert forall|k: int| 0 <= k < post.len() implies match #[trigger] post[k].rec {
        RecordV::Candidate(c2) => !contains_addr(post, election_addr(post[k].addr[0]))
            ==> c2.vote_count == 0,
        _ => true,
    } by {
        match post[k].rec {
            RecordV::Candidate(c2) => {
                if k == ci {
                    assert(post[k].addr[0] == eid);
                    assert(contains_addr(post, eaddr));
                } else {
                    assert(post[k] == s[k]);
                    let x = election_addr(s[k].addr[0]);
                    assert(x[0].len() == 8);
                    assert(x != caddr);
                    assert(x != baddr);
                    if contains_addr(s, x) {
                        if x == eaddr {
                            assert(contains_addr(post, x));
                        } else {
                            assert(find_rec(post, x) == find_rec(s, x));
                        }
                    } else {
                        assert(match s[k].rec {
                            RecordV::Candidate(c3) => c3.vote_count == 0,
                            _ => true,
                        });
                    }
                }
            },
            _ => {},
        }
    }
}

/// Casting a vote preserves the ledger invariant; when it succeeds, the
/// candidate's count and the election's tally each grow by exactly one,
/// the voter's ballot is marked, and nothing else in the ledger changes.
pub proof fn lemma_step_cast_vote_props(
    s: Seq<EntryV>,
    eid: Seq<u8>,
    name: Seq<u8>,
    voter: Seq<u8>,
    now: u64,
)
    requires
        inv(s),
        eid.len() == 16,
        match find_rec(s, election_addr(eid)) {
            Option::Some(RecordV::Election(el)) => el.total_votes < u64::MAX,
            _ => true,
        },
        match find_rec(s, candidate_addr(eid, name)) {
            Option::Some(RecordV::Candidate(c)) => c.vote_count < u64::MAX,
            _ => true,
        },
    ensures
        inv(step_cast_vote(s, eid, name, voter, now).post),
        step_cast_vote(s, eid, name, voter, now).result is Ok ==> ({
            let post = step_cast_vote(s, eid, name, voter, now).post;
            let el = find_rec(s, election_addr(eid))->Some_0->Election_0;
            let c = find_rec(s, candidate_addr(eid, name))->Some_0->Candidate_0;
            &&& find_rec(post, election_addr(eid)) == Option::Some(
                RecordV::Election(
                    ElectionV { total_votes: (el.total_votes + 1) as u64, ..el },
                ),
            )
            &&& find_rec(post, candidate_addr(eid, name)) == Option::Some(
                RecordV::Candidate(
                    CandidateV { name: c.name, vote_count: (c.vote_count + 1) as u64 },
                ),
            )
            &&& ballot_voted(post, eid, voter)
            &&& forall|a: Seq<Seq<u8>>|
                a != election_addr(eid) && a != candidate_addr(eid, name) && a != ballot_addr(
                    eid,
                    voter,
                ) ==> #[trigger] find_rec(post, a) == find_rec(s, a)
        }),
{
    if !ballot_voted(s, eid, voter) {
        match find_rec(s, election_addr(eid)) {
            Option::Some(RecordV::Election(el)) => {
                if !(el.start > now || el.end < now) {
                    match find_rec(s, candidate_addr(eid, name)) {
                        Option::Some(RecordV::Candidate(c)) => {
                            if c.name == name && el.id == eid {
                                lemma_commit_vote_props(s, eid, name, voter);
                            }
                        },
                        _ => {},
                    }
                }
            },
            _ => {},
        }
    }
}

/// Double voting is rejected: once a vote by `voter` in election `eid` has
/// succeeded, any further vote by the same voter in the same election —
/// for any candidate, at any time — fails with `AlreadyVoted` and leaves
/// the ledger exactly as the first vote left it.
pub proof fn lemma_no_double_vote(
    s: Seq<EntryV>,
    eid: Seq<u8>,
    name: Seq<u8>,
    name2: Seq<u8>,
    voter: Seq<u8>,
    now: u64,
    now2: u64,
)
    requires
        inv(s),
        eid.len() == 16,
        match find_rec(s, election_addr(eid)) {
            Option::Some(RecordV::Election(el)) => el.total_votes < u64::MAX,
            _ => true,
        },
        match find_rec(s, candidate_addr(eid, name)) {
            Option::Some(RecordV::Candidate(c)) => c.vote_count < u64::MAX,
            _ => true,
        },
        step_cast_vote(s, eid, name, voter, now).result is Ok,
    ensures
        ({
            let post = step_cast_vote(s, eid, name, voter, now).post;
            &&& step_cast_vote(post, eid, name2, voter, now2).result == Result::<(),
            VotingError>::Err(VotingError::AlreadyVoted)
            &&& step_cast_vote(post, eid, name2, voter, now2).post == post
        }),
{
    lemma_step_cast_vote_props(s, eid, name, voter, now);
}

/// The voting window includes its lower bound and its upper bound: with a
/// fresh ballot, an existing election, and a valid candidate, a vote at
/// any `now` with `start <= now <= end` succeeds — in particular at
/// `now == start` — while `now < start` and `now > end` fail with
/// `VotingTimedOut` and leave the ledger unchanged.
pub proof fn lemma_time_window(
    s: Seq<EntryV>,
    eid: Seq<u8>,
    name: Seq<u8>,
    voter: Seq<u8>,
    now: u64,
)
    requires
        !ballot_voted(s, eid, voter),
        find_rec(s, election_addr(eid)) is Some,
        find_rec(s, election_addr(eid))->Some_0 is Election,
        find_rec(s, election_addr(eid))->Some_0->Election_0.id == eid,
        find_rec(s, candidate_addr(eid, name)) is Some,
        find_rec(s, candidate_addr(eid, name))->Some_0 is Candidate,
        find_rec(s, candidate_addr(eid, name))->Some_0->Candidate_0.name == name,
    ensures
        ({
            let el = find_rec(s, election_addr(eid))->Some_0->Election_0;
            &&& (now < el.start || now > el.end) ==> step_cast_vote(s, eid, name, voter, now)
                == (StepV {
                result: Result::<(), VotingError>::Err(VotingError::VotingTimedOut),
                post: s,
            })
            &&& (el.start <= now <= el.end) ==> step_cast_vote(
                s,
                eid,
                name,
                voter,
                now,
            ).result is Ok
        }),
{
}

/// A corollary of tally consistency: no candidate ever outcounts its
/// election. Under the invariant, the `vote_count` of any candidate
/// record is at most the `total_votes` of its election's record.
pub proof fn lemma_candidate_count_le_total(s: Seq<EntryV>, k: int, eid: Seq<u8>)
    requires
        inv(s),
        0 <= k < s.len(),
        is_candidate_of(s[k], eid),
        find_rec(s, election_addr(eid)) is Some,
        find_rec(s, election_addr(eid))->Some_0 is Election,
    ensures
        ({
            let el = find_rec(s, election_addr(eid))->Some_0->Election_0;
            match s[k].rec {
                RecordV::Candidate(c) => c.vote_count <= el.total_votes,
                _ => true,
            }
        }),
{
    lemma_index_of_props(s, election_addr(eid));
    let ei = index_of(s, election_addr(eid));
    let el = find_rec(s, election_addr(eid))->Some_0->Election_0;
    assert(s[ei].rec == RecordV::Election(el));
    crate::address::lemma_addr_injective(el.id, eid, eid, eid);
    assert(el.id == eid);
    assert(el.total_votes == sum_votes(s, eid));
    lemma_entry_votes_le_sum(s, k, eid);
}

/// Initializing an election twice fails: after a successful creation, a
/// second creation under the same identifier — whatever description and
/// window it brings — fails with `ElectionAlreadyInitialized`, and the
/// record created first still holds its original values.
pub proof fn lemma_duplicate_initialization(
    s: Seq<EntryV>,
    id: Seq<u8>,
    description: Seq<u8>,
    start: u64,
    end: u64,
    description2: Seq<u8>,
    start2: u64,
    end2: u64,
)
    requires
        step_initialize_election(s, id, description, start, end).result is Ok,
    ensures
        ({
            let post = step_initialize_election(s, id, description, start, end).post;
            &&& step_initialize_election(post, id, description2, start2, end2).result
                == Result::<(), VotingError>::Err(VotingError::ElectionAlreadyInitialized)
            &&& step_initialize_election(post, id, description2, start2, end2).post == post
            &&& find_rec(post, election_addr(id)) == Option::Some(
                RecordV::Election(
                    ElectionV { id, description, start, end, total_votes: 0 },
                ),
            )
        }),
{
    let e = EntryV {
        addr: election_addr(id),
        rec: RecordV::Election(ElectionV { id, description, start, end, total_votes: 0 }),
    };
    lemma_find_after_push(s, e, election_addr(id));
}

} // verus!
