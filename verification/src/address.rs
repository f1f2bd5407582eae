//! Deterministic record addressing.
//!
//! An address is derived from a namespace tag plus seed byte-strings. The
//! derivation keeps the tag and the seeds as separate, length-preserving
//! components, so it is injective outright: distinct inputs always yield
//! distinct addresses, and the collision-freedom the addressing scheme asks
//! for holds exactly rather than with overwhelming probability.

use vstd::prelude::*;

verus! {

/// A storage address: the namespace tag followed by the seed byte-strings.
pub struct Address {
    pub parts: Vec<Vec<u8>>,
}

impl View for Address {
    type V = Seq<Seq<u8>>;

    open spec fn view(&self) -> Seq<Seq<u8>> {
        self.parts@.map_values(|p: Vec<u8>| p@)
    }
}

/// Namespace tag for election records: the bytes of `"election"`.
pub open spec fn ns_election() -> Seq<u8> {
    seq![101u8, 108u8, 101u8, 99u8, 116u8, 105u8, 111u8, 110u8]
}

/// Namespace tag for ballot records: the bytes of `"ballot"`.
pub open spec fn ns_ballot() -> Seq<u8> {
    seq![98u8, 97u8, 108u8, 108u8, 111u8, 116u8]
}

/// Address of the election record with identifier `id`.
pub open spec fn election_addr(id: Seq<u8>) -> Seq<Seq<u8>> {
    seq![ns_election(), id]
}

/// Address of the candidate record named `name` under election `eid`.
/// The election identifier itself serves as the namespace, so candidate
/// identity is scoped to its election by construction.
pub open spec fn candidate_addr(eid: Seq<u8>, name: Seq<u8>) -> Seq<Seq<u8>> {
    seq![eid, name]
}

/// Address of the ballot record of voter `voter` in election `eid`.
pub open spec fn ballot_addr(eid: Seq<u8>, voter: Seq<u8>) -> Seq<Seq<u8>> {
    seq![ns_ballot(), eid, voter]
}

/// The three address shapes never coincide: election and ballot addresses
/// carry distinct namespace tags and component counts, and a candidate
/// address starts with a 16-byte election identifier where an election
/// address starts with the 8-byte tag.
pub proof fn lemma_addr_shapes_disjoint(
    id: Seq<u8>,
    eid: Seq<u8>,
    name: Seq<u8>,
    beid: Seq<u8>,
    voter: Seq<u8>,
)
    requires
        eid.len() == 16,
    ensures
        election_addr(id) != candidate_addr(eid, name),
        election_addr(id) != ballot_addr(beid, voter),
        candidate_addr(eid, name) != ballot_addr(beid, voter),
{
    assert(election_addr(id)[0].len() == 8);
    assert(candidate_addr(eid, name)[0].len() == 16);
    assert(election_addr(id).len() == 2);
    assert(ballot_addr(beid, voter).len() == 3);
}

/// Address derivation is injective for each shape: equal addresses come
/// from equal inputs.
pub proof fn lemma_addr_injective(a1: Seq<u8>, a2: Seq<u8>, b1: Seq<u8>, b2: Seq<u8>)
    ensures
        election_addr(a1) == election_addr(a2) ==> a1 == a2,
        candidate_addr(a1, b1) == candidate_addr(a2, b2) ==> a1 == a2 && b1 == b2,
        ballot_addr(a1, b1) == ballot_addr(a2, b2) ==> a1 == a2 && b1 == b2,
{
    if election_addr(a1) == election_addr(a2) {
        assert(election_addr(a1)[1] == election_addr(a2)[1]);
    }
    if candidate_addr(a1, b1) == candidate_addr(a2, b2) {
        assert(candidate_addr(a1, b1)[0] == candidate_addr(a2, b2)[0]);
        assert(candidate_addr(a1, b1)[1] == candidate_addr(a2, b2)[1]);
    }
    if ballot_addr(a1, b1) == ballot_addr(a2, b2) {
        assert(ballot_addr(a1, b1)[1] == ballot_addr(a2, b2)[1]);
        assert(ballot_addr(a1, b1)[2] == ballot_addr(a2, b2)[2]);
    }
}

/// Byte-for-byte equality of two byte vectors.
pub fn bytes_eq(a: &Vec<u8>, b: &Vec<u8>) -> (r: bool)
    ensures
        r <==> a@ == b@,
{
    if a.len() != b.len() {
        return false;
    }
    let mut i: usize = 0;
    while i < a.len()
        invariant
            i <= a.len(),
            a.len() == b.len(),
            forall|j: int| 0 <= j < i ==> a@[j] == b@[j],
        decreases a.len() - i,
    {
        if a[i] != b[i] {
            return false;
        }
        i += 1;
    }
    proof {
        assert(a@ =~= b@);
    }
    true
}

/// Byte-for-byte equality of two 16-byte identifiers.
pub fn id_eq(a: &[u8; 16], b: &[u8; 16]) -> (r: bool)
    ensures
        r <==> a@ == b@,
{
    let mut i: usize = 0;
    while i < 16
        invariant
            i <= 16,
            forall|j: int| 0 <= j < i ==> a@[j] == b@[j],
        decreases 16 - i,
    {
        if a[i] != b[i] {
            return false;
        }
        i += 1;
    }
    proof {
        assert(a@ =~= b@);
    }
    true
}

/// Component-for-component equality of two addresses.
pub fn addr_eq(a: &Address, b: &Address) -> (r: bool)
    ensures
        r <==> a@ == b@,
{
    if a.parts.len() != b.parts.len() {
        proof {
            assert(a@.len() == a.parts@.len());
            assert(b@.len() == b.parts@.len());
        }
        return false;
    }
    let mut i: usize = 0;
    while i < a.parts.len()
        invariant
            i <= a.parts.len(),
            a.parts.len() == b.parts.len(),
            forall|j: int| 0 <= j < i ==> a@[j] == b@[j],
        decreases a.parts.len() - i,
    {
        if !bytes_eq(&a.parts[i], &b.parts[i]) {
            proof {
                assert(a@[i as int] == a.parts@[i as int]@);
                assert(b@[i as int] == b.parts@[i as int]@);
            }
            return false;
        }
        i += 1;
    }
    proof {
        assert(a@ =~= b@);
    }
    true
}

/// The bytes of the election namespace tag.
fn ns_election_bytes() -> (v: Vec<u8>)
    ensures
        v@ == ns_election(),
{
    let mut v: Vec<u8> = Vec::new();
    v.push(101u8);
    v.push(108u8);
    v.push(101u8);
    v.push(99u8);
    v.push(116u8);
    v.push(105u8);
    v.push(111u8);
    v.push(110u8);
    proof {
        assert(v@ =~= ns_election());
    }
    v
}

/// The bytes of the ballot namespace tag.
fn ns_ballot_bytes() -> (v: Vec<u8>)
    ensures
        v@ == ns_ballot(),
{
    let mut v: Vec<u8> = Vec::new();
    v.push(98u8);
    v.push(97u8);
    v.push(108u8);
    v.push(108u8);
    v.push(111u8);
    v.push(116u8);
    proof {
        assert(v@ =~= ns_ballot());
    }
    v
}

/// Copies a 16-byte identifier into an owned byte vector.
fn id_bytes(id: &[u8; 16]) -> (v: Vec<u8>)
    ensures
        v@ == id@,
{
    let mut v: Vec<u8> = Vec::new();
    let mut i: usize = 0;
    while i < 16
        invariant
            i <= 16,
            v@.len() == i,
            forall|j: int| 0 <= j < i ==> v@[j] == id@[j],
        decreases 16 - i,
    {
        v.push(id[i]);
        i += 1;
    }
    proof {
        assert(v@ =~= id@);
    }
    v
}

/// Copies a byte vector.
pub(crate) fn copy_bytes(b: &Vec<u8>) -> (v: Vec<u8>)
    ensures
        v@ == b@,
{
    let mut v: Vec<u8> = Vec::new();
    let mut i: usize = 0;
    while i < b.len()
        invariant
            i <= b.len(),
            v@.len() == i,
            forall|j: int| 0 <= j < i ==> v@[j] == b@[j],
        decreases b.len() - i,
    {
        v.push(b[i]);
        i += 1;
    }
    proof {
        assert(v@ =~= b@);
    }
    v
}

/// Derives the address of the election record with identifier `id`.
pub fn election_address(id: &[u8; 16]) -> (a: Address)
    ensures
        a@ == election_addr(id@),
{
    let mut parts: Vec<Vec<u8>> = Vec::new();
    parts.push(ns_election_bytes());
    parts.push(id_bytes(id));
    let a = Address { parts };
    proof {
        assert(a@ =~= election_addr(id@));
    }
    a
}

/// Derives the address of the candidate record named `name` under
/// election `election_id`.
pub fn candidate_address(election_id: &[u8; 16], name: &Vec<u8>) -> (a: Address)
    ensures
        a@ == candidate_addr(election_id@, name@),
{
    let mut parts: Vec<Vec<u8>> = Vec::new();
    parts.push(id_bytes(election_id));
    parts.push(copy_bytes(name));
    let a = Address { parts };
    proof {
        assert(a@ =~= candidate_addr(election_id@, name@));
    }
    a
}

/// Derives the address of the ballot record of voter `voter` in election
/// `election_id`.
pub fn ballot_address(election_id: &[u8; 16], voter: &Vec<u8>) -> (a: Address)
    ensures
        a@ == ballot_addr(election_id@, voter@),
{
    let mut parts: Vec<Vec<u8>> = Vec::new();
    parts.push(ns_ballot_bytes());
    parts.push(id_bytes(election_id));
    parts.push(copy_bytes(voter));
    let a = Address { parts };
    proof {
        assert(a@ =~= ballot_addr(election_id@, voter@));
    }
    a
}

} // verus!
