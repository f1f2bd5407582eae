//! The record store: a persistent keyed store of fixed-shape records.
//!
//! Records are held in order of creation, each under its derived address.
//! Creation is create-if-absent; existing records can be read or replaced
//! in place. Every operation is specified against the ledger model: the
//! store's view is the sequence of its entries.

use vstd::prelude::*;

use crate::address::{addr_eq, Address};
use crate::model::{
    contains_addr, find_rec, index_of, lemma_first_match, lemma_index_of_props, EntryV,
};
use crate::records::Record;

verus! {

/// One stored record together with the address it was created at.
pub struct Entry {
    pub addr: Address,
    pub rec: Record,
}

impl View for Entry {
    type V = EntryV;

    open spec fn view(&self) -> EntryV {
        EntryV { addr: self.addr@, rec: self.rec@ }
    }
}

/// A keyed store of records, viewed as the sequence of its entries.
pub struct RecordStore {
    pub entries: Vec<Entry>,
}

impl View for RecordStore {
    type V = Seq<EntryV>;

    open spec fn view(&self) -> Seq<EntryV> {
        self.entries@.map_values(|e: Entry| e@)
    }
}

impl RecordStore {
    /// Creates an empty store.
    pub fn new() -> (st: Self)
        ensures
            st@ == Seq::<EntryV>::empty(),
    {
        let st = RecordStore { entries: Vec::new() };
        proof {
            assert(st@ =~= Seq::<EntryV>::empty());
        }
        st
    }

    /// Index of the entry stored at `addr`, if one exists.
    fn find_index(&self, addr: &Address) -> (r: Option<usize>)
        ensures
            match r {
                Option::Some(i) => contains_addr(self@, addr@) && i == index_of(self@, addr@)
                    && i < self@.len(),
                Option::None => !contains_addr(self@, addr@),
            },
    {
        let mut i: usize = 0;
        while i < self.entries.len()
            invariant
                i <= self.entries.len(),
                self@.len() == self.entries@.len(),
                forall|j: int| 0 <= j < i ==> self@[j].addr != addr@,
            decreases self.entries.len() - i,
        {
            if addr_eq(&self.entries[i].addr, addr) {
                proof {
                    assert(self@[i as int].addr == addr@);
                    lemma_first_match(self@, addr@, i as int);
                }
                return Option::Some(i);
            }
            proof {
                assert(self@[i as int].addr != addr@);
            }
            i += 1;
        }
        proof {
            crate::model::lemma_contains_iff_index(self@, addr@);
        }
        Option::None
    }

    /// Reads the record stored at `addr`, if any.
    pub fn read(&self, addr: &Address) -> (r: Option<&Record>)
        ensures
            match r {
                Option::Some(rec) => find_rec(self@, addr@) == Option::Some(rec@),
                Option::None => !contains_addr(self@, addr@),
            },
    {
        match self.find_index(addr) {
            Option::Some(i) => {
                proof {
                    lemma_index_of_props(self@, addr@);
                }
                Option::Some(&self.entries[i].rec)
            },
            Option::None => Option::None,
        }
    }

    /// Creates a record at `addr` if that address is free; returns whether
    /// the record was created. An occupied address is left untouched.
    pub fn create(&mut self, addr: Address, rec: Record) -> (r: bool)
        ensures
            contains_addr(old(self)@, addr@) ==> !r && final(self)@ == old(self)@,
            !contains_addr(old(self)@, addr@) ==> r && final(self)@ == old(self)@.push(
                EntryV { addr: addr@, rec: rec@ },
            ),
    {
        match self.find_index(&addr) {
            Option::Some(_) => false,
            Option::None => {
                let ghost prev = self@;
                let ghost av = addr@;
                let ghost rv = rec@;
                self.entries.push(Entry { addr, rec });
                proof {
                    assert(self@ =~= prev.push(EntryV { addr: av, rec: rv }));
                }
                true
            },
        }
    }

    /// Returns the record stored at `addr`, creating it from `default`
    /// first if the address is free; exactly one of the two happens.
    pub fn get_or_create(&mut self, addr: Address, default: Record) -> (r: Record)
        ensures
            contains_addr(old(self)@, addr@) ==> final(self)@ == old(self)@ && Option::Some(
                r@,
            ) == find_rec(old(self)@, addr@),
            !contains_addr(old(self)@, addr@) ==> final(self)@ == old(self)@.push(
                EntryV { addr: addr@, rec: default@ },
            ) && r@ == default@,
    {
        match self.find_index(&addr) {
            Option::Some(i) => {
                proof {
                    lemma_index_of_props(self@, addr@);
                }
                crate::records::clone_record(&self.entries[i].rec)
            },
            Option::None => {
                let ghost prev = self@;
                let ghost av = addr@;
                let ghost dv = default@;
                let r = crate::records::clone_record(&default);
                self.entries.push(Entry { addr, rec: default });
                proof {
                    assert(self@ =~= prev.push(EntryV { addr: av, rec: dv }));
                }
                r
            },
        }
    }

    /// Atomically replaces the record at `addr` with `rec` — the caller
    /// derives `rec` from the value it read, and no observer sees a
    /// half-updated record — or reports that the address holds nothing.
    pub fn mutate(&mut self, addr: &Address, rec: Record) -> (r: bool)
        ensures
            contains_addr(old(self)@, addr@) ==> r && final(self)@ == old(self)@.update(
                index_of(old(self)@, addr@),
                EntryV { addr: addr@, rec: rec@ },
            ),
            !contains_addr(old(self)@, addr@) ==> !r && final(self)@ == old(self)@,
    {
        let ghost prev = self@;
        let i: usize = match self.find_index(addr) {
            Option::Some(i) => i,
            Option::None => {
                return false;
            },
        };
        proof {
            lemma_index_of_props(self@, addr@);
        }
        self.entries[i].rec = rec;
        proof {
            assert(self@ =~= prev.update(
                index_of(prev, addr@),
                EntryV { addr: addr@, rec: rec@ },
            ));
        }
        true
    }
}

} // verus!
