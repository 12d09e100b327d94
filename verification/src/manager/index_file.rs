//! The address index: which address string each id stands for.

use vstd::prelude::*;
use crate::workers::AddrId;

verus! {

/// The largest number of addresses an index can hold: one for each id.
pub const MAX_ADDRS: u64 = 0x1_0000_0000;

/// Addresses by id. Ids are handed out in order from 0 and never reused,
/// so the address of an id is the one at that place.
pub struct IndexFile {
    addrs: Vec<String>,
}

impl View for IndexFile {
    type V = Seq<Seq<char>>;

    /// The addresses, that of id `i` at place `i`.
    closed spec fn view(&self) -> Seq<Seq<char>> {
        self.addrs@.map_values(|a: String| a@)
    }
}

impl IndexFile {
    #[verifier::type_invariant]
    spec fn well_formed(&self) -> bool {
        self.addrs@.len() <= MAX_ADDRS
    }

    /// An index without addresses.
    pub fn new() -> (index: IndexFile)
        ensures
            index@ == Seq::<Seq<char>>::empty(),
    {
        let index = IndexFile { addrs: Vec::new() };
        assert(index@ =~= Seq::<Seq<char>>::empty());
        index
    }

    /// The index that holds `addrs`, each under the id of its place, or
    /// `None` where there are more of them than ids.
    pub fn from_addrs(addrs: Vec<String>) -> (r: Option<IndexFile>)
        ensures
            match r {
                Some(index) => addrs@.len() <= MAX_ADDRS && index@ == addrs@.map_values(
                    |a: String| a@,
                ),
                None => addrs@.len() > MAX_ADDRS,
            },
    {
        if addrs.len() as u64 <= MAX_ADDRS {
            Some(IndexFile { addrs })
        } else {
            None
        }
    }

    /// Number of addresses, which is also the next id. Every id below it
    /// is in use.
    pub fn len(&self) -> (n: usize)
        ensures
            n == self@.len(),
            n <= MAX_ADDRS,
    {
        proof {
            use_type_invariant(self);
        }
        self.addrs.len()
    }

    /// Whether every id is taken.
    pub fn is_full(&self) -> (b: bool)
        ensures
            b == (self@.len() >= MAX_ADDRS),
    {
        self.addrs.len() as u64 >= MAX_ADDRS
    }

    /// The address of `id`, where the index has one.
    pub fn get_addr(&self, id: AddrId) -> (r: Option<&String>)
        ensures
            match r {
                Some(addr) => id < self@.len() && addr@ == self@[id as int],
                None => id >= self@.len(),
            },
    {
        let i = id as usize;
        if i < self.addrs.len() {
            Some(&self.addrs[i])
        } else {
            None
        }
    }

    /// Whether the index has an address for `id`.
    pub fn has_addr(&self, id: AddrId) -> (b: bool)
        ensures
            b == (id < self@.len()),
    {
        (id as usize) < self.addrs.len()
    }

    /// Registers `addr` under the next id and returns that id. A full
    /// index stays as it is and returns `None`.
    pub fn add_addr(&mut self, addr: String) -> (r: Option<AddrId>)
        ensures
            match r {
                Some(id) => id == old(self)@.len() && final(self)@ == old(self)@.push(addr@),
                None => old(self)@.len() >= MAX_ADDRS && final(self)@ == old(self)@,
            },
    {
        proof {
            use_type_invariant(&*self);
        }
        let n = self.addrs.len();
        if n as u64 >= MAX_ADDRS {
            return None;
        }
        let id = n as u32;
        let ghost before = self.addrs@;
        let mut addrs: Vec<String> = Vec::new();
        core::mem::swap(&mut self.addrs, &mut addrs);
        addrs.push(addr);
        self.addrs = addrs;
        assert(self@ =~= before.map_values(|a: String| a@).push(addr@));
        Some(id)
    }

    /// The addresses in id order, as they are to be stored.
    pub fn addrs(&self) -> (v: &Vec<String>)
        ensures
            v@.map_values(|a: String| a@) == self@,
    {
        &self.addrs
    }
}

} // verus!
