//! The symbol table: label names and the addresses they stand for.

use crate::error::{result_view, AsmError, AsmErrorView};
use vstd::hash_map::StringHashMap;
use vstd::prelude::*;

verus! {

/// A mapping from label names (case-sensitive) to 16-bit addresses, in which
/// a name is bound once and for all.
///
/// Its value as seen by contracts is a `Map` from names, as sequences of
/// characters, to addresses.
pub struct SymTab {
    map: StringHashMap<u16>,
}

impl View for SymTab {
    type V = Map<Seq<char>, u16>;

    closed spec fn view(&self) -> Map<Seq<char>, u16> {
        self.map@
    }
}

impl SymTab {
    /// A table with no name in it.
    pub fn new() -> (table: Self)
        ensures
            table@ == Map::<Seq<char>, u16>::empty(),
    {
        SymTab { map: StringHashMap::new() }
    }

    /// Binds `name` to `addr`. A name that is bound already keeps its address,
    /// and the call fails with `DuplicateLabel`.
    pub fn define(&mut self, name: String, addr: u16) -> (r: Result<(), AsmError>)
        ensures
            old(self)@.contains_key(name@) ==> final(self)@ == old(self)@ && result_view(r)
                == Err::<(), AsmErrorView>(AsmErrorView::DuplicateLabel(name@)),
            !old(self)@.contains_key(name@) ==> final(self)@ == old(self)@.insert(name@, addr)
                && r is Ok,
    {
        if self.map.contains_key(name.as_str()) {
            Err(AsmError::DuplicateLabel(name))
        } else {
            self.map.insert(name, addr);
            Ok(())
        }
    }

    /// The address that `name` stands for, if it is bound.
    pub fn get(&self, name: &str) -> (addr: Option<u16>)
        ensures
            addr == (if self@.contains_key(name@) {
                Some(self@[name@])
            } else {
                None
            }),
    {
        match self.map.get(name) {
            Some(addr) => Some(*addr),
            None => None,
        }
    }
}

} // verus!
