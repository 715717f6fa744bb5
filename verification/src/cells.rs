//! Hashed collections of cells.
//!
//! The collections of the standard library are keyed here by a number that
//! stands for the cell, and seen from outside as a set of cells and as a map
//! from cells.

use crate::grid::Pos;
use std::collections::HashMap;
use std::collections::HashSet;
use vstd::prelude::*;
use vstd::set_lib::lemma_map_size;
use vstd::std_specs::hash::group_hash_axioms;

verus! {

broadcast use group_hash_axioms;

/// The number that stands for a cell: no two cells share one.
pub open spec fn code(p: Pos) -> u32 {
    (p.0 as int * 65536 + p.1 as int) as u32
}

/// Computes the number that stands for a cell.
pub fn encode(p: Pos) -> (c: u32)
    ensures
        c == code(p),
{
    let x: u32 = p.0 as u32;
    let y: u32 = p.1 as u32;
    x * 65536 + y
}

/// Different cells have different codes.
pub proof fn lemma_code_injective(p: Pos, q: Pos)
    requires
        code(p) == code(q),
    ensures
        p == q,
{
}

/// A set of cells.
pub struct CellSet {
    codes: HashSet<u32>,
    cells: Ghost<Set<Pos>>,
}

impl View for CellSet {
    type V = Set<Pos>;

    closed spec fn view(&self) -> Set<Pos> {
        self.cells@
    }
}

impl CellSet {
    /// The hashed codes are those of the members, and the members are
    /// finitely many.
    pub closed spec fn wf(&self) -> bool {
        &&& self.cells@.finite()
        &&& forall|p: Pos| self.cells@.contains(p) <==> self.codes@.contains(code(p))
    }

    /// The empty set.
    pub fn new() -> (s: CellSet)
        ensures
            s.wf(),
            s@ == Set::<Pos>::empty(),
    {
        CellSet { codes: HashSet::new(), cells: Ghost(Set::empty()) }
    }

    /// Tells whether the cell is a member.
    pub fn contains(&self, p: Pos) -> (r: bool)
        requires
            self.wf(),
        ensures
            r == self@.contains(p),
    {
        let c: u32 = encode(p);
        self.codes.contains(&c)
    }

    /// Makes the cell a member.
    pub fn insert(&mut self, p: Pos)
        requires
            old(self).wf(),
        ensures
            final(self).wf(),
            final(self)@ == old(self)@.insert(p),
    {
        let c: u32 = encode(p);
        self.codes.insert(c);
        proof {
            self.cells@ = self.cells@.insert(p);
        }
    }

    /// The number of members.
    pub fn len(&self) -> (n: usize)
        requires
            self.wf(),
        ensures
            n == self@.len(),
    {
        proof {
            let f = |p: Pos| code(p);
            assert(self.cells@.map(f) =~= self.codes@) by {
                assert forall|c: u32| self.codes@.contains(c) implies self.cells@.map(f).contains(
                    c,
                ) by {
                    let p: Pos = ((c / 65536) as u16, (c % 65536) as u16);
                    assert(self.cells@.contains(p) && f(p) == c);
                }
            }
            lemma_map_size(self.cells@, self.codes@, f);
        }
        self.codes.len()
    }
}

/// A map from cells to numbers.
pub struct CellMap {
    codes: HashMap<u32, usize>,
}

impl View for CellMap {
    type V = Map<Pos, usize>;

    closed spec fn view(&self) -> Map<Pos, usize> {
        Map::new(|p: Pos| self.codes@.contains_key(code(p)), |p: Pos| self.codes@[code(p)])
    }
}

impl CellMap {
    /// The empty map.
    pub fn new() -> (m: CellMap)
        ensures
            m@ == Map::<Pos, usize>::empty(),
    {
        CellMap { codes: HashMap::new() }
    }

    /// The number that the cell is mapped to, if it is mapped.
    pub fn get(&self, p: Pos) -> (r: Option<usize>)
        ensures
            r == if self@.contains_key(p) {
                Some(self@[p])
            } else {
                None
            },
    {
        let c: u32 = encode(p);
        match self.codes.get(&c) {
            Some(v) => Some(*v),
            None => None,
        }
    }

    /// Maps the cell to the number.
    pub fn insert(&mut self, p: Pos, v: usize)
        ensures
            final(self)@ == old(self)@.insert(p, v),
    {
        let c: u32 = encode(p);
        self.codes.insert(c, v);
    }
}

} // verus!
