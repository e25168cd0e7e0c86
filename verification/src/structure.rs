//! The molecular data model: atoms with position and velocity, residues,
//! whole structures, and the coarse-grained pseudo-atoms that aggregation
//! emits.

use crate::rat::q_wf;
use crate::vec3::{qv3_wf, QV3, Vec3};
use vstd::prelude::*;

verus! {

/// Position and velocity of one fine-grained atom.
#[derive(Clone, Copy, Debug)]
pub struct AtomState {
    pub position: Vec3,
    pub velocity: Vec3,
}

impl AtomState {
    pub open spec fn wf(self) -> bool {
        self.position.wf() && self.velocity.wf()
    }

    pub fn new(position: Vec3, velocity: Vec3) -> (r: AtomState)
        ensures
            r.position == position,
            r.velocity == velocity,
    {
        AtomState { position, velocity }
    }
}

/// One residue of the input structure: a numbered, named set of atoms,
/// looked up by atom name.  The first entry with a given name is the one a
/// lookup finds.
#[derive(Debug)]
pub struct Residue {
    pub number: i32,
    pub name: String,
    pub atoms: Vec<(String, AtomState)>,
}

impl Residue {
    pub open spec fn wf(self) -> bool {
        forall|i: int| 0 <= i < self.atoms@.len() ==> (#[trigger] self.atoms@[i]).1.wf()
    }
}

/// A parsed input structure.
#[derive(Debug)]
pub struct Structure {
    pub title: String,
    pub residues: Vec<Residue>,
    pub box_size: Vec3,
}

impl Structure {
    pub open spec fn wf(self) -> bool {
        &&& self.box_size.wf()
        &&& forall|i: int| 0 <= i < self.residues@.len() ==> (#[trigger] self.residues@[i]).wf()
    }
}

/// Specification-space image of one emitted pseudo-atom.
#[verifier::ext_equal]
pub ghost struct PAtomQ {
    pub res_number: int,
    pub res_name: Seq<char>,
    pub atom_name: Seq<char>,
    pub atom_number: int,
    pub position: QV3,
    pub velocity: QV3,
}

/// One coarse-grained bead, emitted as a single pseudo-atom.
#[derive(Debug)]
pub struct PseudoAtom {
    pub res_number: i32,
    pub res_name: String,
    pub atom_name: String,
    pub atom_number: usize,
    pub position: Vec3,
    pub velocity: Vec3,
}

impl View for PseudoAtom {
    type V = PAtomQ;

    open spec fn view(&self) -> PAtomQ {
        PAtomQ {
            res_number: self.res_number as int,
            res_name: self.res_name@,
            atom_name: self.atom_name@,
            atom_number: self.atom_number as int,
            position: self.position@,
            velocity: self.velocity@,
        }
    }
}

/// The coarse-grained output: the input's title and box size, unchanged, and
/// the emitted pseudo-atoms in emission order.
#[derive(Debug)]
pub struct CgStructure {
    pub title: String,
    pub atoms: Vec<PseudoAtom>,
    pub box_size: Vec3,
}

/// The first atom entry named `name`, if any.
pub open spec fn spec_lookup(atoms: Seq<(String, AtomState)>, name: Seq<char>) -> Option<AtomState>
    decreases atoms.len(),
{
    if atoms.len() == 0 {
        None
    } else if atoms[0].0@ == name {
        Some(atoms[0].1)
    } else {
        spec_lookup(atoms.drop_first(), name)
    }
}

/// A lookup skips over entries whose names do not match.
proof fn lemma_lookup_skip(atoms: Seq<(String, AtomState)>, name: Seq<char>, i: int)
    requires
        0 <= i <= atoms.len(),
        forall|k: int| 0 <= k < i ==> (#[trigger] atoms[k]).0@ != name,
    ensures
        spec_lookup(atoms, name) == spec_lookup(atoms.skip(i), name),
    decreases i,
{
    if i > 0 {
        assert(atoms[0].0@ != name);
        lemma_lookup_skip(atoms.drop_first(), name, i - 1);
        assert(atoms.drop_first().skip(i - 1) =~= atoms.skip(i));
    } else {
        assert(atoms.skip(0) =~= atoms);
    }
}

/// A successful lookup among well-formed atoms returns a well-formed atom.
pub proof fn lemma_lookup_wf(atoms: Seq<(String, AtomState)>, name: Seq<char>)
    requires
        forall|i: int| 0 <= i < atoms.len() ==> (#[trigger] atoms[i]).1.wf(),
    ensures
        spec_lookup(atoms, name) matches Some(a) ==> a.wf(),
    decreases atoms.len(),
{
    if atoms.len() > 0 && atoms[0].0@ != name {
        assert(forall|i: int|
            0 <= i < atoms.drop_first().len() ==> (#[trigger] atoms.drop_first()[i]).1.wf());
        lemma_lookup_wf(atoms.drop_first(), name);
    }
}

/// Find the first atom entry named `name`.
pub fn find_atom(atoms: &Vec<(String, AtomState)>, name: &String) -> (r: Option<AtomState>)
    ensures
        r == spec_lookup(atoms@, name@),
{
    let mut i: usize = 0;
    while i < atoms.len()
        invariant
            0 <= i <= atoms@.len(),
            forall|k: int| 0 <= k < i ==> (#[trigger] atoms@[k]).0@ != name@,
        decreases atoms@.len() - i,
    {
        if atoms[i].0 == *name {
            proof {
                lemma_lookup_skip(atoms@, name@, i as int);
                assert(atoms@.skip(i as int)[0] == atoms@[i as int]);
            }
            return Some(atoms[i].1);
        }
        i += 1;
    }
    proof {
        lemma_lookup_skip(atoms@, name@, atoms@.len() as int);
        assert(atoms@.skip(atoms@.len() as int).len() == 0);
    }
    None
}

} // verus!
