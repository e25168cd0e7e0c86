//! The aggregator: mass-weighted reduction of an input structure against a
//! mapping table.
//!
//! For each residue, in structure order, and each bead group, in table order,
//! the constituent atoms are looked up in the residue, masses and
//! mass-weighted positions and velocities are accumulated, and the sums are
//! divided by the total mass.  Every failure — a constituent atom missing
//! from the residue, a zero total mass, a value outside the representable
//! range — aborts the whole run: no partial output exists.

use crate::mapping::{BeadGroup, GroupQ, MappingTable};
use crate::rat::{q_add_c, q_wf, q_zero, Q, Rat};
use crate::structure::{
    find_atom, spec_lookup, AtomState, CgStructure, PAtomQ, PseudoAtom, Structure,
};
use crate::vec3::{qv3_axpy_c, qv3_div_c, qv3_zero, QV3, Vec3};
use vstd::prelude::*;

verus! {

/// Why a run was aborted.
#[derive(Clone, Copy, Debug, PartialEq, Eq, Structural)]
pub enum AggregateError {
    /// A bead's constituent atom name is absent from a residue.
    MissingAtom,
    /// A bead's total mass is zero, so its centroid is undefined.
    ZeroMass,
    /// An exact intermediate value does not fit the rational representation.
    Overflow,
}

/// Accumulator state: total mass so far and mass-weighted sums.
#[verifier::ext_equal]
pub ghost struct AccQ {
    pub total: Q,
    pub pos: QV3,
    pub vel: QV3,
}

/// A finished bead: centroid position and velocity.
#[verifier::ext_equal]
pub ghost struct BeadQ {
    pub pos: QV3,
    pub vel: QV3,
}

/// One constituent folded into the accumulator: look the atom up, add the
/// mass, add the mass-weighted position and velocity.
pub open spec fn spec_step(
    atoms: Seq<(String, AtomState)>,
    item: (Seq<char>, Q),
    st: AccQ,
) -> Result<AccQ, AggregateError> {
    match spec_lookup(atoms, item.0) {
        None => Err(AggregateError::MissingAtom),
        Some(a) => match q_add_c(st.total, item.1) {
            None => Err(AggregateError::Overflow),
            Some(t) => match qv3_axpy_c(st.pos, item.1, a.position@) {
                None => Err(AggregateError::Overflow),
                Some(p) => match qv3_axpy_c(st.vel, item.1, a.velocity@) {
                    None => Err(AggregateError::Overflow),
                    Some(v) => Ok(AccQ { total: t, pos: p, vel: v }),
                },
            },
        },
    }
}

/// The constituent list folded left to right; the first failure wins.
pub open spec fn spec_accum(
    atoms: Seq<(String, AtomState)>,
    items: Seq<(Seq<char>, Q)>,
) -> Result<AccQ, AggregateError>
    decreases items.len(),
{
    if items.len() == 0 {
        Ok(AccQ { total: q_zero(), pos: qv3_zero(), vel: qv3_zero() })
    } else {
        match spec_accum(atoms, items.drop_last()) {
            Err(e) => Err(e),
            Ok(st) => spec_step(atoms, items.last(), st),
        }
    }
}

/// One bead over one residue: accumulate, reject a zero total mass, divide.
pub open spec fn spec_bead(
    atoms: Seq<(String, AtomState)>,
    items: Seq<(Seq<char>, Q)>,
) -> Result<BeadQ, AggregateError> {
    match spec_accum(atoms, items) {
        Err(e) => Err(e),
        Ok(st) => if st.total.n == 0 {
            Err(AggregateError::ZeroMass)
        } else {
            match qv3_div_c(st.pos, st.total) {
                None => Err(AggregateError::Overflow),
                Some(p) => match qv3_div_c(st.vel, st.total) {
                    None => Err(AggregateError::Overflow),
                    Some(v) => Ok(BeadQ { pos: p, vel: v }),
                },
            }
        },
    }
}

/// Unfolding of `spec_accum` over one more constituent.
pub proof fn lemma_accum_snoc(
    atoms: Seq<(String, AtomState)>,
    items: Seq<(Seq<char>, Q)>,
    k: int,
)
    requires
        0 <= k < items.len(),
    ensures
        spec_accum(atoms, items.subrange(0, k + 1)) == (match spec_accum(
            atoms,
            items.subrange(0, k),
        ) {
            Err(e) => Err(e),
            Ok(st) => spec_step(atoms, items[k], st),
        }),
{
    assert(items.subrange(0, k + 1).drop_last() =~~= items.subrange(0, k));
    assert(items.subrange(0, k + 1).last() == items[k]);
}

/// An accumulation that has failed on a prefix fails on the whole list, with
/// the same error.
pub proof fn lemma_accum_err(
    atoms: Seq<(String, AtomState)>,
    items: Seq<(Seq<char>, Q)>,
    k: int,
)
    requires
        0 <= k <= items.len(),
        spec_accum(atoms, items.subrange(0, k)) is Err,
    ensures
        spec_accum(atoms, items) == spec_accum(atoms, items.subrange(0, k)),
    decreases items.len() - k,
{
    if k == items.len() {
        assert(items.subrange(0, k) =~~= items);
    } else {
        lemma_accum_snoc(atoms, items, k);
        lemma_accum_err(atoms, items, k + 1);
    }
}

/// Compute one bead over one residue's atoms.
pub fn compute_bead(
    atoms: &Vec<(String, AtomState)>,
    group: &BeadGroup,
) -> (r: Result<(Vec3, Vec3), AggregateError>)
    requires
        forall|k: int| 0 <= k < atoms@.len() ==> (#[trigger] atoms@[k]).1.wf(),
        forall|k: int| 0 <= k < group@.items.len() ==> q_wf((#[trigger] group@.items[k]).1),
    ensures
        match r {
            Ok(pv) => pv.0.wf() && pv.1.wf() && spec_bead(atoms@, group@.items) == Ok::<
                BeadQ,
                AggregateError,
            >(BeadQ { pos: pv.0@, vel: pv.1@ }),
            Err(e) => spec_bead(atoms@, group@.items) == Err::<BeadQ, AggregateError>(e),
        },
{
    let ghost gitems = group@.items;
    let mut total = Rat::zero();
    let mut pos = Vec3::zero();
    let mut vel = Vec3::zero();
    let mut k: usize = 0;
    proof {
        assert(gitems.subrange(0, 0) =~~= Seq::<(Seq<char>, Q)>::empty());
    }
    while k < group.items.len()
        invariant
            0 <= k <= gitems.len(),
            gitems == group@.items,
            gitems.len() == group.items@.len(),
            total.wf(),
            pos.wf(),
            vel.wf(),
            spec_accum(atoms@, gitems.subrange(0, k as int)) == Ok::<AccQ, AggregateError>(
                AccQ { total: total@, pos: pos@, vel: vel@ },
            ),
            forall|i: int| 0 <= i < atoms@.len() ==> (#[trigger] atoms@[i]).1.wf(),
            forall|i: int| 0 <= i < gitems.len() ==> q_wf((#[trigger] gitems[i]).1),
        decreases gitems.len() - k,
    {
        proof {
            lemma_accum_snoc(atoms@, gitems, k as int);
            assert(gitems[k as int] == (group.items@[k as int].0@, group.items@[k as int].1@));
        }
        let name = &group.items[k].0;
        let mass = group.items[k].1;
        let a = match find_atom(atoms, name) {
            Some(a) => a,
            None => {
                proof {
                    lemma_accum_err(atoms@, gitems, k + 1 as int);
                }
                return Err(AggregateError::MissingAtom);
            },
        };
        proof {
            crate::structure::lemma_lookup_wf(atoms@, name@);
        }
        let t = match total.checked_add(mass) {
            Some(t) => t,
            None => {
                proof {
                    lemma_accum_err(atoms@, gitems, k + 1 as int);
                }
                return Err(AggregateError::Overflow);
            },
        };
        let p = match pos.checked_axpy(mass, a.position) {
            Some(p) => p,
            None => {
                proof {
                    lemma_accum_err(atoms@, gitems, k + 1 as int);
                }
                return Err(AggregateError::Overflow);
            },
        };
        let v = match vel.checked_axpy(mass, a.velocity) {
            Some(v) => v,
            None => {
                proof {
                    lemma_accum_err(atoms@, gitems, k + 1 as int);
                }
                return Err(AggregateError::Overflow);
            },
        };
        total = t;
        pos = p;
        vel = v;
        k += 1;
    }
    proof {
        assert(gitems.subrange(0, gitems.len() as int) =~~= gitems);
    }
    if total.is_zero() {
        return Err(AggregateError::ZeroMass);
    }
    let cpos = match pos.checked_div(total) {
        Some(c) => c,
        None => {
            return Err(AggregateError::Overflow);
        },
    };
    let cvel = match vel.checked_div(total) {
        Some(c) => c,
        None => {
            return Err(AggregateError::Overflow);
        },
    };
    Ok((cpos, cvel))
}

/// The run after `i` complete residues plus the first `j` beads of residue
/// `i`: the pseudo-atoms emitted so far, or the first failure.
pub open spec fn spec_run(
    s: Structure,
    gs: Seq<GroupQ>,
    i: nat,
    j: nat,
) -> Result<Seq<PAtomQ>, AggregateError>
    decreases i, j,
{
    if i == 0 && j == 0 {
        Ok(Seq::empty())
    } else if j == 0 {
        spec_run(s, gs, (i - 1) as nat, gs.len())
    } else {
        match spec_run(s, gs, i, (j - 1) as nat) {
            Err(e) => Err(e),
            Ok(acc) => {
                let res = s.residues@[i as int];
                let g = gs[j - 1];
                match spec_bead(res.atoms@, g.items) {
                    Err(e) => Err(e),
                    Ok(b) => Ok(
                        acc.push(
                            PAtomQ {
                                res_number: res.number as int,
                                res_name: res.name@,
                                atom_name: g.name,
                                atom_number: acc.len() as int + 1,
                                position: b.pos,
                                velocity: b.vel,
                            },
                        ),
                    ),
                }
            },
        }
    }
}

/// The whole run: every residue against every bead group.
pub open spec fn spec_aggregate(s: Structure, gs: Seq<GroupQ>) -> Result<
    Seq<PAtomQ>,
    AggregateError,
> {
    spec_run(s, gs, s.residues@.len(), 0)
}

/// A run that has failed stays failed, with the same error, through every
/// later point.
pub proof fn lemma_run_err(s: Structure, gs: Seq<GroupQ>, i: nat, j: nat, i2: nat, j2: nat)
    requires
        spec_run(s, gs, i, j) is Err,
        j <= gs.len(),
        j2 <= gs.len(),
        i < i2 || (i == i2 && j <= j2),
    ensures
        spec_run(s, gs, i2, j2) == spec_run(s, gs, i, j),
    decreases i2, j2,
{
    if i == i2 && j == j2 {
    } else if j2 == 0 {
        lemma_run_err(s, gs, i, j, (i2 - 1) as nat, gs.len());
    } else {
        lemma_run_err(s, gs, i, j, i2, (j2 - 1) as nat);
    }
}

/// The image of the emitted pseudo-atoms in specification space.
pub open spec fn patoms_view(atoms: Seq<PseudoAtom>) -> Seq<PAtomQ> {
    atoms.map_values(|p: PseudoAtom| p@)
}

/// Coarse-grain `s` against the table `t`.
///
/// On success the output holds, in emission order (residues outer, beads
/// inner), one pseudo-atom per residue and bead, numbered sequentially from
/// one, and reuses the input's title and box size unchanged.  On failure the
/// first error of the run is returned and no output exists.
pub fn aggregate(s: &Structure, t: &MappingTable) -> (r: Result<CgStructure, AggregateError>)
    requires
        s.wf(),
        t.wf(),
        s.residues@.len() * t@.len() < usize::MAX,
    ensures
        match r {
            Ok(cg) => {
                &&& spec_aggregate(*s, t@) == Ok::<Seq<PAtomQ>, AggregateError>(
                    patoms_view(cg.atoms@),
                )
                &&& cg.title@ == s.title@
                &&& cg.box_size == s.box_size
            },
            Err(e) => spec_aggregate(*s, t@) == Err::<Seq<PAtomQ>, AggregateError>(e),
        },
{
    let ghost gs = t@;
    let num_groups = t.groups.len();
    let mut out: Vec<PseudoAtom> = Vec::new();
    let mut i: usize = 0;
    proof {
        assert(patoms_view(out@) =~~= Seq::<PAtomQ>::empty());
    }
    while i < s.residues.len()
        invariant
            0 <= i <= s.residues@.len(),
            gs == t@,
            num_groups == t.groups@.len(),
            gs.len() == num_groups,
            s.wf(),
            t.wf(),
            s.residues@.len() * gs.len() < usize::MAX,
            out@.len() == i * gs.len(),
            spec_run(*s, gs, i as nat, 0) == Ok::<Seq<PAtomQ>, AggregateError>(patoms_view(out@)),
        decreases s.residues@.len() - i,
    {
        let res = &s.residues[i];
        let mut j: usize = 0;
        while j < num_groups
            invariant
                0 <= j <= num_groups,
                0 <= i < s.residues@.len(),
                gs == t@,
                num_groups == t.groups@.len(),
                gs.len() == num_groups,
                s.wf(),
                t.wf(),
                s.residues@.len() * gs.len() < usize::MAX,
                out@.len() == i * gs.len() + j,
                spec_run(*s, gs, i as nat, j as nat) == Ok::<Seq<PAtomQ>, AggregateError>(
                    patoms_view(out@),
                ),
            decreases num_groups - j,
        {
            let res = &s.residues[i];
            let g = &t.groups[j];
            proof {
                assert(gs[j as int] == g@);
                assert(s.residues@[i as int].wf());
            }
            match compute_bead(&res.atoms, g) {
                Err(e) => {
                    proof {
                        assert(spec_run(*s, gs, i as nat, (j + 1) as nat) == Err::<
                            Seq<PAtomQ>,
                            AggregateError,
                        >(e));
                        lemma_run_err(
                            *s,
                            gs,
                            i as nat,
                            (j + 1) as nat,
                            s.residues@.len() as nat,
                            0,
                        );
                    }
                    return Err(e);
                },
                Ok((cpos, cvel)) => {
                    proof {
                        assert((i as int) * (gs.len() as int) + j + 1 <= (s.residues@.len() as int)
                            * (gs.len() as int)) by (nonlinear_arith)
                            requires
                                0 <= i < s.residues@.len(),
                                0 <= j < gs.len(),
                        ;
                    }
                    let num = out.len() + 1;
                    let ghost prev = patoms_view(out@);
                    out.push(
                        PseudoAtom {
                            res_number: res.number,
                            res_name: res.name.clone(),
                            atom_name: g.name.clone(),
                            atom_number: num,
                            position: cpos,
                            velocity: cvel,
                        },
                    );
                    proof {
                        let res_m = s.residues@[i as int];
                        let pq = PAtomQ {
                            res_number: res_m.number as int,
                            res_name: res_m.name@,
                            atom_name: gs[j as int].name,
                            atom_number: prev.len() as int + 1,
                            position: cpos@,
                            velocity: cvel@,
                        };
                        assert(patoms_view(out@) =~~= prev.push(pq));
                        assert(spec_run(*s, gs, i as nat, (j + 1) as nat) == Ok::<
                            Seq<PAtomQ>,
                            AggregateError,
                        >(patoms_view(out@)));
                    }
                    j += 1;
                },
            }
        }
        proof {
            assert(spec_run(*s, gs, (i + 1) as nat, 0) == spec_run(*s, gs, i as nat, gs.len()));
            assert((i as int + 1) * (gs.len() as int) == (i as int) * (gs.len() as int)
                + gs.len()) by (nonlinear_arith);
        }
        i += 1;
    }
    let title = s.title.clone();
    Ok(CgStructure { title, atoms: out, box_size: s.box_size })
}

} // verus!
