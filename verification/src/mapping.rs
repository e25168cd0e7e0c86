//! The mapping table: bead name to the ordered list of constituent
//! (atom name, mass) pairs, grouped from the rows of the bead-definition
//! source.
//!
//! Rows are folded in order.  Both name fields of a row are trimmed of
//! surrounding whitespace; the pair is appended to the group named by the
//! trimmed coarse name, a fresh group being created on first sight.  Group
//! order is first-appearance order, so one input always yields one table.

use crate::rat::{q_wf, Q, Rat};
use vstd::prelude::*;

verus! {

/// What `str::trim` returns on a given character sequence.
pub uninterp spec fn trimmed_of(s: Seq<char>) -> Seq<char>;

/// Relies on `str::trim`: returns the input with leading and trailing
/// whitespace removed; the result depends on the input characters alone.
#[verifier::external_body]
fn trim_str(s: &String) -> (r: String)
    ensures
        r@ == trimmed_of(s@),
{
    s.trim().to_string()
}

/// One row of the bead-definition source.
#[derive(Debug)]
pub struct BeadDefinition {
    pub atom_name: String,
    pub coarse_name: String,
    pub mass: Rat,
}

/// Specification-space image of one group of the table.
#[verifier::ext_equal]
pub ghost struct GroupQ {
    pub name: Seq<char>,
    pub items: Seq<(Seq<char>, Q)>,
}

/// One coarse-grained bead: its name and its ordered constituent list.
#[derive(Debug)]
pub struct BeadGroup {
    pub name: String,
    pub items: Vec<(String, Rat)>,
}

impl View for BeadGroup {
    type V = GroupQ;

    open spec fn view(&self) -> GroupQ {
        GroupQ {
            name: self.name@,
            items: self.items@.map_values(|p: (String, Rat)| (p.0@, p.1@)),
        }
    }
}

pub open spec fn mt_view(groups: Seq<BeadGroup>) -> Seq<GroupQ> {
    groups.map_values(|g: BeadGroup| g@)
}

/// The bead-name to constituent-list table, in first-appearance order.
#[derive(Debug)]
pub struct MappingTable {
    pub groups: Vec<BeadGroup>,
}

impl View for MappingTable {
    type V = Seq<GroupQ>;

    open spec fn view(&self) -> Seq<GroupQ> {
        mt_view(self.groups@)
    }
}

/// Index of the first group named `name`, or `-1` if there is none.
pub open spec fn find_group(gs: Seq<GroupQ>, name: Seq<char>) -> int
    decreases gs.len(),
{
    if gs.len() == 0 {
        -1
    } else if gs[0].name == name {
        0
    } else {
        let r = find_group(gs.drop_first(), name);
        if r < 0 {
            -1
        } else {
            r + 1
        }
    }
}

/// `find_group` returns the first matching index, or `-1` when no group matches.
pub proof fn lemma_find_group(gs: Seq<GroupQ>, name: Seq<char>)
    ensures
        find_group(gs, name) == -1 || 0 <= find_group(gs, name) < gs.len(),
        find_group(gs, name) == -1 ==> forall|k: int|
            0 <= k < gs.len() ==> (#[trigger] gs[k]).name != name,
        find_group(gs, name) >= 0 ==> gs[find_group(gs, name)].name == name,
        find_group(gs, name) >= 0 ==> forall|k: int|
            0 <= k < find_group(gs, name) ==> (#[trigger] gs[k]).name != name,
    decreases gs.len(),
{
    if gs.len() == 0 {
    } else if gs[0].name == name {
    } else {
        lemma_find_group(gs.drop_first(), name);
        let r = find_group(gs.drop_first(), name);
        if r < 0 {
            assert forall|k: int| 0 <= k < gs.len() implies (#[trigger] gs[k]).name != name by {
                if k >= 1 {
                    assert(gs[k] == gs.drop_first()[k - 1]);
                }
            }
        } else {
            assert forall|k: int|
                0 <= k < find_group(gs, name) implies (#[trigger] gs[k]).name != name by {
                if k >= 1 {
                    assert(gs[k] == gs.drop_first()[k - 1]);
                }
            }
        }
    }
}

/// One row folded into the table: append to the row's group, creating it on
/// first sight.
pub open spec fn spec_insert(gs: Seq<GroupQ>, aa: Seq<char>, cg: Seq<char>, m: Q) -> Seq<GroupQ> {
    let i = find_group(gs, cg);
    if i < 0 {
        gs.push(GroupQ { name: cg, items: seq![(aa, m)] })
    } else {
        gs.update(i, GroupQ { name: gs[i].name, items: gs[i].items.push((aa, m)) })
    }
}

/// The table that a row sequence builds: rows folded in order, both name
/// fields trimmed.
pub open spec fn spec_table(rows: Seq<BeadDefinition>) -> Seq<GroupQ>
    decreases rows.len(),
{
    if rows.len() == 0 {
        Seq::empty()
    } else {
        spec_insert(
            spec_table(rows.drop_last()),
            trimmed_of(rows.last().atom_name@),
            trimmed_of(rows.last().coarse_name@),
            rows.last().mass@,
        )
    }
}

/// Structural invariant of a built table: group names are distinct, no group
/// is empty, and every mass is well-formed.
pub open spec fn table_wf(gs: Seq<GroupQ>) -> bool {
    &&& forall|i: int| 0 <= i < gs.len() ==> (#[trigger] gs[i]).items.len() > 0
    &&& forall|i: int, j: int|
        0 <= i < gs.len() && 0 <= j < (#[trigger] gs[i]).items.len() ==> q_wf(
            #[trigger] gs[i].items[j].1,
        )
    &&& forall|i: int, j: int|
        0 <= i < j < gs.len() ==> (#[trigger] gs[i]).name != (#[trigger] gs[j]).name
}

proof fn lemma_insert_wf(gs: Seq<GroupQ>, aa: Seq<char>, cg: Seq<char>, m: Q)
    requires
        table_wf(gs),
        q_wf(m),
    ensures
        table_wf(spec_insert(gs, aa, cg, m)),
{
    lemma_find_group(gs, cg);
}

/// Every table built from well-formed rows satisfies the table invariant.
pub proof fn lemma_table_wf(rows: Seq<BeadDefinition>)
    requires
        forall|i: int| 0 <= i < rows.len() ==> (#[trigger] rows[i]).mass.wf(),
    ensures
        table_wf(spec_table(rows)),
    decreases rows.len(),
{
    if rows.len() > 0 {
        lemma_table_wf(rows.drop_last());
        lemma_insert_wf(
            spec_table(rows.drop_last()),
            trimmed_of(rows.last().atom_name@),
            trimmed_of(rows.last().coarse_name@),
            rows.last().mass@,
        );
    }
}

/// Find the first group of `groups` named `name`, as `find_group` does on the
/// table's specification image.
fn find_group_exec(groups: &Vec<BeadGroup>, name: &String) -> (r: Option<usize>)
    ensures
        match r {
            Some(i) => 0 <= i < groups@.len() && find_group(mt_view(groups@), name@) == i as int,
            None => find_group(mt_view(groups@), name@) == -1,
        },
{
    proof {
        lemma_find_group(mt_view(groups@), name@);
    }
    let mut i: usize = 0;
    while i < groups.len()
        invariant
            0 <= i <= groups@.len(),
            forall|k: int| 0 <= k < i ==> (#[trigger] mt_view(groups@)[k]).name != name@,
        decreases groups@.len() - i,
    {
        if groups[i].name == *name {
            proof {
                lemma_find_group(mt_view(groups@), name@);
                assert(mt_view(groups@)[i as int].name == name@);
            }
            return Some(i);
        }
        assert(mt_view(groups@)[i as int].name == groups@[i as int].name@);
        i += 1;
    }
    proof {
        lemma_find_group(mt_view(groups@), name@);
    }
    None
}

impl MappingTable {
    pub open spec fn wf(self) -> bool {
        table_wf(self@)
    }

    /// Build the table by folding the rows in order.
    pub fn from_rows(rows: &Vec<BeadDefinition>) -> (t: MappingTable)
        requires
            forall|i: int| 0 <= i < rows@.len() ==> (#[trigger] rows@[i]).mass.wf(),
        ensures
            t@ == spec_table(rows@),
            t.wf(),
    {
        let mut groups: Vec<BeadGroup> = Vec::new();
        let mut r: usize = 0;
        proof {
            assert(rows@.subrange(0, 0) =~= Seq::<BeadDefinition>::empty());
        }
        while r < rows.len()
            invariant
                0 <= r <= rows@.len(),
                mt_view(groups@) == spec_table(rows@.subrange(0, r as int)),
                forall|i: int| 0 <= i < rows@.len() ==> (#[trigger] rows@[i]).mass.wf(),
            decreases rows@.len() - r,
        {
            let ghost prev = mt_view(groups@);
            let row = &rows[r];
            let aa = trim_str(&row.atom_name);
            let cg = trim_str(&row.coarse_name);
            match find_group_exec(&groups, &cg) {
                Some(i) => {
                    let mut g = groups.remove(i);
                    g.items.push((aa, row.mass));
                    groups.insert(i, g);
                    proof {
                        let gq = GroupQ {
                            name: prev[i as int].name,
                            items: prev[i as int].items.push((aa@, row.mass@)),
                        };
                        assert(g@.items =~~= gq.items);
                        assert(mt_view(groups@) =~~= prev.update(i as int, gq));
                        assert(mt_view(groups@) =~~= spec_insert(prev, aa@, cg@, row.mass@));
                    }
                },
                None => {
                    let mut items: Vec<(String, Rat)> = Vec::new();
                    items.push((aa, row.mass));
                    groups.push(BeadGroup { name: cg, items });
                    proof {
                        assert(mt_view(groups@) =~~= spec_insert(prev, aa@, cg@, row.mass@));
                    }
                },
            }
            proof {
                assert(rows@.subrange(0, r + 1 as int).drop_last() =~= rows@.subrange(
                    0,
                    r as int,
                ));
                assert(rows@.subrange(0, r + 1 as int).last() == rows@[r as int]);
            }
            r += 1;
        }
        proof {
            assert(rows@.subrange(0, rows@.len() as int) =~= rows@);
            lemma_table_wf(rows@);
        }
        MappingTable { groups }
    }
}

} // verus!
