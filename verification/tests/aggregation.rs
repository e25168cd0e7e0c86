use cgmap::aggregate::{aggregate, AggregateError};
use cgmap::mapping::{BeadDefinition, MappingTable};
use cgmap::rat::Rat;
use cgmap::structure::{find_atom, AtomState, Residue, Structure};
use cgmap::vec3::Vec3;

fn rat(num: i64, den: i64) -> Rat {
    Rat::new(num, den)
}

fn vec3(x: Rat, y: Rat, z: Rat) -> Vec3 {
    Vec3::new(x, y, z)
}

fn vec3i(x: i64, y: i64, z: i64) -> Vec3 {
    vec3(rat(x, 1), rat(y, 1), rat(z, 1))
}

/// The two rationals denote the same value.
fn rat_eq(a: Rat, b: Rat) -> bool {
    (a.num as i128) * (b.den as i128) == (b.num as i128) * (a.den as i128)
}

fn vec3_eq(a: Vec3, b: Vec3) -> bool {
    rat_eq(a.x, b.x) && rat_eq(a.y, b.y) && rat_eq(a.z, b.z)
}

fn row(aa: &str, cg: &str, mass: Rat) -> BeadDefinition {
    BeadDefinition {
        atom_name: String::from(aa),
        coarse_name: String::from(cg),
        mass,
    }
}

fn residue(number: i32, name: &str, atoms: Vec<(&str, Vec3, Vec3)>) -> Residue {
    Residue {
        number,
        name: String::from(name),
        atoms: atoms
            .into_iter()
            .map(|(n, p, v)| (String::from(n), AtomState::new(p, v)))
            .collect(),
    }
}

fn structure(title: &str, residues: Vec<Residue>, box_size: Vec3) -> Structure {
    Structure {
        title: String::from(title),
        residues,
        box_size,
    }
}

#[test]
fn centroid_of_two_atoms() {
    // Masses 1 and 3 at x = 0 and x = 4: centroid x = (1*0 + 3*4) / 4 = 3.
    let rows = vec![
        row("A1", "B", rat(1, 1)),
        row("A2", "B", rat(3, 1)),
    ];
    let table = MappingTable::from_rows(&rows);
    let s = structure(
        "two atoms",
        vec![residue(
            1,
            "RES",
            vec![
                ("A1", vec3i(0, 0, 0), vec3i(2, 0, 0)),
                ("A2", vec3i(4, 8, 0), vec3i(6, 0, 0)),
            ],
        )],
        vec3i(10, 10, 10),
    );
    let cg = aggregate(&s, &table).unwrap();
    assert_eq!(cg.atoms.len(), 1);
    let a = &cg.atoms[0];
    assert!(vec3_eq(a.position, vec3i(3, 6, 0)));
    // Velocities likewise: (1*2 + 3*6) / 4 = 5.
    assert!(vec3_eq(a.velocity, vec3i(5, 0, 0)));
}

#[test]
fn centroid_with_fractional_masses() {
    // Masses 1/2 and 1/3 at x = 1 and x = 2: centroid x = (1/2 + 2/3) / (5/6) = 7/5.
    let rows = vec![
        row("A1", "B", rat(1, 2)),
        row("A2", "B", rat(1, 3)),
    ];
    let table = MappingTable::from_rows(&rows);
    let s = structure(
        "fractional",
        vec![residue(
            7,
            "FRC",
            vec![
                ("A1", vec3i(1, 0, 0), vec3i(0, 0, 0)),
                ("A2", vec3i(2, 0, 0), vec3i(0, 0, 0)),
            ],
        )],
        vec3i(1, 1, 1),
    );
    let cg = aggregate(&s, &table).unwrap();
    assert!(rat_eq(cg.atoms[0].position.x, rat(7, 5)));
}

#[test]
fn scaling_masses_leaves_centroid_unchanged() {
    let make = |m1: Rat, m2: Rat| {
        let rows = vec![row("A1", "B", m1), row("A2", "B", m2)];
        let table = MappingTable::from_rows(&rows);
        let s = structure(
            "scale",
            vec![residue(
                1,
                "RES",
                vec![
                    ("A1", vec3i(1, 2, 3), vec3i(-1, 0, 1)),
                    ("A2", vec3i(5, 7, 11), vec3i(2, 4, 8)),
                ],
            )],
            vec3i(9, 9, 9),
        );
        aggregate(&s, &table).unwrap()
    };
    let plain = make(rat(2, 1), rat(3, 1));
    // Every mass scaled by 5/2.
    let scaled = make(rat(5, 1), rat(15, 2));
    assert!(vec3_eq(plain.atoms[0].position, scaled.atoms[0].position));
    assert!(vec3_eq(plain.atoms[0].velocity, scaled.atoms[0].velocity));
}

#[test]
fn atom_numbers_are_sequential() {
    // Two residues, two beads each: atom numbers 1..=4 in emission order.
    let rows = vec![
        row("A1", "B1", rat(1, 1)),
        row("A2", "B2", rat(1, 1)),
    ];
    let table = MappingTable::from_rows(&rows);
    let atoms = vec![
        ("A1", vec3i(0, 0, 0), vec3i(0, 0, 0)),
        ("A2", vec3i(1, 1, 1), vec3i(0, 0, 0)),
    ];
    let s = structure(
        "seq",
        vec![
            residue(1, "R1", atoms.clone()),
            residue(2, "R2", atoms.clone()),
        ],
        vec3i(3, 3, 3),
    );
    let cg = aggregate(&s, &table).unwrap();
    assert_eq!(cg.atoms.len(), 4);
    for (k, a) in cg.atoms.iter().enumerate() {
        assert_eq!(a.atom_number, k + 1);
    }
    // Residues outer, beads inner.
    assert_eq!(cg.atoms[0].res_number, 1);
    assert_eq!(cg.atoms[0].atom_name, "B1");
    assert_eq!(cg.atoms[1].res_number, 1);
    assert_eq!(cg.atoms[1].atom_name, "B2");
    assert_eq!(cg.atoms[2].res_number, 2);
    assert_eq!(cg.atoms[3].res_number, 2);
}

#[test]
fn missing_atom_is_fatal() {
    let rows = vec![row("CB", "SIDE", rat(1, 1))];
    let table = MappingTable::from_rows(&rows);
    let s = structure(
        "missing",
        vec![residue(
            1,
            "GLY",
            vec![("CA", vec3i(0, 0, 0), vec3i(0, 0, 0))],
        )],
        vec3i(1, 1, 1),
    );
    assert!(matches!(aggregate(&s, &table), Err(AggregateError::MissingAtom)));
}

#[test]
fn zero_total_mass_is_fatal() {
    let rows = vec![
        row("A1", "B", rat(1, 1)),
        row("A2", "B", rat(-1, 1)),
    ];
    let table = MappingTable::from_rows(&rows);
    let s = structure(
        "zero",
        vec![residue(
            1,
            "RES",
            vec![
                ("A1", vec3i(1, 0, 0), vec3i(0, 0, 0)),
                ("A2", vec3i(2, 0, 0), vec3i(0, 0, 0)),
            ],
        )],
        vec3i(1, 1, 1),
    );
    assert!(matches!(aggregate(&s, &table), Err(AggregateError::ZeroMass)));
}

#[test]
fn overflow_is_fatal() {
    let big = rat(i64::MAX, 1);
    let rows = vec![row("A1", "B", big), row("A2", "B", big)];
    let table = MappingTable::from_rows(&rows);
    let s = structure(
        "overflow",
        vec![residue(
            1,
            "RES",
            vec![
                ("A1", vec3i(1, 0, 0), vec3i(0, 0, 0)),
                ("A2", vec3i(1, 0, 0), vec3i(0, 0, 0)),
            ],
        )],
        vec3i(1, 1, 1),
    );
    assert!(matches!(aggregate(&s, &table), Err(AggregateError::Overflow)));
}

#[test]
fn title_and_box_pass_through() {
    let rows = vec![row("CA", "B", rat(2, 1))];
    let table = MappingTable::from_rows(&rows);
    let bx = vec3(rat(31, 10), rat(17, 5), rat(9, 2));
    let s = structure(
        "a title with spaces",
        vec![residue(
            1,
            "ALA",
            vec![("CA", vec3i(1, 2, 3), vec3i(0, 0, 0))],
        )],
        bx,
    );
    let cg = aggregate(&s, &table).unwrap();
    assert_eq!(cg.title, "a title with spaces");
    assert_eq!(cg.box_size.x, bx.x);
    assert_eq!(cg.box_size.y, bx.y);
    assert_eq!(cg.box_size.z, bx.z);
}

#[test]
fn end_to_end_single_bead() {
    // One row ("CA", "BACKBONE", 12); one residue (1, "ALA") with atom "CA"
    // at (1,2,3), velocity (0,0,0).
    let rows = vec![row("CA", "BACKBONE", rat(12, 1))];
    let table = MappingTable::from_rows(&rows);
    let s = structure(
        "e2e",
        vec![residue(
            1,
            "ALA",
            vec![("CA", vec3i(1, 2, 3), vec3i(0, 0, 0))],
        )],
        vec3i(10, 10, 10),
    );
    let cg = aggregate(&s, &table).unwrap();
    assert_eq!(cg.atoms.len(), 1);
    let a = &cg.atoms[0];
    assert_eq!(a.res_number, 1);
    assert_eq!(a.res_name, "ALA");
    assert_eq!(a.atom_name, "BACKBONE");
    assert_eq!(a.atom_number, 1);
    assert!(vec3_eq(a.position, vec3i(1, 2, 3)));
    assert!(vec3_eq(a.velocity, vec3i(0, 0, 0)));
}

#[test]
fn empty_mapping_emits_nothing() {
    let table = MappingTable::from_rows(&Vec::new());
    let s = structure(
        "empty table",
        vec![residue(
            1,
            "ALA",
            vec![("CA", vec3i(1, 2, 3), vec3i(0, 0, 0))],
        )],
        vec3i(1, 1, 1),
    );
    let cg = aggregate(&s, &table).unwrap();
    assert_eq!(cg.atoms.len(), 0);
    assert_eq!(cg.title, "empty table");
}

#[test]
fn find_atom_returns_first_match() {
    let atoms = vec![
        (
            String::from("CA"),
            AtomState::new(vec3i(1, 0, 0), vec3i(0, 0, 0)),
        ),
        (
            String::from("CB"),
            AtomState::new(vec3i(2, 0, 0), vec3i(0, 0, 0)),
        ),
        (
            String::from("CA"),
            AtomState::new(vec3i(3, 0, 0), vec3i(0, 0, 0)),
        ),
    ];
    let found = find_atom(&atoms, &String::from("CA")).unwrap();
    assert_eq!(found.position.x, rat(1, 1));
    assert!(find_atom(&atoms, &String::from("N")).is_none());
}
