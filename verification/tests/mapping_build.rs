use cgmap::mapping::{BeadDefinition, MappingTable};
use cgmap::rat::Rat;

fn row(aa: &str, cg: &str, num: i64, den: i64) -> BeadDefinition {
    BeadDefinition {
        atom_name: String::from(aa),
        coarse_name: String::from(cg),
        mass: Rat::new(num, den),
    }
}

#[test]
fn rows_group_by_coarse_name_in_first_appearance_order() {
    let rows = vec![
        row("CA", "BACKBONE", 12, 1),
        row("CB", "SIDE", 14, 1),
        row("N", "BACKBONE", 14, 1),
        row("OG", "SIDE", 16, 1),
    ];
    let table = MappingTable::from_rows(&rows);
    assert_eq!(table.groups.len(), 2);
    assert_eq!(table.groups[0].name, "BACKBONE");
    assert_eq!(table.groups[1].name, "SIDE");
    assert_eq!(table.groups[0].items.len(), 2);
    assert_eq!(table.groups[0].items[0].0, "CA");
    assert_eq!(table.groups[0].items[0].1, Rat::new(12, 1));
    assert_eq!(table.groups[0].items[1].0, "N");
    assert_eq!(table.groups[1].items.len(), 2);
    assert_eq!(table.groups[1].items[0].0, "CB");
    assert_eq!(table.groups[1].items[1].0, "OG");
}

#[test]
fn names_are_trimmed_of_surrounding_whitespace() {
    let rows = vec![row("  CA \t", " BACKBONE  ", 12, 1)];
    let table = MappingTable::from_rows(&rows);
    assert_eq!(table.groups.len(), 1);
    assert_eq!(table.groups[0].name, "BACKBONE");
    assert_eq!(table.groups[0].items[0].0, "CA");
}

#[test]
fn empty_rows_build_empty_table() {
    let table = MappingTable::from_rows(&Vec::new());
    assert_eq!(table.groups.len(), 0);
}

#[test]
fn checked_rational_arithmetic_is_exact() {
    let a = Rat::new(1, 2);
    let b = Rat::new(1, 3);
    // Unreduced exact results.
    assert_eq!(a.checked_add(b), Some(Rat::new(5, 6)));
    assert_eq!(a.checked_mul(b), Some(Rat::new(1, 6)));
    // Division normalises the sign into the numerator.
    let c = Rat::new(-2, 3);
    assert_eq!(a.checked_div(c), Some(Rat::new(-3, 4)));
    // Overflow is reported, never wrapped.
    let big = Rat::new(i64::MAX, 1);
    assert_eq!(big.checked_add(big), None);
    assert_eq!(big.checked_mul(big), None);
}
