//! Coarse-graining of molecular structures.
//!
//! A mapping table groups fine-grained atom names into coarse-grained beads,
//! each constituent carrying a mass weight.  For every residue of an input
//! structure and every bead of the table, the library computes the
//! mass-weighted centroid of position and velocity over the bead's atoms and
//! emits one pseudo-atom.  All arithmetic is exact, over rational numbers.

pub mod aggregate;
pub mod laws;
pub mod mapping;
pub mod rat;
pub mod structure;
pub mod vec3;
