pub mod energy;
pub mod listdict;
pub mod simulation;
pub mod grid_structure;
pub mod lattice;
pub mod sites;
