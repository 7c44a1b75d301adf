pub mod graph;
pub mod regset;
pub mod uf;
