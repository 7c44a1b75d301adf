pub mod builder;
pub mod lower;
pub mod types;
pub mod display;
pub mod ssa;
