pub mod x86_64;
pub mod peephole;
