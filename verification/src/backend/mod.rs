pub mod allocator;
pub mod constant;
pub mod dce;
pub mod pass;
pub mod liveness;
pub mod regalloc;
pub mod targets;
pub mod target;
