//! The memory and task management of a small kernel for RV64 machines.
pub mod config;
pub mod effects;
pub mod laws;
pub mod mm;
pub mod syscall;
pub mod task;
