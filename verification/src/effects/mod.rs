//! What each operation does, spelled out on numbers, pages, frames and bytes.
//!
//! A virtual address has 39 bits. A page and a frame hold 4096 bytes, and a
//! leaf table holds the entries of 512 pages.
pub mod data;
pub mod mapping;
pub mod memory;
pub mod scheduling;
