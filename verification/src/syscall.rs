//! The decisions of the system calls, taken on explicit kernel state.
pub mod memory;
pub mod path;
pub mod process;
pub mod socket;
pub mod system;
pub mod vfs;
