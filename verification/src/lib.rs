use vstd::prelude::*;

pub mod bitmap;
pub mod elf;
pub mod errno;
pub mod exec;
pub mod fault;
pub mod file;
pub mod initramfs;
pub mod irq;
pub mod memory;
pub mod module;
pub mod module_plan;
pub mod mutex;
pub mod paging;
pub mod path;
pub mod posix;
pub mod process;
pub mod ring;
pub mod sched;
pub mod spin;
pub mod syscall;
pub mod tmpfs;
pub mod util;
pub mod vfs;
pub mod view;

verus! {

} // verus!
