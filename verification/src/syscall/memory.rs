//! Memory mapping calls.
use vstd::prelude::*;
use crate::errno::{Errno, EResult};
use crate::file::File;
use crate::process::FdTable;
use crate::syscall::vfs::{get, lookup_fd};
use crate::util::{align_up, is_pow2, round_up};

verus! {

/// Protection bits of `mmap` and `mprotect`.
pub const PROT_READ: u32 = 0x1;
pub const PROT_WRITE: u32 = 0x2;
pub const PROT_EXEC: u32 = 0x4;

/// Flags of `mmap`.
pub const MAP_SHARED: u32 = 0x01;
pub const MAP_PRIVATE: u32 = 0x02;
pub const MAP_FIXED: u32 = 0x10;
pub const MAP_ANONYMOUS: u32 = 0x20;

/// Page flags of a mapping.
pub const VM_READ: u32 = 0x1;
pub const VM_WRITE: u32 = 0x2;
pub const VM_EXEC: u32 = 0x4;
pub const VM_USER: u32 = 0x8;
pub const VM_COPY_ON_WRITE: u32 = 0x20;

/// The page flags that a protection request asks for.
pub open spec fn spec_vm_prot(prot: u32) -> u32 {
    (if prot & PROT_READ != 0 { VM_READ } else { 0u32 }) | (if prot & PROT_WRITE != 0 {
        VM_WRITE
    } else {
        0u32
    }) | (if prot & PROT_EXEC != 0 { VM_EXEC } else { 0u32 })
}

/// A mapping is readable, writable and executable exactly as the
/// protection asks, each bit independently of the others, and carries no
/// other page flag.
pub proof fn lemma_vm_prot_follows_prot(prot: u32)
    ensures
        (spec_vm_prot(prot) & VM_READ != 0) == (prot & PROT_READ != 0),
        (spec_vm_prot(prot) & VM_WRITE != 0) == (prot & PROT_WRITE != 0),
        (spec_vm_prot(prot) & VM_EXEC != 0) == (prot & PROT_EXEC != 0),
        spec_vm_prot(prot) & !(VM_READ | VM_WRITE | VM_EXEC) == 0,
{
    let r = prot & PROT_READ != 0;
    let w = prot & PROT_WRITE != 0;
    let x = prot & PROT_EXEC != 0;
    let v = spec_vm_prot(prot);
    assert(v == (if r { 1u32 } else { 0u32 }) | (if w { 2u32 } else { 0u32 }) | (if x { 4u32 } else { 0u32 }));
    assert(VM_READ | VM_WRITE | VM_EXEC == 7u32) by (bit_vector);
    assert(((v & 1u32) != 0) == r && ((v & 2u32) != 0) == w && ((v & 4u32) != 0) == x && (v & !7u32) == 0)
        by (bit_vector)
        requires
            v == (if r { 1u32 } else { 0u32 }) | (if w { 2u32 } else { 0u32 }) | (if x { 4u32 } else { 0u32 }),
    ;
}

/// The page flags for the protection bits of `mmap` and `mprotect`.
pub fn vm_prot(prot: u32) -> (r: u32)
    ensures
        r == spec_vm_prot(prot),
{
    let r: u32 = if prot & PROT_READ != 0 { VM_READ } else { 0 };
    let w: u32 = if prot & PROT_WRITE != 0 { VM_WRITE } else { 0 };
    let x: u32 = if prot & PROT_EXEC != 0 { VM_EXEC } else { 0 };
    r | w | x
}

/// The mapping an `mmap` call establishes.
#[derive(Clone, Copy, Debug, PartialEq, Eq, Structural)]
pub struct MmapPlan {
    /// Where the mapping starts.
    pub addr: usize,
    pub length: usize,
    /// Page flags of the mapping.
    pub prot: u32,
    /// The file that backs the mapping; `None` for anonymous memory.
    pub file: Option<File>,
    /// Whether the file contents are copied into private memory.
    pub private: bool,
}

/// The known `mmap` flags in `flags`.
pub open spec fn known_map_flags(flags: u32) -> u32 {
    flags & (MAP_SHARED | MAP_PRIVATE | MAP_FIXED | MAP_ANONYMOUS)
}

/// Exactly one of `MAP_SHARED` and `MAP_PRIVATE` is given.
pub open spec fn sharing_ok(flags: u32) -> bool {
    let f = known_map_flags(flags);
    f & (MAP_SHARED | MAP_PRIVATE) != 0 && f & (MAP_SHARED | MAP_PRIVATE) != (MAP_SHARED
        | MAP_PRIVATE)
}

/// Maps memory into the calling process. Without `MAP_FIXED` the mapping
/// goes to the next free address `mmap_head`, which then moves past it to
/// the next page boundary (also when the call fails afterwards).
pub fn mmap(
    files: &FdTable,
    mmap_head: &mut usize,
    page_size: usize,
    addr: usize,
    length: usize,
    prot: u32,
    flags: u32,
    fd: i32,
) -> (r: EResult<MmapPlan>)
    requires
        is_pow2(page_size),
        sharing_ok(flags) && known_map_flags(flags) & MAP_FIXED == 0 ==> *old(mmap_head) + length
            + page_size - 1 <= usize::MAX,
    ensures
        !sharing_ok(flags) ==> r == Err::<MmapPlan, Errno>(Errno::EINVAL) && *final(mmap_head)
            == *old(mmap_head),
        sharing_ok(flags) ==> {
            let f = known_map_flags(flags);
            let fixed = f & MAP_FIXED != 0;
            let anonymous = f & MAP_ANONYMOUS != 0;
            let at = if fixed { addr } else { *old(mmap_head) };
            &&& *final(mmap_head) == if fixed {
                *old(mmap_head)
            } else {
                round_up(*old(mmap_head) + length, page_size as int) as usize
            }
            &&& r == if !anonymous && lookup_fd(files@, fd) is None {
                Err(Errno::EBADF)
            } else if length == 0 {
                Err(Errno::EINVAL)
            } else {
                Ok(
                    MmapPlan {
                        addr: at,
                        length,
                        prot: spec_vm_prot(prot),
                        file: if anonymous { None } else { Some(lookup_fd(files@, fd)->0.file) },
                        private: f & MAP_PRIVATE != 0,
                    },
                )
            }
        },
{
    let f = flags & (MAP_SHARED | MAP_PRIVATE | MAP_FIXED | MAP_ANONYMOUS);
    if f & (MAP_SHARED | MAP_PRIVATE) != 0 {
        if f & (MAP_SHARED | MAP_PRIVATE) == (MAP_SHARED | MAP_PRIVATE) {
            return Err(Errno::EINVAL);
        }
    } else {
        return Err(Errno::EINVAL);
    }
    proof { crate::util::lemma_pow2_positive(page_size); }
    let prot_flags = vm_prot(prot);
    let at = if f & MAP_FIXED == 0 {
        let cur = *mmap_head;
        *mmap_head = align_up(cur + length, page_size);
        cur
    } else {
        addr
    };
    let file = if f & MAP_ANONYMOUS != 0 {
        None
    } else {
        match get(files, fd) {
            Some(d) => Some(d.file),
            None => return Err(Errno::EBADF),
        }
    };
    if length == 0 {
        return Err(Errno::EINVAL);
    }
    Ok(MmapPlan { addr: at, length, prot: prot_flags, file, private: f & MAP_PRIVATE != 0 })
}

/// The page flags that `mprotect` applies; an empty range is refused.
pub fn mprotect(size: usize, prot: u32) -> (r: EResult<u32>)
    ensures
        r == (if size == 0 {
            Err::<u32, Errno>(Errno::EINVAL)
        } else {
            Ok(spec_vm_prot(prot))
        }),
{
    let flags = vm_prot(prot);
    if size == 0 {
        return Err(Errno::EINVAL);
    }
    Ok(flags)
}

/// `munmap` refuses an empty range.
pub fn munmap(size: usize) -> (r: EResult<usize>)
    ensures
        r == (if size == 0 {
            Err::<usize, Errno>(Errno::EINVAL)
        } else {
            Ok(0)
        }),
{
    if size == 0 {
        return Err(Errno::EINVAL);
    }
    Ok(0)
}

} // verus!
