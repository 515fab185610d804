//! Socket calls: descriptor handling around the socket layer.
use vstd::prelude::*;
use crate::errno::{Errno, EResult};
use crate::file::{File, FileDescription, NodeType};
use crate::process::FdTable;
use crate::syscall::vfs::{get, installed, lookup_fd};

verus! {

/// Installs a new socket file at the lowest free descriptor.
pub fn alloc_fd(files: &mut FdTable, socket: File) -> (r: EResult<usize>)
    ensures
        installed(old(files)@, final(files)@, 0, FileDescription { file: socket, close_on_exec: false }, r),
{
    match files.open_file(FileDescription { file: socket, close_on_exec: false }, 0) {
        Some(fd) => Ok(fd),
        None => Err(Errno::EMFILE),
    }
}

/// Installs a socket that the socket layer created for the requested
/// family and type; `None` means that the family is not supported.
pub fn socket(files: &mut FdTable, created: Option<File>) -> (r: EResult<usize>)
    ensures
        created is None ==> r == Err::<usize, Errno>(Errno::EAFNOSUPPORT) && final(files)@ == old(files)@,
        created matches Some(s) ==> installed(
            old(files)@,
            final(files)@,
            0,
            FileDescription { file: s, close_on_exec: false },
            r,
        ),
{
    match created {
        None => Err(Errno::EAFNOSUPPORT),
        Some(s) => alloc_fd(files, s),
    }
}

/// Socket pairs are not supported; creating either socket can fail first.
pub fn socketpair(first_created: bool, second_created: bool) -> (r: EResult<u64>)
    ensures
        r == (if !first_created || !second_created {
            Err::<u64, Errno>(Errno::EAFNOSUPPORT)
        } else {
            Err(Errno::ENOSYS)
        }),
{
    if !first_created || !second_created {
        return Err(Errno::EAFNOSUPPORT);
    }
    Err(Errno::ENOSYS)
}

/// The socket file behind a descriptor.
pub open spec fn spec_fd_to_socket(m: Map<usize, FileDescription>, fd: i32) -> EResult<File> {
    match lookup_fd(m, fd) {
        None => Err(Errno::EBADF),
        Some(d) => if d.file.node == Some(NodeType::Socket) {
            Ok(d.file)
        } else {
            Err(Errno::ENOTSOCK)
        },
    }
}

/// The file of a descriptor that must refer to a socket.
pub fn fd_to_socket(files: &FdTable, fd: i32) -> (r: EResult<File>)
    ensures
        r == spec_fd_to_socket(files@, fd),
{
    let d = match get(files, fd) {
        Some(d) => d,
        None => return Err(Errno::EBADF),
    };
    match d.file.node {
        Some(NodeType::Socket) => Ok(d.file),
        _ => Err(Errno::ENOTSOCK),
    }
}

/// The socket whose peer `getpeername` reports; null pointers are refused first.
pub fn getpeername(files: &FdTable, fd: i32, addr_is_null: bool, len_is_null: bool) -> (r: EResult<File>)
    ensures
        r == (if addr_is_null || len_is_null {
            Err::<File, Errno>(Errno::EFAULT)
        } else {
            spec_fd_to_socket(files@, fd)
        }),
{
    if addr_is_null || len_is_null {
        return Err(Errno::EFAULT);
    }
    fd_to_socket(files, fd)
}

/// The socket whose own address `getsockname` reports; null pointers are refused first.
pub fn getsockname(files: &FdTable, fd: i32, addr_is_null: bool, len_is_null: bool) -> (r: EResult<File>)
    ensures
        r == (if addr_is_null || len_is_null {
            Err::<File, Errno>(Errno::EFAULT)
        } else {
            spec_fd_to_socket(files@, fd)
        }),
{
    if addr_is_null || len_is_null {
        return Err(Errno::EFAULT);
    }
    fd_to_socket(files, fd)
}

/// `getsockopt` succeeds without effect.
pub fn getsockopt() -> (r: EResult<()>)
    ensures
        r == Ok::<(), Errno>(()),
{
    Ok(())
}

/// Sending messages is not supported.
pub fn sendmsg() -> (r: EResult<isize>)
    ensures
        r == Err::<isize, Errno>(Errno::ENOSYS),
{
    Err(Errno::ENOSYS)
}

/// Receiving messages is not supported.
pub fn recvmsg() -> (r: EResult<isize>)
    ensures
        r == Err::<isize, Errno>(Errno::ENOSYS),
{
    Err(Errno::ENOSYS)
}

/// The socket that `accept` accepts on, with the size of the address
/// buffer it hands to the socket layer: the length the caller gave when
/// both pointers are set, else none. The descriptor is checked first.
pub fn accept(files: &FdTable, fd: i32, addr_is_null: bool, len_is_null: bool, addr_len: u32) -> (r: EResult<(File, usize)>)
    ensures
        r == (match spec_fd_to_socket(files@, fd) {
            Err(e) => Err(e),
            Ok(f) => Ok((f, if !addr_is_null && !len_is_null { addr_len as usize } else { 0 })),
        }),
{
    let socket = fd_to_socket(files, fd)?;
    let len = if !addr_is_null && !len_is_null {
        addr_len as usize
    } else {
        0
    };
    Ok((socket, len))
}


/// The socket that `shutdown` shuts down.
pub fn shutdown(files: &FdTable, fd: i32) -> (r: EResult<File>)
    ensures
        r == spec_fd_to_socket(files@, fd),
{
    fd_to_socket(files, fd)
}

/// The socket that `bind` binds, and how many address bytes to read
/// from the caller for it.
pub fn bind(files: &FdTable, fd: i32, addr_length: u32) -> (r: EResult<(File, usize)>)
    ensures
        r == match spec_fd_to_socket(files@, fd) {
            Ok(s) => Ok((s, addr_length as usize)),
            Err(e) => Err::<(File, usize), Errno>(e),
        },
{
    match fd_to_socket(files, fd) {
        Ok(s) => Ok((s, addr_length as usize)),
        Err(e) => Err(e),
    }
}

/// The socket that `connect` connects, and how many address bytes to read
/// from the caller for it.
pub fn connect(files: &FdTable, fd: i32, addr_length: u32) -> (r: EResult<(File, usize)>)
    ensures
        r == match spec_fd_to_socket(files@, fd) {
            Ok(s) => Ok((s, addr_length as usize)),
            Err(e) => Err::<(File, usize), Errno>(e),
        },
{
    match fd_to_socket(files, fd) {
        Ok(s) => Ok((s, addr_length as usize)),
        Err(e) => Err(e),
    }
}

/// The socket that `listen` makes listen.
pub fn listen(files: &FdTable, fd: i32) -> (r: EResult<File>)
    ensures
        r == spec_fd_to_socket(files@, fd),
{
    fd_to_socket(files, fd)
}

/// The socket whose option `setsockopt` sets.
pub fn setsockopt(files: &FdTable, fd: i32) -> (r: EResult<File>)
    ensures
        r == spec_fd_to_socket(files@, fd),
{
    fd_to_socket(files, fd)
}

} // verus!
