//! File system calls: checks on file descriptors and the results they owe.
use vstd::prelude::*;
use crate::errno::{Errno, EResult};
use crate::file::{File, FileDescription, FileOps, NodeType, SeekAnchor, flag_set, spec_seek, O_READ, O_WRITE, O_CLOSE_ON_EXEC, O_DIRECTORY, LOOKUP_MUST_EXIST, LOOKUP_FOLLOW_SYMLINKS, LOOKUP_USE_REAL_ID};
use crate::process::{FdTable, has_free_fd, lowest_free_fd};

verus! {

/// Descriptor number that stands for the working directory.
pub const AT_FDCWD: i32 = -100;

/// The longest path the kernel handles.
pub const PATH_MAX: usize = 4096;

/// `fcntl` commands.
pub const F_DUPFD: usize = 0;
pub const F_GETFD: usize = 1;
pub const F_SETFD: usize = 2;
pub const F_GETFL: usize = 3;
pub const F_SETFL: usize = 4;
pub const F_GETLK: usize = 5;
pub const F_SETLK: usize = 6;
pub const F_SETLKW: usize = 7;
pub const F_SETOWN: usize = 8;
pub const F_GETOWN: usize = 9;
pub const F_SETOWN_EX: usize = 15;
pub const F_GETOWN_EX: usize = 16;
pub const F_OFD_GETLK: usize = 36;
pub const F_OFD_SETLK: usize = 37;
pub const F_OFD_SETLKW: usize = 38;
pub const F_DUPFD_CLOEXEC: usize = 1030;

/// `poll` event bits set by the kernel.
pub const POLLERR: i16 = 0x8;
pub const POLLNVAL: i16 = 0x20;

/// The description a descriptor number refers to.
pub open spec fn lookup_fd(m: Map<usize, FileDescription>, fd: i32) -> Option<FileDescription> {
    if fd >= 0 && m.contains_key(fd as usize) {
        Some(m[fd as usize])
    } else {
        None
    }
}

/// Looks a descriptor number up.
pub fn get(files: &FdTable, fd: i32) -> (r: Option<FileDescription>)
    ensures
        r == lookup_fd(files@, fd),
{
    if fd < 0 {
        None
    } else {
        files.get_fd(fd as usize)
    }
}

/// The file that a descriptor refers to, if it was opened with `bit`.
pub open spec fn spec_file_with(m: Map<usize, FileDescription>, fd: i32, bit: u32) -> EResult<File> {
    match lookup_fd(m, fd) {
        None => Err(Errno::EBADF),
        Some(d) => if flag_set(d.file.flags, bit) {
            Ok(d.file)
        } else {
            Err(Errno::EBADF)
        },
    }
}

fn file_with(files: &FdTable, fd: i32, bit: u32) -> (r: EResult<File>)
    ensures
        r == spec_file_with(files@, fd, bit),
{
    match get(files, fd) {
        None => Err(Errno::EBADF),
        Some(d) => if d.file.flags & bit == bit {
            Ok(d.file)
        } else {
            Err(Errno::EBADF)
        },
    }
}

/// What `read` or `pread` of `len` bytes at `offset` gives: the file must
/// be open for reading; nothing is asked of it for zero bytes; otherwise
/// what the file reads.
pub open spec fn spec_read<O: FileOps>(
    m: Map<usize, FileDescription>,
    fd: i32,
    ops: O,
    len: usize,
    offset: u64,
) -> EResult<Seq<u8>> {
    match spec_file_with(m, fd, O_READ) {
        Err(e) => Err(e),
        Ok(f) => if len == 0 {
            Ok(Seq::empty())
        } else {
            ops.read_outcome(f, len, offset)
        },
    }
}

/// What `write` or `pwrite` of `data` at `offset` gives: the file must be
/// open for writing; nothing is asked of it for no data; otherwise what
/// the file writes.
pub open spec fn spec_write<O: FileOps>(
    m: Map<usize, FileDescription>,
    fd: i32,
    ops: O,
    data: Seq<u8>,
    offset: u64,
) -> EResult<isize> {
    match spec_file_with(m, fd, O_WRITE) {
        Err(e) => Err(e),
        Ok(f) => if data.len() == 0 {
            Ok(0)
        } else {
            ops.write_outcome(f, data, offset)
        },
    }
}

fn read_at<O: FileOps>(files: &FdTable, fd: i32, ops: &mut O, len: usize, offset: u64) -> (r: EResult<Vec<u8>>)
    requires
        len <= isize::MAX,
    ensures
        match spec_read(files@, fd, *old(ops), len, offset) {
            Ok(bytes) => r matches Ok(b) && b@ == bytes,
            Err(e) => r == Err::<Vec<u8>, Errno>(e),
        },
        r matches Ok(b) ==> b@.len() <= len,
{
    let f = file_with(files, fd, O_READ)?;
    if len == 0 {
        return Ok(Vec::new());
    }
    let mut buffer: Vec<u8> = vec![0u8; len];
    let n = ops.read(&f, &mut buffer, offset)?;
    let ghost full = buffer@;
    let got = vstd::slice::slice_to_vec(vstd::slice::slice_subrange(buffer.as_slice(), 0, n as usize));
    proof {
        assert(got@ =~= full.take(n as int));
    }
    Ok(got)
}

/// `read` of `len` bytes from the file a descriptor refers to, whose
/// operations are `ops` and whose cursor is at `position`: the bytes read,
/// which go to the caller's buffer.
pub fn read<O: FileOps>(files: &FdTable, fd: i32, ops: &mut O, position: u64, len: usize) -> (r: EResult<Vec<u8>>)
    requires
        len <= isize::MAX,
    ensures
        match spec_read(files@, fd, *old(ops), len, position) {
            Ok(bytes) => r matches Ok(b) && b@ == bytes,
            Err(e) => r == Err::<Vec<u8>, Errno>(e),
        },
        r matches Ok(b) ==> b@.len() <= len,
{
    read_at(files, fd, ops, len, position)
}

/// `pread` of `len` bytes at `offset` from the file a descriptor refers
/// to, whose operations are `ops`; the file's cursor is not used.
pub fn pread<O: FileOps>(files: &FdTable, fd: i32, ops: &mut O, offset: u64, len: usize) -> (r: EResult<Vec<u8>>)
    requires
        len <= isize::MAX,
    ensures
        match spec_read(files@, fd, *old(ops), len, offset) {
            Ok(bytes) => r matches Ok(b) && b@ == bytes,
            Err(e) => r == Err::<Vec<u8>, Errno>(e),
        },
        r matches Ok(b) ==> b@.len() <= len,
{
    read_at(files, fd, ops, len, offset)
}

fn write_at<O: FileOps>(files: &FdTable, fd: i32, ops: &mut O, data: &[u8], offset: u64) -> (r: EResult<isize>)
    requires
        data@.len() <= isize::MAX,
    ensures
        r == spec_write(files@, fd, *old(ops), data@, offset),
{
    let f = file_with(files, fd, O_WRITE)?;
    if data.len() == 0 {
        return Ok(0);
    }
    ops.write(&f, data, offset)
}

/// `write` of `data`, read from the caller's buffer, to the file a
/// descriptor refers to, whose operations are `ops` and whose cursor is at
/// `position`: the number of bytes written.
pub fn write<O: FileOps>(files: &FdTable, fd: i32, ops: &mut O, position: u64, data: &[u8]) -> (r: EResult<isize>)
    requires
        data@.len() <= isize::MAX,
    ensures
        r == spec_write(files@, fd, *old(ops), data@, position),
{
    write_at(files, fd, ops, data, position)
}

/// `pwrite` of `data` at `offset` to the file a descriptor refers to,
/// whose operations are `ops`; the file's cursor is not used.
pub fn pwrite<O: FileOps>(files: &FdTable, fd: i32, ops: &mut O, offset: u64, data: &[u8]) -> (r: EResult<isize>)
    requires
        data@.len() <= isize::MAX,
    ensures
        r == spec_write(files@, fd, *old(ops), data@, offset),
{
    write_at(files, fd, ops, data, offset)
}

/// `ioctl` on the file a descriptor refers to, whose operations are `ops`.
pub fn ioctl<O: FileOps>(files: &FdTable, fd: i32, ops: &mut O, request: usize, arg: usize) -> (r: EResult<usize>)
    ensures
        r == (match lookup_fd(files@, fd) {
            Some(d) => old(ops).ioctl_outcome(d.file, request, arg),
            None => Err(Errno::EBADF),
        }),
{
    match get(files, fd) {
        Some(d) => ops.ioctl(&d.file, request, arg),
        None => Err(Errno::EBADF),
    }
}

/// The file and node kind that `fstat` describes.
pub fn fstat(files: &FdTable, fd: i32) -> (r: EResult<(File, NodeType)>)
    ensures
        r == (match lookup_fd(files@, fd) {
            None => Err(Errno::EBADF),
            Some(d) => match d.file.node {
                Some(n) => Ok((d.file, n)),
                None => Err(Errno::EINVAL),
            },
        }),
{
    let d = match get(files, fd) {
        Some(d) => d,
        None => return Err(Errno::EBADF),
    };
    match d.file.node {
        Some(n) => Ok((d.file, n)),
        None => Err(Errno::EINVAL),
    }
}

/// Closes a descriptor. Gives the file that is then to be closed: the
/// descriptor's file where no other descriptor of the table refers to it
/// (the call itself returns 0).
pub fn close(files: &mut FdTable, fd: i32) -> (r: EResult<Option<File>>)
    ensures
        lookup_fd(old(files)@, fd) is None ==> r == Err::<Option<File>, Errno>(Errno::EBADF) && final(files)@ == old(files)@,
        lookup_fd(old(files)@, fd) matches Some(d) ==> final(files)@ == old(files)@.remove(fd as usize) && r == Ok::<
            Option<File>,
            Errno,
        >(
            if exists|k: usize| final(files)@.contains_key(k) && #[trigger] final(files)@[k].file.id == d.file.id {
                None
            } else {
                Some(d.file)
            },
        ),
{
    if fd < 0 {
        return Err(Errno::EBADF);
    }
    match files.close(fd as usize) {
        Some((d, last)) => Ok(if last { Some(d.file) } else { None }),
        None => Err(Errno::EBADF),
    }
}

/// Installs `desc` at the lowest free descriptor at or above `base`.
pub open spec fn installed(
    old_m: Map<usize, FileDescription>,
    new_m: Map<usize, FileDescription>,
    base: usize,
    desc: FileDescription,
    r: EResult<usize>,
) -> bool {
    &&& r is Ok <==> has_free_fd(old_m, base)
    &&& r matches Ok(fd) ==> lowest_free_fd(old_m, base, fd) && new_m == old_m.insert(fd, desc)
    &&& r is Err ==> r == Err::<usize, Errno>(Errno::EMFILE) && new_m == old_m
}

fn install(files: &mut FdTable, desc: FileDescription, base: usize) -> (r: EResult<usize>)
    ensures
        installed(old(files)@, final(files)@, base, desc, r),
{
    match files.open_file(desc, base) {
        Some(fd) => Ok(fd),
        None => Err(Errno::EMFILE),
    }
}

/// Duplicates a descriptor onto the lowest free descriptor.
pub fn dup(files: &mut FdTable, fd: i32) -> (r: EResult<usize>)
    ensures
        lookup_fd(old(files)@, fd) is None ==> r == Err::<usize, Errno>(Errno::EBADF) && final(files)@ == old(files)@,
        lookup_fd(old(files)@, fd) matches Some(d) ==> installed(old(files)@, final(files)@, 0, d, r),
{
    let d = match get(files, fd) {
        Some(d) => d,
        None => return Err(Errno::EBADF),
    };
    install(files, d, 0)
}

/// The file that closing descriptor `fd` of `m` leaves to be closed: its
/// file, where no other descriptor of `m` refers to it.
pub open spec fn file_to_close(m: Map<usize, FileDescription>, fd: usize) -> Option<File> {
    if m.contains_key(fd) && !exists|k: usize| m.remove(fd).contains_key(k) && #[trigger] m.remove(fd)[k].file.id
        == m[fd].file.id {
        Some(m[fd].file)
    } else {
        None
    }
}

/// Duplicates `fd1` onto exactly `fd2`, closing what `fd2` held before.
/// With `O_CLOSE_ON_EXEC` in `flags` the new descriptor closes on exec.
/// Gives `fd2` and the file that is then to be closed: the one `fd2` held,
/// where no other descriptor referred to it.
pub fn dup3(files: &mut FdTable, fd1: i32, fd2: i32, flags: usize) -> (r: EResult<(usize, Option<File>)>)
    ensures
        fd1 == fd2 ==> r == Ok::<(usize, Option<File>), Errno>((fd1 as usize, None)) && final(files)@ == old(files)@,
        fd1 != fd2 && lookup_fd(old(files)@, fd1) is None ==> r == Err::<(usize, Option<File>), Errno>(
            Errno::EBADF,
        ) && final(files)@ == old(files)@,
        fd1 != fd2 && lookup_fd(old(files)@, fd1) is Some && fd2 < 0 ==> r == Err::<(usize, Option<File>), Errno>(
            Errno::EBADF,
        ) && final(files)@ == old(files)@,
        fd1 != fd2 && fd2 >= 0 ==> (lookup_fd(old(files)@, fd1) matches Some(d) ==> {
            let desc = FileDescription {
                file: d.file,
                close_on_exec: d.close_on_exec || flag_set(flags as u32, O_CLOSE_ON_EXEC),
            };
            &&& r == Ok::<(usize, Option<File>), Errno>((fd2 as usize, file_to_close(old(files)@, fd2 as usize)))
            &&& final(files)@ == old(files)@.insert(fd2 as usize, desc)
        }),
{
    if fd1 == fd2 {
        return Ok((fd1 as usize, None));
    }
    let d = match get(files, fd1) {
        Some(d) => d,
        None => return Err(Errno::EBADF),
    };
    if fd2 < 0 {
        return Err(Errno::EBADF);
    }
    let to_close = match files.close(fd2 as usize) {
        Some((old_desc, last)) => if last { Some(old_desc.file) } else { None },
        None => None,
    };
    let cloexec = (flags as u32) & O_CLOSE_ON_EXEC == O_CLOSE_ON_EXEC;
    let desc = FileDescription { file: d.file, close_on_exec: d.close_on_exec || cloexec };
    let ghost mid = files@;
    assert(!mid.contains_key(fd2 as usize));
    assert(has_free_fd(mid, fd2 as usize));
    let r = install(files, desc, fd2 as usize);
    proof {
        assert(final(files)@ =~= old(files)@.insert(fd2 as usize, desc));
    }
    match r {
        Ok(fd) => Ok((fd, to_close)),
        Err(e) => Err(e),
    }
}


/// The result of `fcntl` on a descriptor table.
pub open spec fn spec_fcntl_simple(cmd: usize) -> bool {
    cmd == F_SETFD || cmd == F_SETFL || cmd == F_GETOWN || cmd == F_SETOWN || cmd == F_GETOWN_EX
        || cmd == F_SETOWN_EX || cmd == F_GETLK || cmd == F_SETLK || cmd == F_SETLKW || cmd
        == F_OFD_GETLK || cmd == F_OFD_SETLK || cmd == F_OFD_SETLKW
}

/// Manipulates a descriptor. `F_DUPFD` and `F_DUPFD_CLOEXEC` duplicate onto
/// the lowest free descriptor at or above `arg`; `F_GETFD` reports the
/// close-on-exec bit; `F_GETFL` the open flags; the other known commands
/// succeed without effect; unknown commands fail with `EINVAL`.
pub fn fcntl(files: &mut FdTable, fd: i32, cmd: usize, arg: usize) -> (r: EResult<usize>)
    ensures
        (cmd == F_DUPFD || cmd == F_DUPFD_CLOEXEC) ==> match lookup_fd(old(files)@, fd) {
            None => r == Err::<usize, Errno>(Errno::EBADF) && final(files)@ == old(files)@,
            Some(d) => installed(
                old(files)@,
                final(files)@,
                arg,
                FileDescription {
                    file: d.file,
                    close_on_exec: if cmd == F_DUPFD_CLOEXEC { true } else { d.close_on_exec },
                },
                r,
            ),
        },
        cmd == F_GETFD ==> final(files)@ == old(files)@ && r == match lookup_fd(old(files)@, fd) {
            None => Err(Errno::EBADF),
            Some(d) => Ok(if d.close_on_exec { O_CLOSE_ON_EXEC as usize } else { 0usize }),
        },
        cmd == F_GETFL ==> final(files)@ == old(files)@ && r == match lookup_fd(old(files)@, fd) {
            None => Err(Errno::EBADF),
            Some(d) => Ok(d.file.flags as usize),
        },
        spec_fcntl_simple(cmd) ==> final(files)@ == old(files)@ && r == Ok::<usize, Errno>(0),
        !(cmd == F_DUPFD || cmd == F_DUPFD_CLOEXEC || cmd == F_GETFD || cmd == F_GETFL
            || spec_fcntl_simple(cmd)) ==> final(files)@ == old(files)@ && r == Err::<
            usize,
            Errno,
        >(Errno::EINVAL),
{
    if cmd == F_DUPFD || cmd == F_DUPFD_CLOEXEC {
        let d = match get(files, fd) {
            Some(d) => d,
            None => return Err(Errno::EBADF),
        };
        let desc = FileDescription {
            file: d.file,
            close_on_exec: if cmd == F_DUPFD_CLOEXEC { true } else { d.close_on_exec },
        };
        install(files, desc, arg)
    } else if cmd == F_GETFD {
        match get(files, fd) {
            Some(d) => Ok(if d.close_on_exec { O_CLOSE_ON_EXEC as usize } else { 0 }),
            None => Err(Errno::EBADF),
        }
    } else if cmd == F_GETFL {
        match get(files, fd) {
            Some(d) => Ok(d.file.flags as usize),
            None => Err(Errno::EBADF),
        }
    } else if cmd == F_SETFD || cmd == F_SETFL || cmd == F_GETOWN || cmd == F_SETOWN || cmd
        == F_GETOWN_EX || cmd == F_SETOWN_EX || cmd == F_GETLK || cmd == F_SETLK || cmd
        == F_SETLKW || cmd == F_OFD_GETLK || cmd == F_OFD_SETLK || cmd == F_OFD_SETLKW {
        Ok(0)
    } else {
        Err(Errno::EINVAL)
    }
}

/// The directory entry a descriptor was opened through, for `fchdir`.
pub fn fchdir(files: &FdTable, fd: i32) -> (r: EResult<usize>)
    ensures
        r == match lookup_fd(files@, fd) {
            None => Err(Errno::EBADF),
            Some(d) => match d.file.path {
                Some(e) => Ok(e),
                None => Err(Errno::ENOTDIR),
            },
        },
{
    let d = match get(files, fd) {
        Some(d) => d,
        None => return Err(Errno::EBADF),
    };
    match d.file.path {
        Some(e) => Ok(e),
        None => Err(Errno::ENOTDIR),
    }
}

/// The directory that `getdents` reads: a buffer of length zero is
/// refused; the file must be open for reading as a directory.
pub fn getdents(files: &FdTable, fd: i32, len: usize) -> (r: EResult<File>)
    ensures
        len == 0 ==> r == Err::<File, Errno>(Errno::EINVAL),
        len != 0 ==> r == spec_file_with(files@, fd, O_READ | O_DIRECTORY),
{
    if len == 0 {
        return Err(Errno::EINVAL);
    }
    file_with(files, fd, O_READ | O_DIRECTORY)
}

/// The directory a path relative to `fd` starts from: `None` for the
/// working directory (`AT_FDCWD`), else the entry the descriptor's file
/// was opened through.
pub open spec fn spec_resolve_at(m: Map<usize, FileDescription>, fd: i32) -> EResult<Option<usize>> {
    if fd == AT_FDCWD {
        Ok(None)
    } else {
        match lookup_fd(m, fd) {
            None => Err(Errno::EBADF),
            Some(d) => match d.file.path {
                Some(e) => Ok(Some(e)),
                None => Err(Errno::ENOTDIR),
            },
        }
    }
}

/// Where a path relative to `fd` starts: see `spec_resolve_at`.
pub fn resolve_at(files: &FdTable, fd: i32) -> (r: EResult<Option<usize>>)
    ensures
        r == spec_resolve_at(files@, fd),
{
    if fd == AT_FDCWD {
        return Ok(None);
    }
    match fchdir(files, fd) {
        Ok(e) => Ok(Some(e)),
        Err(e) => Err(e),
    }
}

/// Installs a file that `openat` opened. The close-on-exec bit of the
/// open flags belongs to the descriptor, not to the file.
pub fn install_opened(files: &mut FdTable, file: File, oflag: u32) -> (r: EResult<usize>)
    ensures
        installed(
            old(files)@,
            final(files)@,
            0,
            (FileDescription {
                file: File { flags: oflag & !O_CLOSE_ON_EXEC, ..file },
                close_on_exec: flag_set(oflag, O_CLOSE_ON_EXEC),
            }),
            r,
        ),
{
    let f = File { flags: oflag & !O_CLOSE_ON_EXEC, ..file };
    let desc = FileDescription { file: f, close_on_exec: oflag & O_CLOSE_ON_EXEC == O_CLOSE_ON_EXEC };
    install(files, desc, 0)
}

/// Installs both ends of a new pipe at the lowest free descriptors.
/// Where there is room for the read end but not for the write end, the
/// read end stays installed and `EMFILE` comes back.
pub fn pipe(files: &mut FdTable, read_end: File, write_end: File) -> (r: EResult<(usize, usize)>)
    ensures
        !has_free_fd(old(files)@, 0) ==> r == Err::<(usize, usize), Errno>(Errno::EMFILE) && final(files)@ == old(files)@,
        has_free_fd(old(files)@, 0) ==> exists|a: usize|
            {
                let d1 = FileDescription { file: read_end, close_on_exec: false };
                let d2 = FileDescription { file: write_end, close_on_exec: false };
                let m1 = old(files)@.insert(a, d1);
                &&& #[trigger] lowest_free_fd(old(files)@, 0, a)
                &&& has_free_fd(m1, 0) ==> (r matches Ok((ra, b)) && ra == a && lowest_free_fd(m1, 0, b)
                    && final(files)@ == m1.insert(b, d2))
                &&& !has_free_fd(m1, 0) ==> r == Err::<(usize, usize), Errno>(Errno::EMFILE) && final(files)@ == m1
            },
{
    let d1 = FileDescription { file: read_end, close_on_exec: false };
    let d2 = FileDescription { file: write_end, close_on_exec: false };
    let a = match install(files, d1, 0) {
        Ok(a) => a,
        Err(e) => return Err(e),
    };
    let b = match install(files, d2, 0) {
        Ok(b) => b,
        Err(e) => return Err(e),
    };
    Ok((a, b))
}


/// Permission bits of a node.
pub const MODE_MASK: u32 = 0o6777;

/// File type bits of `stat`.
pub const S_IFIFO: u32 = 0o010000;
pub const S_IFCHR: u32 = 0o020000;
pub const S_IFDIR: u32 = 0o040000;
pub const S_IFBLK: u32 = 0o060000;
pub const S_IFREG: u32 = 0o100000;
pub const S_IFLNK: u32 = 0o120000;
pub const S_IFSOCK: u32 = 0o140000;

pub open spec fn spec_type_bits(node: NodeType) -> u32 {
    match node {
        NodeType::Regular => S_IFREG,
        NodeType::Directory => S_IFDIR,
        NodeType::SymbolicLink => S_IFLNK,
        NodeType::FIFO => S_IFIFO,
        NodeType::BlockDevice => S_IFBLK,
        NodeType::CharacterDevice => S_IFCHR,
        NodeType::Socket => S_IFSOCK,
    }
}

/// The `st_mode` of a node: its permission bits and the bits of its type.
pub fn stat_mode(mode: u32, node: NodeType) -> (r: u32)
    ensures
        r == mode | spec_type_bits(node),
{
    let t = match node {
        NodeType::Regular => S_IFREG,
        NodeType::Directory => S_IFDIR,
        NodeType::SymbolicLink => S_IFLNK,
        NodeType::FIFO => S_IFIFO,
        NodeType::BlockDevice => S_IFBLK,
        NodeType::CharacterDevice => S_IFCHR,
        NodeType::Socket => S_IFSOCK,
    };
    mode | t
}

/// A mode for `mkdirat`: only permission bits are allowed.
pub fn mode_from_bits(mode: u32) -> (r: Option<u32>)
    ensures
        r == (if mode & !MODE_MASK == 0 {
            Some(mode)
        } else {
            None
        }),
{
    if mode & !MODE_MASK == 0 {
        Some(mode)
    } else {
        None
    }
}

/// The access check of `faccessat` on a node with permission bits `mode`:
/// asking for no permission (`F_OK`) only asks that the node exists;
/// otherwise some requested permission bit must be granted.
pub fn check_access_mode(mode: u32, amode: usize) -> (r: EResult<()>)
    ensures
        r == (if (amode as u32) & MODE_MASK != 0 && mode & ((amode as u32) & MODE_MASK) == 0 {
            Err::<(), Errno>(Errno::EACCES)
        } else {
            Ok(())
        }),
{
    let requested = (amode as u32) & MODE_MASK;
    if requested != 0 && mode & requested == 0 {
        Err(Errno::EACCES)
    } else {
        Ok(())
    }
}

/// `unlinkat` refuses a null path and otherwise succeeds without effect.
pub fn unlinkat(path_is_null: bool) -> (r: EResult<()>)
    ensures
        r == (if path_is_null {
            Err::<(), Errno>(Errno::EINVAL)
        } else {
            Ok(())
        }),
{
    if path_is_null {
        Err(Errno::EINVAL)
    } else {
        Ok(())
    }
}

/// `linkat` refuses null paths and otherwise succeeds without effect.
pub fn linkat(old_is_null: bool, new_is_null: bool) -> (r: EResult<()>)
    ensures
        r == (if old_is_null || new_is_null {
            Err::<(), Errno>(Errno::EINVAL)
        } else {
            Ok(())
        }),
{
    if old_is_null || new_is_null {
        Err(Errno::EINVAL)
    } else {
        Ok(())
    }
}

/// `pselect` reports no ready descriptors.
pub fn pselect() -> (r: EResult<usize>)
    ensures
        r == Ok::<usize, Errno>(0),
{
    Ok(0)
}

/// The anchor a `seek` request asks for.
pub open spec fn spec_seek_anchor(offset: usize, whence: usize) -> EResult<SeekAnchor> {
    if whence == 0 {
        Ok(SeekAnchor::Start(offset as u64))
    } else if whence == 1 {
        Ok(SeekAnchor::Current(offset as i64))
    } else if whence == 2 {
        Ok(SeekAnchor::End(offset as i64))
    } else {
        Err(Errno::EINVAL)
    }
}

/// `seek` on the file a descriptor refers to, whose cursor is at
/// `position` and whose node holds `size` bytes (`None` without a node):
/// the new cursor and the offset returned, see `file::seek`.
pub fn seek(
    files: &FdTable,
    fd: i32,
    offset: usize,
    whence: usize,
    position: usize,
    size: Option<usize>,
) -> (r: EResult<(usize, usize)>)
    ensures
        r == match lookup_fd(files@, fd) {
            None => Err(Errno::EBADF),
            Some(d) => match spec_seek_anchor(offset, whence) {
                Ok(a) => spec_seek(position, size, a),
                Err(e) => Err(e),
            },
        },
{
    match get(files, fd) {
        Some(_) => {},
        None => return Err(Errno::EBADF),
    };
    let anchor = if whence == 0 {
        SeekAnchor::Start(offset as u64)
    } else if whence == 1 {
        SeekAnchor::Current(offset as i64)
    } else if whence == 2 {
        SeekAnchor::End(offset as i64)
    } else {
        return Err(Errno::EINVAL);
    };
    crate::file::seek(position, size, anchor)
}

/// One entry of a `ppoll` request.
#[derive(Clone, Copy, Debug, PartialEq, Eq, Structural)]
pub struct PollFd {
    pub fd: i32,
    pub events: i16,
    pub revents: i16,
}

/// The events reported for a poll entry, given the outcome `polled` of
/// polling its file.
pub open spec fn spec_revents(m: Map<usize, FileDescription>, e: PollFd, polled: EResult<u16>) -> i16 {
    if e.fd < 0 {
        0
    } else if lookup_fd(m, e.fd) is None {
        POLLNVAL
    } else {
        match polled {
            Ok(r) => r as i16,
            Err(_) => POLLERR,
        }
    }
}

/// Whether a poll entry counts as ready.
pub open spec fn spec_ready(m: Map<usize, FileDescription>, e: PollFd, polled: EResult<u16>) -> bool {
    e.fd >= 0 && (lookup_fd(m, e.fd) is None || match polled {
        Ok(r) => r != 0,
        Err(_) => true,
    })
}

/// The number of ready entries among the first `n`.
pub open spec fn ready_count(
    m: Map<usize, FileDescription>,
    fds: Seq<PollFd>,
    polled: Seq<EResult<u16>>,
    n: int,
) -> nat
    decreases n,
{
    if n <= 0 {
        0
    } else {
        ready_count(m, fds, polled, n - 1) + if spec_ready(m, fds[n - 1], polled[n - 1]) {
            1nat
        } else {
            0nat
        }
    }
}

/// Fills in the reported events of each poll entry and counts the ready
/// ones. `polled[i]` is the outcome of polling the file of entry `i`;
/// entries with a negative descriptor are ignored, entries with a closed
/// descriptor report `POLLNVAL`, entries whose poll failed `POLLERR`.
pub fn ppoll(files: &FdTable, fds: &mut Vec<PollFd>, polled: &Vec<EResult<u16>>) -> (r: usize)
    requires
        polled@.len() == old(fds)@.len(),
    ensures
        final(fds)@.len() == old(fds)@.len(),
        forall|i: int|
            0 <= i < old(fds)@.len() ==> #[trigger] final(fds)@[i] == (PollFd {
                revents: spec_revents(files@, old(fds)@[i], polled@[i]),
                ..old(fds)@[i]
            }),
        r == ready_count(files@, old(fds)@, polled@, old(fds)@.len() as int),
{
    let ghost orig = fds@;
    let mut ready: usize = 0;
    let mut i: usize = 0;
    while i < fds.len()
        invariant
            fds@.len() == orig.len(),
            polled@.len() == orig.len(),
            i <= orig.len(),
            forall|k: int|
                0 <= k < i ==> #[trigger] fds@[k] == (PollFd {
                    revents: spec_revents(files@, orig[k], polled@[k]),
                    ..orig[k]
                }),
            forall|k: int| i <= k < orig.len() ==> #[trigger] fds@[k] == orig[k],
            ready == ready_count(files@, orig, polled@, i as int),
            ready <= i,
        decreases orig.len() - i,
    {
        let mut entry = fds[i];
        entry.revents = 0;
        if entry.fd >= 0 {
            match get(files, entry.fd) {
                None => {
                    entry.revents = POLLNVAL;
                    ready = ready + 1;
                },
                Some(_) => {
                    match &polled[i] {
                        Ok(revents) => {
                            entry.revents = *revents as i16;
                            if *revents != 0 {
                                ready = ready + 1;
                            }
                        },
                        Err(_) => {
                            entry.revents = POLLERR;
                            ready = ready + 1;
                        },
                    }
                },
            }
        }
        fds.set(i, entry);
        i = i + 1;
    }
    ready
}

/// The path of the working directory, where `names` holds the names of
/// the directories from the working directory up to (not including) the
/// root: `/` followed by the non-empty names from the outermost inwards,
/// separated by slashes.
pub open spec fn cwd_suffix(names: Seq<Seq<u8>>) -> Seq<u8>
    decreases names.len(),
{
    if names.len() == 0 {
        Seq::empty()
    } else {
        let last = names.last();
        let front = if last.len() == 0 {
            Seq::empty()
        } else {
            seq![47u8] + last
        };
        front + cwd_suffix(names.drop_last())
    }
}

pub open spec fn cwd_path(names: Seq<Seq<u8>>) -> Seq<u8> {
    if cwd_suffix(names).len() == 0 {
        seq![47u8]
    } else {
        cwd_suffix(names)
    }
}

pub proof fn lemma_cwd_suffix_grows(names: Seq<Seq<u8>>, i: int)
    requires
        0 <= i <= names.len(),
    ensures
        cwd_suffix(names.subrange(0, i)).len() <= cwd_suffix(names).len(),
    decreases names.len() - i,
{
    if i < names.len() {
        lemma_cwd_suffix_grows(names, i + 1);
        let s = names.subrange(0, i + 1);
        assert(s.drop_last() =~= names.subrange(0, i));
    } else {
        assert(names.subrange(0, i) =~= names);
    }
}

/// Builds the path of the working directory for `getcwd`; fails with
/// `ERANGE` where the path and its NUL terminator do not fit in `len`
/// bytes.
pub fn getcwd(names: &Vec<Vec<u8>>, len: usize) -> (r: EResult<Vec<u8>>)
    requires
        cwd_suffix(names@.map_values(|n: Vec<u8>| n@)).len() <= PATH_MAX,
    ensures
        ({
            let path = cwd_path(names@.map_values(|n: Vec<u8>| n@));
            if path.len() + 1 > len {
                r == Err::<Vec<u8>, Errno>(Errno::ERANGE)
            } else {
                r matches Ok(v) && v@ == path
            }
        }),
{
    let ghost ns = names@.map_values(|n: Vec<u8>| n@);
    let mut buffer: Vec<u8> = vec![0u8; PATH_MAX];
    let mut cursor: usize = PATH_MAX;
    let mut i: usize = 0;
    while i < names.len()
        invariant
            ns == names@.map_values(|n: Vec<u8>| n@),
            cwd_suffix(ns).len() <= PATH_MAX,
            i <= names@.len(),
            buffer@.len() == PATH_MAX,
            cursor <= PATH_MAX,
            buffer@.subrange(cursor as int, PATH_MAX as int) == cwd_suffix(ns.subrange(0, i as int)),
        decreases names.len() - i,
    {
        let name = &names[i];
        proof {
            lemma_cwd_suffix_grows(ns, i + 1);
            let s = ns.subrange(0, i + 1);
            assert(s.drop_last() =~= ns.subrange(0, i as int));
            assert(s.last() == name@);
        }
        let ghost built = buffer@.subrange(cursor as int, PATH_MAX as int);
        if name.len() != 0 {
            let nlen = name.len();
            let start = cursor - nlen;
            let mut j: usize = 0;
            while j < nlen
                invariant
                    buffer@.len() == PATH_MAX,
                    start + nlen == cursor,
                    cursor <= PATH_MAX,
                    nlen == name@.len(),
                    j <= nlen,
                    buffer@.subrange(cursor as int, PATH_MAX as int) == built,
                    forall|k: int| 0 <= k < j ==> buffer@[start + k] == name@[k],
                decreases nlen - j,
            {
                buffer.set(start + j, name[j]);
                j = j + 1;
            }
            cursor = start - 1;
            buffer.set(cursor, 47);
            assert(buffer@.subrange(cursor as int, PATH_MAX as int) =~= seq![47u8] + name@ + built);
        }
        i = i + 1;
    }
    assert(ns.subrange(0, names@.len() as int) =~= ns);
    if cursor == PATH_MAX {
        cursor = cursor - 1;
        buffer.set(cursor, 47);
        assert(buffer@.subrange(cursor as int, PATH_MAX as int) =~= seq![47u8]);
    }
    let path_len = buffer.len() - cursor;
    if path_len + 1 > len {
        return Err(Errno::ERANGE);
    }
    Ok(vstd::slice::slice_to_vec(vstd::slice::slice_subrange(buffer.as_slice(), cursor, PATH_MAX)))
}


/// `fstatat` flag: do not follow a final symbolic link.
pub const AT_SYMLINK_NOFOLLOW: usize = 0x100;
/// `faccessat` flag: check with the effective instead of the real identity.
pub const AT_EACCESS: usize = 0x200;

/// The lookup flags of `faccessat`: the path must exist, links are
/// followed, and the real identity is used unless `AT_EACCESS` is given.
pub fn faccessat_lookup_flags(flag: usize) -> (r: u32)
    ensures
        r == LOOKUP_MUST_EXIST | LOOKUP_FOLLOW_SYMLINKS | if (flag as u32) & (AT_EACCESS as u32)
            != 0 {
            0u32
        } else {
            LOOKUP_USE_REAL_ID
        },
{
    let real_id: u32 = if (flag as u32) & (AT_EACCESS as u32) != 0 { 0 } else { LOOKUP_USE_REAL_ID };
    LOOKUP_MUST_EXIST | LOOKUP_FOLLOW_SYMLINKS | real_id
}

} // verus!
