//! System calls that resolve a path in the file system, relative to the
//! working directory or to a directory descriptor.
use vstd::prelude::*;
use crate::syscall::system::Timespec;
use crate::errno::{Errno, EResult};
use crate::file::{File, FileDescription, NodeType, O_CLOSE_ON_EXEC, LOOKUP_MUST_EXIST, LOOKUP_FOLLOW_SYMLINKS, flag_set};
use crate::process::{FdTable, Identity};
use crate::syscall::vfs::{
    AT_SYMLINK_NOFOLLOW, check_access_mode, faccessat_lookup_flags, install_opened, installed,
    mode_from_bits, resolve_at, spec_resolve_at, spec_type_bits, stat_mode, MODE_MASK,
};
use crate::vfs::{Loc, LocV, Vfs, VfsV, ctx_ok, no_special_nodes, spec_lookup, spec_mknod, spec_open, vfs_wf};

verus! {

/// Every directory entry a descriptor was opened through lies in the file
/// system `v`.
pub open spec fn fds_in(v: VfsV, m: Map<usize, FileDescription>) -> bool {
    forall|fd: usize| #[trigger] m.contains_key(fd) ==> (m[fd].file.path matches Some(e) ==> e < v.entries.len())
}

/// The kernel state path resolution works on: a well-formed file system,
/// a root and a working directory in it, and descriptors whose entries lie
/// in it.
pub open spec fn path_ctx(v: VfsV, m: Map<usize, FileDescription>, root: usize, cwd: usize) -> bool {
    &&& ctx_ok(v, root, cwd, None)
    &&& fds_in(v, m)
}

proof fn lemma_start_ok(v: VfsV, m: Map<usize, FileDescription>, root: usize, cwd: usize, fd: i32)
    requires
        path_ctx(v, m, root, cwd),
    ensures
        spec_resolve_at(m, fd) matches Ok(start) ==> ctx_ok(v, root, cwd, start),
{
    if fd != crate::syscall::vfs::AT_FDCWD && fd >= 0 && m.contains_key(fd as usize) {
        assert(m.contains_key(fd as usize));
    }
}

/// What `openat` does to the file system, and the outcome of its open: a
/// null path is refused; the path is resolved from the descriptor's
/// directory and opened with the open flags less `O_CLOSE_ON_EXEC`, with
/// an empty mode for a created file.
pub open spec fn spec_openat_open(
    v: VfsV,
    m: Map<usize, FileDescription>,
    root: usize,
    cwd: usize,
    fd: i32,
    path: Option<Seq<u8>>,
    oflag: u32,
) -> (EResult<crate::vfs::Opened>, VfsV) {
    match path {
        None => (Err(Errno::EINVAL), v),
        Some(p) => match spec_resolve_at(m, fd) {
            Err(e) => (Err(e), v),
            Ok(start) => spec_open(v, root, cwd, start, p, oflag & !O_CLOSE_ON_EXEC, 0),
        },
    }
}

/// The descriptor `openat` installs for an opened node: the file keeps the
/// open flags less `O_CLOSE_ON_EXEC`, which goes to the descriptor.
pub open spec fn opened_description(v: VfsV, o: crate::vfs::Opened, file_id: usize, oflag: u32) -> FileDescription {
    FileDescription {
        file: File {
            id: file_id,
            flags: oflag & !O_CLOSE_ON_EXEC,
            path: Some(o.entry),
            node: Some(v.inodes[o.inode as int].node_type),
        },
        close_on_exec: flag_set(oflag, O_CLOSE_ON_EXEC),
    }
}

/// Opens a file relative to a directory descriptor and installs it at the
/// lowest free descriptor. `path` is `None` for a null pointer; `file_id`
/// names the new open file.
pub fn openat(
    vfs: &mut Vfs,
    files: &mut FdTable,
    root: usize,
    cwd: usize,
    fd: i32,
    path: Option<&[u8]>,
    oflag: u32,
    file_id: usize,
    identity: &Identity,
) -> (r: EResult<usize>)
    requires
        path_ctx(old(vfs)@, old(files)@, root, cwd),
        identity.effective_user_id == 0,
    ensures
        ({
            let pv = match path {
                Some(p) => Some(p@),
                None => None,
            };
            let (o, v1) = spec_openat_open(old(vfs)@, old(files)@, root, cwd, fd, pv, oflag);
            &&& final(vfs)@ == v1
            &&& match o {
                Err(e) => r == Err::<usize, Errno>(e) && final(files)@ == old(files)@,
                Ok(op) => installed(old(files)@, final(files)@, 0, opened_description(v1, op, file_id, oflag), r),
            }
        }),
        path_ctx(final(vfs)@, final(files)@, root, cwd),
        no_special_nodes(old(vfs)@) ==> no_special_nodes(final(vfs)@),
{
    let p = match path {
        Some(p) => p,
        None => return Err(Errno::EINVAL),
    };
    proof {
        lemma_start_ok(vfs@, files@, root, cwd, fd);
    }
    let start = resolve_at(files, fd)?;
    let flags = oflag & !O_CLOSE_ON_EXEC;
    let ghost v0 = vfs@;
    let o = vfs.open(root, cwd, start, p, flags, 0, identity);
    proof {
        assert forall|k: usize| #[trigger] files@.contains_key(k) implies (files@[k].file.path matches Some(e) ==> e < vfs@.entries.len()) by {
            assert(v0.entries.len() <= vfs@.entries.len());
        }
    }
    let op = match o {
        Ok(op) => op,
        Err(e) => return Err(e),
    };
    assert(vfs@.inodes[op.inode as int] == vfs.inodes@[op.inode as int]@);
    let node = vfs.inodes[op.inode].node_type;
    let file = File { id: file_id, flags: 0, path: Some(op.entry), node: Some(node) };
    let ghost m0 = files@;
    let r = install_opened(files, file, oflag);
    proof {
        assert forall|k: usize| #[trigger] files@.contains_key(k) implies (files@[k].file.path matches Some(e) ==> e < vfs@.entries.len()) by {
            if m0.contains_key(k) && files@[k] == m0[k] {
            } else {
            }
        }
    }
    r
}

/// What `fstat` and `fstatat` report of a node.
#[derive(Clone, Copy, Debug, PartialEq, Eq, Structural)]
pub struct Stat {
    pub ino: u64,
    /// The permission bits and the bits of the node's type.
    pub mode: u32,
    pub uid: usize,
    pub gid: usize,
    pub size: usize,
    /// The device the node is on, and the device it stands for: neither is
    /// tracked, so both read as zero.
    pub dev: u64,
    pub rdev: u64,
    /// Block size and count: not tracked, zero.
    pub blksize: i64,
    pub blocks: i64,
    /// The times of last access, modification and status change. Nodes are
    /// made with all three at zero and nothing changes them.
    pub atime: Timespec,
    pub mtime: Timespec,
    pub ctime: Timespec,
}

/// The status of node `i`.
pub open spec fn stat_of(v: VfsV, i: usize) -> Stat {
    let n = v.inodes[i as int];
    Stat {
        ino: n.id,
        mode: n.mode | spec_type_bits(n.node_type),
        uid: n.uid,
        gid: n.gid,
        size: n.data.len() as usize,
        dev: 0,
        rdev: 0,
        blksize: 0,
        blocks: 0,
        atime: Timespec { tv_sec: 0, tv_nsec: 0 },
        mtime: Timespec { tv_sec: 0, tv_nsec: 0 },
        ctime: Timespec { tv_sec: 0, tv_nsec: 0 },
    }
}

/// The lookup flags of `fstatat`: the path must exist, and a final link is
/// followed unless `AT_SYMLINK_NOFOLLOW` is given.
pub open spec fn fstatat_lookup_flags(flags: usize) -> u32 {
    LOOKUP_MUST_EXIST | if flags & AT_SYMLINK_NOFOLLOW != 0 {
        0u32
    } else {
        LOOKUP_FOLLOW_SYMLINKS
    }
}

/// The result of `fstatat`.
pub open spec fn spec_fstatat(
    v: VfsV,
    m: Map<usize, FileDescription>,
    root: usize,
    cwd: usize,
    at: i32,
    path: Seq<u8>,
    flags: usize,
) -> EResult<Stat> {
    match spec_resolve_at(m, at) {
        Err(e) => Err(e),
        Ok(start) => match spec_lookup(v, root, cwd, start, path, fstatat_lookup_flags(flags)) {
            Err(e) => Err(e),
            Ok(LocV::Found(e)) => Ok(stat_of(v, v.entries[e as int].inode)),
            Ok(LocV::Missing(_, _)) => Err(Errno::EINVAL),
        },
    }
}

/// The status of node `i`.
pub fn stat_node(vfs: &Vfs, i: usize) -> (r: Stat)
    requires
        i < vfs@.inodes.len(),
    ensures
        r == stat_of(vfs@, i),
{
    assert(vfs@.inodes[i as int] == vfs.inodes@[i as int]@);
    let n = &vfs.inodes[i];
    Stat {
        ino: n.id,
        mode: stat_mode(n.mode, n.node_type),
        uid: n.uid,
        gid: n.gid,
        size: n.data.len(),
        dev: 0,
        rdev: 0,
        blksize: 0,
        blocks: 0,
        atime: Timespec { tv_sec: 0, tv_nsec: 0 },
        mtime: Timespec { tv_sec: 0, tv_nsec: 0 },
        ctime: Timespec { tv_sec: 0, tv_nsec: 0 },
    }
}

/// Reports the status of the node at a path relative to a directory
/// descriptor.
pub fn fstatat(
    vfs: &Vfs,
    files: &FdTable,
    root: usize,
    cwd: usize,
    at: i32,
    path: &[u8],
    flags: usize,
    identity: &Identity,
) -> (r: EResult<Stat>)
    requires
        path_ctx(vfs@, files@, root, cwd),
        identity.effective_user_id == 0,
    ensures
        r == spec_fstatat(vfs@, files@, root, cwd, at, path@, flags),
{
    proof {
        lemma_start_ok(vfs@, files@, root, cwd, at);
    }
    let start = resolve_at(files, at)?;
    let lf: u32 = LOOKUP_MUST_EXIST | if flags & AT_SYMLINK_NOFOLLOW != 0 {
        0u32
    } else {
        LOOKUP_FOLLOW_SYMLINKS
    };
    let l = vfs.lookup(root, cwd, start, path, lf, identity)?;
    match l {
        Loc::Found(e) => {
            assert(vfs@.entries[e as int] == vfs.entries@[e as int]@);
            let i = vfs.entries[e].inode;
            assert(vfs@.inodes[i as int] == vfs.inodes@[i as int]@);
            Ok(stat_node(vfs, i))
        },
        Loc::Missing(_, _) => Err(Errno::EINVAL),
    }
}

/// Makes a directory of mode `mode` at a path relative to a directory
/// descriptor. Bits other than permission bits in `mode` are refused.
pub fn mkdirat(
    vfs: &mut Vfs,
    files: &FdTable,
    root: usize,
    cwd: usize,
    fd: i32,
    path: &[u8],
    mode: u32,
    identity: &Identity,
) -> (r: EResult<usize>)
    requires
        path_ctx(old(vfs)@, files@, root, cwd),
        identity.effective_user_id == 0,
    ensures
        match spec_resolve_at(files@, fd) {
            Err(e) => r == Err::<usize, Errno>(e) && final(vfs)@ == old(vfs)@,
            Ok(start) => if mode & !MODE_MASK != 0 {
                r == Err::<usize, Errno>(Errno::EINVAL) && final(vfs)@ == old(vfs)@
            } else {
                let (x, v1) = spec_mknod(old(vfs)@, root, cwd, start, path@, NodeType::Directory, mode, false);
                &&& final(vfs)@ == v1
                &&& r == match x {
                    Ok(_) => Ok::<usize, Errno>(0),
                    Err(e) => Err(e),
                }
            },
        },
        path_ctx(final(vfs)@, files@, root, cwd),
        no_special_nodes(old(vfs)@) ==> no_special_nodes(final(vfs)@),
{
    proof {
        lemma_start_ok(vfs@, files@, root, cwd, fd);
    }
    let start = resolve_at(files, fd)?;
    let m = match mode_from_bits(mode) {
        Some(m) => m,
        None => return Err(Errno::EINVAL),
    };
    let ghost v0 = vfs@;
    let x = vfs.mknod(root, cwd, start, path, NodeType::Directory, m, false, identity);
    proof {
        assert forall|k: usize| #[trigger] files@.contains_key(k) implies (files@[k].file.path matches Some(e) ==> e < vfs@.entries.len()) by {
            assert(v0.entries.len() <= vfs@.entries.len());
        }
    }
    match x {
        Ok(_) => Ok(0),
        Err(e) => Err(e),
    }
}

/// Where `chdir` moves the working directory: the entry the path leads
/// to, which must exist.
pub open spec fn spec_chdir(v: VfsV, root: usize, cwd: usize, path: Seq<u8>) -> EResult<usize> {
    match spec_lookup(v, root, cwd, None, path, LOOKUP_MUST_EXIST) {
        Err(e) => Err(e),
        Ok(LocV::Found(e)) => Ok(e),
        Ok(LocV::Missing(_, _)) => Err(Errno::ENOENT),
    }
}

/// Changes the working directory `cwd` to the entry a path leads to.
pub fn chdir(vfs: &Vfs, root: usize, cwd: &mut usize, path: &[u8], identity: &Identity) -> (r: EResult<()>)
    requires
        ctx_ok(vfs@, root, *old(cwd), None),
        identity.effective_user_id == 0,
    ensures
        match spec_chdir(vfs@, root, *old(cwd), path@) {
            Ok(e) => r == Ok::<(), Errno>(()) && *final(cwd) == e,
            Err(x) => r == Err::<(), Errno>(x) && *final(cwd) == *old(cwd),
        },
        ctx_ok(vfs@, root, *final(cwd), None),
{
    let l = vfs.lookup(root, *cwd, None, path, LOOKUP_MUST_EXIST, identity)?;
    match l {
        Loc::Found(e) => {
            *cwd = e;
            Ok(())
        },
        Loc::Missing(_, _) => Err(Errno::ENOENT),
    }
}

/// The target `readlinkat` reads: the path must lead to a symbolic link;
/// at most `buf_len` bytes of its target are read.
pub open spec fn spec_readlinkat(
    v: VfsV,
    m: Map<usize, FileDescription>,
    root: usize,
    cwd: usize,
    at: i32,
    path: Option<Seq<u8>>,
    buf_len: usize,
) -> EResult<Seq<u8>> {
    match path {
        None => Err(Errno::EINVAL),
        Some(p) => match spec_resolve_at(m, at) {
            Err(e) => Err(e),
            Ok(start) => match spec_lookup(v, root, cwd, start, p, LOOKUP_MUST_EXIST) {
                Err(e) => Err(e),
                Ok(LocV::Missing(_, _)) => Err(Errno::EBADF),
                Ok(LocV::Found(e)) => {
                    let n = v.inodes[v.entries[e as int].inode as int];
                    if n.node_type != NodeType::SymbolicLink {
                        Err(Errno::EINVAL)
                    } else if buf_len < n.data.len() {
                        Ok(n.data.take(buf_len as int))
                    } else {
                        Ok(n.data)
                    }
                },
            },
        },
    }
}

/// Reads the target of the symbolic link at a path relative to a
/// directory descriptor, at most `buf_len` bytes of it. `path` is `None`
/// for a null pointer.
pub fn readlinkat(
    vfs: &Vfs,
    files: &FdTable,
    root: usize,
    cwd: usize,
    at: i32,
    path: Option<&[u8]>,
    buf_len: usize,
    identity: &Identity,
) -> (r: EResult<Vec<u8>>)
    requires
        path_ctx(vfs@, files@, root, cwd),
        identity.effective_user_id == 0,
    ensures
        ({
            let pv = match path {
                Some(p) => Some(p@),
                None => None,
            };
            match spec_readlinkat(vfs@, files@, root, cwd, at, pv, buf_len) {
                Ok(s) => r matches Ok(v) && v@ == s,
                Err(e) => r == Err::<Vec<u8>, Errno>(e),
            }
        }),
{
    let p = match path {
        Some(p) => p,
        None => return Err(Errno::EINVAL),
    };
    proof {
        lemma_start_ok(vfs@, files@, root, cwd, at);
    }
    let start = resolve_at(files, at)?;
    let l = vfs.lookup(root, cwd, start, p, LOOKUP_MUST_EXIST, identity)?;
    let e = match l {
        Loc::Found(e) => e,
        Loc::Missing(_, _) => return Err(Errno::EBADF),
    };
    assert(vfs@.entries[e as int] == vfs.entries@[e as int]@);
    let i = vfs.entries[e].inode;
    assert(vfs@.inodes[i as int] == vfs.inodes@[i as int]@);
    let n = &vfs.inodes[i];
    if n.node_type != NodeType::SymbolicLink {
        return Err(Errno::EINVAL);
    }
    let len = if buf_len < n.data.len() { buf_len } else { n.data.len() };
    let out = vstd::slice::slice_to_vec(vstd::slice::slice_subrange(n.data.as_slice(), 0, len));
    proof {
        if buf_len >= n.data@.len() {
            assert(out@ =~= n.data@);
        }
    }
    Ok(out)
}

/// The outcome of `faccessat`: the path is resolved as
/// `faccessat_lookup_flags` asks, and some requested permission bit must
/// be granted by the node's mode.
pub open spec fn spec_faccessat(
    v: VfsV,
    m: Map<usize, FileDescription>,
    root: usize,
    cwd: usize,
    fd: i32,
    path: Option<Seq<u8>>,
    amode: usize,
    flag: usize,
) -> EResult<()> {
    match path {
        None => Err(Errno::EINVAL),
        Some(p) => match spec_resolve_at(m, fd) {
            Err(e) => Err(e),
            Ok(start) => {
                let lf = LOOKUP_MUST_EXIST | LOOKUP_FOLLOW_SYMLINKS | if (flag as u32) & (
                crate::syscall::vfs::AT_EACCESS as u32) != 0 {
                    0u32
                } else {
                    crate::file::LOOKUP_USE_REAL_ID
                };
                match spec_lookup(v, root, cwd, start, p, lf) {
                    Err(e) => Err(e),
                    Ok(LocV::Missing(_, _)) => Err(Errno::EBADF),
                    Ok(LocV::Found(e)) => if (amode as u32) & MODE_MASK != 0 && v.inodes[v.entries[
                    e as int].inode as int].mode & ((amode as u32) & MODE_MASK) == 0 {
                        Err(Errno::EACCES)
                    } else {
                        Ok(())
                    },
                }
            },
        },
    }
}

/// Checks whether the node at a path relative to a directory descriptor
/// exists and, where `amode` asks for permissions, grants any of them.
/// `path` is `None` for a null pointer.
pub fn faccessat(
    vfs: &Vfs,
    files: &FdTable,
    root: usize,
    cwd: usize,
    fd: i32,
    path: Option<&[u8]>,
    amode: usize,
    flag: usize,
    identity: &Identity,
) -> (r: EResult<()>)
    requires
        path_ctx(vfs@, files@, root, cwd),
        identity.effective_user_id == 0,
    ensures
        ({
            let pv = match path {
                Some(p) => Some(p@),
                None => None,
            };
            r == spec_faccessat(vfs@, files@, root, cwd, fd, pv, amode, flag)
        }),
{
    let p = match path {
        Some(p) => p,
        None => return Err(Errno::EINVAL),
    };
    proof {
        lemma_start_ok(vfs@, files@, root, cwd, fd);
    }
    let start = resolve_at(files, fd)?;
    let lf = faccessat_lookup_flags(flag);
    let l = vfs.lookup(root, cwd, start, p, lf, identity)?;
    let e = match l {
        Loc::Found(e) => e,
        Loc::Missing(_, _) => return Err(Errno::EBADF),
    };
    assert(vfs@.entries[e as int] == vfs.entries@[e as int]@);
    let i = vfs.entries[e].inode;
    assert(vfs@.inodes[i as int] == vfs.inodes@[i as int]@);
    check_access_mode(vfs.inodes[i].mode, amode)
}

} // verus!

verus! {

/// The file `execve` runs: the path is opened from the working directory
/// for reading and executing. The image is then replaced by
/// `ProcessTable::fexecve`.
pub fn execve(vfs: &mut Vfs, root: usize, cwd: usize, path: &[u8], identity: &Identity) -> (r: EResult<crate::vfs::Opened>)
    requires
        ctx_ok(old(vfs)@, root, cwd, None),
        identity.effective_user_id == 0,
    ensures
        (r, final(vfs)@) == spec_open(old(vfs)@, root, cwd, None, path@, crate::file::O_READ | crate::file::O_EXECUTABLE, 0),
        vfs_wf(final(vfs)@),
        no_special_nodes(old(vfs)@) ==> no_special_nodes(final(vfs)@),
{
    vfs.open(root, cwd, None, path, crate::file::O_READ | crate::file::O_EXECUTABLE, 0, identity)
}

} // verus!
