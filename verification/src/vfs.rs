//! The virtual file system held in memory: nodes, the entries that name
//! them in a tree, and the resolution of paths through it.
use vstd::prelude::*;
use crate::errno::{Errno, EResult};
use crate::file::{
    NodeType, LOOKUP_FOLLOW_SYMLINKS, LOOKUP_MUST_EXIST, LOOKUP_MUST_NOT_EXIST, O_CREATE, O_DIRECTORY,
    O_EXECUTABLE, O_WRITE, flag_set,
};
use crate::path::{SLASH, path_components, split_components};
use crate::syscall::vfs::PATH_MAX;

verus! {

/// A file system node.
pub struct INode {
    pub id: u64,
    pub node_type: NodeType,
    pub mode: u32,
    pub uid: usize,
    pub gid: usize,
    /// The contents: a regular file's bytes, or a symbolic link's target.
    pub data: Vec<u8>,
}

/// An entry of the tree: a name under a parent entry, for a node.
pub struct Entry {
    pub name: Vec<u8>,
    pub inode: usize,
    /// `None` for the root.
    pub parent: Option<usize>,
}

/// Where a path leads: an existing entry, or a name that a directory
/// entry does not hold (yet).
#[derive(Clone, Debug, PartialEq, Eq)]
pub enum Loc {
    Found(usize),
    Missing(usize, Vec<u8>),
}

/// A location as the contracts see it.
pub enum LocV {
    Found(usize),
    Missing(usize, Seq<u8>),
}

impl View for Loc {
    type V = LocV;

    open spec fn view(&self) -> LocV {
        match self {
            Loc::Found(e) => LocV::Found(*e),
            Loc::Missing(p, n) => LocV::Missing(*p, n@),
        }
    }
}

pub open spec fn res_view(r: EResult<Loc>) -> EResult<LocV> {
    match r {
        Ok(l) => Ok(l@),
        Err(e) => Err(e),
    }
}

/// The file system: its nodes, its entries (entry 0 is the root), and the
/// id the next node gets.
pub struct Vfs {
    pub inodes: Vec<INode>,
    pub entries: Vec<Entry>,
    pub inode_counter: u64,
}

/// A node as the contracts see it.
pub struct INodeV {
    pub id: u64,
    pub node_type: NodeType,
    pub mode: u32,
    pub uid: usize,
    pub gid: usize,
    pub data: Seq<u8>,
}

/// An entry as the contracts see it.
pub struct EntryV {
    pub name: Seq<u8>,
    pub inode: usize,
    pub parent: Option<usize>,
}

/// The file system as the contracts see it.
pub struct VfsV {
    pub inodes: Seq<INodeV>,
    pub entries: Seq<EntryV>,
    pub inode_counter: u64,
}

impl View for INode {
    type V = INodeV;

    open spec fn view(&self) -> INodeV {
        INodeV { id: self.id, node_type: self.node_type, mode: self.mode, uid: self.uid, gid: self.gid, data: self.data@ }
    }
}

impl View for Entry {
    type V = EntryV;

    open spec fn view(&self) -> EntryV {
        EntryV { name: self.name@, inode: self.inode, parent: self.parent }
    }
}

impl View for Vfs {
    type V = VfsV;

    open spec fn view(&self) -> VfsV {
        VfsV {
            inodes: self.inodes@.map_values(|i: INode| i@),
            entries: self.entries@.map_values(|e: Entry| e@),
            inode_counter: self.inode_counter,
        }
    }
}

/// The root is a directory without a parent; every other entry has a
/// parent; every reference points into the tables.
pub open spec fn vfs_wf(v: VfsV) -> bool {
    &&& v.entries.len() >= 1
    &&& v.entries[0].parent is None
    &&& v.entries[0].inode < v.inodes.len()
    &&& v.inodes[v.entries[0].inode as int].node_type == NodeType::Directory
    &&& forall|k: int| 0 <= k < v.entries.len() ==> (#[trigger] v.entries[k]).inode < v.inodes.len()
    &&& forall|k: int| 1 <= k < v.entries.len() ==> ((#[trigger] v.entries[k]).parent matches Some(p) && p < v.entries.len())
}

pub open spec fn loc_ok(v: VfsV, l: LocV) -> bool {
    match l {
        LocV::Found(e) => e < v.entries.len(),
        LocV::Missing(p, _) => p < v.entries.len(),
    }
}

/// The node a location names, if any.
pub open spec fn loc_inode(v: VfsV, l: LocV) -> Option<usize> {
    match l {
        LocV::Found(e) => Some(v.entries[e as int].inode),
        LocV::Missing(_, _) => None,
    }
}

pub open spec fn is_type(v: VfsV, i: usize, t: NodeType) -> bool {
    v.inodes[i as int].node_type == t
}

/// Two locations name the same entry.
pub open spec fn same_loc(a: LocV, b: LocV) -> bool {
    match (a, b) {
        (LocV::Found(x), LocV::Found(y)) => x == y,
        (LocV::Missing(p, n), LocV::Missing(q, m)) => p == q && n == m,
        _ => false,
    }
}

/// The first entry from `k` on named `name` under `dir`.
pub open spec fn find_child(es: Seq<EntryV>, dir: usize, name: Seq<u8>, k: int) -> Option<usize>
    decreases es.len() - k,
{
    if k < 0 || k >= es.len() {
        None
    } else if es[k].parent == Some(dir) && es[k].name == name {
        Some(k as usize)
    } else {
        find_child(es, dir, name, k + 1)
    }
}

pub open spec fn child_of(v: VfsV, dir: usize, name: Seq<u8>) -> Option<usize> {
    find_child(v.entries, dir, name, 0)
}

/// The target a symbolic link reads as: at most `PATH_MAX` bytes of it.
pub open spec fn link_text(v: VfsV, i: usize) -> Seq<u8> {
    let d = v.inodes[i as int].data;
    if d.len() <= PATH_MAX { d } else { d.take(PATH_MAX as int) }
}

/// Looking up `name` in the directory entry `l`: the child entry if there
/// is one; otherwise the name is missing there, if `l` is a directory.
pub open spec fn spec_lookup_child(v: VfsV, l: LocV, name: Seq<u8>) -> EResult<LocV> {
    match l {
        LocV::Found(e) => match child_of(v, e, name) {
            Some(c) => Ok(LocV::Found(c)),
            None => if is_type(v, v.entries[e as int].inode, NodeType::Directory) {
                Ok(LocV::Missing(e, name))
            } else {
                Err(Errno::ENOTDIR)
            },
        },
        LocV::Missing(_, _) => Err(Errno::ENOENT),
    }
}

/// Resolves a path from `start` (or the working directory `cwd`; the root
/// `root` for a path that starts with a slash), following symbolic links
/// at most `fuel` levels deep.
pub open spec fn spec_lookup_at(
    v: VfsV,
    root: usize,
    cwd: usize,
    start: Option<usize>,
    path: Seq<u8>,
    flags: u32,
    fuel: nat,
) -> EResult<LocV>
    decreases fuel, 2nat, 0nat,
{
    if path.len() == 0 {
        Err(Errno::ENOENT)
    } else {
        let abs = path[0] == SLASH;
        let cur = if abs {
            root
        } else {
            match start {
                Some(s) => s,
                None => cwd,
            }
        };
        let rest = if abs { path.skip(1) } else { path };
        match spec_walk(v, root, cwd, LocV::Found(cur), path_components(rest), flags, fuel) {
            Err(e) => Err(e),
            Ok(node) => {
                let followed = if flag_set(flags, LOOKUP_FOLLOW_SYMLINKS) {
                    spec_resolve(v, root, cwd, node, flags, fuel)
                } else {
                    Ok(node)
                };
                match followed {
                    Err(e) => Err(e),
                    Ok(n) => if flag_set(flags, LOOKUP_MUST_EXIST) && loc_inode(v, n) is None {
                        Err(Errno::ENOENT)
                    } else if flag_set(flags, LOOKUP_MUST_NOT_EXIST) && loc_inode(v, n) is Some {
                        Err(Errno::EEXIST)
                    } else {
                        Ok(n)
                    },
                }
            },
        }
    }
}

/// Walks the components from `cur`: each step resolves links, needs a
/// directory, and looks the component up in it. A component holding a NUL
/// byte is refused.
pub open spec fn spec_walk(
    v: VfsV,
    root: usize,
    cwd: usize,
    cur: LocV,
    comps: Seq<Seq<u8>>,
    flags: u32,
    fuel: nat,
) -> EResult<LocV>
    decreases fuel, 1nat, comps.len(),
{
    if comps.len() == 0 {
        Ok(cur)
    } else if comps[0].contains(0u8) {
        Err(Errno::EILSEQ)
    } else {
        match spec_resolve(v, root, cwd, cur, flags, fuel) {
            Err(e) => Err(e),
            Ok(n) => match loc_inode(v, n) {
                None => Err(Errno::ENOENT),
                Some(i) => if !is_type(v, i, NodeType::Directory) {
                    Err(Errno::ENOTDIR)
                } else {
                    match spec_lookup_child(v, n, comps[0]) {
                        Err(e) => Err(e),
                        Ok(n2) => spec_walk(v, root, cwd, n2, comps.drop_first(), flags, fuel),
                    }
                },
            },
        }
    }
}

/// Follows symbolic links from `cur`: a link's target is looked up from
/// the link's parent; a link that leads to itself fails with `ELOOP`, and
/// so does running out of `fuel`.
pub open spec fn spec_resolve(v: VfsV, root: usize, cwd: usize, cur: LocV, flags: u32, fuel: nat) -> EResult<LocV>
    decreases fuel, 0nat, 0nat,
{
    match cur {
        LocV::Found(e) => {
            let i = v.entries[e as int].inode;
            if !is_type(v, i, NodeType::SymbolicLink) {
                Ok(cur)
            } else if fuel == 0 {
                Err(Errno::ELOOP)
            } else {
                let parent = match v.entries[e as int].parent {
                    Some(p) => p,
                    None => 0,
                };
                match spec_lookup_at(v, root, cwd, Some(parent), link_text(v, i), flags, (fuel - 1) as nat) {
                    Err(x) => Err(x),
                    Ok(res) => if same_loc(res, cur) {
                        Err(Errno::ELOOP)
                    } else {
                        spec_resolve(v, root, cwd, res, flags, (fuel - 1) as nat)
                    },
                }
            }
        },
        LocV::Missing(_, _) => Ok(cur),
    }
}

/// How deep symbolic links are followed.
pub const MAX_LINK_DEPTH: usize = 40;

pub open spec fn ctx_ok(v: VfsV, root: usize, cwd: usize, start: Option<usize>) -> bool {
    &&& vfs_wf(v)
    &&& root < v.entries.len()
    &&& cwd < v.entries.len()
    &&& start matches Some(s) ==> s < v.entries.len()
}

/// Resolving a path with the depth the file system allows.
pub open spec fn spec_lookup(v: VfsV, root: usize, cwd: usize, start: Option<usize>, path: Seq<u8>, flags: u32) -> EResult<LocV> {
    spec_lookup_at(v, root, cwd, start, path, flags, MAX_LINK_DEPTH as nat)
}

impl Vfs {
    /// The child entry named `name` under `dir`.
    pub fn find_child(&self, dir: usize, name: &[u8]) -> (r: Option<usize>)
        ensures
            r == child_of(self@, dir, name@),
            r matches Some(c) ==> c < self@.entries.len(),
    {
        let mut k: usize = 0;
        while k < self.entries.len()
            invariant
                k <= self.entries@.len(),
                child_of(self@, dir, name@) == find_child(self@.entries, dir, name@, k as int),
            decreases self.entries.len() - k,
        {
            let e = &self.entries[k];
            assert(self@.entries[k as int] == e@);
            let same_parent = match e.parent {
                Some(p) => p == dir,
                None => false,
            };
            if same_parent && crate::module::bytes_eq(e.name.as_slice(), name) {
                return Some(k);
            }
            k = k + 1;
        }
        None
    }

    fn lookup_child(&self, e: usize, name: &[u8]) -> (r: EResult<Loc>)
        requires
            vfs_wf(self@),
            e < self@.entries.len(),
        ensures
            res_view(r) == spec_lookup_child(self@, LocV::Found(e), name@),
            r matches Ok(l) ==> loc_ok(self@, l@),
    {
        match self.find_child(e, name) {
            Some(c) => Ok(Loc::Found(c)),
            None => {
                let i = self.entries[e].inode;
                assert(self@.entries[e as int].inode == i);
                assert(i < self@.inodes.len());
                assert(self@.inodes[i as int].node_type == self.inodes@[i as int].node_type);
                if self.inodes[i].node_type == NodeType::Directory {
                    Ok(Loc::Missing(e, vstd::slice::slice_to_vec(name)))
                } else {
                    Err(Errno::ENOTDIR)
                }
            },
        }
    }

    fn has_nul(s: &[u8]) -> (r: bool)
        ensures
            r == s@.contains(0u8),
    {
        let mut i: usize = 0;
        while i < s.len()
            invariant
                i <= s@.len(),
                forall|k: int| 0 <= k < i ==> s@[k] != 0u8,
            decreases s.len() - i,
        {
            if s[i] == 0 {
                assert(s@[i as int] == 0u8);
                return true;
            }
            i = i + 1;
        }
        false
    }

    fn lookup_at(
        &self,
        root: usize,
        cwd: usize,
        start: Option<usize>,
        path: &[u8],
        flags: u32,
        fuel: usize,
    ) -> (r: EResult<Loc>)
        requires
            ctx_ok(self@, root, cwd, start),
        ensures
            res_view(r) == spec_lookup_at(self@, root, cwd, start, path@, flags, fuel as nat),
            r matches Ok(l) ==> loc_ok(self@, l@),
        decreases fuel, 2nat, 0nat,
    {
        if path.len() == 0 {
            return Err(Errno::ENOENT);
        }
        let abs = path[0] == SLASH;
        let cur = if abs {
            root
        } else {
            match start {
                Some(s) => s,
                None => cwd,
            }
        };
        let comps = if abs {
            let rest = vstd::slice::slice_subrange(path, 1, path.len());
            assert(rest@ =~= path@.skip(1));
            split_components(rest)
        } else {
            split_components(path)
        };
        proof {
            assert(comps@.map_values(|p: Vec<u8>| p@).skip(0) =~= comps@.map_values(|p: Vec<u8>| p@));
            if abs {
                assert(comps@.map_values(|p: Vec<u8>| p@) == path_components(path@.skip(1)));
            } else {
                assert(comps@.map_values(|p: Vec<u8>| p@) == path_components(path@));
            }
        }
        let node = match self.walk(root, cwd, Loc::Found(cur), &comps, 0, flags, fuel) {
            Err(e) => return Err(e),
            Ok(n) => n,
        };
        let n = if flags & LOOKUP_FOLLOW_SYMLINKS == LOOKUP_FOLLOW_SYMLINKS {
            match self.resolve(root, cwd, node, flags, fuel) {
                Err(e) => return Err(e),
                Ok(n) => n,
            }
        } else {
            node
        };
        let exists = match n {
            Loc::Found(_) => true,
            Loc::Missing(_, _) => false,
        };
        if flags & LOOKUP_MUST_EXIST == LOOKUP_MUST_EXIST && !exists {
            return Err(Errno::ENOENT);
        }
        if flags & LOOKUP_MUST_NOT_EXIST == LOOKUP_MUST_NOT_EXIST && exists {
            return Err(Errno::EEXIST);
        }
        Ok(n)
    }

    fn walk(
        &self,
        root: usize,
        cwd: usize,
        cur: Loc,
        comps: &Vec<Vec<u8>>,
        i: usize,
        flags: u32,
        fuel: usize,
    ) -> (r: EResult<Loc>)
        requires
            ctx_ok(self@, root, cwd, None),
            loc_ok(self@, cur@),
            i <= comps@.len(),
        ensures
            res_view(r) == spec_walk(
                self@,
                root,
                cwd,
                cur@,
                comps@.map_values(|p: Vec<u8>| p@).skip(i as int),
                flags,
                fuel as nat,
            ),
            r matches Ok(l) ==> loc_ok(self@, l@),
        decreases fuel, 1nat, comps@.len() - i,
    {
        let ghost cs = comps@.map_values(|p: Vec<u8>| p@).skip(i as int);
        if i == comps.len() {
            assert(cs.len() == 0);
            return Ok(cur);
        }
        assert(cs[0] == comps@[i as int]@);
        if Self::has_nul(comps[i].as_slice()) {
            return Err(Errno::EILSEQ);
        }
        let n = match self.resolve(root, cwd, cur, flags, fuel) {
            Err(e) => return Err(e),
            Ok(n) => n,
        };
        let e = match n {
            Loc::Found(e) => e,
            Loc::Missing(_, _) => return Err(Errno::ENOENT),
        };
        let ino = self.entries[e].inode;
        assert(self@.entries[e as int].inode == ino);
        assert(ino < self@.inodes.len());
        assert(self@.inodes[ino as int].node_type == self.inodes@[ino as int].node_type);
        if self.inodes[ino].node_type != NodeType::Directory {
            return Err(Errno::ENOTDIR);
        }
        let n2 = match self.lookup_child(e, comps[i].as_slice()) {
            Err(x) => return Err(x),
            Ok(n2) => n2,
        };
        assert(cs.drop_first() =~= comps@.map_values(|p: Vec<u8>| p@).skip(i + 1));
        self.walk(root, cwd, n2, comps, i + 1, flags, fuel)
    }

    fn resolve(&self, root: usize, cwd: usize, cur: Loc, flags: u32, fuel: usize) -> (r: EResult<Loc>)
        requires
            ctx_ok(self@, root, cwd, None),
            loc_ok(self@, cur@),
        ensures
            res_view(r) == spec_resolve(self@, root, cwd, cur@, flags, fuel as nat),
            r matches Ok(l) ==> loc_ok(self@, l@),
        decreases fuel, 0nat, 0nat,
    {
        let e = match cur {
            Loc::Found(e) => e,
            Loc::Missing(_, _) => return Ok(cur),
        };
        let i = self.entries[e].inode;
        assert(self@.entries[e as int].inode == i);
        assert(i < self@.inodes.len());
        assert(self@.inodes[i as int] == self.inodes@[i as int]@);
        if self.inodes[i].node_type != NodeType::SymbolicLink {
            return Ok(cur);
        }
        if fuel == 0 {
            return Err(Errno::ELOOP);
        }
        let parent = match self.entries[e].parent {
            Some(p) => p,
            None => 0,
        };
        proof {
            if e > 0 {
                assert(self@.entries[e as int].parent matches Some(p) && p < self@.entries.len());
                assert(true);
            }
        }
        let d = self.inodes[i].data.as_slice();
        let text = if d.len() <= PATH_MAX {
            d
        } else {
            vstd::slice::slice_subrange(d, 0, PATH_MAX)
        };
        assert(text@ == link_text(self@, i));
        let res = match self.lookup_at(root, cwd, Some(parent), text, flags, fuel - 1) {
            Err(x) => return Err(x),
            Ok(res) => res,
        };
        let same = match (&res, &cur) {
            (Loc::Found(x), Loc::Found(y)) => *x == *y,
            _ => false,
        };
        if same {
            return Err(Errno::ELOOP);
        }
        self.resolve(root, cwd, res, flags, fuel - 1)
    }
}

/// An opened file: its entry, its node and its open flags.
#[derive(Clone, Copy, Debug, PartialEq, Eq, Structural)]
pub struct Opened {
    pub entry: usize,
    pub inode: usize,
    pub flags: u32,
}

/// The execute bits for owner, group and others.
pub const MODE_EXEC_ALL: u32 = 0o111;

/// The permission bits a mode keeps: read, write and execute for owner,
/// group and others, and set-user-id and set-group-id.
pub const MODE_BITS: u32 = 0o6777;

/// No node is a device or a FIFO (opening those is not supported).
pub open spec fn no_special_nodes(v: VfsV) -> bool {
    forall|k: int| 0 <= k < v.inodes.len() ==> !is_special((#[trigger] v.inodes[k]).node_type)
}

pub open spec fn is_special(t: NodeType) -> bool {
    t == NodeType::BlockDevice || t == NodeType::CharacterDevice || t == NodeType::FIFO
}

/// `v` with a new node at the end of the node table.
pub open spec fn with_node(v: VfsV, t: NodeType, mode: u32, data: Seq<u8>) -> VfsV {
    VfsV {
        inodes: v.inodes.push(INodeV { id: v.inode_counter, node_type: t, mode, uid: 0, gid: 0, data }),
        entries: v.entries,
        inode_counter: if v.inode_counter == u64::MAX { 0 } else { (v.inode_counter + 1) as u64 },
    }
}

/// `v` with a new entry at the end of the entry table.
pub open spec fn with_entry(v: VfsV, parent: usize, name: Seq<u8>, inode: usize) -> VfsV {
    VfsV {
        inodes: v.inodes,
        entries: v.entries.push(EntryV { name, inode, parent: Some(parent) }),
        inode_counter: v.inode_counter,
    }
}

/// `v` with node `i`'s contents replaced.
pub open spec fn with_data(v: VfsV, i: usize, data: Seq<u8>) -> VfsV {
    VfsV {
        inodes: if i < v.inodes.len() {
            v.inodes.update(i as int, INodeV { data, ..v.inodes[i as int] })
        } else {
            v.inodes
        },
        entries: v.entries,
        inode_counter: v.inode_counter,
    }
}

/// Allocating a node: regular files, directories and links can always be
/// made; devices need a device; other kinds are refused. The node gets
/// the next id.
pub open spec fn spec_create_inode(v: VfsV, t: NodeType, mode: u32, has_device: bool) -> (EResult<usize>, VfsV) {
    if t == NodeType::Regular || t == NodeType::SymbolicLink || t == NodeType::Directory || (
    (t == NodeType::CharacterDevice || t == NodeType::BlockDevice) && has_device) {
        (Ok(v.inodes.len() as usize), with_node(v, t, mode, Seq::empty()))
    } else if t == NodeType::CharacterDevice || t == NodeType::BlockDevice {
        (Err(Errno::ENODEV), v)
    } else {
        (Err(Errno::EINVAL), v)
    }
}

/// The access check on a node for a superuser: executing needs all three
/// execute bits.
pub open spec fn spec_try_access(v: VfsV, i: usize, flags: u32) -> EResult<()> {
    if flag_set(flags, O_EXECUTABLE) && v.inodes[i as int].mode & MODE_EXEC_ALL != MODE_EXEC_ALL {
        Err(Errno::EACCES)
    } else {
        Ok(())
    }
}

/// Opening an existing node: a directory is asked for, a regular file
/// passes the access check, a link cannot be opened itself, and opening a
/// device, a FIFO or a socket is not supported.
pub open spec fn spec_do_open(v: VfsV, e: usize, flags: u32) -> EResult<Opened> {
    let i = v.entries[e as int].inode;
    let t = v.inodes[i as int].node_type;
    if flag_set(flags, O_DIRECTORY) && t != NodeType::Directory {
        Err(Errno::ENOTDIR)
    } else if t == NodeType::Regular {
        match spec_try_access(v, i, flags) {
            Err(x) => Err(x),
            Ok(_) => Ok(Opened { entry: e, inode: i, flags }),
        }
    } else if t == NodeType::Directory {
        Ok(Opened { entry: e, inode: i, flags })
    } else if t == NodeType::SymbolicLink {
        Err(Errno::ELOOP)
    } else {
        Err(Errno::ENOTSUP)
    }
}

/// Opening a file: its path is resolved with the lookup flags the open
/// flags ask for; an existing node is opened; a missing one is created as
/// a regular file of mode `mode` with `O_CREATE`, in a directory that
/// passes the access check.
pub open spec fn spec_open(
    v: VfsV,
    root: usize,
    cwd: usize,
    at: Option<usize>,
    path: Seq<u8>,
    flags: u32,
    mode: u32,
) -> (EResult<Opened>, VfsV) {
    match crate::file::spec_open_lookup_flags(flags) {
        Err(x) => (Err(x), v),
        Ok(lf) => match spec_lookup(v, root, cwd, at, path, lf) {
            Err(x) => (Err(x), v),
            Ok(LocV::Found(e)) => (spec_do_open(v, e, flags), v),
            Ok(LocV::Missing(p, name)) => {
                let pi = v.entries[p as int].inode;
                if !flag_set(flags, O_CREATE) {
                    (Err(Errno::ENOENT), v)
                } else if !is_type(v, pi, NodeType::Directory) {
                    (Err(Errno::ENOTDIR), v)
                } else if spec_try_access(v, pi, flags) is Err {
                    (Err(Errno::EACCES), v)
                } else {
                    let v1 = with_node(v, NodeType::Regular, mode, Seq::empty());
                    (
                        Ok(Opened { entry: v.entries.len() as usize, inode: v.inodes.len() as usize, flags }),
                        with_entry(v1, p, name, v.inodes.len() as usize),
                    )
                }
            },
        },
    }
}

/// The kinds of node `mknod` can make.
pub open spec fn mknod_type_ok(t: NodeType) -> bool {
    t == NodeType::Regular || t == NodeType::Directory || t == NodeType::BlockDevice || t
        == NodeType::CharacterDevice || t == NodeType::FIFO
}

/// Making a node at a path that must not exist yet.
pub open spec fn spec_mknod(
    v: VfsV,
    root: usize,
    cwd: usize,
    at: Option<usize>,
    path: Seq<u8>,
    t: NodeType,
    mode: u32,
    has_device: bool,
) -> (EResult<()>, VfsV) {
    if !mknod_type_ok(t) {
        (Err(Errno::EINVAL), v)
    } else {
        match spec_lookup(v, root, cwd, at, path, LOOKUP_MUST_NOT_EXIST) {
            Err(x) => (Err(x), v),
            Ok(LocV::Found(_)) => (Err(Errno::EEXIST), v),
            Ok(LocV::Missing(p, name)) => {
                let (c, v1) = spec_create_inode(v, t, mode, has_device);
                match c {
                    Err(x) => (Err(x), v),
                    Ok(i) => (Ok(()), with_entry(v1, p, name, i)),
                }
            },
        }
    }
}

/// Making a symbolic link at a path that must not exist yet, in a
/// directory the caller may write to.
pub open spec fn spec_symlink(
    v: VfsV,
    root: usize,
    cwd: usize,
    at: Option<usize>,
    path: Seq<u8>,
    target: Seq<u8>,
) -> (EResult<()>, VfsV) {
    match spec_lookup(v, root, cwd, at, path, LOOKUP_MUST_NOT_EXIST) {
        Err(x) => (Err(x), v),
        Ok(LocV::Found(_)) => (Err(Errno::EEXIST), v),
        Ok(LocV::Missing(p, name)) => {
            let pi = v.entries[p as int].inode;
            if spec_try_access(v, pi, O_WRITE) is Err {
                (Err(Errno::EACCES), v)
            } else if !is_type(v, pi, NodeType::Directory) {
                (Err(Errno::ENOTDIR), v)
            } else {
                let v1 = with_node(v, NodeType::SymbolicLink, 0o777, target);
                (Ok(()), with_entry(v1, p, name, v.inodes.len() as usize))
            }
        },
    }
}

/// The ways the file system can grow keep it well formed.
pub proof fn lemma_growth_wf(v: VfsV, t: NodeType, mode: u32, data: Seq<u8>, parent: usize, name: Seq<u8>, inode: usize)
    requires
        vfs_wf(v),
    ensures
        vfs_wf(with_node(v, t, mode, data)),
        parent < v.entries.len() && inode < v.inodes.len() ==> vfs_wf(with_entry(v, parent, name, inode)),
        no_special_nodes(v) && !is_special(t) ==> no_special_nodes(with_node(v, t, mode, data)),
        no_special_nodes(v) ==> no_special_nodes(with_entry(v, parent, name, inode)),
{
    let w = with_node(v, t, mode, data);
    assert(w.inodes[w.entries[0].inode as int] == v.inodes[v.entries[0].inode as int]);
    assert forall|k: int| 0 <= k < w.entries.len() implies (#[trigger] w.entries[k]).inode < w.inodes.len() by {
        assert(w.entries[k] == v.entries[k]);
    }
    if no_special_nodes(v) && !is_special(t) {
        assert forall|k: int| 0 <= k < w.inodes.len() implies !is_special((#[trigger] w.inodes[k]).node_type) by {
            if k < v.inodes.len() {
                assert(w.inodes[k] == v.inodes[k]);
            }
        }
    }
    if parent < v.entries.len() && inode < v.inodes.len() {
        let x = with_entry(v, parent, name, inode);
        assert(x.entries[0] == v.entries[0]);
        assert forall|k: int| 0 <= k < x.entries.len() implies (#[trigger] x.entries[k]).inode < x.inodes.len() by {
            if k < v.entries.len() {
                assert(x.entries[k] == v.entries[k]);
            }
        }
        assert forall|k: int| 1 <= k < x.entries.len() implies ((#[trigger] x.entries[k]).parent matches Some(p) && p < x.entries.len()) by {
            if k < v.entries.len() {
                assert(x.entries[k] == v.entries[k]);
            }
        }
    }
}

impl Vfs {
    /// A file system with an empty root directory of mode 0755.
    pub fn new() -> (r: Vfs)
        ensures
            vfs_wf(r@),
            no_special_nodes(r@),
            r@.entries == seq![EntryV { name: Seq::<u8>::empty(), inode: 0, parent: None }],
            r@.inodes == seq![INodeV { id: 0, node_type: NodeType::Directory, mode: 0o755, uid: 0, gid: 0, data: Seq::<u8>::empty() }],
            r@.inode_counter == 1,
    {
        let mut inodes: Vec<INode> = Vec::new();
        inodes.push(INode { id: 0, node_type: NodeType::Directory, mode: 0o755, uid: 0, gid: 0, data: Vec::new() });
        let mut entries: Vec<Entry> = Vec::new();
        entries.push(Entry { name: Vec::new(), inode: 0, parent: None });
        let r = Vfs { inodes, entries, inode_counter: 1 };
        assert(r@.entries =~= seq![EntryV { name: Seq::<u8>::empty(), inode: 0, parent: None }]);
        assert(r@.inodes =~= seq![INodeV { id: 0, node_type: NodeType::Directory, mode: 0o755, uid: 0, gid: 0, data: Seq::<u8>::empty() }]);
        r
    }

    fn push_node(&mut self, t: NodeType, mode: u32, data: Vec<u8>) -> (r: usize)
        ensures
            r == old(self)@.inodes.len(),
            final(self)@ == with_node(old(self)@, t, mode, data@),
    {
        let idx = self.inodes.len();
        let id = self.inode_counter;
        self.inode_counter = self.inode_counter.wrapping_add(1);
        self.inodes.push(INode { id, node_type: t, mode, uid: 0, gid: 0, data });
        assert(self@.inodes =~= with_node(old(self)@, t, mode, data@).inodes);
        idx
    }

    /// Allocates a node. Regular files, directories and links can always
    /// be made; devices need a device; other kinds are refused.
    pub fn create_inode(&mut self, node_type: NodeType, mode: u32, has_device: bool) -> (r: EResult<usize>)
        ensures
            (r, final(self)@) == spec_create_inode(old(self)@, node_type, mode, has_device),
    {
        match node_type {
            NodeType::Regular | NodeType::SymbolicLink | NodeType::Directory => {},
            NodeType::CharacterDevice | NodeType::BlockDevice => {
                if !has_device {
                    return Err(Errno::ENODEV);
                }
            },
            _ => return Err(Errno::EINVAL),
        }
        Ok(self.push_node(node_type, mode, Vec::new()))
    }

    /// The access check of a superuser (`identity` must be one).
    pub fn try_access(&self, i: usize, identity: &crate::process::Identity, flags: u32) -> (r: EResult<()>)
        requires
            i < self@.inodes.len(),
            identity.effective_user_id == 0,
        ensures
            r == spec_try_access(self@, i, flags),
    {
        assert(self@.inodes[i as int] == self.inodes@[i as int]@);
        if flags & O_EXECUTABLE == O_EXECUTABLE && self.inodes[i].mode & MODE_EXEC_ALL != MODE_EXEC_ALL {
            return Err(Errno::EACCES);
        }
        Ok(())
    }

    /// Resolves a path for a superuser `identity` (path resolution checks
    /// search access, which only a superuser has here).
    pub fn lookup(
        &self,
        root: usize,
        cwd: usize,
        start: Option<usize>,
        path: &[u8],
        flags: u32,
        identity: &crate::process::Identity,
    ) -> (r: EResult<Loc>)
        requires
            ctx_ok(self@, root, cwd, start),
            identity.effective_user_id == 0,
        ensures
            res_view(r) == spec_lookup(self@, root, cwd, start, path@, flags),
            r matches Ok(l) ==> loc_ok(self@, l@),
    {
        self.lookup_at(root, cwd, start, path, flags, MAX_LINK_DEPTH)
    }

    /// Resolves a path from the entry an open file was opened through (the
    /// working directory without a file); a file without an entry has no
    /// place to start from.
    pub fn flookup(
        &self,
        root: usize,
        cwd: usize,
        file: Option<&crate::file::File>,
        path: &[u8],
        flags: u32,
        identity: &crate::process::Identity,
    ) -> (r: EResult<Loc>)
        requires
            ctx_ok(self@, root, cwd, None),
            file matches Some(f) ==> (f.path matches Some(e) ==> e < self@.entries.len()),
            identity.effective_user_id == 0,
        ensures
            res_view(r) == match file {
                Some(f) => match f.path {
                    Some(e) => spec_lookup(self@, root, cwd, Some(e), path@, flags),
                    None => Err(Errno::ENOENT),
                },
                None => spec_lookup(self@, root, cwd, None, path@, flags),
            },
    {
        let start = match file {
            Some(f) => match f.path {
                Some(p) => Some(p),
                None => return Err(Errno::ENOENT),
            },
            None => None,
        };
        self.lookup(root, cwd, start, path, flags, identity)
    }

    /// The directory entry above a location; the root has none.
    pub fn lookup_parent(&self, l: &Loc) -> (r: EResult<usize>)
        requires
            vfs_wf(self@),
            loc_ok(self@, l@),
        ensures
            r == match l@ {
                LocV::Found(e) => match self@.entries[e as int].parent {
                    Some(p) => Ok::<usize, Errno>(p),
                    None => Err(Errno::ENOENT),
                },
                LocV::Missing(p, _) => Ok(p),
            },
            r matches Ok(p) ==> p < self@.entries.len(),
    {
        match l {
            Loc::Found(e) => {
                assert(self@.entries[*e as int] == self.entries@[*e as int]@);
                proof {
                    if *e > 0 {
                        assert(self@.entries[*e as int].parent matches Some(p) && p < self@.entries.len());
                        assert(true);
                    }
                }
                match self.entries[*e].parent {
                    Some(p) => Ok(p),
                    None => Err(Errno::ENOENT),
                }
            },
            Loc::Missing(p, _) => Ok(*p),
        }
    }

    /// Names node `inode` `name` in directory entry `parent`.
    fn attach(&mut self, parent: usize, name: Vec<u8>, inode: usize) -> (r: usize)
        ensures
            r == old(self)@.entries.len(),
            final(self)@ == with_entry(old(self)@, parent, name@, inode),
    {
        let r = self.entries.len();
        let ghost n = name@;
        self.entries.push(Entry { name, inode, parent: Some(parent) });
        assert(self@.entries =~= with_entry(old(self)@, parent, n, inode).entries);
        r
    }

    /// Replaces the contents of node `i`.
    pub fn set_data(&mut self, i: usize, data: Vec<u8>)
        requires
            i < old(self)@.inodes.len(),
        ensures
            final(self)@ == with_data(old(self)@, i, data@),
    {
        let ghost d = data@;
        let mut node = self.inodes.remove(i);
        node.data = data;
        self.inodes.insert(i, node);
        assert(self@.inodes =~= with_data(old(self)@, i, d).inodes);
    }

    /// The permission bits of node `i`.
    pub fn get_mode(&self, i: usize) -> (r: u32)
        requires
            i < self@.inodes.len(),
        ensures
            r == self@.inodes[i as int].mode & MODE_BITS,
    {
        assert(self@.inodes[i as int] == self.inodes@[i as int]@);
        self.inodes[i].mode & MODE_BITS
    }

    /// Changes the permissions of node `i` to the permission bits of `mode`.
    pub fn chmod(&mut self, i: usize, mode: u32)
        requires
            i < old(self)@.inodes.len(),
        ensures
            final(self)@ == (VfsV {
                inodes: old(self)@.inodes.update(
                    i as int,
                    INodeV { mode: mode & MODE_BITS, ..old(self)@.inodes[i as int] },
                ),
                ..old(self)@
            }),
    {
        let mut node = self.inodes.remove(i);
        node.mode = mode & MODE_BITS;
        let ghost n = node@;
        self.inodes.insert(i, node);
        assert(self@.inodes =~= old(self)@.inodes.update(i as int, n));
    }

    /// Changes the owner of node `i`.
    pub fn chown(&mut self, i: usize, uid: usize, gid: usize)
        requires
            i < old(self)@.inodes.len(),
        ensures
            final(self)@ == (VfsV {
                inodes: old(self)@.inodes.update(i as int, INodeV { uid, gid, ..old(self)@.inodes[i as int] }),
                ..old(self)@
            }),
    {
        let mut node = self.inodes.remove(i);
        node.uid = uid;
        node.gid = gid;
        let ghost n = node@;
        self.inodes.insert(i, node);
        assert(self@.inodes =~= old(self)@.inodes.update(i as int, n));
    }

    /// Opens a node that a path resolved to.
    pub fn do_open_inode(&self, e: usize, flags: u32, identity: &crate::process::Identity) -> (r: EResult<Opened>)
        requires
            vfs_wf(self@),
            e < self@.entries.len(),
            identity.effective_user_id == 0,
        ensures
            r == spec_do_open(self@, e, flags),
    {
        let i = self.entries[e].inode;
        assert(self@.entries[e as int].inode == i);
        assert(self@.inodes[i as int] == self.inodes@[i as int]@);
        let t = self.inodes[i].node_type;
        if flags & O_DIRECTORY == O_DIRECTORY && t != NodeType::Directory {
            return Err(Errno::ENOTDIR);
        }
        match t {
            NodeType::Regular => {
                self.try_access(i, identity, flags)?;
                Ok(Opened { entry: e, inode: i, flags })
            },
            NodeType::Directory => Ok(Opened { entry: e, inode: i, flags }),
            NodeType::SymbolicLink => Err(Errno::ELOOP),
            _ => Err(Errno::ENOTSUP),
        }
    }

    /// Opens the file at `path` (from directory entry `at`, or the working
    /// directory `cwd`), creating it as a regular file of mode `mode` where
    /// `O_CREATE` asks for it.
    pub fn open(
        &mut self,
        root: usize,
        cwd: usize,
        at: Option<usize>,
        path: &[u8],
        flags: u32,
        mode: u32,
        identity: &crate::process::Identity,
    ) -> (r: EResult<Opened>)
        requires
            ctx_ok(old(self)@, root, cwd, at),
            identity.effective_user_id == 0,
        ensures
            (r, final(self)@) == spec_open(old(self)@, root, cwd, at, path@, flags, mode),
            vfs_wf(final(self)@),
            no_special_nodes(old(self)@) ==> no_special_nodes(final(self)@),
            final(self)@.entries.len() >= old(self)@.entries.len(),
            r matches Ok(o) ==> o.entry < final(self)@.entries.len() && o.inode < final(self)@.inodes.len(),
    {
        let lf = crate::file::open_lookup_flags(flags)?;
        let l = self.lookup(root, cwd, at, path, lf, identity)?;
        match l {
            Loc::Found(e) => self.do_open_inode(e, flags, identity),
            Loc::Missing(p, name) => {
                if flags & O_CREATE != O_CREATE {
                    return Err(Errno::ENOENT);
                }
                let pi = self.entries[p].inode;
                assert(self@.entries[p as int].inode == pi);
                assert(self@.inodes[pi as int] == self.inodes@[pi as int]@);
                if self.inodes[pi].node_type != NodeType::Directory {
                    return Err(Errno::ENOTDIR);
                }
                if self.try_access(pi, identity, flags).is_err() {
                    return Err(Errno::EACCES);
                }
                let ghost v0 = self@;
                let ghost nm = name@;
                let ne = self.entries.len();
                let ni = self.push_node(NodeType::Regular, mode, Vec::new());
                self.attach(p, name, ni);
                proof {
                    lemma_growth_wf(v0, NodeType::Regular, mode, Seq::empty(), p, nm, ni);
                    let v1 = with_node(v0, NodeType::Regular, mode, Seq::empty());
                    lemma_growth_wf(v1, NodeType::Regular, mode, Seq::empty(), p, nm, ni);
                }
                Ok(Opened { entry: ne, inode: ni, flags })
            },
        }
    }

    /// Makes a node of type `t` and mode `mode` at a path that must not
    /// exist yet.
    pub fn mknod(
        &mut self,
        root: usize,
        cwd: usize,
        at: Option<usize>,
        path: &[u8],
        t: NodeType,
        mode: u32,
        has_device: bool,
        identity: &crate::process::Identity,
    ) -> (r: EResult<()>)
        requires
            ctx_ok(old(self)@, root, cwd, at),
            identity.effective_user_id == 0,
        ensures
            (r, final(self)@) == spec_mknod(old(self)@, root, cwd, at, path@, t, mode, has_device),
            vfs_wf(final(self)@),
            final(self)@.entries.len() >= old(self)@.entries.len(),
            no_special_nodes(old(self)@) && !is_special(t) ==> no_special_nodes(final(self)@),
    {
        match t {
            NodeType::Regular | NodeType::Directory | NodeType::BlockDevice | NodeType::CharacterDevice
            | NodeType::FIFO => {},
            _ => return Err(Errno::EINVAL),
        }
        let l = self.lookup(root, cwd, at, path, LOOKUP_MUST_NOT_EXIST, identity)?;
        match l {
            Loc::Found(_) => Err(Errno::EEXIST),
            Loc::Missing(p, name) => {
                let ghost v0 = self@;
                let ghost nm = name@;
                let i = self.create_inode(t, mode, has_device)?;
                self.attach(p, name, i);
                proof {
                    lemma_growth_wf(v0, t, mode, Seq::empty(), p, nm, i);
                    let v1 = with_node(v0, t, mode, Seq::empty());
                    lemma_growth_wf(v1, t, mode, Seq::empty(), p, nm, i);
                }
                Ok(())
            },
        }
    }

    /// Makes a symbolic link to `target` at a path that must not exist yet.
    pub fn symlink(
        &mut self,
        root: usize,
        cwd: usize,
        at: Option<usize>,
        path: &[u8],
        target: &[u8],
        identity: &crate::process::Identity,
    ) -> (r: EResult<()>)
        requires
            ctx_ok(old(self)@, root, cwd, at),
            identity.effective_user_id == 0,
        ensures
            (r, final(self)@) == spec_symlink(old(self)@, root, cwd, at, path@, target@),
            vfs_wf(final(self)@),
            final(self)@.entries.len() >= old(self)@.entries.len(),
            no_special_nodes(old(self)@) ==> no_special_nodes(final(self)@),
    {
        let l = self.lookup(root, cwd, at, path, LOOKUP_MUST_NOT_EXIST, identity)?;
        match l {
            Loc::Found(_) => Err(Errno::EEXIST),
            Loc::Missing(p, name) => {
                let pi = self.entries[p].inode;
                assert(self@.entries[p as int].inode == pi);
                assert(self@.inodes[pi as int] == self.inodes@[pi as int]@);
                if self.try_access(pi, identity, O_WRITE).is_err() {
                    return Err(Errno::EACCES);
                }
                if self.inodes[pi].node_type != NodeType::Directory {
                    return Err(Errno::ENOTDIR);
                }
                let ghost v0 = self@;
                let ghost nm = name@;
                let data = vstd::slice::slice_to_vec(target);
                let i = self.push_node(NodeType::SymbolicLink, 0o777, data);
                self.attach(p, name, i);
                proof {
                    lemma_growth_wf(v0, NodeType::SymbolicLink, 0o777, target@, p, nm, i);
                    let v1 = with_node(v0, NodeType::SymbolicLink, 0o777, target@);
                    lemma_growth_wf(v1, NodeType::SymbolicLink, 0o777, target@, p, nm, i);
                }
                Ok(())
            },
        }
    }
}


/// A name of one component: not empty, without a slash or a NUL byte.
pub open spec fn simple_name(name: Seq<u8>) -> bool {
    &&& name.len() > 0
    &&& forall|i: int| 0 <= i < name.len() ==> name[i] != SLASH && name[i] != 0u8
}

proof fn lemma_simple_components(name: Seq<u8>)
    requires
        simple_name(name),
    ensures
        path_components(name) == seq![name],
        !name.contains(0u8),
{
    lemma_no_slash_from(name, 0);
    crate::path::lemma_next_slash(name, 0);
    assert(name.subrange(0, name.len() as int) =~= name);
    assert(seq![name] + Seq::<Seq<u8>>::empty() =~= seq![name]);
}

proof fn lemma_no_slash_from(name: Seq<u8>, i: int)
    requires
        simple_name(name),
        0 <= i <= name.len(),
    ensures
        crate::path::next_slash(name, i) == name.len(),
    decreases name.len() - i,
{
    if i < name.len() {
        lemma_no_slash_from(name, i + 1);
    }
}

proof fn lemma_find_child_appended(es: Seq<EntryV>, dir: usize, name: Seq<u8>, e: EntryV, k: int)
    requires
        0 <= k <= es.len(),
        find_child(es, dir, name, k) is None,
        e.parent == Some(dir),
        e.name == name,
    ensures
        find_child(es.push(e), dir, name, k) == Some(es.len() as usize),
    decreases es.len() - k,
{
    if k < es.len() {
        assert(es.push(e)[k] == es[k]);
        lemma_find_child_appended(es, dir, name, e, k + 1);
    } else {
        assert(es.push(e)[k] == e);
    }
}

proof fn lemma_lookup_flag_bits()
    ensures
        !flag_set(LOOKUP_MUST_NOT_EXIST, LOOKUP_FOLLOW_SYMLINKS),
        !flag_set(LOOKUP_MUST_NOT_EXIST, LOOKUP_MUST_EXIST),
        flag_set(LOOKUP_MUST_NOT_EXIST, LOOKUP_MUST_NOT_EXIST),
        !flag_set(LOOKUP_MUST_EXIST, LOOKUP_FOLLOW_SYMLINKS),
        flag_set(LOOKUP_MUST_EXIST, LOOKUP_MUST_EXIST),
        !flag_set(LOOKUP_MUST_EXIST, LOOKUP_MUST_NOT_EXIST),
{
    assert(4u32 & 1u32 != 1u32) by (bit_vector);
    assert(4u32 & 2u32 != 2u32) by (bit_vector);
    assert(4u32 & 4u32 == 4u32) by (bit_vector);
    assert(2u32 & 1u32 != 1u32) by (bit_vector);
    assert(2u32 & 2u32 == 2u32) by (bit_vector);
    assert(2u32 & 4u32 != 4u32) by (bit_vector);
}

/// What a creation gives back to a lookup: making a regular file or a
/// directory under a name that a directory does not hold, and then
/// looking that name up from the directory, finds the new node.
pub proof fn lemma_mknod_then_lookup(v: VfsV, root: usize, cwd: usize, at: usize, name: Seq<u8>, t: NodeType, mode: u32)
    requires
        ctx_ok(v, root, cwd, Some(at)),
        v.inodes.len() < usize::MAX,
        v.entries.len() < usize::MAX,
        is_type(v, v.entries[at as int].inode, NodeType::Directory),
        child_of(v, at, name) is None,
        simple_name(name),
        t == NodeType::Regular || t == NodeType::Directory,
    ensures
        ({
            let (r, v2) = spec_mknod(v, root, cwd, Some(at), name, t, mode, false);
            &&& r == Ok::<(), Errno>(())
            &&& spec_lookup(v2, root, cwd, Some(at), name, LOOKUP_MUST_EXIST) == Ok::<LocV, Errno>(
                LocV::Found(v.entries.len() as usize),
            )
            &&& v2.inodes[v.inodes.len() as int].node_type == t
        }),
{
    lemma_simple_components(name);
    lemma_lookup_flag_bits();
    let fuel = MAX_LINK_DEPTH as nat;
    assert(name[0] != SLASH);
    // Before: the name is missing in `at`.
    assert(seq![name].drop_first() =~= Seq::<Seq<u8>>::empty());
    assert(spec_resolve(v, root, cwd, LocV::Found(at), LOOKUP_MUST_NOT_EXIST, fuel) == Ok::<LocV, Errno>(LocV::Found(at)));
    assert(spec_lookup_child(v, LocV::Found(at), name) == Ok::<LocV, Errno>(LocV::Missing(at, name)));
    assert(spec_walk(v, root, cwd, LocV::Missing(at, name), Seq::<Seq<u8>>::empty(), LOOKUP_MUST_NOT_EXIST, fuel)
        == Ok::<LocV, Errno>(LocV::Missing(at, name)));
    assert(spec_walk(v, root, cwd, LocV::Found(at), seq![name], LOOKUP_MUST_NOT_EXIST, fuel) == Ok::<LocV, Errno>(
        LocV::Missing(at, name),
    ));
    assert(spec_lookup(v, root, cwd, Some(at), name, LOOKUP_MUST_NOT_EXIST) == Ok::<LocV, Errno>(
        LocV::Missing(at, name),
    ));
    let i = v.inodes.len() as usize;
    let v1 = with_node(v, t, mode, Seq::empty());
    let v2 = with_entry(v1, at, name, i);
    assert(spec_mknod(v, root, cwd, Some(at), name, t, mode, false) == (Ok::<(), Errno>(()), v2));
    // After: the name is found.
    let e = EntryV { name, inode: i, parent: Some(at) };
    assert(v2.entries == v.entries.push(e));
    lemma_find_child_appended(v.entries, at, name, e, 0);
    assert(child_of(v2, at, name) == Some(v.entries.len() as usize));
    assert(v2.entries[at as int] == v.entries[at as int]);
    assert(v2.inodes[v.entries[at as int].inode as int] == v.inodes[v.entries[at as int].inode as int]);
    assert(spec_resolve(v2, root, cwd, LocV::Found(at), LOOKUP_MUST_EXIST, fuel) == Ok::<LocV, Errno>(LocV::Found(at)));
    let found = LocV::Found(v.entries.len() as usize);
    assert(spec_lookup_child(v2, LocV::Found(at), name) == Ok::<LocV, Errno>(found));
    assert(spec_walk(v2, root, cwd, found, Seq::<Seq<u8>>::empty(), LOOKUP_MUST_EXIST, fuel) == Ok::<LocV, Errno>(found));
    assert(spec_walk(v2, root, cwd, LocV::Found(at), seq![name], LOOKUP_MUST_EXIST, fuel) == Ok::<LocV, Errno>(found));
    assert(v2.inodes[i as int].node_type == t);
}

/// What a link gives back: making a symbolic link to `target` under a
/// name that a directory does not hold, and then looking that name up
/// from the directory without following links, finds a new link node
/// that holds `target`.
pub proof fn lemma_symlink_then_lookup(v: VfsV, root: usize, cwd: usize, at: usize, name: Seq<u8>, target: Seq<u8>)
    requires
        ctx_ok(v, root, cwd, Some(at)),
        v.inodes.len() < usize::MAX,
        v.entries.len() < usize::MAX,
        is_type(v, v.entries[at as int].inode, NodeType::Directory),
        child_of(v, at, name) is None,
        simple_name(name),
    ensures
        ({
            let (r, v2) = spec_symlink(v, root, cwd, Some(at), name, target);
            &&& r == Ok::<(), Errno>(())
            &&& spec_lookup(v2, root, cwd, Some(at), name, LOOKUP_MUST_EXIST) == Ok::<LocV, Errno>(
                LocV::Found(v.entries.len() as usize),
            )
            &&& v2.entries[v.entries.len() as int].inode == v.inodes.len()
            &&& v2.inodes[v.inodes.len() as int].node_type == NodeType::SymbolicLink
            &&& v2.inodes[v.inodes.len() as int].data == target
            &&& v2 == with_entry(
                with_node(v, NodeType::SymbolicLink, 0o777, target),
                at,
                name,
                v.inodes.len() as usize,
            )
        }),
{
    lemma_simple_components(name);
    lemma_lookup_flag_bits();
    assert(O_WRITE & O_EXECUTABLE != O_EXECUTABLE) by (bit_vector);
    let fuel = MAX_LINK_DEPTH as nat;
    assert(name[0] != SLASH);
    // Before: the name is missing in `at`.
    assert(seq![name].drop_first() =~= Seq::<Seq<u8>>::empty());
    assert(spec_resolve(v, root, cwd, LocV::Found(at), LOOKUP_MUST_NOT_EXIST, fuel) == Ok::<LocV, Errno>(LocV::Found(at)));
    assert(spec_lookup_child(v, LocV::Found(at), name) == Ok::<LocV, Errno>(LocV::Missing(at, name)));
    assert(spec_walk(v, root, cwd, LocV::Missing(at, name), Seq::<Seq<u8>>::empty(), LOOKUP_MUST_NOT_EXIST, fuel)
        == Ok::<LocV, Errno>(LocV::Missing(at, name)));
    assert(spec_walk(v, root, cwd, LocV::Found(at), seq![name], LOOKUP_MUST_NOT_EXIST, fuel) == Ok::<LocV, Errno>(
        LocV::Missing(at, name),
    ));
    assert(spec_lookup(v, root, cwd, Some(at), name, LOOKUP_MUST_NOT_EXIST) == Ok::<LocV, Errno>(
        LocV::Missing(at, name),
    ));
    let pi = v.entries[at as int].inode;
    assert(spec_try_access(v, pi, O_WRITE) == Ok::<(), Errno>(()));
    let i = v.inodes.len() as usize;
    let v1 = with_node(v, NodeType::SymbolicLink, 0o777, target);
    let v2 = with_entry(v1, at, name, i);
    assert(spec_symlink(v, root, cwd, Some(at), name, target) == (Ok::<(), Errno>(()), v2));
    // After: the name is found, and nothing is followed.
    let e = EntryV { name, inode: i, parent: Some(at) };
    assert(v2.entries == v.entries.push(e));
    lemma_find_child_appended(v.entries, at, name, e, 0);
    assert(child_of(v2, at, name) == Some(v.entries.len() as usize));
    assert(v2.entries[at as int] == v.entries[at as int]);
    assert(v2.inodes[pi as int] == v.inodes[pi as int]);
    assert(spec_resolve(v2, root, cwd, LocV::Found(at), LOOKUP_MUST_EXIST, fuel) == Ok::<LocV, Errno>(LocV::Found(at)));
    let found = LocV::Found(v.entries.len() as usize);
    assert(spec_lookup_child(v2, LocV::Found(at), name) == Ok::<LocV, Errno>(found));
    assert(spec_walk(v2, root, cwd, found, Seq::<Seq<u8>>::empty(), LOOKUP_MUST_EXIST, fuel) == Ok::<LocV, Errno>(found));
    assert(spec_walk(v2, root, cwd, LocV::Found(at), seq![name], LOOKUP_MUST_EXIST, fuel) == Ok::<LocV, Errno>(found));
    assert(v2.entries[v.entries.len() as int] == e);
}

proof fn lemma_find_child_push_keeps(es: Seq<EntryV>, dir: usize, name: Seq<u8>, e: EntryV, k: int)
    requires
        0 <= k,
        find_child(es, dir, name, k) is Some,
    ensures
        find_child(es.push(e), dir, name, k) == find_child(es, dir, name, k),
    decreases es.len() - k,
{
    if k < es.len() {
        assert(es.push(e)[k] == es[k]);
        if !(es[k].parent == Some(dir) && es[k].name == name) {
            lemma_find_child_push_keeps(es, dir, name, e, k + 1);
        }
    }
}

/// Where a link leads: making a symbolic link whose target is the name of
/// an entry of the same directory that is not itself a link, and then
/// looking the link up from that directory while following links, finds
/// that entry.
pub proof fn lemma_symlink_then_follow(
    v: VfsV,
    root: usize,
    cwd: usize,
    at: usize,
    name: Seq<u8>,
    target: Seq<u8>,
)
    requires
        ctx_ok(v, root, cwd, Some(at)),
        v.inodes.len() < usize::MAX,
        v.entries.len() < usize::MAX,
        is_type(v, v.entries[at as int].inode, NodeType::Directory),
        child_of(v, at, name) is None,
        simple_name(name),
        simple_name(target),
        target.len() <= PATH_MAX,
        child_of(v, at, target) is Some,
        !is_type(v, v.entries[child_of(v, at, target)->0 as int].inode, NodeType::SymbolicLink),
    ensures
        ({
            let (r, v2) = spec_symlink(v, root, cwd, Some(at), name, target);
            &&& r == Ok::<(), Errno>(())
            &&& spec_lookup(v2, root, cwd, Some(at), name, LOOKUP_FOLLOW_SYMLINKS | LOOKUP_MUST_EXIST)
                == Ok::<LocV, Errno>(LocV::Found(child_of(v, at, target)->0))
        }),
{
    lemma_symlink_then_lookup(v, root, cwd, at, name, target);
    lemma_simple_components(name);
    lemma_simple_components(target);
    let flags = LOOKUP_FOLLOW_SYMLINKS | LOOKUP_MUST_EXIST;
    assert(flags & LOOKUP_FOLLOW_SYMLINKS == LOOKUP_FOLLOW_SYMLINKS) by (bit_vector)
        requires flags == 1u32 | 2u32;
    assert(flags & LOOKUP_MUST_EXIST == LOOKUP_MUST_EXIST) by (bit_vector)
        requires flags == 1u32 | 2u32;
    assert(flags & LOOKUP_MUST_NOT_EXIST != LOOKUP_MUST_NOT_EXIST) by (bit_vector)
        requires flags == 1u32 | 2u32;
    let c = child_of(v, at, target)->0;
    let i = v.inodes.len() as usize;
    let v1 = with_node(v, NodeType::SymbolicLink, 0o777, target);
    let v2 = with_entry(v1, at, name, i);
    let link = LocV::Found(v.entries.len() as usize);
    let e = EntryV { name, inode: i, parent: Some(at) };
    assert(v2.entries == v.entries.push(e));
    lemma_find_child_push_keeps(v.entries, at, target, e, 0);
    lemma_find_child_appended(v.entries, at, name, e, 0);
    assert(child_of(v2, at, target) == Some(c));
    assert(child_of(v2, at, name) == Some(v.entries.len() as usize));
    // `c` is an entry of `v`, untouched by the link.
    lemma_find_child_bound(v.entries, at, target, 0);
    assert(v2.entries[c as int] == v.entries[c as int]);
    assert(v2.inodes[v.entries[c as int].inode as int] == v.inodes[v.entries[c as int].inode as int]);
    assert(v2.entries[at as int] == v.entries[at as int]);
    let pi = v.entries[at as int].inode;
    assert(v2.inodes[pi as int] == v.inodes[pi as int]);
    assert(v2.inodes[i as int].data == target);
    assert(link_text(v2, i) == target);
    assert(target[0] != SLASH);
    assert(name[0] != SLASH);
    assert(seq![target].drop_first() =~= Seq::<Seq<u8>>::empty());
    assert(seq![name].drop_first() =~= Seq::<Seq<u8>>::empty());
    let found = LocV::Found(c);
    // The link's target, looked up from the link's directory.
    let inner = (MAX_LINK_DEPTH - 1) as nat;
    assert(spec_resolve(v2, root, cwd, LocV::Found(at), flags, inner) == Ok::<LocV, Errno>(LocV::Found(at)));
    assert(spec_lookup_child(v2, LocV::Found(at), target) == Ok::<LocV, Errno>(found));
    assert(spec_walk(v2, root, cwd, found, Seq::<Seq<u8>>::empty(), flags, inner) == Ok::<LocV, Errno>(found));
    assert(spec_walk(v2, root, cwd, LocV::Found(at), seq![target], flags, inner) == Ok::<LocV, Errno>(found));
    assert(spec_resolve(v2, root, cwd, found, flags, inner) == Ok::<LocV, Errno>(found));
    assert(spec_lookup_at(v2, root, cwd, Some(at), target, flags, inner) == Ok::<LocV, Errno>(found));
    // The link itself, found by name and then followed.
    let fuel = MAX_LINK_DEPTH as nat;
    assert(spec_resolve(v2, root, cwd, LocV::Found(at), flags, fuel) == Ok::<LocV, Errno>(LocV::Found(at)));
    assert(spec_lookup_child(v2, LocV::Found(at), name) == Ok::<LocV, Errno>(link));
    assert(spec_walk(v2, root, cwd, link, Seq::<Seq<u8>>::empty(), flags, fuel) == Ok::<LocV, Errno>(link));
    assert(spec_walk(v2, root, cwd, LocV::Found(at), seq![name], flags, fuel) == Ok::<LocV, Errno>(link));
    assert(v2.entries[v.entries.len() as int] == e);
    assert(!same_loc(found, link));
    assert(spec_resolve(v2, root, cwd, link, flags, fuel) == Ok::<LocV, Errno>(found));
    assert(flag_set(flags, LOOKUP_FOLLOW_SYMLINKS));
    assert(loc_inode(v2, found) is Some);
    assert(spec_lookup_at(v2, root, cwd, Some(at), name, flags, fuel) == Ok::<LocV, Errno>(found));
    assert(spec_lookup(v2, root, cwd, Some(at), name, flags) == Ok::<LocV, Errno>(found));
    assert(spec_symlink(v, root, cwd, Some(at), name, target) == (Ok::<(), Errno>(()), v2));
}

proof fn lemma_find_child_bound(es: Seq<EntryV>, dir: usize, name: Seq<u8>, k: int)
    requires
        find_child(es, dir, name, k) is Some,
        es.len() <= usize::MAX,
    ensures
        k <= find_child(es, dir, name, k)->0 < es.len(),
    decreases es.len() - k,
{
    if k >= 0 && k < es.len() && !(es[k].parent == Some(dir) && es[k].name == name) {
        lemma_find_child_bound(es, dir, name, k + 1);
    }
}

} // verus!

verus! {

/// The path of the device directory, `/dev`.
pub open spec fn dev_path() -> Seq<u8> {
    seq![47u8, 100, 101, 118]
}

/// The entry `/dev` leads to after making it: the mount point of the
/// device file system.
pub open spec fn spec_dev_mount(v: VfsV, root: usize) -> (EResult<usize>, VfsV) {
    let (m, v1) = spec_mknod(v, root, root, None, dev_path(), NodeType::Directory, 0o600, false);
    match m {
        Err(e) => (Err(e), v1),
        Ok(_) => match spec_lookup(v1, root, root, None, dev_path(), LOOKUP_MUST_EXIST) {
            Ok(LocV::Found(e)) => (Ok(e), v1),
            Ok(LocV::Missing(_, _)) => (Err(Errno::ENOENT), v1),
            Err(e) => (Err(e), v1),
        },
    }
}

/// Makes the directory `/dev` (readable and writable by its owner) as the
/// kernel, from the root `root`, and gives its entry, on which the device
/// file system is mounted.
#[allow(non_snake_case)]
pub fn VFS_DEV_MOUNT_STAGE(vfs: &mut Vfs, root: usize) -> (r: EResult<usize>)
    requires
        ctx_ok(old(vfs)@, root, root, None),
    ensures
        (r, final(vfs)@) == spec_dev_mount(old(vfs)@, root),
        vfs_wf(final(vfs)@),
        r matches Ok(e) ==> e < final(vfs)@.entries.len(),
{
    let identity = crate::process::Identity::get_kernel();
    let path: Vec<u8> = vec![47u8, 100, 101, 118];
    assert(path@ == dev_path());
    vfs.mknod(root, root, None, path.as_slice(), NodeType::Directory, 0o600, false, &identity)?;
    match vfs.lookup(root, root, None, path.as_slice(), LOOKUP_MUST_EXIST, &identity)? {
        Loc::Found(e) => Ok(e),
        Loc::Missing(_, _) => Err(Errno::ENOENT),
    }
}

} // verus!
