//! The initramfs is a tar archive of the ustar format which the bootloader
//! places in memory. This module reads such an archive and says, entry by
//! entry, which nodes have to be created in the file system.
use vstd::prelude::*;
use crate::util::{align_up, round_up};
use crate::errno::{Errno, EResult};
use crate::file::{NodeType, O_CREATE, O_DIRECTORY};
use crate::path::{dir_part, name_part, path_components, split_components, split_last};
use crate::process::Identity;
use crate::vfs::{
    MODE_BITS, Vfs, VfsV, ctx_ok, is_special, no_special_nodes, spec_mknod, spec_open, spec_symlink, vfs_wf,
    with_data, with_entry, with_node,
};
use crate::file::flag_set;

verus! {

/// Size of one tar block; every header and every data section is aligned to it.
pub const BLOCK_SIZE: usize = 512;

/// Type flags of tar headers.
pub const REGULAR: u8 = 0;
pub const NORMAL: u8 = 48;
pub const SYM_LINK: u8 = 50;
pub const DIRECTORY: u8 = 53;
pub const CONTIGOUS: u8 = 55;
pub const LONG_LINK: u8 = 76;

/// Byte ranges of the header fields that are read.
pub const NAME_START: usize = 0;
pub const NAME_END: usize = 100;
pub const MODE_START: usize = 100;
pub const MODE_END: usize = 108;
pub const SIZE_START: usize = 124;
pub const SIZE_END: usize = 136;
pub const TYPE_OFFSET: usize = 156;
pub const LINK_START: usize = 157;
pub const LINK_END: usize = 257;
pub const SIGNATURE_START: usize = 257;

/// An octal field ends at a NUL byte or at a space.
pub open spec fn is_octal_terminator(b: u8) -> bool {
    b == 0 || b == 32
}

/// Index of the first terminator at or after `i`, or the length of `s`.
pub open spec fn octal_end(s: Seq<u8>, i: int) -> int
    decreases s.len() - i,
{
    if i >= s.len() {
        s.len() as int
    } else if is_octal_terminator(s[i]) {
        i
    } else {
        octal_end(s, i + 1)
    }
}

/// Value of the first `k` characters read as octal digits.
pub open spec fn octal_prefix(s: Seq<u8>, k: int) -> int
    decreases k,
{
    if k <= 0 {
        0
    } else {
        octal_prefix(s, k - 1) * 8 + (s[k - 1] - 48)
    }
}

/// The number an octal field holds.
pub open spec fn octal_value(s: Seq<u8>) -> int {
    octal_prefix(s, octal_end(s, 0))
}

/// The field can be read without an arithmetic fault: every character
/// before the terminator is at least `'0'` and the value fits a `usize`.
pub open spec fn octal_ok(s: Seq<u8>) -> bool {
    &&& forall|i: int| 0 <= i < octal_end(s, 0) ==> s[i] >= 48
    &&& octal_value(s) <= usize::MAX
}

/// Index of the first NUL byte at or after `i`, or the length of `s`.
pub open spec fn nul_end(s: Seq<u8>, i: int) -> int
    decreases s.len() - i,
{
    if i >= s.len() {
        s.len() as int
    } else if s[i] == 0 {
        i
    } else {
        nul_end(s, i + 1)
    }
}

/// The bytes of a NUL-terminated string field; all of it if it holds no NUL.
pub open spec fn c_string(s: Seq<u8>) -> Seq<u8> {
    s.subrange(0, nul_end(s, 0))
}

pub proof fn lemma_octal_end_bounds(s: Seq<u8>, i: int)
    requires
        0 <= i <= s.len(),
    ensures
        i <= octal_end(s, i) <= s.len(),
        forall|j: int| i <= j < octal_end(s, i) ==> !is_octal_terminator(s[j]),
        octal_end(s, i) < s.len() ==> is_octal_terminator(s[octal_end(s, i)]),
    decreases s.len() - i,
{
    if i < s.len() && !is_octal_terminator(s[i]) {
        lemma_octal_end_bounds(s, i + 1);
    }
}

pub proof fn lemma_nul_end_bounds(s: Seq<u8>, i: int)
    requires
        0 <= i <= s.len(),
    ensures
        i <= nul_end(s, i) <= s.len(),
        forall|j: int| i <= j < nul_end(s, i) ==> s[j] != 0,
        nul_end(s, i) < s.len() ==> s[nul_end(s, i)] == 0,
    decreases s.len() - i,
{
    if i < s.len() && s[i] != 0 {
        lemma_nul_end_bounds(s, i + 1);
    }
}

pub proof fn lemma_octal_prefix_mono(s: Seq<u8>, i: int, j: int)
    requires
        0 <= i <= j <= s.len(),
        forall|k: int| 0 <= k < j ==> s[k] >= 48,
    ensures
        0 <= octal_prefix(s, i) <= octal_prefix(s, j),
    decreases j,
{
    if j > 0 && i < j {
        lemma_octal_prefix_mono(s, i, j - 1);
    }
    if j > 0 && i == j {
        lemma_octal_prefix_mono(s, 0, j - 1);
    }
}

/// Converts a 0-terminated octal string into a number.
pub fn oct2bin(str: &[u8]) -> (n: usize)
    requires
        octal_ok(str@),
    ensures
        n == octal_value(str@),
{
    let ghost s = str@;
    let ghost end = octal_end(s, 0);
    proof {
        lemma_octal_end_bounds(s, 0);
        lemma_octal_prefix_mono(s, 0, end);
    }
    let mut n: usize = 0;
    let mut i: usize = 0;
    while i < str.len() && str[i] != 0 && str[i] != 32
        invariant
            s == str@,
            end == octal_end(s, 0),
            0 <= i <= end <= s.len(),
            forall|j: int| 0 <= j < end ==> !is_octal_terminator(s[j]),
            end < s.len() ==> is_octal_terminator(s[end]),
            octal_ok(s),
            n == octal_prefix(s, i as int),
        decreases str.len() - i,
    {
        proof {
            lemma_octal_prefix_mono(s, i + 1, end);
        }
        n = n * 8;
        n = n + (str[i] - 48) as usize;
        i = i + 1;
    }
    n
}

/// Length of the NUL-terminated string at the start of `s`.
pub fn c_string_len(s: &[u8]) -> (len: usize)
    ensures
        len <= s@.len(),
        len == nul_end(s@, 0),
{
    proof { lemma_nul_end_bounds(s@, 0); }
    let mut i: usize = 0;
    while i < s.len() && s[i] != 0
        invariant
            0 <= i <= nul_end(s@, 0) <= s@.len(),
            forall|j: int| 0 <= j < nul_end(s@, 0) ==> s@[j] != 0,
            nul_end(s@, 0) < s@.len() ==> s@[nul_end(s@, 0)] == 0,
        decreases s.len() - i,
    {
        i = i + 1;
    }
    i
}


/// What one archive entry asks to be created.
pub enum ArchiveEntry {
    /// A regular file; its contents are `size` bytes of the archive starting at `data_offset`.
    File { name: Vec<u8>, mode: usize, data_offset: usize, size: usize },
    /// A symbolic link at `name` pointing to `target`.
    SymLink { name: Vec<u8>, target: Vec<u8> },
    /// A directory path.
    Directory { name: Vec<u8> },
}

/// The model of an [`ArchiveEntry`].
pub enum EntryView {
    File { name: Seq<u8>, mode: nat, data_offset: nat, size: nat },
    SymLink { name: Seq<u8>, target: Seq<u8> },
    Directory { name: Seq<u8> },
}

impl View for ArchiveEntry {
    type V = EntryView;

    open spec fn view(&self) -> EntryView {
        match self {
            ArchiveEntry::File { name, mode, data_offset, size } => EntryView::File {
                name: name@,
                mode: *mode as nat,
                data_offset: *data_offset as nat,
                size: *size as nat,
            },
            ArchiveEntry::SymLink { name, target } => EntryView::SymLink {
                name: name@,
                target: target@,
            },
            ArchiveEntry::Directory { name } => EntryView::Directory { name: name@ },
        }
    }
}

/// The header carries the `ustar` signature.
pub open spec fn is_ustar(h: Seq<u8>) -> bool {
    &&& h[257] == 117
    &&& h[258] == 115
    &&& h[259] == 116
    &&& h[260] == 97
    &&& h[261] == 114
}

/// The numeric fields of the header can be read.
pub open spec fn header_fields_ok(h: Seq<u8>) -> bool {
    &&& octal_ok(h.subrange(MODE_START as int, MODE_END as int))
    &&& octal_ok(h.subrange(SIZE_START as int, SIZE_END as int))
}

/// The effect of one ustar header at `off` whose entry is called `name`:
/// whether it can be processed, what it creates, and the name it sets for
/// the following entry.
pub open spec fn entry_step(data: Seq<u8>, off: int, h: Seq<u8>, name: Seq<u8>) -> (
    bool,
    Seq<EntryView>,
    Option<Seq<u8>>,
) {
    let mode = octal_value(h.subrange(MODE_START as int, MODE_END as int));
    let size = octal_value(h.subrange(SIZE_START as int, SIZE_END as int));
    let body = off + 512;
    let typ = h[TYPE_OFFSET as int];
    if typ == REGULAR || typ == NORMAL || typ == CONTIGOUS {
        (
            body + size <= data.len(),
            seq![EntryView::File { name, mode: mode as nat, data_offset: body as nat, size: size as nat }],
            None,
        )
    } else if typ == SYM_LINK {
        (
            true,
            seq![EntryView::SymLink { name, target: c_string(h.subrange(LINK_START as int, LINK_END as int)) }],
            None,
        )
    } else if typ == DIRECTORY {
        (true, seq![EntryView::Directory { name }], None)
    } else if typ == LONG_LINK {
        (
            size >= 1 && body + size - 1 <= data.len(),
            Seq::empty(),
            Some(data.subrange(body, body + size - 1)),
        )
    } else {
        (true, Seq::empty(), None)
    }
}

/// The entries of the archive from the header at `off` on, where `over` is
/// a name that a preceding long-name entry set. [`None`] where reading the
/// archive would fault: a header or a data section that runs past the end,
/// an unreadable numeric field, or an offset that overflows.
pub open spec fn walk(data: Seq<u8>, off: int, over: Option<Seq<u8>>) -> Option<Seq<EntryView>>
    decreases data.len() - off,
{
    if off < 0 || off + 512 > data.len() {
        None
    } else {
        let h = data.subrange(off, off + 512);
        if !is_ustar(h) {
            Some(Seq::empty())
        } else if !header_fields_ok(h) {
            None
        } else {
            let size = octal_value(h.subrange(SIZE_START as int, SIZE_END as int));
            let name = match over {
                Some(n) => n,
                None => c_string(h.subrange(NAME_START as int, NAME_END as int)),
            };
            let next = off + 512 + round_up(size, 512);
            proof {
                let f = h.subrange(SIZE_START as int, SIZE_END as int);
                lemma_octal_end_bounds(f, 0);
                lemma_octal_prefix_mono(f, 0, octal_end(f, 0));
                assert(round_up(size, 512) >= 0) by (nonlinear_arith)
                    requires
                        size >= 0,
                ;
            }
            let (ok, produced, over2) = entry_step(data, off, h, name);
            if !ok || size + 511 > usize::MAX || next > usize::MAX || next > data.len() {
                None
            } else {
                match walk(data, next, over2) {
                    Some(rest) => Some(produced + rest),
                    None => None,
                }
            }
        }
    }
}

/// The entries of a whole archive.
pub open spec fn archive_entries(data: Seq<u8>) -> Option<Seq<EntryView>> {
    walk(data, 0, None)
}

pub open spec fn opt_view(o: Option<Vec<u8>>) -> Option<Seq<u8>> {
    match o {
        Some(v) => Some(v@),
        None => None,
    }
}

pub open spec fn entries_view(v: Seq<ArchiveEntry>) -> Seq<EntryView> {
    v.map_values(|e: ArchiveEntry| e@)
}

/// Reads all entries of an archive, in the order in which they appear.
/// Reading stops at the first block without the `ustar` signature.
pub fn parse_archive(data: &[u8]) -> (entries: Vec<ArchiveEntry>)
    requires
        archive_entries(data@) is Some,
    ensures
        entries_view(entries@) == archive_entries(data@)->0,
{
    let mut entries: Vec<ArchiveEntry> = Vec::new();
    let mut offset: usize = 0;
    let mut name_override: Option<Vec<u8>> = None;
    loop
        invariant
            walk(data@, offset as int, opt_view(name_override)) is Some,
            archive_entries(data@)->0 == entries_view(entries@) + walk(
                data@,
                offset as int,
                opt_view(name_override),
            )->0,
        ensures
            entries_view(entries@) == archive_entries(data@)->0,
        decreases data.len() - offset,
    {
        let ghost over = opt_view(name_override);
        let ghost before = entries@;
        let ghost old_off = offset as int;
        proof { crate::util::lemma_common_pow2(); }
        let header = vstd::slice::slice_subrange(data, offset, offset + BLOCK_SIZE);
        assert(header@ == data@.subrange(offset as int, offset + 512));
        if !(header[257] == 117 && header[258] == 115 && header[259] == 116 && header[260] == 97
            && header[261] == 114) {
            assert(entries_view(entries@) + Seq::<EntryView>::empty() =~= entries_view(entries@));
            break;
        }
        let file_mode = oct2bin(vstd::slice::slice_subrange(header, MODE_START, MODE_END));
        let file_size = oct2bin(vstd::slice::slice_subrange(header, SIZE_START, SIZE_END));
        let file_name: Vec<u8> = match name_override {
            Some(x) => x,
            None => {
                let name_field = vstd::slice::slice_subrange(header, NAME_START, NAME_END);
                let len = c_string_len(name_field);
                vstd::slice::slice_to_vec(vstd::slice::slice_subrange(name_field, 0, len))
            },
        };
        let ghost name_v = file_name@;
        name_override = None;
        let typ = header[TYPE_OFFSET];
        let body = offset + BLOCK_SIZE;
        if typ == REGULAR || typ == NORMAL || typ == CONTIGOUS {
            entries.push(ArchiveEntry::File { name: file_name, mode: file_mode, data_offset: body, size: file_size });
        } else if typ == SYM_LINK {
            let link_field = vstd::slice::slice_subrange(header, LINK_START, LINK_END);
            let link_len = c_string_len(link_field);
            let target = vstd::slice::slice_to_vec(vstd::slice::slice_subrange(link_field, 0, link_len));
            entries.push(ArchiveEntry::SymLink { name: file_name, target });
        } else if typ == DIRECTORY {
            entries.push(ArchiveEntry::Directory { name: file_name });
        } else if typ == LONG_LINK {
            // Minus the trailing NUL.
            name_override = Some(vstd::slice::slice_to_vec(vstd::slice::slice_subrange(data, body, body + (file_size - 1))));
        }
        offset = body + align_up(file_size, BLOCK_SIZE);
        proof {
            let step = entry_step(data@, old_off, header@, name_v);
            assert(entries_view(entries@) =~= entries_view(before) + step.1);
            assert(opt_view(name_override) == step.2);
            assert(archive_entries(data@)->0 =~= entries_view(entries@) + walk(
                data@,
                offset as int,
                opt_view(name_override),
            )->0);
        }
    }
    entries
}

} // verus!

verus! {

/// Creating the directories of `comps` one below the other from `cur`:
/// each is made (one that exists already is fine) and then opened as a
/// directory. Gives the last one.
pub open spec fn spec_create_dirs_from(v: VfsV, root: usize, cwd: usize, cur: usize, comps: Seq<Seq<u8>>) -> (
    EResult<usize>,
    VfsV,
)
    decreases comps.len(),
{
    if comps.len() == 0 {
        (Ok(cur), v)
    } else {
        let (m, v1) = spec_mknod(v, root, cwd, Some(cur), comps[0], NodeType::Directory, 0o755, false);
        match m {
            Err(x) if x != Errno::EEXIST => (Err(x), v1),
            _ => {
                let (o, v2) = spec_open(v1, root, cwd, Some(cur), comps[0], O_DIRECTORY, 0);
                match o {
                    Err(x) => (Err(x), v2),
                    Ok(f) => spec_create_dirs_from(v2, root, cwd, f.entry, comps.drop_first()),
                }
            },
        }
    }
}

/// Creating all directories of a path below `at`: gives the last one and
/// the final name of the path.
pub open spec fn spec_create_dirs(v: VfsV, root: usize, cwd: usize, at: usize, path: Seq<u8>) -> (
    EResult<(usize, Seq<u8>)>,
    VfsV,
) {
    let (r, v1) = spec_create_dirs_from(v, root, cwd, at, path_components(dir_part(path)));
    match r {
        Ok(d) => (Ok((d, name_part(path))), v1),
        Err(x) => (Err(x), v1),
    }
}

fn create_dirs_from(
    vfs: &mut Vfs,
    root: usize,
    cwd: usize,
    at: usize,
    comps: &Vec<Vec<u8>>,
    identity: &Identity,
) -> (r: EResult<usize>)
    requires
        ctx_ok(old(vfs)@, root, cwd, Some(at)),
        identity.effective_user_id == 0,
    ensures
        (r, final(vfs)@) == spec_create_dirs_from(old(vfs)@, root, cwd, at, comps@.map_values(|c: Vec<u8>| c@)),
        vfs_wf(final(vfs)@),
        no_special_nodes(old(vfs)@) ==> no_special_nodes(final(vfs)@),
        final(vfs)@.entries.len() >= old(vfs)@.entries.len(),
        r matches Ok(d) ==> d < final(vfs)@.entries.len(),
{
    let ghost cs = comps@.map_values(|c: Vec<u8>| c@);
    let mut cur = at;
    let mut i: usize = 0;
    assert(cs.skip(0) =~= cs);
    while i < comps.len()
        invariant
            i <= comps@.len(),
            cs == comps@.map_values(|c: Vec<u8>| c@),
            ctx_ok(vfs@, root, cwd, Some(cur)),
            no_special_nodes(old(vfs)@) ==> no_special_nodes(vfs@),
            identity.effective_user_id == 0,
            vfs@.entries.len() >= old(vfs)@.entries.len(),
            spec_create_dirs_from(old(vfs)@, root, cwd, at, cs) == spec_create_dirs_from(vfs@, root, cwd, cur, cs.skip(i as int)),
        decreases comps.len() - i,
    {
        let ghost rest = cs.skip(i as int);
        assert(rest[0] == comps@[i as int]@);
        assert(rest.drop_first() =~= cs.skip(i + 1));
        let c = comps[i].as_slice();
        match vfs.mknod(root, cwd, Some(cur), c, NodeType::Directory, 0o755, false, identity) {
            Err(x) => {
                if x != Errno::EEXIST {
                    return Err(x);
                }
            },
            Ok(_) => {},
        }
        let f = vfs.open(root, cwd, Some(cur), c, O_DIRECTORY, 0, identity)?;
        cur = f.entry;
        i = i + 1;
    }
    assert(cs.skip(comps@.len() as int) =~= Seq::<Seq<u8>>::empty());
    Ok(cur)
}

/// Creates all directories in the given path below directory entry `at`,
/// and gives the last one together with the final name of the path.
pub fn create_dirs(vfs: &mut Vfs, root: usize, cwd: usize, at: usize, path: &[u8], identity: &Identity) -> (r: EResult<(usize, Vec<u8>)>)
    requires
        ctx_ok(old(vfs)@, root, cwd, Some(at)),
        identity.effective_user_id == 0,
    ensures
        ({
            let (s, v) = spec_create_dirs(old(vfs)@, root, cwd, at, path@);
            &&& final(vfs)@ == v
            &&& match (r, s) {
                (Ok((d, n)), Ok((sd, sn))) => d == sd && n@ == sn,
                (Err(x), Err(y)) => x == y,
                _ => false,
            }
        }),
        vfs_wf(final(vfs)@),
        no_special_nodes(old(vfs)@) ==> no_special_nodes(final(vfs)@),
        final(vfs)@.entries.len() >= old(vfs)@.entries.len(),
        r matches Ok((d, _)) ==> d < final(vfs)@.entries.len(),
{
    let (dir, name) = split_last(path);
    let comps = split_components(dir.as_slice());
    let d = create_dirs_from(vfs, root, cwd, at, &comps, identity)?;
    Ok((d, name))
}

/// Whether a file name names a kernel module.
pub fn is_module_name(name: &[u8]) -> (r: bool)
    ensures
        r == (name@.len() >= 4 && name@.subrange(name@.len() - 4, name@.len() as int) == seq![0x2eu8, 0x6b, 0x73, 0x6f]),
{
    let n = name.len();
    if n < 4 {
        return false;
    }
    let r = name[n - 4] == 0x2e && name[n - 3] == 0x6b && name[n - 2] == 0x73 && name[n - 1] == 0x6f;
    proof {
        let tail = name@.subrange(n - 4, n as int);
        if r {
            assert(tail =~= seq![0x2eu8, 0x6b, 0x73, 0x6f]);
        } else if tail == seq![0x2eu8, 0x6b, 0x73, 0x6f] {
            assert(tail[0] == name@[n - 4]);
            assert(tail[1] == name@[n - 3]);
            assert(tail[2] == name@[n - 2]);
            assert(tail[3] == name@[n - 1]);
        }
    }
    r
}

/// Loading one archive entry below directory entry `target`: a file is
/// created (with the permission bits of its mode) and gets its contents,
/// a link is made, a directory path is created. Each counts as one file.
pub open spec fn spec_load_entry(v: VfsV, root: usize, cwd: usize, target: usize, e: EntryView, data: Seq<u8>) -> (
    EResult<nat>,
    VfsV,
) {
    match e {
        EntryView::File { name, mode, data_offset, size } => {
            let (cd, v1) = spec_create_dirs(v, root, cwd, target, name);
            match cd {
                Err(x) => (Err(x), v1),
                Ok((dir, fname)) => {
                    let (o, v2) = spec_open(v1, root, cwd, Some(dir), fname, O_CREATE, (mode as usize as u32) & MODE_BITS);
                    match o {
                        Err(x) => (Err(x), v2),
                        Ok(f) => (
                            Ok(1),
                            if size == 0 {
                                v2
                            } else {
                                with_data(v2, f.inode, data.subrange(data_offset as int, (data_offset + size) as int))
                            },
                        ),
                    }
                },
            }
        },
        EntryView::SymLink { name, target: link } => {
            let (cd, v1) = spec_create_dirs(v, root, cwd, target, name);
            match cd {
                Err(x) => (Err(x), v1),
                Ok((dir, fname)) => {
                    let (s, v2) = spec_symlink(v1, root, cwd, Some(dir), fname, link);
                    match s {
                        Err(x) => (Err(x), v2),
                        Ok(_) => (Ok(1), v2),
                    }
                },
            }
        },
        EntryView::Directory { name } => {
            let (cd, v1) = spec_create_dirs(v, root, cwd, target, name);
            match cd {
                Err(x) => (Err(x), v1),
                Ok((dir, fname)) => {
                    let (s, v2) = spec_create_dirs(v1, root, cwd, dir, fname);
                    match s {
                        Err(x) => (Err(x), v2),
                        Ok(_) => (Ok(1), v2),
                    }
                },
            }
        },
    }
}

/// `w` keeps the nodes of `v`, each with its kind and mode, and may have
/// more after them.
pub open spec fn keeps_nodes(v: VfsV, w: VfsV) -> bool {
    &&& v.inodes.len() <= w.inodes.len()
    &&& forall|k: int|
        0 <= k < v.inodes.len() ==> (#[trigger] w.inodes[k]).node_type == v.inodes[k].node_type
            && w.inodes[k].mode == v.inodes[k].mode
}

/// The nodes `w` has beyond those of `v` are directories.
pub open spec fn new_nodes_are_dirs(v: VfsV, w: VfsV) -> bool {
    forall|k: int| v.inodes.len() <= k < w.inodes.len() ==> (#[trigger] w.inodes[k]).node_type == NodeType::Directory
}

proof fn lemma_mknod_dir(v: VfsV, root: usize, cwd: usize, at: Option<usize>, path: Seq<u8>, mode: u32)
    ensures
        keeps_nodes(v, spec_mknod(v, root, cwd, at, path, NodeType::Directory, mode, false).1),
        new_nodes_are_dirs(v, spec_mknod(v, root, cwd, at, path, NodeType::Directory, mode, false).1),
{
    let w = spec_mknod(v, root, cwd, at, path, NodeType::Directory, mode, false).1;
    let v1 = with_node(v, NodeType::Directory, mode, Seq::empty());
    assert forall|k: int| 0 <= k < v.inodes.len() implies (#[trigger] v1.inodes[k]) == v.inodes[k] by {}
}

proof fn lemma_open_no_create(v: VfsV, root: usize, cwd: usize, at: Option<usize>, path: Seq<u8>, flags: u32, mode: u32)
    requires
        !flag_set(flags, O_CREATE),
    ensures
        spec_open(v, root, cwd, at, path, flags, mode).1 == v,
{
}

proof fn lemma_open_create(v: VfsV, root: usize, cwd: usize, at: Option<usize>, path: Seq<u8>, mode: u32)
    ensures
        ({
            let w = spec_open(v, root, cwd, at, path, O_CREATE, mode).1;
            ||| w == v
            ||| {
                &&& keeps_nodes(v, w)
                &&& w.inodes.len() == v.inodes.len() + 1
                &&& w.inodes[v.inodes.len() as int].node_type == NodeType::Regular
                &&& w.inodes[v.inodes.len() as int].mode == mode
            }
        }),
{
    let v1 = with_node(v, NodeType::Regular, mode, Seq::empty());
    assert forall|k: int| 0 <= k < v.inodes.len() implies (#[trigger] v1.inodes[k]) == v.inodes[k] by {}
}

proof fn lemma_create_dirs_from_nodes(v: VfsV, root: usize, cwd: usize, cur: usize, comps: Seq<Seq<u8>>)
    ensures
        keeps_nodes(v, spec_create_dirs_from(v, root, cwd, cur, comps).1),
        new_nodes_are_dirs(v, spec_create_dirs_from(v, root, cwd, cur, comps).1),
    decreases comps.len(),
{
    if comps.len() > 0 {
        let (m, v1) = spec_mknod(v, root, cwd, Some(cur), comps[0], NodeType::Directory, 0o755, false);
        lemma_mknod_dir(v, root, cwd, Some(cur), comps[0], 0o755);
        assert(!flag_set(O_DIRECTORY, O_CREATE)) by (bit_vector);
        lemma_open_no_create(v1, root, cwd, Some(cur), comps[0], O_DIRECTORY, 0);
        let (o, v2) = spec_open(v1, root, cwd, Some(cur), comps[0], O_DIRECTORY, 0);
        if let Ok(f) = o {
            lemma_create_dirs_from_nodes(v2, root, cwd, f.entry, comps.drop_first());
        }
    }
}

/// What loading a file entry of an archive makes: the file system keeps
/// its nodes with their kinds and modes, and the regular file the entry
/// creates gets exactly the permission bits of the entry's mode; any other
/// node it adds is a directory on the way to the file.
pub proof fn lemma_loaded_file_mode(v: VfsV, root: usize, cwd: usize, target: usize, e: EntryView, data: Seq<u8>)
    requires
        e is File,
    ensures
        ({
            let w = spec_load_entry(v, root, cwd, target, e, data).1;
            &&& keeps_nodes(v, w)
            &&& forall|k: int|
                v.inodes.len() <= k < w.inodes.len() ==> (#[trigger] w.inodes[k]).node_type == NodeType::Directory || (
                w.inodes[k].node_type == NodeType::Regular && w.inodes[k].mode == ((e->mode as usize as u32)
                & MODE_BITS))
        }),
{
    if let EntryView::File { name, mode, data_offset, size } = e {
        let m = (mode as usize as u32) & MODE_BITS;
        lemma_create_dirs_from_nodes(v, root, cwd, target, path_components(dir_part(name)));
        let (cd, v1) = spec_create_dirs(v, root, cwd, target, name);
        if let Ok((dir, fname)) = cd {
            lemma_open_create(v1, root, cwd, Some(dir), fname, m);
            let (o, v2) = spec_open(v1, root, cwd, Some(dir), fname, O_CREATE, m);
            if let Ok(f) = o {
                if size != 0 {
                    let w = with_data(v2, f.inode, data.subrange(data_offset as int, (data_offset + size) as int));
                    assert(w.inodes.len() == v2.inodes.len());
                    assert forall|k: int| 0 <= k < v2.inodes.len() implies (#[trigger] w.inodes[k]).node_type
                        == v2.inodes[k].node_type && w.inodes[k].mode == v2.inodes[k].mode by {
                        if f.inode < v2.inodes.len() && k != f.inode {
                            assert(w.inodes[k] == v2.inodes[k]);
                        }
                    }
                }
            }
        }
    }
}

/// Loading the entries in order, stopping at the first failure. Gives the
/// number of files loaded.
pub open spec fn spec_load(v: VfsV, root: usize, cwd: usize, target: usize, es: Seq<EntryView>, data: Seq<u8>) -> (
    EResult<nat>,
    VfsV,
)
    decreases es.len(),
{
    if es.len() == 0 {
        (Ok(0), v)
    } else {
        let (r, v1) = spec_load_entry(v, root, cwd, target, es[0], data);
        match r {
            Err(x) => (Err(x), v1),
            Ok(n) => {
                let (r2, v2) = spec_load(v1, root, cwd, target, es.drop_first(), data);
                match r2 {
                    Err(x) => (Err(x), v2),
                    Ok(m) => (Ok(n + m), v2),
                }
            },
        }
    }
}

/// The contents of every file entry lie within the archive.
pub open spec fn contents_in_bounds(es: Seq<EntryView>, len: nat) -> bool {
    forall|i: int| 0 <= i < es.len() ==> match #[trigger] es[i] {
        EntryView::File { data_offset, size, .. } => data_offset + size <= len,
        _ => true,
    }
}

fn load_entry(
    vfs: &mut Vfs,
    root: usize,
    cwd: usize,
    target: usize,
    e: &ArchiveEntry,
    data: &[u8],
    identity: &Identity,
) -> (r: EResult<usize>)
    requires
        ctx_ok(old(vfs)@, root, cwd, Some(target)),
        identity.effective_user_id == 0,
        match e@ {
            EntryView::File { data_offset, size, .. } => data_offset + size <= data@.len(),
            _ => true,
        },
    ensures
        ({
            let (s, v) = spec_load_entry(old(vfs)@, root, cwd, target, e@, data@);
            &&& final(vfs)@ == v
            &&& match (r, s) {
                (Ok(n), Ok(m)) => n == m,
                (Err(x), Err(y)) => x == y,
                _ => false,
            }
        }),
        vfs_wf(final(vfs)@),
        no_special_nodes(old(vfs)@) ==> no_special_nodes(final(vfs)@),
        final(vfs)@.entries.len() >= old(vfs)@.entries.len(),
{
    match e {
        ArchiveEntry::File { name, mode, data_offset, size } => {
            let (dir, fname) = create_dirs(vfs, root, cwd, target, name.as_slice(), identity)?;
            let f = vfs.open(root, cwd, Some(dir), fname.as_slice(), O_CREATE, (*mode as u32) & MODE_BITS, identity)?;
            if *size != 0 {
                let total = data.len();
                assert(*data_offset + *size <= total);
                let contents = vstd::slice::slice_to_vec(vstd::slice::slice_subrange(data, *data_offset, *data_offset + *size));
                let ghost v2 = vfs@;
                vfs.set_data(f.inode, contents);
                proof {
                    let w = vfs@;
                    assert(w.entries == v2.entries);
                    assert(w.inodes.len() == v2.inodes.len());
                    if no_special_nodes(v2) {
                        assert forall|k: int| 0 <= k < w.inodes.len() implies !is_special(
                            (#[trigger] w.inodes[k]).node_type,
                        ) by {
                            assert(w.inodes[k].node_type == v2.inodes[k].node_type);
                        }
                    }
                    assert(w.inodes[w.entries[0].inode as int].node_type == v2.inodes[v2.entries[0].inode as int].node_type);
                }
            }
            Ok(1)
        },
        ArchiveEntry::SymLink { name, target: link } => {
            let (dir, fname) = create_dirs(vfs, root, cwd, target, name.as_slice(), identity)?;
            vfs.symlink(root, cwd, Some(dir), fname.as_slice(), link.as_slice(), identity)?;
            Ok(1)
        },
        ArchiveEntry::Directory { name } => {
            let (dir, fname) = create_dirs(vfs, root, cwd, target, name.as_slice(), identity)?;
            create_dirs(vfs, root, cwd, dir, fname.as_slice(), identity)?;
            Ok(1)
        },
    }
}

/// Loads the entries of an archive below directory entry `target`, in
/// order, stopping at the first failure. Gives the number of files loaded.
pub fn load(
    vfs: &mut Vfs,
    root: usize,
    cwd: usize,
    target: usize,
    entries: &Vec<ArchiveEntry>,
    data: &[u8],
    identity: &Identity,
) -> (r: EResult<usize>)
    requires
        ctx_ok(old(vfs)@, root, cwd, Some(target)),
        identity.effective_user_id == 0,
        contents_in_bounds(entries_view(entries@), data@.len()),
    ensures
        ({
            let (s, v) = spec_load(old(vfs)@, root, cwd, target, entries_view(entries@), data@);
            &&& final(vfs)@ == v
            &&& match (r, s) {
                (Ok(n), Ok(m)) => n == m,
                (Err(x), Err(y)) => x == y,
                _ => false,
            }
        }),
        vfs_wf(final(vfs)@),
        no_special_nodes(old(vfs)@) ==> no_special_nodes(final(vfs)@),
        final(vfs)@.entries.len() >= old(vfs)@.entries.len(),
{
    let ghost es = entries_view(entries@);
    let mut count: usize = 0;
    let mut i: usize = 0;
    assert(es.skip(0) =~= es);
    while i < entries.len()
        invariant
            i <= entries@.len(),
            count <= i,
            es == entries_view(entries@),
            ctx_ok(vfs@, root, cwd, Some(target)),
            no_special_nodes(old(vfs)@) ==> no_special_nodes(vfs@),
            vfs@.entries.len() >= old(vfs)@.entries.len(),
            identity.effective_user_id == 0,
            contents_in_bounds(es, data@.len()),
            ({
                let (s, v) = spec_load(old(vfs)@, root, cwd, target, es, data@);
                let (s2, v2) = spec_load(vfs@, root, cwd, target, es.skip(i as int), data@);
                &&& v == v2
                &&& match (s, s2) {
                    (Ok(a), Ok(b)) => a == count + b,
                    (Err(x), Err(y)) => x == y,
                    _ => false,
                }
            }),
        decreases entries.len() - i,
    {
        let ghost rest = es.skip(i as int);
        assert(rest[0] == entries@[i as int]@);
        assert(rest.drop_first() =~= es.skip(i + 1));
        assert(match es[i as int] {
            EntryView::File { data_offset, size, .. } => data_offset + size <= data@.len(),
            _ => true,
        });
        let n = load_entry(vfs, root, cwd, target, &entries[i], data, identity)?;
        count = count + n;
        i = i + 1;
    }
    assert(es.skip(entries@.len() as int) =~= Seq::<EntryView>::empty());
    Ok(count)
}

} // verus!

verus! {

/// The entries an archive yields lie within it.
pub proof fn lemma_walk_in_bounds(data: Seq<u8>, off: int, over: Option<Seq<u8>>)
    ensures
        walk(data, off, over) matches Some(es) ==> contents_in_bounds(es, data.len()),
    decreases data.len() - off,
{
    if off >= 0 && off + 512 <= data.len() {
        let h = data.subrange(off, off + 512);
        if is_ustar(h) && header_fields_ok(h) {
            let size = octal_value(h.subrange(SIZE_START as int, SIZE_END as int));
            let name = match over {
                Some(n) => n,
                None => c_string(h.subrange(NAME_START as int, NAME_END as int)),
            };
            let next = off + 512 + round_up(size, 512);
            let f = h.subrange(SIZE_START as int, SIZE_END as int);
            lemma_octal_end_bounds(f, 0);
            lemma_octal_prefix_mono(f, 0, octal_end(f, 0));
            assert(round_up(size, 512) >= 0) by (nonlinear_arith)
                requires
                    size >= 0,
            ;
            let (ok, produced, over2) = entry_step(data, off, h, name);
            if ok && !(size + 511 > usize::MAX || next > usize::MAX || next > data.len()) {
                lemma_walk_in_bounds(data, next, over2);
                if let Some(rest) = walk(data, next, over2) {
                    let es = produced + rest;
                    assert forall|i: int| 0 <= i < es.len() implies match #[trigger] es[i] {
                        EntryView::File { data_offset, size, .. } => data_offset + size <= data.len(),
                        _ => true,
                    } by {
                        if i >= produced.len() {
                            assert(es[i] == rest[i - produced.len()]);
                        }
                    }
                }
            }
        }
    }
}

/// The archives given at boot: the entries are loaded, in order, into
/// the root directory, opened from the root `root`.
pub open spec fn spec_load_archives(v: VfsV, root: usize, target: usize, archives: Seq<Seq<u8>>) -> (EResult<()>, VfsV)
    decreases archives.len(),
{
    if archives.len() == 0 {
        (Ok(()), v)
    } else {
        let a = archives[0];
        let (r, v1) = spec_load(v, root, root, target, archive_entries(a)->0, a);
        match r {
            Err(e) => (Err(e), v1),
            Ok(_) => spec_load_archives(v1, root, target, archives.drop_first()),
        }
    }
}

/// Opening the root directory and loading the archives below it.
pub open spec fn spec_initramfs_stage(v: VfsV, root: usize, archives: Seq<Seq<u8>>) -> (EResult<()>, VfsV) {
    let (o, v1) = spec_open(v, root, root, None, seq![47u8], crate::file::O_DIRECTORY, 0);
    match o {
        Err(e) => (Err(e), v1),
        Ok(op) => spec_load_archives(v1, root, op.entry, archives),
    }
}

/// Loads the archives given at boot into the root directory, as the
/// kernel, from the root `root`.
#[allow(non_snake_case)]
pub fn INITRAMFS_STAGE(vfs: &mut Vfs, root: usize, archives: &Vec<Vec<u8>>) -> (r: EResult<()>)
    requires
        ctx_ok(old(vfs)@, root, root, None),
        forall|i: int| 0 <= i < archives@.len() ==> archive_entries(#[trigger] archives@[i]@) is Some,
    ensures
        ({
            let (s, v) = spec_initramfs_stage(old(vfs)@, root, archives@.map_values(|a: Vec<u8>| a@));
            &&& final(vfs)@ == v
            &&& r == s
        }),
        vfs_wf(final(vfs)@),
{
    let identity = Identity::get_kernel();
    let ghost avs = archives@.map_values(|a: Vec<u8>| a@);
    let slash: Vec<u8> = vec![47u8];
    assert(slash@ == seq![47u8]);
    let dir = vfs.open(root, root, None, slash.as_slice(), crate::file::O_DIRECTORY, 0, &identity)?;
    let target = dir.entry;
    let ghost v1 = vfs@;
    assert(spec_initramfs_stage(old(vfs)@, root, avs) == spec_load_archives(v1, root, target, avs));
    let mut i: usize = 0;
    assert(avs.skip(0) =~= avs);
    while i < archives.len()
        invariant
            i <= archives@.len(),
            avs == archives@.map_values(|a: Vec<u8>| a@),
            forall|k: int| 0 <= k < archives@.len() ==> archive_entries(#[trigger] archives@[k]@) is Some,
            ctx_ok(vfs@, root, root, Some(target)),
            identity.effective_user_id == 0,
            spec_load_archives(vfs@, root, target, avs.skip(i as int)) == spec_load_archives(v1, root, target, avs),
            spec_initramfs_stage(old(vfs)@, root, avs) == spec_load_archives(v1, root, target, avs),
        decreases archives.len() - i,
    {
        let a = &archives[i];
        let ghost rest = avs.skip(i as int);
        assert(rest[0] == a@);
        assert(rest.drop_first() =~= avs.skip(i + 1));
        assert(archive_entries(archives@[i as int]@) is Some);
        let entries = parse_archive(a.as_slice());
        proof {
            lemma_walk_in_bounds(a@, 0, None);
        }
        let ghost vb = vfs@;
        let res = load(vfs, root, root, target, &entries, a.as_slice(), &identity);
        proof {
            let (s1, v2) = spec_load(vb, root, root, target, archive_entries(a@)->0, a@);
            assert(vfs@ == v2);
            assert(spec_load_archives(vb, root, target, rest) == match s1 {
                Err(e) => (Err(e), v2),
                Ok(_) => spec_load_archives(v2, root, target, rest.drop_first()),
            });
        }
        match res {
            Err(e) => return Err(e),
            Ok(_) => {},
        }
        i = i + 1;
    }
    assert(avs.skip(archives@.len() as int) =~= Seq::<Seq<u8>>::empty());
    Ok(())
}

} // verus!
