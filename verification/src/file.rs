//! Open files as the descriptor layer sees them.
use vstd::prelude::*;

verus! {

/// The kind of a file system node.
#[derive(Clone, Copy, Debug, PartialEq, Eq, Structural)]
pub enum NodeType {
    Regular,
    Directory,
    SymbolicLink,
    FIFO,
    BlockDevice,
    CharacterDevice,
    Socket,
}

/// An open file. `id` tells shared open files apart.
#[derive(Clone, Copy, Debug, PartialEq, Eq, Structural)]
pub struct File {
    pub id: usize,
    /// File open flags.
    pub flags: u32,
    /// The entry of the file system the file was opened through, if any.
    pub path: Option<usize>,
    /// The kind of the opened node, if there is one.
    pub node: Option<NodeType>,
}

/// A file descriptor's view of an open file.
#[derive(Clone, Copy, Debug, PartialEq, Eq, Structural)]
pub struct FileDescription {
    pub file: File,
    pub close_on_exec: bool,
}

} // verus!

verus! {

/// Bits of the open flags of a file.
pub const O_READ: u32 = 0x1;
pub const O_WRITE: u32 = 0x2;
pub const O_CREATE: u32 = 0x40;
pub const O_EXCLUSIVE: u32 = 0x80;
pub const O_NO_CTRL_TERMINAL: u32 = 0x100;
pub const O_TRUNCATE: u32 = 0x200;
pub const O_APPEND: u32 = 0x400;
pub const O_NON_BLOCKING: u32 = 0x800;
pub const O_DIRECTORY: u32 = 0x10000;
pub const O_NO_FOLLOW: u32 = 0x20000;
pub const O_CLOSE_ON_EXEC: u32 = 0x80000;
pub const O_EXECUTABLE: u32 = 0x200000;
pub const O_TEMPORARY: u32 = 0x400000;

/// Bits of a lookup request.
pub const LOOKUP_FOLLOW_SYMLINKS: u32 = 0x1;
pub const LOOKUP_MUST_EXIST: u32 = 0x2;
pub const LOOKUP_MUST_NOT_EXIST: u32 = 0x4;
pub const LOOKUP_USE_REAL_ID: u32 = 0x8;

/// All bits of `bit` are set in `flags`.
pub open spec fn flag_set(flags: u32, bit: u32) -> bool {
    flags & bit == bit
}

/// Some bit of `bits` is set in `flags`.
pub open spec fn any_set(flags: u32, bits: u32) -> bool {
    flags & bits != 0
}

/// Where a seek is anchored.
#[derive(Clone, Copy, Debug, PartialEq, Eq, Structural)]
pub enum SeekAnchor {
    /// Seek relative to the start of the file.
    Start(u64),
    /// Seek relative to the current cursor position.
    Current(i64),
    /// Seek relative to the end of the file.
    End(i64),
}

/// The lookup flags with which `File::open` resolves its path, or the
/// error for contradicting open flags.
pub open spec fn spec_open_lookup_flags(flags: u32) -> Result<u32, crate::errno::Errno> {
    if flag_set(flags, O_DIRECTORY) && any_set(flags, O_CREATE | O_TEMPORARY) {
        Err(crate::errno::Errno::EINVAL)
    } else {
        let a: u32 = if !flag_set(flags, O_CREATE) || flag_set(flags, O_TEMPORARY) { LOOKUP_MUST_EXIST } else { 0 };
        let b: u32 = if flag_set(flags, O_EXCLUSIVE) { LOOKUP_MUST_NOT_EXIST } else { 0 };
        let c: u32 = if !any_set(flags, O_EXCLUSIVE | O_NO_FOLLOW) { LOOKUP_FOLLOW_SYMLINKS } else { 0 };
        Ok(a | b | c)
    }
}

/// Decides how `File::open` looks up its path: a directory cannot be
/// opened for creation; without `O_CREATE` (or with a temporary file) the
/// path must exist; with `O_EXCLUSIVE` it must not; symbolic links are
/// followed unless `O_EXCLUSIVE` or `O_NO_FOLLOW` is set.
pub fn open_lookup_flags(flags: u32) -> (r: Result<u32, crate::errno::Errno>)
    ensures
        r == spec_open_lookup_flags(flags),
{
    if flags & O_DIRECTORY == O_DIRECTORY && flags & (O_CREATE | O_TEMPORARY) != 0 {
        return Err(crate::errno::Errno::EINVAL);
    }
    // Without creation (or for a temporary file) the path must exist.
    let a: u32 = if !(flags & O_CREATE == O_CREATE) || flags & O_TEMPORARY == O_TEMPORARY {
        LOOKUP_MUST_EXIST
    } else {
        0
    };
    let b: u32 = if flags & O_EXCLUSIVE == O_EXCLUSIVE { LOOKUP_MUST_NOT_EXIST } else { 0 };
    let c: u32 = if flags & (O_EXCLUSIVE | O_NO_FOLLOW) == 0 { LOOKUP_FOLLOW_SYMLINKS } else { 0 };
    let lookup = a | b | c;
    Ok(lookup)
}

} // verus!

verus! {

/// The new cursor position and the returned offset of a seek from
/// `position` in a file of `size` bytes (`None` for a file without a node).
pub open spec fn spec_seek(position: usize, size: Option<usize>, anchor: SeekAnchor) -> Result<
    (usize, usize),
    crate::errno::Errno,
> {
    match anchor {
        SeekAnchor::Start(x) => Ok((x as usize, x as usize)),
        SeekAnchor::Current(x) => {
            let new = vstd::wrapping::usize_specs::wrapping_add_signed(position, x as isize);
            Ok((new, new))
        },
        SeekAnchor::End(x) => match size {
            None => Err(crate::errno::Errno::EINVAL),
            Some(s) => if s + (x as isize) < 0 {
                Err(crate::errno::Errno::EINVAL)
            } else if s + (x as isize) > usize::MAX {
                Err(crate::errno::Errno::EOVERFLOW)
            } else {
                Ok(((s + (x as isize)) as usize, (s + (x as isize)) as usize))
            },
        },
    }
}

/// Moves the cursor of a file. A seek from the start returns the new
/// position; a relative seek moves the cursor with wrap-around and returns
/// the new position; a seek from the end fails with
/// `EINVAL` below zero and `EOVERFLOW` past the largest offset.
pub fn seek(position: usize, size: Option<usize>, anchor: SeekAnchor) -> (r: Result<
    (usize, usize),
    crate::errno::Errno,
>)
    ensures
        r == spec_seek(position, size, anchor),
{
    match anchor {
        SeekAnchor::Start(x) => Ok((x as usize, x as usize)),
        SeekAnchor::Current(x) => {
            let new = position.wrapping_add_signed(x as isize);
            Ok((new, new))
        },
        SeekAnchor::End(x) => {
            let size = match size {
                Some(s) => s,
                None => return Err(crate::errno::Errno::EINVAL),
            };
            match size.checked_add_signed(x as isize) {
                Some(new) => Ok((new, new)),
                None => if (x as isize) < 0 {
                    Err(crate::errno::Errno::EINVAL)
                } else {
                    Err(crate::errno::Errno::EOVERFLOW)
                },
            }
        },
    }
}

} // verus!

verus! {

/// Represents `/dev/null`: consumes all input, and reads as zeros.
pub struct NullFile;

impl NullFile {
    /// Seeking always lands at offset 0.
    pub fn seek(&self, anchor: SeekAnchor) -> (r: crate::errno::EResult<u64>)
        ensures
            r == crate::errno::EResult::<u64>::Ok(0),
    {
        Ok(0)
    }

    /// Fills the buffer with zeros and reads all of it.
    pub fn read(&self, buffer: &mut Vec<u8>, offset: u64) -> (r: crate::errno::EResult<isize>)
        requires
            old(buffer)@.len() <= isize::MAX,
        ensures
            final(buffer)@ == Seq::new(old(buffer)@.len(), |i: int| 0u8),
            r == crate::errno::EResult::<isize>::Ok(old(buffer)@.len() as isize),
    {
        let mut i: usize = 0;
        while i < buffer.len()
            invariant
                i <= buffer@.len(),
                buffer@.len() == old(buffer)@.len(),
                forall|k: int| 0 <= k < i ==> buffer@[k] == 0u8,
            decreases buffer.len() - i,
        {
            buffer.set(i, 0u8);
            i = i + 1;
        }
        assert(buffer@ =~= Seq::new(old(buffer)@.len(), |i: int| 0u8));
        Ok(buffer.len() as isize)
    }

    /// Consumes the whole buffer.
    pub fn write(&self, buffer: &[u8], offset: u64) -> (r: crate::errno::EResult<isize>)
        requires
            buffer@.len() <= isize::MAX,
        ensures
            r == crate::errno::EResult::<isize>::Ok(buffer@.len() as isize),
    {
        Ok(buffer.len() as isize)
    }

    /// No control requests are known.
    pub fn ioctl(&self, request: usize, arg: usize) -> (r: crate::errno::EResult<usize>)
        ensures
            r == crate::errno::EResult::<usize>::Err(crate::errno::Errno::ENOTTY),
    {
        Err(crate::errno::Errno::ENOTTY)
    }

    /// Every requested event is ready.
    pub fn poll(&self, mask: u16) -> (r: crate::errno::EResult<u16>)
        ensures
            r == crate::errno::EResult::<u16>::Ok(mask),
    {
        Ok(mask)
    }
}

} // verus!

verus! {

/// The operations of an open file, which each kind of file provides.
/// What an operation does is given by the file's outcome functions, taken
/// in the state the file is in when the operation starts.
pub trait FileOps {
    /// What reading at most `len` bytes at `offset` of `file` gives: the
    /// bytes read, or why nothing could be read.
    spec fn read_outcome(&self, file: File, len: usize, offset: u64) -> crate::errno::EResult<Seq<u8>>;

    /// What writing `data` at `offset` of `file` gives: the number of bytes
    /// written, or why nothing could be written.
    spec fn write_outcome(&self, file: File, data: Seq<u8>, offset: u64) -> crate::errno::EResult<isize>;

    /// What a control request gives.
    spec fn ioctl_outcome(&self, file: File, request: usize, arg: usize) -> crate::errno::EResult<usize>;

    /// Reads into `buffer` at `offset`: the bytes read come first in it,
    /// and their number comes back.
    fn read(&mut self, file: &File, buffer: &mut Vec<u8>, offset: u64) -> (r: crate::errno::EResult<isize>)
        requires
            old(buffer)@.len() <= isize::MAX,
        ensures
            final(buffer)@.len() == old(buffer)@.len(),
            match old(self).read_outcome(*file, old(buffer)@.len() as usize, offset) {
                Ok(bytes) => bytes.len() <= old(buffer)@.len() && r == Ok::<isize, crate::errno::Errno>(
                    bytes.len() as isize,
                ) && final(buffer)@.take(bytes.len() as int) == bytes,
                Err(e) => r == Err::<isize, crate::errno::Errno>(e),
            },
    ;

    /// Writes `buffer` at `offset`; the number of bytes written comes back.
    fn write(&mut self, file: &File, buffer: &[u8], offset: u64) -> (r: crate::errno::EResult<isize>)
        requires
            buffer@.len() <= isize::MAX,
        ensures
            r == old(self).write_outcome(*file, buffer@, offset),
    ;

    /// A control request.
    fn ioctl(&mut self, file: &File, request: usize, arg: usize) -> (r: crate::errno::EResult<usize>)
        ensures
            r == old(self).ioctl_outcome(*file, request, arg),
    ;
}

impl FileOps for NullFile {
    /// Reading gives as many zeros as asked for.
    open spec fn read_outcome(&self, file: File, len: usize, offset: u64) -> crate::errno::EResult<Seq<u8>> {
        Ok(Seq::new(len as nat, |i: int| 0u8))
    }

    /// Writing consumes all of the data.
    open spec fn write_outcome(&self, file: File, data: Seq<u8>, offset: u64) -> crate::errno::EResult<isize> {
        Ok(data.len() as isize)
    }

    /// No control requests are known.
    open spec fn ioctl_outcome(&self, file: File, request: usize, arg: usize) -> crate::errno::EResult<usize> {
        Err(crate::errno::Errno::ENOTTY)
    }

    fn read(&mut self, file: &File, buffer: &mut Vec<u8>, offset: u64) -> (r: crate::errno::EResult<isize>) {
        let r = NullFile::read(self, buffer, offset);
        assert(buffer@.take(buffer@.len() as int) =~= buffer@);
        r
    }

    fn write(&mut self, file: &File, buffer: &[u8], offset: u64) -> (r: crate::errno::EResult<isize>) {
        NullFile::write(self, buffer, offset)
    }

    fn ioctl(&mut self, file: &File, request: usize, arg: usize) -> (r: crate::errno::EResult<usize>) {
        NullFile::ioctl(self, request, arg)
    }
}

} // verus!
