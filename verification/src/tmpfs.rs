//! Regular files of the memory file system: their bytes live in the
//! node's page cache, and an open file keeps a cursor.
use vstd::prelude::*;
use crate::errno::{Errno, EResult};
use crate::file::SeekAnchor;

verus! {

/// The contents of a regular file: its cached bytes (pages not yet
/// touched read as zeros) and its size.
pub struct TmpNode {
    pub cache: Vec<u8>,
    pub size: usize,
}

/// The cursor of an open regular file.
pub struct TmpRegular {
    pub position: u64,
}

/// The byte at `i` of a cache: zero past its end.
pub open spec fn cache_at(c: Seq<u8>, i: int) -> u8 {
    if 0 <= i < c.len() {
        c[i]
    } else {
        0
    }
}

/// A cache after writing `b` at `start`: it grows to hold the write.
pub open spec fn written(c: Seq<u8>, start: int, b: Seq<u8>) -> Seq<u8> {
    let len = if c.len() > start + b.len() {
        c.len() as int
    } else {
        start + b.len()
    };
    Seq::new(len as nat, |i: int| if start <= i < start + b.len() { b[i - start] } else { cache_at(c, i) })
}

/// Where a read or write starts: at `offset`, or at the cursor.
pub open spec fn start_of(position: u64, offset: Option<u64>) -> u64 {
    match offset {
        Some(o) => o,
        None => position,
    }
}

/// The cursor after moving `n` bytes, where no offset was given.
pub open spec fn advanced(position: u64, offset: Option<u64>, n: int) -> u64 {
    match offset {
        Some(_) => position,
        None => vstd::wrapping::u64_specs::wrapping_add(position, n as u64),
    }
}

/// How many bytes a read of `len` bytes at `start` takes from a file of
/// `size` bytes: none from its end on, else up to its end.
pub open spec fn read_count(size: usize, len: nat, start: u64) -> int {
    if start >= size {
        0
    } else if len < size - start {
        len as int
    } else {
        size - start
    }
}

/// `b` is `a` with its first `count` bytes read from the cache `c` at
/// `start`.
pub open spec fn read_into(a: Seq<u8>, b: Seq<u8>, c: Seq<u8>, start: int, count: int) -> bool {
    &&& b.len() == a.len()
    &&& forall|k: int| 0 <= k < count ==> #[trigger] b[k] == cache_at(c, start + k)
    &&& forall|k: int| count <= k < a.len() ==> #[trigger] b[k] == a[k]
}

/// Reads a file's contents at `start` into `buffer`: at most as many bytes
/// as lie before its end. A file without a node cannot be read.
pub fn read_at(node: Option<&TmpNode>, buffer: &mut Vec<u8>, start: u64) -> (r: EResult<isize>)
    requires
        old(buffer)@.len() <= isize::MAX,
    ensures
        node is None ==> r == Err::<isize, Errno>(Errno::EINVAL) && final(buffer)@ == old(buffer)@,
        node matches Some(n) ==> {
            let count = read_count(n.size, old(buffer)@.len(), start);
            &&& r == Ok::<isize, Errno>(count as isize)
            &&& read_into(old(buffer)@, final(buffer)@, n.cache@, start as int, count)
        },
{
    let n = match node {
        Some(n) => n,
        None => return Err(Errno::EINVAL),
    };
    if start >= n.size as u64 {
        return Ok(0);
    }
    let s = start as usize;
    let avail = n.size - s;
    let copy = if buffer.len() < avail { buffer.len() } else { avail };
    let mut k: usize = 0;
    while k < copy
        invariant
            k <= copy,
            copy <= buffer@.len(),
            buffer@.len() == old(buffer)@.len(),
            s + copy <= n.size,
            s == start,
            forall|j: int| 0 <= j < k ==> #[trigger] buffer@[j] == cache_at(n.cache@, s + j),
            forall|j: int| k <= j < buffer@.len() ==> #[trigger] buffer@[j] == old(buffer)@[j],
        decreases copy - k,
    {
        let b = if s + k < n.cache.len() { n.cache[s + k] } else { 0u8 };
        buffer.set(k, b);
        k = k + 1;
    }
    Ok(copy as isize)
}

/// Writes `buffer` into a file's contents at `start`. The file's size
/// becomes the number of bytes written. A file without a node cannot be
/// written.
pub fn write_at(node: &mut Option<TmpNode>, buffer: &[u8], start: u64) -> (r: EResult<isize>)
    requires
        buffer@.len() <= isize::MAX,
        start + buffer@.len() <= usize::MAX,
    ensures
        *old(node) is None ==> r == Err::<isize, Errno>(Errno::EINVAL) && *final(node) is None,
        *old(node) matches Some(n) ==> {
            &&& *final(node) matches Some(m) && m.cache@ == written(n.cache@, start as int, buffer@) && m.size
                == buffer@.len()
            &&& r == Ok::<isize, Errno>(buffer@.len() as isize)
        },
{
    let mut n = match node.take() {
        Some(n) => n,
        None => return Err(Errno::EINVAL),
    };
    let s = start as usize;
    let ghost c0 = n.cache@;
    let end = s + buffer.len();
    while n.cache.len() < end
        invariant
            end == s + buffer@.len(),
            n.cache@.len() <= end || n.cache@.len() == c0.len(),
            n.cache@.len() >= c0.len(),
            forall|j: int| 0 <= j < n.cache@.len() ==> #[trigger] n.cache@[j] == cache_at(c0, j),
        decreases end - n.cache@.len(),
    {
        n.cache.push(0u8);
    }
    let mut k: usize = 0;
    while k < buffer.len()
        invariant
            k <= buffer@.len(),
            end == s + buffer@.len(),
            n.cache@.len() == if c0.len() > end { c0.len() as int } else { end as int },
            forall|j: int|
                0 <= j < n.cache@.len() ==> #[trigger] n.cache@[j] == if s <= j < s + k {
                    buffer@[j - s]
                } else {
                    cache_at(c0, j)
                },
        decreases buffer@.len() - k,
    {
        n.cache.set(s + k, buffer[k]);
        k = k + 1;
    }
    assert(n.cache@ =~= written(c0, s as int, buffer@));
    n.size = buffer.len();
    *node = Some(n);
    Ok(buffer.len() as isize)
}

/// Reads a directory: an empty buffer reads nothing; otherwise the
/// directory is read from its start.
pub fn read_dir(node: Option<&TmpNode>, buffer: &mut Vec<u8>) -> (r: EResult<isize>)
    requires
        old(buffer)@.len() <= isize::MAX,
    ensures
        old(buffer)@.len() == 0 ==> r == Ok::<isize, Errno>(0) && final(buffer)@ == old(buffer)@,
        old(buffer)@.len() != 0 && node is None ==> r == Err::<isize, Errno>(Errno::EINVAL) && final(buffer)@
            == old(buffer)@,
        old(buffer)@.len() != 0 ==> (node matches Some(n) ==> {
            let count = read_count(n.size, old(buffer)@.len(), 0);
            &&& r == Ok::<isize, Errno>(count as isize)
            &&& read_into(old(buffer)@, final(buffer)@, n.cache@, 0, count)
        }),
{
    if buffer.len() == 0 {
        return Ok(0);
    }
    read_at(node, buffer, 0)
}

impl TmpRegular {
    /// A cursor at the start.
    pub fn new() -> (r: Self)
        ensures
            r.position == 0,
    {
        TmpRegular { position: 0 }
    }

    /// Closing the file resets the cursor.
    pub fn release(&mut self) -> (r: EResult<()>)
        ensures
            r == Ok::<(), Errno>(()),
            final(self).position == 0,
    {
        self.position = 0;
        Ok(())
    }

    /// Reads from `offset` (or the cursor, which then advances) into
    /// `buffer`: at most as many bytes as lie before the end of the file.
    /// A file without a node cannot be read.
    pub fn read(&mut self, node: Option<&TmpNode>, buffer: &mut Vec<u8>, offset: Option<u64>) -> (r: EResult<isize>)
        requires
            old(buffer)@.len() <= isize::MAX,
        ensures
            node is None ==> r == Err::<isize, Errno>(Errno::EINVAL) && final(buffer)@ == old(buffer)@
                && final(self).position == old(self).position,
            node matches Some(n) ==> {
                let start = start_of(old(self).position, offset);
                let count = read_count(n.size, old(buffer)@.len(), start);
                &&& r == Ok::<isize, Errno>(count as isize)
                &&& read_into(old(buffer)@, final(buffer)@, n.cache@, start as int, count)
                &&& final(self).position == advanced(old(self).position, offset, count)
            },
    {
        let start = match offset {
            Some(o) => o,
            None => self.position,
        };
        let r = read_at(node, buffer, start);
        if let Ok(n) = r {
            if offset.is_none() {
                self.position = self.position.wrapping_add(n as u64);
            }
        }
        r
    }

    /// Writes `buffer` at `offset` (or the cursor, which then advances).
    /// The file's size becomes the number of bytes written. A file without
    /// a node cannot be written.
    pub fn write(&mut self, node: &mut Option<TmpNode>, buffer: &[u8], offset: Option<u64>) -> (r: EResult<isize>)
        requires
            buffer@.len() <= isize::MAX,
            start_of(old(self).position, offset) + buffer@.len() <= usize::MAX,
        ensures
            *old(node) is None ==> r == Err::<isize, Errno>(Errno::EINVAL) && *final(node) is None
                && final(self).position == old(self).position,
            *old(node) matches Some(n) ==> {
                let start = start_of(old(self).position, offset);
                &&& *final(node) matches Some(m) && m.cache@ == written(n.cache@, start as int, buffer@)
                    && m.size == buffer@.len()
                &&& r == Ok::<isize, Errno>(buffer@.len() as isize)
                &&& final(self).position == advanced(old(self).position, offset, buffer@.len() as int)
            },
    {
        let start = match offset {
            Some(o) => o,
            None => self.position,
        };
        let r = write_at(node, buffer, start);
        if let Ok(n) = r {
            if offset.is_none() {
                self.position = self.position.wrapping_add(n as u64);
            }
        }
        r
    }

    /// Moves the cursor. From the start it lands at the offset; relative to
    /// the cursor it moves with wrap-around, and the result is the old
    /// cursor plus the offset, `EOVERFLOW` where that leaves the range;
    /// from the end (of a file of `size` bytes) it fails with `EINVAL`
    /// below zero and `EOVERFLOW` past the range, leaving the cursor.
    pub fn seek(&mut self, size: Option<usize>, anchor: SeekAnchor) -> (r: EResult<u64>)
        ensures
            anchor matches SeekAnchor::Start(x) ==> r == Ok::<u64, Errno>(x) && final(self).position == x,
            anchor matches SeekAnchor::Current(x) ==> {
                &&& final(self).position == vstd::wrapping::u64_specs::wrapping_add_signed(old(self).position, x)
                &&& r == if old(self).position + x < 0 || old(self).position + x > u64::MAX {
                    Err::<u64, Errno>(Errno::EOVERFLOW)
                } else {
                    Ok((old(self).position + x) as u64)
                }
            },
            anchor matches SeekAnchor::End(x) ==> match size {
                None => r == Err::<u64, Errno>(Errno::EINVAL) && final(self).position == old(self).position,
                Some(s) => if s + x < 0 {
                    r == Err::<u64, Errno>(Errno::EINVAL) && final(self).position == old(self).position
                } else if s + x > u64::MAX {
                    r == Err::<u64, Errno>(Errno::EOVERFLOW) && final(self).position == old(self).position
                } else {
                    r == Ok::<u64, Errno>((s + x) as u64) && final(self).position == (s + x) as u64
                },
            },
    {
        match anchor {
            SeekAnchor::Start(x) => {
                self.position = x;
                Ok(x)
            },
            SeekAnchor::Current(x) => {
                let old = self.position;
                self.position = self.position.wrapping_add_signed(x);
                match old.checked_add_signed(x) {
                    Some(v) => Ok(v),
                    None => Err(Errno::EOVERFLOW),
                }
            },
            SeekAnchor::End(x) => {
                let size = match size {
                    Some(s) => s,
                    None => return Err(Errno::EINVAL),
                };
                let new = match (size as u64).checked_add_signed(x) {
                    Some(v) => v,
                    None => {
                        if x < 0 {
                            return Err(Errno::EINVAL);
                        } else {
                            return Err(Errno::EOVERFLOW);
                        }
                    },
                };
                self.position = new;
                Ok(new)
            },
        }
    }
}

} // verus!

verus! {

/// Bytes written at the start of a file read back from its start as they
/// were written (the size a write leaves is the number of bytes written,
/// so this holds for writes at the start).
pub proof fn lemma_write_then_read(cache: Seq<u8>, b: Seq<u8>, before: Seq<u8>, after: Seq<u8>)
    requires
        before.len() == b.len(),
        b.len() <= usize::MAX,
        read_into(before, after, written(cache, 0, b), 0, read_count(b.len() as usize, before.len(), 0)),
    ensures
        after == b,
{
    assert forall|k: int| 0 <= k < b.len() implies after[k] == b[k] by {
        assert(cache_at(written(cache, 0, b), k) == b[k]);
    }
    assert(after =~= b);
}

} // verus!
