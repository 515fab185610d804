use vstd::prelude::*;
use vstd::arithmetic::div_mod::lemma_fundamental_div_mod_converse;

verus! {

/// Index `x` folded back into `0..cap`, for `x < 2 * cap`.
pub open spec fn wrap(x: int, cap: int) -> int {
    if x < cap {
        x
    } else {
        x - cap
    }
}

/// Number of buffered bytes for given cursors.
pub open spec fn data_len_of(read: int, write: int, cap: int) -> int {
    if read <= write {
        write - read
    } else {
        cap - (read - write)
    }
}

/// How many bytes a write of `data` stores into a ring holding `contents`
/// with room for `capacity` bytes (one slot always stays free).
pub open spec fn write_len(contents: Seq<u8>, capacity: nat, data: Seq<u8>) -> nat {
    let room = capacity - 1 - contents.len();
    if data.len() <= room {
        data.len()
    } else {
        room as nat
    }
}

/// How many bytes a read into a buffer of `n` bytes takes out of `contents`.
pub open spec fn read_len(contents: Seq<u8>, n: nat) -> nat {
    if n <= contents.len() {
        n
    } else {
        contents.len()
    }
}

proof fn lemma_mod_wrap(x: int, cap: int)
    requires
        0 < cap,
        0 <= x < 2 * cap,
    ensures
        x % cap == wrap(x, cap),
{
    if x < cap {
        lemma_fundamental_div_mod_converse(x, cap, 0, x);
    } else {
        lemma_fundamental_div_mod_converse(x, cap, 1, x - cap);
    }
}

/// A byte ring buffer. One slot always stays unused so that a full ring
/// can be told apart from an empty one.
pub struct RingBuffer {
    buf: Vec<u8>,
    read_cursor: usize,
    write_cursor: usize,
}

impl View for RingBuffer {
    type V = Seq<u8>;

    /// The buffered bytes, oldest first.
    closed spec fn view(&self) -> Seq<u8> {
        let cap = self.buf@.len() as int;
        Seq::new(
            self.spec_data_len(),
            |j: int| self.buf@[wrap(self.read_cursor + j, cap)],
        )
    }
}

impl RingBuffer {
    /// The cursors lie inside the storage.
    pub closed spec fn wf(&self) -> bool {
        &&& self.buf@.len() <= isize::MAX
        &&& self.buf@.len() == 0 ==> self.read_cursor == 0 && self.write_cursor == 0
        &&& self.buf@.len() > 0 ==> self.read_cursor < self.buf@.len() && self.write_cursor
            < self.buf@.len()
    }

    /// The size of the storage in bytes.
    pub closed spec fn spec_capacity(&self) -> nat {
        self.buf@.len()
    }

    /// The number of buffered bytes.
    pub closed spec fn spec_data_len(&self) -> nat {
        data_len_of(self.read_cursor as int, self.write_cursor as int, self.buf@.len() as int) as nat
    }

    /// The ring never holds more than its capacity minus one byte.
    pub proof fn lemma_view(&self)
        requires
            self.wf(),
        ensures
            self@.len() == self.spec_data_len(),
            self.spec_capacity() > 0 ==> self@.len() < self.spec_capacity(),
            self.spec_capacity() == 0 ==> self@.len() == 0,
    {
    }

    /// An empty ring buffer that holds up to `capacity` bytes.
    pub fn new(capacity: usize) -> (r: Self)
        requires
            capacity <= isize::MAX,
        ensures
            r.wf(),
            r.spec_capacity() == capacity,
            r@ == Seq::<u8>::empty(),
    {
        let r = Self { buf: vec![0u8; capacity], read_cursor: 0, write_cursor: 0 };
        assert(r@ =~= Seq::<u8>::empty());
        r
    }

    /// Copies the oldest buffered bytes into `buf` without consuming them.
    /// Returns the amount of bytes copied.
    pub fn peek(&mut self, buf: &mut [u8]) -> (len: usize)
        requires
            old(self).wf(),
        ensures
            *final(self) == *old(self),
            len == read_len(old(self)@, old(buf)@.len()),
            final(buf)@.len() == old(buf)@.len(),
            final(buf)@.subrange(0, len as int) == old(self)@.subrange(0, len as int),
            final(buf)@.subrange(len as int, old(buf)@.len() as int) == old(buf)@.subrange(
                len as int,
                old(buf)@.len() as int,
            ),
    {
        proof { self.lemma_view(); }
        let cursor = self.read_cursor;
        let data_len = self.get_data_len();
        let len = if buf.len() < data_len { buf.len() } else { data_len };
        let capacity = self.capacity();
        let end = if cursor + len < capacity { cursor + len } else { capacity };
        let l0 = end - cursor;
        let ghost old_buf = buf@;
        let ghost contents = self@;
        let mut i: usize = 0;
        while i < l0
            invariant
                self.wf(),
                self@ == contents,
                contents.len() == data_len,
                cursor == self.read_cursor,
                capacity == self.buf@.len(),
                l0 <= len <= data_len,
                len <= old_buf.len(),
                cursor + l0 <= capacity,
                i <= l0,
                buf@.len() == old_buf.len(),
                forall|k: int| 0 <= k < i ==> buf@[k] == contents[k],
                forall|k: int| i <= k < buf@.len() ==> buf@[k] == old_buf[k],
            decreases l0 - i,
        {
            assert(contents[i as int] == self.buf@[wrap(cursor + i, capacity as int)]);
            buf[i] = self.buf[cursor + i];
            i = i + 1;
        }
        let l1 = len - l0;
        if l1 > 0 {
            let mut j: usize = 0;
            while j < l1
                invariant
                    self.wf(),
                    self@ == contents,
                    contents.len() == data_len,
                    cursor == self.read_cursor,
                    capacity == self.buf@.len(),
                    l1 == len - l0,
                    l1 > 0 ==> cursor + l0 == capacity,
                    len <= data_len,
                    len <= old_buf.len(),
                    j <= l1,
                    buf@.len() == old_buf.len(),
                    forall|k: int| 0 <= k < l0 + j ==> buf@[k] == contents[k],
                    forall|k: int| l0 + j <= k < buf@.len() ==> buf@[k] == old_buf[k],
                decreases l1 - j,
            {
                assert(contents[l0 + j] == self.buf@[wrap(cursor + l0 + j, capacity as int)]);
                buf[l0 + j] = self.buf[j];
                j = j + 1;
            }
        }
        assert(buf@.subrange(0, len as int) =~= contents.subrange(0, len as int));
        assert(buf@.subrange(len as int, old_buf.len() as int) =~= old_buf.subrange(
            len as int,
            old_buf.len() as int,
        ));
        len
    }


    /// Reads bytes from the ring to a buffer.
    /// Returns the amount of bytes read.
    pub fn read(&mut self, buf: &mut [u8]) -> (len: usize)
        requires
            old(self).wf(),
            old(self).spec_capacity() > 0,
        ensures
            final(self).wf(),
            final(self).spec_capacity() == old(self).spec_capacity(),
            len == read_len(old(self)@, old(buf)@.len()),
            final(self)@ == old(self)@.subrange(len as int, old(self)@.len() as int),
            final(buf)@.len() == old(buf)@.len(),
            final(buf)@.subrange(0, len as int) == old(self)@.subrange(0, len as int),
            final(buf)@.subrange(len as int, old(buf)@.len() as int) == old(buf)@.subrange(
                len as int,
                old(buf)@.len() as int,
            ),
    {
        let ghost contents = self@;
        proof { self.lemma_view(); }
        let len = self.peek(buf);
        let capacity = self.capacity();
        proof { lemma_mod_wrap(self.read_cursor + len, capacity as int); }
        self.read_cursor = (self.read_cursor + len) % capacity;
        assert(self@ =~= contents.subrange(len as int, contents.len() as int));
        len
    }

    /// Writes bytes from a buffer to the ring.
    /// Returns the amount of bytes written.
    pub fn write(&mut self, buf: &[u8]) -> (len: usize)
        requires
            old(self).wf(),
            old(self).spec_capacity() > 0,
        ensures
            final(self).wf(),
            final(self).spec_capacity() == old(self).spec_capacity(),
            len == write_len(old(self)@, old(self).spec_capacity(), buf@),
            final(self)@ == old(self)@ + buf@.subrange(0, len as int),
    {
        proof { self.lemma_view(); }
        let ghost contents = self@;
        let ghost old_store = self.buf@;
        let ghost rc = self.read_cursor as int;
        assert(forall|j: int|
            0 <= j < contents.len() ==> #[trigger] contents[j] == old_store[wrap(
                rc + j,
                old_store.len() as int,
            )]);
        let cursor = self.write_cursor;
        let available = self.get_available_len();
        let len = if buf.len() < available { buf.len() } else { available };
        let capacity = self.capacity();
        let end = if cursor + len < capacity { cursor + len } else { capacity };
        let l0 = end - cursor;
        let mut i: usize = 0;
        while i < l0
            invariant
                self.buf@.len() == capacity,
                old_store.len() == capacity,
                self.read_cursor < capacity,
                cursor == self.write_cursor,
                cursor < capacity,
                capacity <= isize::MAX,
                rc == self.read_cursor,
                contents.len() == data_len_of(rc, cursor as int, capacity as int),
                len + contents.len() + 1 <= capacity,
                cursor + l0 <= capacity,
                l0 <= len <= buf@.len(),
                i <= l0,
                forall|k: int|
                    0 <= k < capacity ==> #[trigger] self.buf@[k] == if cursor <= k < cursor + i {
                        buf@[k - cursor]
                    } else {
                        old_store[k]
                    },
            decreases l0 - i,
        {
            self.buf.set(cursor + i, buf[i]);
            i = i + 1;
        }
        let l1 = len - l0;
        if l1 > 0 {
            let mut j: usize = 0;
            while j < l1
                invariant
                    self.buf@.len() == capacity,
                    old_store.len() == capacity,
                    self.read_cursor < capacity,
                    cursor == self.write_cursor,
                    cursor < capacity,
                    capacity <= isize::MAX,
                    rc == self.read_cursor,
                    contents.len() == data_len_of(rc, cursor as int, capacity as int),
                    len + contents.len() + 1 <= capacity,
                    cursor + l0 == capacity,
                    l1 == len - l0,
                    len <= buf@.len(),
                    len < capacity,
                    j <= l1,
                    forall|k: int|
                        0 <= k < capacity ==> #[trigger] self.buf@[k] == if cursor <= k {
                            buf@[k - cursor]
                        } else if k < j {
                            buf@[l0 + k]
                        } else {
                            old_store[k]
                        },
                decreases l1 - j,
            {
                self.buf.set(j, buf[l0 + j]);
                j = j + 1;
            }
        }
        proof { lemma_mod_wrap(self.write_cursor + len, capacity as int); }
        self.write_cursor = (self.write_cursor + len) % capacity;
        assert(self.spec_data_len() == contents.len() + len);
        assert(self@ =~= contents + buf@.subrange(0, len as int)) by {
            assert forall|j: int| 0 <= j < self@.len() implies #[trigger] self@[j] == (contents
                + buf@.subrange(0, len as int))[j] by {
                if j < contents.len() {
                    assert(contents[j] == old_store[wrap(rc + j, capacity as int)]);
                }
            }
        }
        len
    }

    #[inline(always)]
    /// Whether no byte can be written.
    pub fn is_full(&self) -> (r: bool)
        requires
            self.wf(),
            self.spec_capacity() > 0,
        ensures
            r == (self@.len() + 1 == self.spec_capacity()),
    {
        self.get_available_len() == 0
    }

    /// The amount of bytes that a write can still store.
    #[inline(always)]
    pub fn get_available_len(&self) -> (r: usize)
        requires
            self.wf(),
            self.spec_capacity() > 0,
        ensures
            r == self.spec_capacity() - self@.len() - 1,
    {
        proof { self.lemma_view(); }
        self.capacity() - self.get_data_len() - 1
    }

    /// Discards all buffered bytes.
    #[inline(always)]
    pub fn clear(&mut self)
        requires
            old(self).wf(),
        ensures
            final(self).wf(),
            final(self).spec_capacity() == old(self).spec_capacity(),
            final(self)@ == Seq::<u8>::empty(),
    {
        self.read_cursor = 0;
        self.write_cursor = 0;
        assert(self@ =~= Seq::<u8>::empty());
    }

    /// The size of the storage in bytes.
    pub fn capacity(&self) -> (r: usize)
        ensures
            r == self.spec_capacity(),
    {
        self.buf.len()
    }

    /// Whether no byte can be read.
    pub fn is_empty(&self) -> (r: bool)
        requires
            self.wf(),
        ensures
            r == (self@.len() == 0),
    {
        self.read_cursor == self.write_cursor
    }

    /// The number of bytes that can be read.
    pub fn get_data_len(&self) -> (r: usize)
        requires
            self.wf(),
        ensures
            r == self@.len(),
    {
        if self.read_cursor <= self.write_cursor {
            self.write_cursor - self.read_cursor
        } else {
            self.capacity() - (self.read_cursor - self.write_cursor)
        }
    }
}

/// Bytes come out of the ring in the order in which they went in: after a
/// write into a ring holding `contents`, a read with room for everything
/// returns the old contents followed by the stored part of `data`, and the
/// stored part is all of `data` whenever it fits.
pub proof fn lemma_fifo(contents: Seq<u8>, capacity: nat, data: Seq<u8>, n: nat)
    requires
        contents.len() < capacity,
        n >= contents.len() + write_len(contents, capacity, data),
    ensures
        ({
            let stored = contents + data.subrange(0, write_len(contents, capacity, data) as int);
            let got = read_len(stored, n);
            &&& got == stored.len()
            &&& stored.subrange(0, got as int) == stored
            &&& stored.subrange(got as int, stored.len() as int) == Seq::<u8>::empty()
            &&& stored.subrange(0, contents.len() as int) == contents
        }),
        data.len() + contents.len() < capacity ==> write_len(contents, capacity, data)
            == data.len(),
        write_len(contents, capacity, data) + contents.len() < capacity,
{
    let stored = contents + data.subrange(0, write_len(contents, capacity, data) as int);
    assert(stored.subrange(0, stored.len() as int) =~= stored);
    assert(stored.subrange(stored.len() as int, stored.len() as int) =~= Seq::<u8>::empty());
    assert(stored.subrange(0, contents.len() as int) =~= contents);
}

} // verus!
