//! Bit map storage.
use vstd::prelude::*;

verus! {

/// Bit `k` of byte `b`.
pub open spec fn byte_bit(b: u8, k: int) -> bool {
    (b >> (k as u8)) & 1 == 1
}

proof fn lemma_set_bit(b: u8, k: u8, value: bool)
    requires
        k < 8,
    ensures
        byte_bit(if value { b | (1u8 << k) } else { b & !(1u8 << k) }, k as int) == value,
        forall|j: u8| j < 8 && j != k ==> byte_bit(
            if value { b | (1u8 << k) } else { b & !(1u8 << k) },
            j as int,
        ) == byte_bit(b, j as int),
{
    if value {
        assert(((b | (1u8 << k)) >> k) & 1 == 1) by (bit_vector)
            requires k < 8;
        assert forall|j: u8| j < 8 && j != k implies (((b | (1u8 << k)) >> j) & 1 == 1) == ((b >> j) & 1 == 1) by {
            assert((((b | (1u8 << k)) >> j) & 1 == 1) == ((b >> j) & 1 == 1)) by (bit_vector)
                requires k < 8, j < 8, j != k;
        }
    } else {
        assert(((b & !(1u8 << k)) >> k) & 1 == 0) by (bit_vector)
            requires k < 8;
        assert forall|j: u8| j < 8 && j != k implies (((b & !(1u8 << k)) >> j) & 1 == 1) == ((b >> j) & 1 == 1) by {
            assert((((b & !(1u8 << k)) >> j) & 1 == 1) == ((b >> j) & 1 == 1)) by (bit_vector)
                requires k < 8, j < 8, j != k;
        }
    }
}

proof fn lemma_fill_byte(b: u8, value: bool)
    requires
        b == if value { 0xFFu8 } else { 0u8 },
    ensures
        forall|j: int| 0 <= j < 8 ==> #[trigger] byte_bit(b, j) == value,
{
    assert forall|j: int| 0 <= j < 8 implies #[trigger] byte_bit(b, j) == value by {
        let j = j as u8;
        assert((0xFFu8 >> j) & 1 == 1) by (bit_vector)
            requires j < 8;
        assert((0u8 >> j) & 1 == 0) by (bit_vector);
    }
}

/// A map of bits over a byte buffer. A bit map without a buffer holds no bits.
pub struct BitMap {
    /// Storage backing this bit map; its length is the size of the map in bytes.
    data: Option<Vec<u8>>,
}

impl View for BitMap {
    type V = Seq<bool>;

    /// Bit `i` is bit `i % 8` of byte `i / 8`.
    closed spec fn view(&self) -> Seq<bool> {
        match self.data {
            None => Seq::empty(),
            Some(d) => Seq::new(d@.len() * 8, |i: int| byte_bit(d@[i / 8], i % 8)),
        }
    }
}

impl BitMap {
    /// Creates a new empty bit map.
    pub fn new() -> (r: Self)
        ensures
            r@ == Seq::<bool>::empty(),
    {
        Self { data: None }
    }

    /// Creates a bit map over an existing buffer.
    pub fn from_ptr(data: Vec<u8>) -> (r: Self)
        ensures
            r@.len() == data@.len() * 8,
            forall|i: int| 0 <= i < r@.len() ==> r@[i] == byte_bit(data@[i / 8], i % 8),
    {
        Self { data: Some(data) }
    }

    /// Fills the entire map with a single value.
    pub fn fill(&mut self, value: bool)
        ensures
            final(self)@ == Seq::new(old(self)@.len(), |i: int| value),
    {
        let byte_val: u8 = if value { 0xFF } else { 0 };
        proof { lemma_fill_byte(byte_val, value); }
        match self.data {
            None => {
                assert(self@ =~= Seq::new(old(self)@.len(), |i: int| value));
            },
            Some(ref mut d) => {
                let ghost n = d@.len();
                let mut byte: usize = 0;
                while byte < d.len()
                    invariant
                        d@.len() == n,
                        byte <= n,
                        forall|k: int| 0 <= k < byte ==> d@[k] == byte_val,
                    decreases n - byte,
                {
                    d.set(byte, byte_val);
                    byte = byte + 1;
                }
                proof {
                    let v = Seq::new(n * 8, |i: int| byte_bit(d@[i / 8], i % 8));
                    assert forall|i: int| 0 <= i < n * 8 implies v[i] == value by {
                        assert(byte_bit(byte_val, i % 8) == value);
                    }
                    assert(v =~= Seq::new(old(self)@.len(), |i: int| value));
                }
            },
        }
    }

    /// Sets a bit at `index`. An index out of range changes nothing.
    pub fn set(&mut self, index: usize, value: bool)
        ensures
            final(self)@ == if index < old(self)@.len() {
                old(self)@.update(index as int, value)
            } else {
                old(self)@
            },
    {
        match self.data {
            None => {},
            Some(ref mut d) => {
                // If the index is out of range, don't do anything.
                if index / 8 >= d.len() {
                    return;
                }
                let ghost old_d = d@;
                let k = (index % 8) as u8;
                let offset: u8 = 1u8 << k;
                let b = d[index / 8];
                if value {
                    d.set(index / 8, b | offset);
                } else {
                    d.set(index / 8, b & !offset);
                }
                proof {
                    lemma_set_bit(b, k, value);
                    let nv = Seq::new(d@.len() * 8, |i: int| byte_bit(d@[i / 8], i % 8));
                    let ov = Seq::new(old_d.len() * 8, |i: int| byte_bit(old_d[i / 8], i % 8));
                    assert forall|i: int| 0 <= i < nv.len() implies nv[i] == ov.update(index as int, value)[i] by {
                        if i / 8 == index / 8 && i != index {
                            assert((i % 8) as u8 != k);
                            assert(((i % 8) as u8) < 8);
                        }
                    }
                    assert(nv =~= ov.update(index as int, value));
                }
            },
        }
    }

    /// Gets a bit at `index`. An index out of range reads as `false`.
    pub fn get(&self, index: usize) -> (r: bool)
        ensures
            r == (index < self@.len() && self@[index as int]),
    {
        match &self.data {
            None => false,
            Some(d) => {
                if index / 8 >= d.len() {
                    return false;
                }
                let k = (index % 8) as u8;
                let b = d[index / 8];
                assert(((b & (1u8 << k)) != 0) == ((b >> k) & 1 == 1)) by (bit_vector)
                    requires k < 8;
                (b & (1u8 << k)) != 0
            },
        }
    }
}

} // verus!
