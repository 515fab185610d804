//! Helpers for structured data accesses: bit fields in register values and
//! registers in byte buffers.
use vstd::prelude::*;
use vstd::arithmetic::power2::pow2;

verus! {

/// Value of the bytes `s` read in little-endian order.
pub open spec fn le_value(s: Seq<u8>) -> nat
    decreases s.len(),
{
    if s.len() == 0 {
        0
    } else {
        s[0] as nat + 256 * le_value(s.drop_first())
    }
}

/// Value of the bytes `s` read in big-endian order.
pub open spec fn be_value(s: Seq<u8>) -> nat {
    le_value(s.reverse())
}

/// The largest value plus one that `width` bytes hold.
pub open spec fn width_limit(width: nat) -> nat
    decreases width,
{
    if width == 0 {
        1
    } else {
        256 * width_limit((width - 1) as nat)
    }
}

/// Register widths in bytes.
pub open spec fn valid_width(width: usize) -> bool {
    width == 1 || width == 2 || width == 4 || width == 8
}

/// A hardware register: its offset in bytes, its width in bytes, and the
/// byte order in which it is stored.
#[derive(Clone, Copy, Debug, PartialEq, Eq, Structural)]
pub struct Register {
    offset: usize,
    width: usize,
    little_endian: bool,
}

impl Register {
    pub closed spec fn spec_offset(&self) -> usize {
        self.offset
    }

    pub closed spec fn spec_width(&self) -> usize {
        self.width
    }

    pub closed spec fn spec_little_endian(&self) -> bool {
        self.little_endian
    }

    /// A register has a valid width and is aligned to it.
    pub closed spec fn wf(&self) -> bool {
        valid_width(self.width) && self.offset % self.width == 0
    }

    /// Creates a new register with the machine's byte order.
    /// `offset` is in units of bytes and must be aligned to the width.
    pub fn new(offset: usize, width: usize, native_little_endian: bool) -> (r: Self)
        requires
            valid_width(width),
            offset % width == 0,
        ensures
            r.spec_offset() == offset,
            r.spec_width() == width,
            r.spec_little_endian() == native_little_endian,
            r.wf(),
    {
        Self { offset, width, little_endian: native_little_endian }
    }

    /// Marks this register as little endian.
    pub fn with_le(self) -> (r: Self)
        ensures
            self.wf() ==> r.wf(),
            r.spec_offset() == self.spec_offset(),
            r.spec_width() == self.spec_width(),
            r.spec_little_endian(),
    {
        Register { little_endian: true, ..self }
    }

    /// Marks this register as big endian.
    pub fn with_be(self) -> (r: Self)
        ensures
            self.wf() ==> r.wf(),
            r.spec_offset() == self.spec_offset(),
            r.spec_width() == self.spec_width(),
            !r.spec_little_endian(),
    {
        Register { little_endian: false, ..self }
    }

    /// The width of the register in bytes.
    pub fn width(&self) -> (r: usize)
        ensures
            r == self.spec_width(),
    {
        self.width
    }

    pub fn is_little_endian(&self) -> (r: bool)
        ensures
            r == self.spec_little_endian(),
    {
        self.little_endian
    }

    pub fn offset(&self) -> (r: usize)
        ensures
            r == self.spec_offset(),
    {
        self.offset
    }
}


pub proof fn lemma_width_limit(w: nat)
    ensures
        width_limit(w) >= 1,
        w <= 8 ==> width_limit(w) <= width_limit(8),
        width_limit(8) == 0x1_0000_0000_0000_0000,
    decreases w,
{
    reveal_with_fuel(width_limit, 9);
    if w > 0 {
        lemma_width_limit((w - 1) as nat);
    }
    if w <= 8 && w > 0 {
        lemma_width_mono((w) as nat, 8);
    }
}

proof fn lemma_width_mono(a: nat, b: nat)
    requires
        a <= b,
    ensures
        width_limit(a) <= width_limit(b),
    decreases b,
{
    if a < b {
        lemma_width_mono(a, (b - 1) as nat);
        lemma_width_pos((b - 1) as nat);
    }
}

proof fn lemma_width_pos(a: nat)
    ensures
        width_limit(a) >= 1,
    decreases a,
{
    if a > 0 {
        lemma_width_pos((a - 1) as nat);
    }
}

pub proof fn lemma_le_bound(s: Seq<u8>)
    ensures
        le_value(s) < width_limit(s.len()),
    decreases s.len(),
{
    if s.len() > 0 {
        lemma_le_bound(s.drop_first());
    }
}

proof fn lemma_le_snoc(s: Seq<u8>, b: u8)
    ensures
        le_value(s.push(b)) == le_value(s) + width_limit(s.len()) * b,
    decreases s.len(),
{
    let t = s.push(b);
    assert(t[0] == if s.len() == 0 { b } else { s[0] });
    if s.len() == 0 {
        assert(t.drop_first() =~= Seq::<u8>::empty());
        assert(le_value(t.drop_first()) == 0);
        assert(width_limit(0) == 1);
    } else {
        lemma_le_snoc(s.drop_first(), b);
        assert(t.drop_first() =~= s.drop_first().push(b));
        assert(width_limit(s.len()) == 256 * width_limit(s.drop_first().len()));
        assert(256 * (le_value(s.drop_first()) + width_limit(s.drop_first().len()) * b) == 256
            * le_value(s.drop_first()) + (256 * width_limit(s.drop_first().len())) * b)
            by (nonlinear_arith);
    }
}

/// Reads `width` bytes starting at `start` as a number in the given byte order.
pub fn decode(bytes: &[u8], start: usize, width: usize, little_endian: bool) -> (r: u64)
    requires
        start + width <= bytes@.len(),
        width <= 8,
    ensures
        little_endian ==> r == le_value(bytes@.subrange(start as int, start + width)),
        !little_endian ==> r == be_value(bytes@.subrange(start as int, start + width)),
{
    let ghost s = bytes@.subrange(start as int, start + width);
    let total = bytes.len();
    assert(start + width <= total);
    proof { lemma_width_limit(width as nat); }
    let mut acc: u64 = 0;
    if little_endian {
        let mut i: usize = width;
        while i > 0
            invariant
                i <= width <= 8,
                start + width <= bytes@.len(),
                total == bytes@.len(),
                start + width <= total,
                s == bytes@.subrange(start as int, start + width),
                acc == le_value(s.subrange(i as int, width as int)),
                width_limit(8) == 0x1_0000_0000_0000_0000,
                width <= 8 ==> width_limit(width as nat) <= width_limit(8),
            decreases i,
        {
            proof {
                lemma_le_bound(s.subrange(i as int, width as int));
                lemma_width_mono((width - i) as nat, (width - i + 1) as nat);
                lemma_width_mono((width - i + 1) as nat, width as nat);
                assert(s.subrange(i - 1, width as int).drop_first() =~= s.subrange(i as int, width as int));
                assert(acc * 256 + 255 < 0x1_0000_0000_0000_0000) by (nonlinear_arith)
                    requires
                        acc < width_limit((width - i) as nat),
                        256 * width_limit((width - i) as nat) == width_limit((width - i + 1) as nat),
                        width_limit((width - i + 1) as nat) <= 0x1_0000_0000_0000_0000;
            }
            i = i - 1;
            let b = bytes[start + i];
            assert(acc * 256 + (b as u64) < 0x1_0000_0000_0000_0000);
            acc = acc * 256 + b as u64;
        }
        assert(s.subrange(0, width as int) =~= s);
    } else {
        let mut i: usize = 0;
        while i < width
            invariant
                i <= width <= 8,
                start + width <= bytes@.len(),
                total == bytes@.len(),
                start + width <= total,
                s == bytes@.subrange(start as int, start + width),
                acc == le_value(s.subrange(0, i as int).reverse()),
                width_limit(8) == 0x1_0000_0000_0000_0000,
                width <= 8 ==> width_limit(width as nat) <= width_limit(8),
            decreases width - i,
        {
            proof {
                lemma_le_bound(s.subrange(0, i as int).reverse());
                lemma_width_mono((i + 1) as nat, width as nat);
                assert(s.subrange(0, i + 1).reverse().drop_first() =~= s.subrange(0, i as int).reverse());
                assert(acc * 256 + 255 < 0x1_0000_0000_0000_0000) by (nonlinear_arith)
                    requires
                        acc < width_limit(i as nat),
                        256 * width_limit(i as nat) == width_limit((i + 1) as nat),
                        width_limit((i + 1) as nat) <= 0x1_0000_0000_0000_0000;
            }
            let b = bytes[start + i];
            assert(acc * 256 + (b as u64) < 0x1_0000_0000_0000_0000);
            acc = acc * 256 + b as u64;
            i = i + 1;
        }
        assert(s.subrange(0, width as int) =~= s);
    }
    acc
}

/// The low `width` bytes of `v`, least significant first.
pub open spec fn le_encode(v: nat, width: nat) -> Seq<u8>
    decreases width,
{
    if width == 0 {
        Seq::empty()
    } else {
        seq![(v % 256) as u8] + le_encode(v / 256, (width - 1) as nat)
    }
}

pub proof fn lemma_le_encode_len(v: nat, width: nat)
    ensures
        le_encode(v, width).len() == width,
    decreases width,
{
    if width > 0 {
        lemma_le_encode_len(v / 256, (width - 1) as nat);
    }
}

/// The `width` bytes of `value`, least significant first.
pub fn le_bytes(value: u64, width: usize) -> (r: Vec<u8>)
    requires
        width <= 8,
        value < width_limit(width as nat),
    ensures
        r@.len() == width,
        le_value(r@) == value,
        r@ == le_encode(value as nat, width as nat),
{
    let mut out: Vec<u8> = Vec::new();
    let mut x: u64 = value;
    let mut i: usize = 0;
    proof { lemma_width_pos(0); }
    assert(out@ + le_encode(value as nat, width as nat) =~= le_encode(value as nat, width as nat));
    assert(le_value(out@) == 0);
    assert(width_limit(0) == 1);
    while i < width
        invariant
            i <= width <= 8,
            out@.len() == i,
            le_value(out@) + width_limit(i as nat) * x == value,
            value < width_limit(width as nat),
            out@ + le_encode(x as nat, (width - i) as nat) == le_encode(value as nat, width as nat),
        decreases width - i,
    {
        proof {
            assert(out@.push((x % 256) as u8) + le_encode((x / 256) as nat, (width - i - 1) as nat)
                =~= out@ + le_encode(x as nat, (width - i) as nat));
            lemma_le_snoc(out@, (x % 256) as u8);
            assert(width_limit(i as nat) * x == width_limit(i as nat) * (x % 256) + width_limit(
                (i + 1) as nat,
            ) * (x / 256)) by (nonlinear_arith)
                requires
                    width_limit((i + 1) as nat) == 256 * width_limit(i as nat),
            ;
        }
        out.push((x % 256) as u8);
        x = x / 256;
        i = i + 1;
    }
    proof {
        lemma_le_bound(out@);
        lemma_width_pos(width as nat);
        assert(x == 0) by (nonlinear_arith)
            requires
                le_value(out@) + width_limit(width as nat) * x == value,
                value < width_limit(width as nat),
                le_value(out@) >= 0,
                width_limit(width as nat) >= 1,
        ;
        assert(out@ + le_encode(x as nat, 0) =~= out@);
    }
    out
}


/// The contents of a register: bytes `reg.offset .. reg.offset + width`
/// of `bytes`, read in the register's byte order.
pub open spec fn reg_value(bytes: Seq<u8>, reg: Register) -> nat {
    let s = bytes.subrange(reg.spec_offset() as int, reg.spec_offset() + reg.spec_width());
    if reg.spec_little_endian() {
        le_value(s)
    } else {
        be_value(s)
    }
}

/// The register lies inside a buffer of `len` bytes.
pub open spec fn reg_in_bounds(len: nat, reg: Register) -> bool {
    reg.spec_offset() + reg.spec_width() <= len
}

/// Reads a register from a byte buffer; [`None`] if it lies outside.
pub fn read_reg(bytes: &[u8], reg: Register) -> (r: Option<BitValue>)
    requires
        reg.wf(),
        reg.spec_offset() + reg.spec_width() <= usize::MAX,
    ensures
        r == if reg_in_bounds(bytes@.len(), reg) {
            Some(BitValue { value: reg_value(bytes@, reg) as u64 })
        } else {
            None::<BitValue>
        },
{
    let end = reg.offset() + reg.width();
    if end > bytes.len() {
        return None;
    }
    let v = decode(bytes, reg.offset(), reg.width(), reg.is_little_endian());
    Some(BitValue { value: v })
}

/// Writes `value` into a register of a byte buffer; [`None`] (and no
/// change) if the register lies outside. Bytes outside the register stay.
pub fn write_reg(bytes: &mut [u8], reg: Register, value: u64) -> (r: Option<()>)
    requires
        reg.wf(),
        reg.spec_offset() + reg.spec_width() <= usize::MAX,
        value < width_limit(reg.spec_width() as nat),
    ensures
        final(bytes)@.len() == old(bytes)@.len(),
        r is Some <==> reg_in_bounds(old(bytes)@.len(), reg),
        r is None ==> final(bytes)@ == old(bytes)@,
        r is Some ==> reg_value(final(bytes)@, reg) == value,
        forall|i: int|
            0 <= i < old(bytes)@.len() && !(reg.spec_offset() <= i < reg.spec_offset()
                + reg.spec_width()) ==> #[trigger] final(bytes)@[i] == old(bytes)@[i],
{
    let start = reg.offset();
    let width = reg.width();
    let total = bytes.len();
    if start + width > total {
        return None;
    }
    let digits = le_bytes(value, width);
    let little = reg.is_little_endian();
    let ghost old_bytes = bytes@;
    let ghost enc = if little { digits@ } else { digits@.reverse() };
    let mut i: usize = 0;
    while i < width
        invariant
            i <= width,
            width == reg.spec_width(),
            start == reg.spec_offset(),
            start + width <= bytes@.len(),
            total == bytes@.len(),
            digits@.len() == width,
            enc == if little { digits@ } else { digits@.reverse() },
            bytes@.len() == old_bytes.len(),
            forall|k: int| 0 <= k < i ==> bytes@[start + k] == enc[k],
            forall|k: int|
                0 <= k < bytes@.len() && !(start <= k < start + i) ==> bytes@[k] == old_bytes[k],
        decreases width - i,
    {
        let b = if little { digits[i] } else { digits[width - 1 - i] };
        bytes[start + i] = b;
        i = i + 1;
    }
    proof {
        assert(bytes@.subrange(start as int, start + width) =~= enc);
        assert(digits@.reverse().reverse() =~= digits@);
    }
    Some(())
}

/// A value held by a register.
#[derive(Clone, Copy, Debug, PartialEq, Eq, Structural)]
pub struct BitValue {
    pub value: u64,
}

/// A bit field inside a register: `bit_width` bits starting at bit
/// `field_offset` of the register value.
#[derive(Clone, Copy, Debug, PartialEq, Eq, Structural)]
pub struct Field {
    field_offset: usize,
    bit_width: usize,
    register: Register,
}

/// The all-ones mask of the low `bits` bits.
pub open spec fn low_mask(bits: u64) -> u64 {
    ((1u64 << bits) - 1) as u64
}

/// The all-ones value of a register of `width` bytes.
pub open spec fn width_mask(width: usize) -> u64 {
    if width >= 8 {
        u64::MAX
    } else {
        low_mask((width * 8) as u64)
    }
}

impl Field {
    pub closed spec fn spec_bit_offset(&self) -> usize {
        self.field_offset
    }

    pub closed spec fn spec_bit_width(&self) -> usize {
        self.bit_width
    }

    pub closed spec fn spec_register(&self) -> Register {
        self.register
    }

    /// The field lies inside its register, and a mask of its width can be
    /// formed in the register's type.
    pub open spec fn usable(&self) -> bool {
        &&& self.spec_register().wf()
        &&& 0 < self.spec_bit_width()
        &&& self.spec_bit_offset() + self.spec_bit_width() <= self.spec_register().spec_width() * 8
        &&& self.spec_bit_width() < self.spec_register().spec_width() * 8
    }

    /// Creates a field of `value_width` bytes at byte `field_offset` of a register.
    pub fn new(register: Register, field_offset: usize, value_width: usize) -> (r: Self)
        requires
            register.wf(),
            field_offset + value_width <= register.spec_width(),
        ensures
            r.spec_bit_offset() == field_offset * 8,
            r.spec_bit_width() == value_width * 8,
            r.spec_register() == register,
    {
        Self { register, field_offset: field_offset * 8, bit_width: value_width * 8 }
    }

    /// Creates a field spanning bits `start ..= end` of a register, for a
    /// value of `value_width` bytes.
    pub fn new_bits(register: Register, start: usize, end: usize, value_width: usize) -> (r: Self)
        requires
            register.wf(),
            start <= end,
            end < register.spec_width() * 8,
            end - start + 1 <= value_width * 8,
        ensures
            r.spec_bit_offset() == start,
            r.spec_bit_width() == end - start + 1,
            r.spec_register() == register,
    {
        Self { register, field_offset: start, bit_width: end - start + 1 }
    }

    pub fn byte_offset(&self) -> (r: usize)
        requires
            self.spec_register().spec_offset() + self.spec_bit_offset() / 8 <= usize::MAX,
        ensures
            r == self.spec_register().spec_offset() + self.spec_bit_offset() / 8,
    {
        self.register.offset() + (self.field_offset / 8)
    }

    pub fn bit_offset(&self) -> (r: usize)
        ensures
            r == self.spec_bit_offset(),
    {
        self.field_offset
    }

    pub fn bit_width(&self) -> (r: usize)
        ensures
            r == self.spec_bit_width(),
    {
        self.bit_width
    }
}

/// The mask of the low bits a field occupies.
pub fn field_mask(field: Field) -> (r: u64)
    requires
        field.usable(),
    ensures
        r == low_mask(field.spec_bit_width() as u64),
{
    let w = field.bit_width as u64;
    assert(1u64 << w >= 1) by (bit_vector)
        requires w < 64;
    (1u64 << w) - 1
}

impl BitValue {
    pub fn new(value: u64) -> (r: Self)
        ensures
            r.value == value,
    {
        Self { value }
    }

    pub fn value(&self) -> (r: u64)
        ensures
            r == self.value,
    {
        self.value
    }

    /// The bits of a field, shifted down.
    pub fn read_field(self, field: Field) -> (r: BitValue)
        requires
            field.usable(),
        ensures
            r.value == get_bits(self.value, field.spec_bit_offset() as u64, field.spec_bit_width() as u64),
    {
        let mask = field_mask(field);
        BitValue::new((self.value >> (field.bit_offset() as u64)) & mask)
    }

    /// Replaces the bits of a field by `value`, in a register value of the
    /// field's register width.
    pub fn write_field(self, field: Field, value: u64) -> (r: BitValue)
        requires
            field.usable(),
            value < width_limit(field.spec_register().spec_width() as nat),
        ensures
            r.value == put_bits(
                self.value,
                value,
                field.spec_bit_offset() as u64,
                field.spec_bit_width() as u64,
                width_mask(field.spec_register().spec_width()),
            ),
    {
        let mask = field_mask(field);
        let off = field.bit_offset() as u64;
        let width = field.register.width();
        proof {
            let ww = (width * 8) as u64;
            if width < 8 {
                assert(1u64 << ww >= 1) by (bit_vector)
                    requires ww < 64;
            }
        }
        let wm: u64 = if width >= 8 { u64::MAX } else { (1u64 << ((width * 8) as u64)) - 1 };
        BitValue::new(((self.value & !(mask << off)) | (value << off)) & wm)
    }
}


/// `a` with the `b` bits at offset `o` replaced by `v`, cut to the mask `wm`.
pub open spec fn put_bits(a: u64, v: u64, o: u64, b: u64, wm: u64) -> u64 {
    ((a & !(low_mask(b) << o)) | (v << o)) & wm
}

/// The `b` bits of `x` at offset `o`, shifted down.
pub open spec fn get_bits(x: u64, o: u64, b: u64) -> u64 {
    (x >> o) & low_mask(b)
}

proof fn lemma_put_get(a: u64, v: u64, o: u64, b: u64, ww: u64)
    requires
        o + b <= ww,
        ww <= 64,
        0 < b < 64,
        v <= low_mask(b),
    ensures
        get_bits(put_bits(a, v, o, b, if ww >= 64 { u64::MAX } else { low_mask(ww) }), o, b) == v,
{
    if ww >= 64 {
        assert(get_bits(put_bits(a, v, o, b, u64::MAX), o, b) == v) by (bit_vector)
            requires o + b <= 64, 0 < b < 64, v <= low_mask(b);
    } else {
        assert(get_bits(put_bits(a, v, o, b, low_mask(ww)), o, b) == v) by (bit_vector)
            requires o + b <= ww, ww < 64, 0 < b, v <= low_mask(b);
    }
}

proof fn lemma_put_keeps(a: u64, v: u64, o: u64, b: u64, ww: u64, j: u64)
    requires
        o + b <= ww,
        ww <= 64,
        0 < b < 64,
        j < ww,
        !(o <= j && j < o + b),
        v <= low_mask(b),
    ensures
        (put_bits(a, v, o, b, if ww >= 64 { u64::MAX } else { low_mask(ww) }) >> j) & 1 == (a >> j) & 1,
{
    if ww >= 64 {
        assert((put_bits(a, v, o, b, u64::MAX) >> j) & 1 == (a >> j) & 1) by (bit_vector)
            requires o + b <= 64, 0 < b < 64, j < 64, !(o <= j && j < o + b), v <= low_mask(b);
    } else {
        assert((put_bits(a, v, o, b, low_mask(ww)) >> j) & 1 == (a >> j) & 1) by (bit_vector)
            requires o + b <= ww, ww < 64, 0 < b, j < ww, !(o <= j && j < o + b), v <= low_mask(b);
    }
}

/// Reading a field back after writing a value that fits into it gives the
/// value.
pub proof fn lemma_read_after_write_field(a: u64, v: u64, field: Field)
    requires
        field.usable(),
        v <= low_mask(field.spec_bit_width() as u64),
    ensures
        get_bits(
            put_bits(
                a,
                v,
                field.spec_bit_offset() as u64,
                field.spec_bit_width() as u64,
                width_mask(field.spec_register().spec_width()),
            ),
            field.spec_bit_offset() as u64,
            field.spec_bit_width() as u64,
        ) == v,
{
    let w = field.spec_register().spec_width();
    lemma_put_get(a, v, field.spec_bit_offset() as u64, field.spec_bit_width() as u64, (w * 8) as u64);
}

/// Writing a field leaves the other bits of the register as they were.
pub proof fn lemma_write_field_keeps_other_bits(a: u64, v: u64, field: Field, j: u64)
    requires
        field.usable(),
        v <= low_mask(field.spec_bit_width() as u64),
        j < field.spec_register().spec_width() * 8,
        !(field.spec_bit_offset() <= j < field.spec_bit_offset() + field.spec_bit_width()),
    ensures
        (put_bits(
            a,
            v,
            field.spec_bit_offset() as u64,
            field.spec_bit_width() as u64,
            width_mask(field.spec_register().spec_width()),
        ) >> j) & 1 == (a >> j) & 1,
{
    let w = field.spec_register().spec_width();
    lemma_put_keeps(a, v, field.spec_bit_offset() as u64, field.spec_bit_width() as u64, (w * 8) as u64, j);
}


/// A region of memory mapped IO: `len` bytes starting at the virtual
/// address `base`.
pub struct MmioView {
    base: usize,
    len: usize,
}

/// A part of a [`MmioView`] starting `offset` bytes into it.
pub struct MmioSubView<'a> {
    parent: &'a MmioView,
    offset: usize,
}

/// The address of a register `offset` bytes into a region of `len` bytes
/// at `base`, if the register fits into the region.
pub open spec fn spec_register_address(base: usize, len: usize, reg: Register, offset: usize) -> Option<usize> {
    if reg.spec_offset() + offset + reg.spec_width() > len {
        None
    } else {
        Some((base + reg.spec_offset() + offset) as usize)
    }
}

impl MmioView {
    pub closed spec fn spec_base(&self) -> usize {
        self.base
    }

    pub closed spec fn spec_len(&self) -> usize {
        self.len
    }

    /// A region that ends within the address space.
    pub open spec fn wf(&self) -> bool {
        self.spec_base() + self.spec_len() <= usize::MAX
    }

    /// Describes the mapped region of `len` bytes at `base`.
    pub fn new(base: usize, len: usize) -> (r: Self)
        ensures
            r.spec_base() == base,
            r.spec_len() == len,
    {
        Self { base, len }
    }

    /// The part of the region from `offset` on; [`None`] past its end.
    pub fn sub_view(&self, offset: usize) -> (r: Option<MmioSubView<'_>>)
        ensures
            offset >= self.spec_len() ==> r is None,
            offset < self.spec_len() ==> (r matches Some(v) && v.spec_parent() == self && v.spec_offset() == offset),
    {
        if offset >= self.len {
            return None;
        }
        Some(MmioSubView { parent: self, offset })
    }

    pub fn base(&self) -> (r: usize)
        ensures
            r == self.spec_base(),
    {
        self.base
    }

    pub fn len(&self) -> (r: usize)
        ensures
            r == self.spec_len(),
    {
        self.len
    }

    pub fn is_empty(&self) -> (r: bool)
        ensures
            r == (self.spec_len() == 0),
    {
        self.len == 0
    }

    /// Where a register `offset` bytes further in is accessed; [`None`]
    /// if it does not fit into the region.
    pub fn register_address(&self, reg: Register, offset: usize) -> (r: Option<usize>)
        requires
            self.wf(),
            reg.spec_offset() + offset + reg.spec_width() <= usize::MAX,
        ensures
            r == spec_register_address(self.spec_base(), self.spec_len(), reg, offset),
    {
        if reg.offset() + offset + reg.width() > self.len {
            return None;
        }
        Some(self.base + reg.offset() + offset)
    }
}

impl<'a> MmioSubView<'a> {
    pub closed spec fn spec_parent(&self) -> &'a MmioView {
        self.parent
    }

    pub closed spec fn spec_offset(&self) -> usize {
        self.offset
    }

    /// The offset lies inside the parent region.
    pub open spec fn wf(&self) -> bool {
        self.spec_offset() < self.spec_parent().spec_len()
    }

    /// The part of the parent region `offset` bytes further in.
    pub fn sub_view(&self, offset: usize) -> (r: Option<MmioSubView<'a>>)
        requires
            self.spec_offset() + offset <= usize::MAX,
        ensures
            self.spec_offset() + offset >= self.spec_parent().spec_len() ==> r is None,
            self.spec_offset() + offset < self.spec_parent().spec_len() ==> (r matches Some(v)
                && v.spec_parent() == self.spec_parent() && v.spec_offset() == self.spec_offset()
                + offset),
    {
        self.parent.sub_view(self.offset + offset)
    }

    pub fn base(&self) -> (r: usize)
        requires
            self.spec_parent().wf(),
            self.wf(),
        ensures
            r == self.spec_parent().spec_base() + self.spec_offset(),
    {
        self.parent.base() + self.offset
    }

    pub fn len(&self) -> (r: usize)
        requires
            self.wf(),
        ensures
            r == self.spec_parent().spec_len() - self.spec_offset(),
    {
        self.parent.len() - self.offset
    }

    pub fn is_empty(&self) -> (r: bool)
        requires
            self.wf(),
        ensures
            r == (self.spec_parent().spec_len() - self.spec_offset() == 0),
    {
        self.len() == 0
    }

    /// Where a register of this part is accessed; [`None`] if it does not
    /// fit into the parent region.
    pub fn register_address(&self, reg: Register) -> (r: Option<usize>)
        requires
            self.spec_parent().wf(),
            reg.spec_offset() + self.spec_offset() + reg.spec_width() <= usize::MAX,
        ensures
            r == spec_register_address(
                self.spec_parent().spec_base(),
                self.spec_parent().spec_len(),
                reg,
                self.spec_offset(),
            ),
    {
        self.parent.register_address(reg, self.offset)
    }
}

} // verus!