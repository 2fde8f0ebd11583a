//! Bit-level row decoding: a cursor that reads bit fields out of packed
//! records, and the per-compression-kind value decoders.
//!
//! A bit field is specified arithmetically: the little-endian integer of
//! the bytes it touches, shifted down to its first bit and reduced modulo
//! two to the width. Decoders are proved exact against that reading.

use vstd::prelude::*;

use super::types::{ColumnMetaData, CompressionType, FieldMetaData, Value32, Wdc5Meta, Wdc5Section};

verus! {

broadcast use vstd::std_specs::hash::group_hash_axioms;

/// The little-endian integer of `n` bytes starting at `pos`.
pub open spec fn le_int(data: Seq<u8>, pos: int, n: nat) -> int
    decreases n,
{
    if n == 0 {
        0
    } else {
        data[pos] + 256 * le_int(data, pos + 1, (n - 1) as nat)
    }
}

/// Powers of two.
pub open spec fn pow2(k: nat) -> int
    decreases k,
{
    if k == 0 {
        1
    } else {
        2 * pow2((k - 1) as nat)
    }
}

/// The unsigned value of the `n`-bit field at bit `position` within the
/// record starting at byte `offset`.
pub open spec fn spec_read_bits(data: Seq<u8>, offset: int, position: int, n: nat) -> int {
    let byte_pos = offset + position / 8;
    let bit_off = position % 8;
    let needed = (((n + bit_off) + 7) / 8) as nat;
    (le_int(data, byte_pos, needed) / pow2(bit_off as nat)) % pow2(n)
}

/// The two's-complement reading of the same field.
pub open spec fn spec_read_signed(data: Seq<u8>, offset: int, position: int, n: nat) -> int {
    let v = spec_read_bits(data, offset, position, n);
    if n > 0 && v >= pow2((n - 1) as nat) {
        v - pow2(n)
    } else {
        v
    }
}

/// Whether the `n`-bit field at the cursor lies inside the data.
pub open spec fn spec_can_read(data: Seq<u8>, offset: int, position: int, n: nat) -> bool {
    &&& n <= 64
    &&& position + n <= usize::MAX
    &&& offset + position / 8 + ((n + position % 8) + 7) / 8 <= data.len()
}

proof fn lemma_pow2_pos(k: nat)
    ensures
        pow2(k) >= 1,
    decreases k,
{
    if k > 0 {
        lemma_pow2_pos((k - 1) as nat);
    }
}

proof fn lemma_pow2_mono(a: nat, b: nat)
    requires
        a <= b,
    ensures
        pow2(a) <= pow2(b),
    decreases b - a,
{
    if a < b {
        lemma_pow2_mono(a, (b - 1) as nat);
        lemma_pow2_pos((b - 1) as nat);
        assert(pow2(b) == 2 * pow2((b - 1) as nat));
    }
}

proof fn lemma_pow2_steps(b: nat)
    ensures
        pow2((b + 8) as nat) == 256 * pow2(b),
{
    assert(pow2((b + 1) as nat) == 2 * pow2(b));
    assert(pow2((b + 2) as nat) == 2 * pow2((b + 1) as nat));
    assert(pow2((b + 3) as nat) == 2 * pow2((b + 2) as nat));
    assert(pow2((b + 4) as nat) == 2 * pow2((b + 3) as nat));
    assert(pow2((b + 5) as nat) == 2 * pow2((b + 4) as nat));
    assert(pow2((b + 6) as nat) == 2 * pow2((b + 5) as nat));
    assert(pow2((b + 7) as nat) == 2 * pow2((b + 6) as nat));
    assert(pow2((b + 8) as nat) == 2 * pow2((b + 7) as nat));
}

proof fn lemma_pow2_64()
    ensures
        pow2(64) == 0x1_0000_0000_0000_0000,
        pow2(63) == 0x8000_0000_0000_0000,
        pow2(8) == 0x100,
{
    lemma_pow2_steps(0);
    lemma_pow2_steps(8);
    lemma_pow2_steps(16);
    lemma_pow2_steps(24);
    lemma_pow2_steps(32);
    lemma_pow2_steps(40);
    lemma_pow2_steps(48);
    lemma_pow2_steps(56);
    assert(pow2(57) == 2 * pow2(56));
    assert(pow2(58) == 2 * pow2(57));
    assert(pow2(59) == 2 * pow2(58));
    assert(pow2(60) == 2 * pow2(59));
    assert(pow2(61) == 2 * pow2(60));
    assert(pow2(62) == 2 * pow2(61));
    assert(pow2(63) == 2 * pow2(62));
    assert(pow2(64) == 2 * pow2(63));
}

proof fn lemma_pow2_le_64(k: nat)
    requires
        k <= 64,
    ensures
        pow2(k) <= 0x1_0000_0000_0000_0000,
    decreases k,
{
    lemma_pow2_64();
    lemma_pow2_mono(k, 64);
}

proof fn lemma_le_int_bound(data: Seq<u8>, pos: int, n: nat)
    requires
        pos >= 0,
        pos + n <= data.len(),
    ensures
        0 <= le_int(data, pos, n) < pow2((8 * n) as nat),
    decreases n,
{
    if n == 0 {
    } else {
        lemma_le_int_bound(data, pos + 1, (n - 1) as nat);
        lemma_pow2_steps((8 * (n - 1)) as nat);
    }
}

/// A cursor over packed record bytes: `offset` is the record's base byte,
/// `position` the bit position within the record.
pub struct BitReader<'a> {
    pub data: &'a [u8],
    pub position: usize,
    pub offset: usize,
}

impl<'a> BitReader<'a> {
    pub fn new(data: &'a [u8], offset: usize) -> (r: Self)
        ensures
            r.data@ == data@,
            r.offset == offset,
            r.position == 0,
    {
        BitReader { data, position: 0, offset }
    }

    /// Seeks the cursor to an absolute bit position within the record.
    pub fn set_position(&mut self, pos: usize)
        ensures
            final(self).data@ == old(self).data@,
            final(self).offset == old(self).offset,
            final(self).position == pos,
    {
        self.position = pos;
    }

    /// Reads the next `num_bits` bits as an unsigned value and advances.
    /// Zero bits read as zero without moving; a field that is wider than 64
    /// bits or runs outside the data reads as `None`, the cursor untouched.
    pub fn read_bits(&mut self, num_bits: usize) -> (r: Option<u64>)
        ensures
            final(self).data@ == old(self).data@,
            final(self).offset == old(self).offset,
            num_bits == 0 ==> r == Some(0u64) && *final(self) == *old(self),
            num_bits != 0 && spec_can_read(
                old(self).data@,
                old(self).offset as int,
                old(self).position as int,
                num_bits as nat,
            ) ==> (r matches Some(v) && v == spec_read_bits(
                old(self).data@,
                old(self).offset as int,
                old(self).position as int,
                num_bits as nat,
            ) && final(self).position == old(self).position + num_bits),
            num_bits != 0 && !spec_can_read(
                old(self).data@,
                old(self).offset as int,
                old(self).position as int,
                num_bits as nat,
            ) ==> r is None && *final(self) == *old(self),
    {
        if num_bits == 0 {
            return Some(0);
        }
        let dlen = self.data.len();
        proof {
            assert(self.data@.len() == dlen);
        }
        if num_bits > 64 {
            return None;
        }
        if self.position > usize::MAX - num_bits {
            return None;
        }
        let byte_rel = self.position / 8;
        let bit_off = self.position % 8;
        if byte_rel > usize::MAX - self.offset {
            return None;
        }
        let byte_pos = self.offset + byte_rel;
        let needed = (num_bits + bit_off + 7) / 8;
        if byte_pos > self.data.len() || needed > self.data.len() - byte_pos {
            return None;
        }
        let mut acc: u128 = 0;
        let mut i: usize = needed;
        while i > 0
            invariant
                i <= needed,
                needed <= 9,
                byte_pos + needed <= self.data@.len(),
                self.data@.len() <= usize::MAX,
                acc == le_int(self.data@, byte_pos + i, (needed - i) as nat),
                acc < pow2((8 * (needed - i)) as nat),
            decreases i,
        {
            proof {
                lemma_le_int_bound(self.data@, byte_pos + i - 1, (needed - i + 1) as nat);
                lemma_pow2_steps((8 * (needed - i)) as nat);
                lemma_pow2_mono((8 * (needed - i)) as nat, 64);
                lemma_pow2_64();
            }
            acc = acc * 256 + self.data[byte_pos + i - 1] as u128;
            i = i - 1;
        }
        let mut divisor: u128 = 1;
        let mut b: usize = 0;
        while b < bit_off
            invariant
                b <= bit_off,
                bit_off < 8,
                divisor == pow2(b as nat),
            decreases bit_off - b,
        {
            proof {
                lemma_pow2_mono((b + 1) as nat, 8);
                lemma_pow2_64();
            }
            divisor = divisor * 2;
            b = b + 1;
        }
        let mut modulus: u128 = 1;
        let mut m: usize = 0;
        while m < num_bits
            invariant
                m <= num_bits,
                num_bits <= 64,
                modulus == pow2(m as nat),
            decreases num_bits - m,
        {
            proof {
                lemma_pow2_mono((m + 1) as nat, num_bits as nat);
                lemma_pow2_le_64(num_bits as nat);
            }
            modulus = modulus * 2;
            m = m + 1;
        }
        proof {
            lemma_pow2_pos(bit_off as nat);
            lemma_pow2_pos(num_bits as nat);
            lemma_pow2_le_64(num_bits as nat);
        }
        let out128 = (acc / divisor) % modulus;
        let out = out128 as u64;
        proof {
            assert(out128 < pow2(num_bits as nat));
            assert(out == spec_read_bits(
                self.data@,
                self.offset as int,
                self.position as int,
                num_bits as nat,
            ));
        }
        self.position = self.position + num_bits;
        Some(out)
    }

    /// Reads the next `num_bits` bits as a sign-extended value.
    pub fn read_signed(&mut self, num_bits: usize) -> (r: Option<i64>)
        ensures
            final(self).data@ == old(self).data@,
            final(self).offset == old(self).offset,
            num_bits == 0 ==> r == Some(0i64) && *final(self) == *old(self),
            num_bits != 0 && spec_can_read(
                old(self).data@,
                old(self).offset as int,
                old(self).position as int,
                num_bits as nat,
            ) ==> (r matches Some(v) && v == spec_read_signed(
                old(self).data@,
                old(self).offset as int,
                old(self).position as int,
                num_bits as nat,
            ) && final(self).position == old(self).position + num_bits),
            num_bits != 0 && !spec_can_read(
                old(self).data@,
                old(self).offset as int,
                old(self).position as int,
                num_bits as nat,
            ) ==> r is None && *final(self) == *old(self),
    {
        let v = match self.read_bits(num_bits) {
            Some(v) => v,
            None => {
                return None;
            },
        };
        if num_bits == 0 {
            return Some(0);
        }
        let mut half: u64 = 1;
        let mut m: usize = 0;
        while m < num_bits - 1
            invariant
                num_bits >= 1,
                m <= num_bits - 1,
                num_bits <= 64,
                half == pow2(m as nat),
            decreases num_bits - 1 - m,
        {
            proof {
                lemma_pow2_mono((m + 1) as nat, (num_bits - 1) as nat);
                lemma_pow2_mono((num_bits - 1) as nat, 63);
                lemma_pow2_64();
            }
            half = half * 2;
            m = m + 1;
        }
        proof {
            lemma_pow2_pos((num_bits - 1) as nat);
            lemma_pow2_mono((num_bits - 1) as nat, 63);
            lemma_pow2_64();
            lemma_pow2_le_64(num_bits as nat);
            assert(pow2(num_bits as nat) == 2 * pow2((num_bits - 1) as nat));
        }
        if v >= half {
            let signed: i128 = v as i128 - 2 * (half as i128);
            Some(signed as i64)
        } else {
            Some(v as i64)
        }
    }
}





/// A decoded cell: a signed or unsigned scalar, or a pallet-array row.
#[derive(Debug, Clone, PartialEq)]
pub enum DecodedValue {
    Int(i32),
    UInt(u32),
    Array(Vec<u32>),
}

/// The declared bit width of a column: the legacy complement of the
/// field's bit count, or for wide fields the column's auxiliary width.
pub open spec fn spec_bit_width(fm: FieldMetaData, cm: ColumnMetaData) -> int {
    if fm.bits < 32 {
        32 - fm.bits
    } else {
        cm.val2 as int
    }
}

/// The record-relative base byte of a row: its offset-map span when one
/// was parsed, else the fixed record stride.
pub open spec fn spec_row_base(section: &Wdc5Section, row: int) -> int {
    if 0 <= row < section.record_offsets@.len() {
        section.record_offsets@[row] as int
    } else {
        section.record_size as int * row
    }
}

/// The unsigned 32-bit cell of a bit-packed column.
pub open spec fn spec_packed_u32(section: &Wdc5Section, base: int, cm: ColumnMetaData, w: nat)
    -> u32 {
    (spec_read_bits(section.records_data@, base, cm.record_offset as int, w) % 0x1_0000_0000) as u32
}

/// The 64-bit two's-complement pattern of a signed value.
pub open spec fn wrap_u64(v: int) -> int {
    ((v % 0x1_0000_0000_0000_0000) + 0x1_0000_0000_0000_0000) % 0x1_0000_0000_0000_0000
}

/// The signed 32-bit cell of a bit-packed column: the low 32 bits of the
/// sign-extended field, reinterpreted.
pub open spec fn spec_packed_i32(section: &Wdc5Section, base: int, cm: ColumnMetaData, w: nat)
    -> i32 {
    (((wrap_u64(spec_read_signed(section.records_data@, base, cm.record_offset as int, w))
        % 0x1_0000_0000) as u32) as i32)
}

/// Truncates a bit-field value to an unsigned 32-bit cell.
fn trunc_u32(v: u64) -> (r: u32)
    ensures
        r == (v % 0x1_0000_0000) as u32,
{
    (v % 0x1_0000_0000) as u32
}

/// Truncates a sign-extended value to a signed 32-bit cell.
fn trunc_i32(v: i64) -> (r: i32)
    ensures
        r == ((wrap_u64(v as int) % 0x1_0000_0000) as u32) as i32,
{
    let bits: u64 = if v >= 0 {
        v as u64
    } else {
        let mag = (-(v as i128)) as u128;
        (0x1_0000_0000_0000_0000u128 - mag) as u64
    };
    proof {
        assert(bits == wrap_u64(v as int));
    }
    let low = (bits % 0x1_0000_0000) as u32;
    low as i32
}

/// The byte where a row's span starts, when it fits the address space.
fn row_base(section: &Wdc5Section, row_index: usize) -> (r: Option<usize>)
    ensures
        match r {
            Some(b) => b == spec_row_base(section, row_index as int),
            None => row_index >= section.record_offsets@.len() && section.record_size as int
                * row_index as int > usize::MAX,
        },
{
    if row_index < section.record_offsets.len() {
        Some(section.record_offsets[row_index])
    } else {
        let rs = section.record_size as u128;
        let ri = row_index as u128;
        proof {
            vstd::arithmetic::mul::lemma_mul_upper_bound(
                rs as int,
                0xFFFF_FFFF,
                ri as int,
                0xFFFF_FFFF_FFFF_FFFF,
            );
        }
        let b128 = rs * ri;
        if b128 > usize::MAX as u128 {
            None
        } else {
            Some(b128 as usize)
        }
    }
}

/// Decodes one cell of one row: seeks the bit cursor to the column's
/// declared offset within the row's byte span and interprets the raw bits
/// per the column's compression kind. Returns `None` when the column is
/// unknown, the row span or bit field lies outside the data, or a pallet
/// index has no palette entry.
pub fn decode_row_value(
    row_index: usize,
    record_id: u32,
    col_index: usize,
    section: &Wdc5Section,
    meta: &Wdc5Meta,
) -> (r: Option<DecodedValue>)
    ensures
        col_index >= meta.field_meta@.len() || col_index >= meta.column_meta@.len() ==> r is None,
        section.is_sparse && section.sparse_entries@.len() <= row_index ==> r is None,
        ({
            &&& col_index < meta.field_meta@.len()
            &&& col_index < meta.column_meta@.len()
            &&& !section.is_sparse
            &&& meta.column_meta@[col_index as int].compression == CompressionType::Pallet
        }) ==> ({
            let cm = meta.column_meta@[col_index as int];
            let fm = meta.field_meta@[col_index as int];
            let w = spec_bit_width(fm, cm);
            let base = spec_row_base(section, row_index as int);
            match r {
                Some(v) => {
                    &&& 0 <= w <= 64
                    &&& (w == 0 || spec_can_read(
                        section.records_data@,
                        base,
                        cm.record_offset as int,
                        w as nat,
                    ))
                    &&& col_index < meta.pallet_data@.len()
                    &&& ({
                        let idx = spec_read_bits(
                            section.records_data@,
                            base,
                            cm.record_offset as int,
                            w as nat,
                        );
                        &&& 0 <= idx < meta.pallet_data@[col_index as int]@.len()
                        &&& v == DecodedValue::UInt(
                            meta.pallet_data@[col_index as int]@[idx].0,
                        )
                    })
                },
                None => {
                    ||| !(0 < w <= 64)
                    ||| !spec_can_read(section.records_data@, base, cm.record_offset as int, w as nat)
                    ||| (row_index >= section.record_offsets@.len() && section.record_size as int
                        * row_index as int > usize::MAX)
                    ||| col_index >= meta.pallet_data@.len()
                    ||| spec_read_bits(section.records_data@, base, cm.record_offset as int, w as nat)
                        >= meta.pallet_data@[col_index as int]@.len()
                },
            }
        }),
        ({
            &&& col_index < meta.field_meta@.len()
            &&& col_index < meta.column_meta@.len()
            &&& !section.is_sparse
            &&& (meta.column_meta@[col_index as int].compression == CompressionType::Uncompressed
                || meta.column_meta@[col_index as int].compression == CompressionType::Immediate)
        }) ==> ({
            let cm = meta.column_meta@[col_index as int];
            let fm = meta.field_meta@[col_index as int];
            let w = spec_bit_width(fm, cm);
            let base = spec_row_base(section, row_index as int);
            match r {
                Some(v) => 0 <= w <= 64 && v == DecodedValue::UInt(
                    spec_packed_u32(section, base, cm, w as nat),
                ),
                None => {
                    ||| !(0 < w <= 64)
                    ||| !spec_can_read(section.records_data@, base, cm.record_offset as int, w as nat)
                    ||| (row_index >= section.record_offsets@.len() && section.record_size as int
                        * row_index as int > usize::MAX)
                },
            }
        }),
        ({
            &&& col_index < meta.field_meta@.len()
            &&& col_index < meta.column_meta@.len()
            &&& !section.is_sparse
            &&& meta.column_meta@[col_index as int].compression == CompressionType::SignedImmediate
        }) ==> ({
            let cm = meta.column_meta@[col_index as int];
            let fm = meta.field_meta@[col_index as int];
            let w = spec_bit_width(fm, cm);
            let base = spec_row_base(section, row_index as int);
            match r {
                Some(v) => 0 <= w <= 64 && v == DecodedValue::Int(
                    spec_packed_i32(section, base, cm, w as nat),
                ),
                None => {
                    ||| !(0 < w <= 64)
                    ||| !spec_can_read(section.records_data@, base, cm.record_offset as int, w as nat)
                    ||| (row_index >= section.record_offsets@.len() && section.record_size as int
                        * row_index as int > usize::MAX)
                },
            }
        }),
        ({
            &&& col_index < meta.field_meta@.len()
            &&& col_index < meta.column_meta@.len()
            &&& !section.is_sparse
            &&& meta.column_meta@[col_index as int].compression == CompressionType::Common
        }) ==> ({
            let cm = meta.column_meta@[col_index as int];
            match r {
                Some(v) => col_index < meta.common_data@.len() && v == DecodedValue::UInt(
                    if meta.common_data@[col_index as int]@.contains_key(record_id) {
                        meta.common_data@[col_index as int]@[record_id].0
                    } else {
                        cm.val1
                    },
                ),
                None => col_index >= meta.common_data@.len(),
            }
        }),
{
    if col_index >= meta.field_meta.len() || col_index >= meta.column_meta.len() {
        return None;
    }
    let fm = meta.field_meta[col_index];
    let cm = meta.column_meta[col_index];
    if section.is_sparse {
        // Sparse rows would need the sparse span table, which the reader
        // leaves empty; such cells are not decodable here.
        return None;
    }
    let width: usize = if fm.bits < 32 {
        (32 - fm.bits as i32) as usize
    } else {
        cm.val2 as usize
    };
    match cm.compression {
        CompressionType::Uncompressed | CompressionType::Immediate => {
            let base = match row_base(section, row_index) {
                Some(b) => b,
                None => {
                    return None;
                },
            };
            let mut reader = BitReader::new(section.records_data.as_slice(), base);
            reader.set_position(cm.record_offset as usize);
            match reader.read_bits(width) {
                Some(v) => {
                    if width > 64 {
                        return None;
                    }
                    Some(DecodedValue::UInt(trunc_u32(v)))
                },
                None => None,
            }
        },
        CompressionType::SignedImmediate => {
            let base = match row_base(section, row_index) {
                Some(b) => b,
                None => {
                    return None;
                },
            };
            let mut reader = BitReader::new(section.records_data.as_slice(), base);
            reader.set_position(cm.record_offset as usize);
            match reader.read_signed(width) {
                Some(v) => {
                    if width > 64 {
                        return None;
                    }
                    Some(DecodedValue::Int(trunc_i32(v)))
                },
                None => None,
            }
        },
        CompressionType::Common => {
            if col_index >= meta.common_data.len() {
                return None;
            }
            match meta.common_data[col_index].get(&record_id) {
                Some(v) => Some(DecodedValue::UInt(v.0)),
                None => Some(DecodedValue::UInt(cm.val1)),
            }
        },
        CompressionType::Pallet => {
            let base = match row_base(section, row_index) {
                Some(b) => b,
                None => {
                    return None;
                },
            };
            let mut reader = BitReader::new(section.records_data.as_slice(), base);
            reader.set_position(cm.record_offset as usize);
            let idx64 = match reader.read_bits(width) {
                Some(v) => v,
                None => {
                    return None;
                },
            };
            if width > 64 {
                return None;
            }
            if col_index >= meta.pallet_data.len() {
                return None;
            }
            let pallet = &meta.pallet_data[col_index];
            if idx64 >= pallet.len() as u64 {
                return None;
            }
            let idx = idx64 as usize;
            Some(DecodedValue::UInt(pallet[idx].0))
        },
        CompressionType::PalletArray => {
            let base = match row_base(section, row_index) {
                Some(b) => b,
                None => {
                    return None;
                },
            };
            let mut reader = BitReader::new(section.records_data.as_slice(), base);
            reader.set_position(cm.record_offset as usize);
            let idx64 = match reader.read_bits(width) {
                Some(v) => v,
                None => {
                    return None;
                },
            };
            if col_index >= meta.pallet_data.len() {
                return None;
            }
            let pallet = &meta.pallet_data[col_index];
            let cardinality = cm.val3 as usize;
            let mut vals: Vec<u32> = Vec::new();
            let mut i: usize = 0;
            while i < cardinality
                invariant
                    i <= cardinality,
                decreases cardinality - i,
            {
                let ca = cardinality as u128;
                let ix = idx64 as u128;
                proof {
                    vstd::arithmetic::mul::lemma_mul_upper_bound(
                        ca as int,
                        0xFFFF_FFFF_FFFF_FFFF,
                        ix as int,
                        0xFFFF_FFFF_FFFF_FFFF,
                    );
                }
                let slot = i as u128 + ca * ix;
                if slot < pallet.len() as u128 {
                    let s = slot as usize;
                    vals.push(pallet[s].0);
                }
                i = i + 1;
            }
            Some(DecodedValue::Array(vals))
        },
    }
}

} // verus!
