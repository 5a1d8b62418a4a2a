//! Little-endian wire-format primitives: reading 16- and 32-bit fields out
//! of byte buffers, writing 32-bit fields back, and the two's-complement
//! view of 32-bit fields that the block formats store as signed values.

use vstd::prelude::*;
use vstd::slice::slice_index_get;

verus! {

/// The unsigned 16-bit value stored little-endian at byte offset `off`.
pub open spec fn le16(b: Seq<u8>, off: int) -> u16 {
    (b[off] as u16) | ((b[off + 1] as u16) << 8)
}

/// The unsigned 32-bit value stored little-endian at byte offset `off`.
pub open spec fn le32(b: Seq<u8>, off: int) -> u32 {
    (b[off] as u32) | ((b[off + 1] as u32) << 8) | ((b[off + 2] as u32) << 16)
        | ((b[off + 3] as u32) << 24)
}

/// The signed 32-bit value whose two's-complement bit pattern is `u`.
pub open spec fn i32_from_bits(u: u32) -> i32 {
    if u < 0x8000_0000 {
        u as i32
    } else {
        (u - 0x1_0000_0000) as i32
    }
}

/// The two's-complement bit pattern of the signed 32-bit value `x`.
pub open spec fn bits_from_i32(x: i32) -> u32 {
    if x >= 0 {
        x as u32
    } else {
        (x + 0x1_0000_0000) as u32
    }
}

/// The signed 32-bit value stored little-endian at byte offset `off`.
pub open spec fn le_i32(b: Seq<u8>, off: int) -> i32 {
    i32_from_bits(le32(b, off))
}

/// Reading a signed value's bit pattern back gives the value.
pub proof fn lemma_i32_bits_roundtrip(x: i32)
    ensures
        i32_from_bits(bits_from_i32(x)) == x,
{
}

/// The two bytes of `x` in little-endian order.
pub open spec fn u16_le_bytes(x: u16) -> Seq<u8> {
    seq![(x & 0xff) as u8, ((x >> 8) & 0xff) as u8]
}

/// `le16` reads only the two bytes at `off`: any buffer whose bytes
/// there are the little-endian bytes of `x` stores `x` there.
pub proof fn lemma_le16_at(b: Seq<u8>, off: int, x: u16)
    requires
        0 <= off,
        off + 2 <= b.len(),
        b.subrange(off, off + 2) == u16_le_bytes(x),
    ensures
        le16(b, off) == x,
{
    assert(b[off] == u16_le_bytes(x)[0]);
    assert(b[off + 1] == u16_le_bytes(x)[1]);
    assert(((x & 0xff) as u8 as u16) | ((((x >> 8) & 0xff) as u8 as u16) << 8) == x)
        by (bit_vector);
}

/// The four bytes of `x` in little-endian order.
pub open spec fn u32_le_bytes(x: u32) -> Seq<u8> {
    seq![
        (x & 0xff) as u8,
        ((x >> 8) & 0xff) as u8,
        ((x >> 16) & 0xff) as u8,
        ((x >> 24) & 0xff) as u8,
    ]
}

/// Reading back the four little-endian bytes of `x` gives `x` again.
pub proof fn lemma_le32_of_u32_le_bytes(x: u32)
    ensures
        le32(u32_le_bytes(x), 0) == x,
{
    assert(((x & 0xff) as u8 as u32) | ((((x >> 8) & 0xff) as u8 as u32) << 8)
        | ((((x >> 16) & 0xff) as u8 as u32) << 16) | ((((x >> 24) & 0xff) as u8 as u32) << 24)
        == x) by (bit_vector);
}

/// `le32` reads only the four bytes at `off`: any buffer whose bytes there
/// are the little-endian bytes of `x` stores `x` there.
pub proof fn lemma_le32_at(b: Seq<u8>, off: int, x: u32)
    requires
        0 <= off,
        off + 4 <= b.len(),
        b.subrange(off, off + 4) == u32_le_bytes(x),
    ensures
        le32(b, off) == x,
{
    assert(b[off] == u32_le_bytes(x)[0]);
    assert(b[off + 1] == u32_le_bytes(x)[1]);
    assert(b[off + 2] == u32_le_bytes(x)[2]);
    assert(b[off + 3] == u32_le_bytes(x)[3]);
    lemma_le32_of_u32_le_bytes(x);
}

/// Reads the unsigned 16-bit little-endian field at `offset`.
pub fn read_u16_le(data: &[u8], offset: usize) -> (r: u16)
    requires
        offset + 2 <= data@.len(),
    ensures
        r == le16(data@, offset as int),
{
    proof {
        vstd::slice::axiom_spec_len(data);
    }
    let b0 = *slice_index_get(data, offset) as u16;
    let b1 = *slice_index_get(data, offset + 1) as u16;
    b0 | (b1 << 8u16)
}

/// Reads the unsigned 32-bit little-endian field at `offset`.
pub fn read_u32_le(data: &[u8], offset: usize) -> (r: u32)
    requires
        offset + 4 <= data@.len(),
    ensures
        r == le32(data@, offset as int),
{
    proof {
        vstd::slice::axiom_spec_len(data);
    }
    let b0 = *slice_index_get(data, offset) as u32;
    let b1 = *slice_index_get(data, offset + 1) as u32;
    let b2 = *slice_index_get(data, offset + 2) as u32;
    let b3 = *slice_index_get(data, offset + 3) as u32;
    b0 | (b1 << 8u32) | (b2 << 16u32) | (b3 << 24u32)
}

/// Reads the signed 32-bit little-endian field at `offset`.
pub fn read_i32_le(data: &[u8], offset: usize) -> (r: i32)
    requires
        offset + 4 <= data@.len(),
    ensures
        r == le_i32(data@, offset as int),
{
    bits_to_i32(read_u32_le(data, offset))
}

/// Converts a 32-bit pattern to the signed value it encodes.
pub fn bits_to_i32(u: u32) -> (r: i32)
    ensures
        r == i32_from_bits(u),
{
    if u < 0x8000_0000u32 {
        u as i32
    } else {
        ((u as i64) - 0x1_0000_0000i64) as i32
    }
}

/// Converts a signed 32-bit value to its two's-complement bit pattern.
pub fn i32_to_bits(x: i32) -> (r: u32)
    ensures
        r == bits_from_i32(x),
{
    if x >= 0 {
        x as u32
    } else {
        ((x as i64) + 0x1_0000_0000i64) as u32
    }
}

/// Appends the four little-endian bytes of `x` to `out`.
pub fn push_u32_le(out: &mut Vec<u8>, x: u32)
    ensures
        final(out)@ == old(out)@ + u32_le_bytes(x),
{
    proof {
        lemma_u32_byte_masks(x);
    }
    out.push((x & 0xff) as u8);
    out.push(((x >> 8u32) & 0xff) as u8);
    out.push(((x >> 16u32) & 0xff) as u8);
    out.push(((x >> 24u32) & 0xff) as u8);
    proof {
        assert(out@ =~= old(out)@ + u32_le_bytes(x));
    }
}

/// The concatenation of the little-endian bytes of every element of `s`.
pub open spec fn le_column_u32(s: Seq<u32>) -> Seq<u8>
    decreases s.len(),
{
    if s.len() == 0 {
        Seq::empty()
    } else {
        le_column_u32(s.drop_last()) + u32_le_bytes(s.last())
    }
}

/// The concatenation of the little-endian bytes of every element of
/// `s`, each stored as its two's-complement pattern.
pub open spec fn le_column_i32(s: Seq<i32>) -> Seq<u8>
    decreases s.len(),
{
    if s.len() == 0 {
        Seq::empty()
    } else {
        le_column_i32(s.drop_last()) + u32_le_bytes(bits_from_i32(s.last()))
    }
}

/// A packed column takes four bytes per element.
pub proof fn lemma_le_column_u32_len(s: Seq<u32>)
    ensures
        le_column_u32(s).len() == 4 * s.len(),
    decreases s.len(),
{
    if s.len() > 0 {
        lemma_le_column_u32_len(s.drop_last());
    }
}

/// A packed column takes four bytes per element.
pub proof fn lemma_le_column_i32_len(s: Seq<i32>)
    ensures
        le_column_i32(s).len() == 4 * s.len(),
    decreases s.len(),
{
    if s.len() > 0 {
        lemma_le_column_i32_len(s.drop_last());
    }
}

/// The four bytes at slot `i` of a packed column are the little-endian
/// bytes of element `i`.
pub proof fn lemma_le_column_u32_at(s: Seq<u32>, i: int)
    requires
        0 <= i < s.len(),
    ensures
        le_column_u32(s).subrange(4 * i, 4 * i + 4) == u32_le_bytes(s[i]),
    decreases s.len(),
{
    lemma_le_column_u32_len(s);
    lemma_le_column_u32_len(s.drop_last());
    if i == s.len() - 1 {
        assert(le_column_u32(s).subrange(4 * i, 4 * i + 4) =~= u32_le_bytes(s.last()));
    } else {
        lemma_le_column_u32_at(s.drop_last(), i);
        assert(le_column_u32(s).subrange(4 * i, 4 * i + 4) =~= le_column_u32(
            s.drop_last(),
        ).subrange(4 * i, 4 * i + 4));
    }
}

/// Appends the little-endian bytes of every element of `col` to `out`.
pub fn push_u32_column(out: &mut Vec<u8>, col: &Vec<u32>)
    ensures
        final(out)@ == old(out)@ + le_column_u32(col@),
{
    proof {
        assert(out@ =~= old(out)@ + le_column_u32(col@.take(0)));
    }
    let mut i: usize = 0;
    while i < col.len()
        invariant
            i <= col@.len(),
            out@ == old(out)@ + le_column_u32(col@.take(i as int)),
        decreases col@.len() - i,
    {
        push_u32_le(out, col[i]);
        proof {
            assert(col@.take(i + 1).drop_last() =~= col@.take(i as int));
            assert(col@.take(i + 1).last() == col@[i as int]);
            assert(out@ =~= old(out)@ + le_column_u32(col@.take(i + 1)));
        }
        i = i + 1;
    }
    proof {
        assert(col@.take(col@.len() as int) =~= col@);
    }
}

/// Appends the little-endian bytes of every element of `col` to `out`.
pub fn push_i32_column(out: &mut Vec<u8>, col: &Vec<i32>)
    ensures
        final(out)@ == old(out)@ + le_column_i32(col@),
{
    proof {
        assert(out@ =~= old(out)@ + le_column_i32(col@.take(0)));
    }
    let mut i: usize = 0;
    while i < col.len()
        invariant
            i <= col@.len(),
            out@ == old(out)@ + le_column_i32(col@.take(i as int)),
        decreases col@.len() - i,
    {
        let bits = i32_to_bits(col[i]);
        push_u32_le(out, bits);
        proof {
            assert(col@.take(i + 1).drop_last() =~= col@.take(i as int));
            assert(col@.take(i + 1).last() == col@[i as int]);
            assert(out@ =~= old(out)@ + le_column_i32(col@.take(i + 1)));
        }
        i = i + 1;
    }
    proof {
        assert(col@.take(col@.len() as int) =~= col@);
    }
}

/// Each byte extracted from a 32-bit value fits in eight bits.
pub proof fn lemma_u32_byte_masks(x: u32)
    ensures
        x & 0xff < 256,
        (x >> 8) & 0xff < 256,
        (x >> 16) & 0xff < 256,
        (x >> 24) & 0xff < 256,
{
    assert(x & 0xff < 256 && (x >> 8) & 0xff < 256 && (x >> 16) & 0xff < 256 && (x >> 24) & 0xff
        < 256) by (bit_vector);
}

} // verus!
