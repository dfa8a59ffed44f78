//! Bounds-checked reads of fixed-width unsigned integers at a byte offset,
//! honoring a configured byte order, together with the closed choices that
//! parameterize them (byte order, addressing class) and the decoding error.

use vstd::prelude::*;

verus! {

/// Byte order applied uniformly to every multi-byte field of one record.
#[derive(Copy, Clone, Debug, PartialEq, Eq, Structural)]
pub enum Endian {
    Little,
    Big,
}

/// Addressing class of the object file; fixes the on-disk width of the
/// address-sized fields of a record.
#[derive(Copy, Clone, Debug, PartialEq, Eq, Structural)]
pub enum Class {
    ELF32,
    ELF64,
}

/// The one decoding failure: a fixed-width read at the carried byte offset
/// could not be satisfied by the remaining buffer.
#[derive(Copy, Clone, Debug, PartialEq, Eq, Structural)]
pub enum ParseError {
    BadOffset(u64),
}

/// The integer value of a byte sequence read least-significant byte first.
pub open spec fn le_value(s: Seq<u8>) -> nat
    decreases s.len(),
{
    if s.len() == 0 {
        0
    } else {
        s[0] as nat + 256 * le_value(s.drop_first())
    }
}

/// The integer value of a byte sequence read most-significant byte first.
pub open spec fn be_value(s: Seq<u8>) -> nat
    decreases s.len(),
{
    if s.len() == 0 {
        0
    } else {
        256 * be_value(s.drop_last()) + s.last() as nat
    }
}

/// The integer value of a byte sequence under the given byte order.
pub open spec fn scalar_value(e: Endian, s: Seq<u8>) -> nat {
    match e {
        Endian::Little => le_value(s),
        Endian::Big => be_value(s),
    }
}

/// The integer stored in `data[off .. off + width]` under byte order `e`.
pub open spec fn word_at(e: Endian, data: Seq<u8>, off: int, width: int) -> nat {
    scalar_value(e, data.subrange(off, off + width))
}

/// The 32-bit field stored at `off`.
pub open spec fn u32_at(e: Endian, data: Seq<u8>, off: int) -> u32 {
    word_at(e, data, off, 4) as u32
}

/// The 64-bit field stored at `off`.
pub open spec fn u64_at(e: Endian, data: Seq<u8>, off: int) -> u64 {
    word_at(e, data, off, 8) as u64
}

proof fn lemma_le_value4(s: Seq<u8>)
    requires
        s.len() == 4,
    ensures
        le_value(s) == s[0] + 0x100 * s[1] + 0x1_0000 * s[2] + 0x100_0000 * s[3],
{
    let s1 = s.drop_first();
    let s2 = s1.drop_first();
    let s3 = s2.drop_first();
    assert(s3.drop_first().len() == 0);
    assert(le_value(s3.drop_first()) == 0);
    assert(le_value(s3) == s3[0] as nat);
    assert(le_value(s2) == s2[0] + 256 * le_value(s3));
    assert(le_value(s1) == s1[0] + 256 * le_value(s2));
    assert(le_value(s) == s[0] + 256 * le_value(s1));
    assert(s1[0] == s[1] && s2[0] == s[2] && s3[0] == s[3]);
}

proof fn lemma_be_value4(s: Seq<u8>)
    requires
        s.len() == 4,
    ensures
        be_value(s) == s[3] + 0x100 * s[2] + 0x1_0000 * s[1] + 0x100_0000 * s[0],
{
    let s1 = s.drop_last();
    let s2 = s1.drop_last();
    let s3 = s2.drop_last();
    assert(s3.drop_last().len() == 0);
    assert(be_value(s3.drop_last()) == 0);
    assert(be_value(s3) == s3.last() as nat);
    assert(be_value(s2) == 256 * be_value(s3) + s2.last());
    assert(be_value(s1) == 256 * be_value(s2) + s1.last());
    assert(be_value(s) == 256 * be_value(s1) + s.last());
    assert(s.last() == s[3] && s1.last() == s[2] && s2.last() == s[1] && s3.last() == s[0]);
}

proof fn lemma_le_value8(s: Seq<u8>)
    requires
        s.len() == 8,
    ensures
        le_value(s) == s[0] + 0x100 * s[1] + 0x1_0000 * s[2] + 0x100_0000 * s[3]
            + 0x1_0000_0000 * s[4] + 0x100_0000_0000 * s[5] + 0x1_0000_0000_0000 * s[6]
            + 0x100_0000_0000_0000 * s[7],
{
    let s4 = s.drop_first().drop_first().drop_first().drop_first();
    assert(s4 =~= s.subrange(4, 8));
    lemma_le_value4(s4);
    let s1 = s.drop_first();
    let s2 = s1.drop_first();
    let s3 = s2.drop_first();
    assert(le_value(s3) == s3[0] + 256 * le_value(s4));
    assert(le_value(s2) == s2[0] + 256 * le_value(s3));
    assert(le_value(s1) == s1[0] + 256 * le_value(s2));
    assert(le_value(s) == s[0] + 256 * le_value(s1));
    assert(s1[0] == s[1] && s2[0] == s[2] && s3[0] == s[3]);
    assert(s4[0] == s[4] && s4[1] == s[5] && s4[2] == s[6] && s4[3] == s[7]);
}

proof fn lemma_be_value8(s: Seq<u8>)
    requires
        s.len() == 8,
    ensures
        be_value(s) == s[7] + 0x100 * s[6] + 0x1_0000 * s[5] + 0x100_0000 * s[4]
            + 0x1_0000_0000 * s[3] + 0x100_0000_0000 * s[2] + 0x1_0000_0000_0000 * s[1]
            + 0x100_0000_0000_0000 * s[0],
{
    let s4 = s.drop_last().drop_last().drop_last().drop_last();
    assert(s4 =~= s.subrange(0, 4));
    lemma_be_value4(s4);
    let s1 = s.drop_last();
    let s2 = s1.drop_last();
    let s3 = s2.drop_last();
    assert(be_value(s3) == 256 * be_value(s4) + s3.last());
    assert(be_value(s2) == 256 * be_value(s3) + s2.last());
    assert(be_value(s1) == 256 * be_value(s2) + s1.last());
    assert(be_value(s) == 256 * be_value(s1) + s.last());
    assert(s.last() == s[7] && s1.last() == s[6] && s2.last() == s[5] && s3.last() == s[4]);
}

/// A four-byte field holds a value below 2^32.
pub broadcast proof fn lemma_word4_bound(e: Endian, data: Seq<u8>, off: int)
    requires
        0 <= off,
        off + 4 <= data.len(),
    ensures
        #[trigger] word_at(e, data, off, 4) < 0x1_0000_0000,
{
    let s = data.subrange(off, off + 4);
    lemma_le_value4(s);
    lemma_be_value4(s);
}

/// An eight-byte field holds a value below 2^64.
pub broadcast proof fn lemma_word8_bound(e: Endian, data: Seq<u8>, off: int)
    requires
        0 <= off,
        off + 8 <= data.len(),
    ensures
        #[trigger] word_at(e, data, off, 8) < 0x1_0000_0000_0000_0000,
{
    let s = data.subrange(off, off + 8);
    lemma_le_value8(s);
    lemma_be_value8(s);
}

/// Reads the 32-bit field at `*offset`, honoring `endian`, and advances the
/// offset past it; fails without moving the offset when fewer than four
/// bytes remain there.
pub fn parse_u32_at(endian: Endian, offset: &mut usize, data: &[u8]) -> (r: Result<
    u32,
    ParseError,
>)
    ensures
        *old(offset) + 4 <= data@.len() ==> r == Ok::<u32, ParseError>(
            u32_at(endian, data@, *old(offset) as int),
        ) && *final(offset) == *old(offset) + 4,
        *old(offset) + 4 > data@.len() ==> r == Err::<u32, ParseError>(
            ParseError::BadOffset(*old(offset) as u64),
        ) && *final(offset) == *old(offset),
{
    let off = *offset;
    if data.len() < 4 || off > data.len() - 4 {
        return Err(ParseError::BadOffset(off as u64));
    }
    let b0 = data[off];
    let b1 = data[off + 1];
    let b2 = data[off + 2];
    let b3 = data[off + 3];
    let v: u32 = match endian {
        Endian::Little => b0 as u32 + 0x100 * (b1 as u32) + 0x1_0000 * (b2 as u32) + 0x100_0000
            * (b3 as u32),
        Endian::Big => b3 as u32 + 0x100 * (b2 as u32) + 0x1_0000 * (b1 as u32) + 0x100_0000 * (
        b0 as u32),
    };
    proof {
        let s = data@.subrange(off as int, off as int + 4);
        lemma_le_value4(s);
        lemma_be_value4(s);
        assert(s[0] == data@[off as int] && s[1] == data@[off + 1] && s[2] == data@[off + 2]
            && s[3] == data@[off + 3]);
    }
    *offset = off + 4;
    Ok(v)
}

/// Reads the 64-bit field at `*offset`, honoring `endian`, and advances the
/// offset past it; fails without moving the offset when fewer than eight
/// bytes remain there.
pub fn parse_u64_at(endian: Endian, offset: &mut usize, data: &[u8]) -> (r: Result<
    u64,
    ParseError,
>)
    ensures
        *old(offset) + 8 <= data@.len() ==> r == Ok::<u64, ParseError>(
            u64_at(endian, data@, *old(offset) as int),
        ) && *final(offset) == *old(offset) + 8,
        *old(offset) + 8 > data@.len() ==> r == Err::<u64, ParseError>(
            ParseError::BadOffset(*old(offset) as u64),
        ) && *final(offset) == *old(offset),
{
    let off = *offset;
    if data.len() < 8 || off > data.len() - 8 {
        return Err(ParseError::BadOffset(off as u64));
    }
    let b0 = data[off];
    let b1 = data[off + 1];
    let b2 = data[off + 2];
    let b3 = data[off + 3];
    let b4 = data[off + 4];
    let b5 = data[off + 5];
    let b6 = data[off + 6];
    let b7 = data[off + 7];
    let v: u64 = match endian {
        Endian::Little => b0 as u64 + 0x100 * (b1 as u64) + 0x1_0000 * (b2 as u64) + 0x100_0000
            * (b3 as u64) + 0x1_0000_0000 * (b4 as u64) + 0x100_0000_0000 * (b5 as u64)
            + 0x1_0000_0000_0000 * (b6 as u64) + 0x100_0000_0000_0000 * (b7 as u64),
        Endian::Big => b7 as u64 + 0x100 * (b6 as u64) + 0x1_0000 * (b5 as u64) + 0x100_0000 * (
        b4 as u64) + 0x1_0000_0000 * (b3 as u64) + 0x100_0000_0000 * (b2 as u64)
            + 0x1_0000_0000_0000 * (b1 as u64) + 0x100_0000_0000_0000 * (b0 as u64),
    };
    proof {
        let s = data@.subrange(off as int, off as int + 8);
        lemma_le_value8(s);
        lemma_be_value8(s);
        assert(s[0] == data@[off as int] && s[1] == data@[off + 1] && s[2] == data@[off + 2]
            && s[3] == data@[off + 3] && s[4] == data@[off + 4] && s[5] == data@[off + 5]
            && s[6] == data@[off + 6] && s[7] == data@[off + 7]);
    }
    *offset = off + 8;
    Ok(v)
}

} // verus!
