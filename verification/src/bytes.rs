//! Big-endian byte-level codec.
//!
//! Spec functions give the mathematical reading of a multi-byte integer at a
//! position in a byte sequence (`be_*_at`) and the byte sequence an integer
//! encodes to (`*_be_bytes`). The executable readers and writers are proved
//! against them, and the round-trip lemmas connect the two directions.

use vstd::prelude::*;

verus! {

pub open spec fn be_u16_at(data: Seq<u8>, pos: int) -> u16
    recommends
        0 <= pos,
        pos + 2 <= data.len(),
{
    (data[pos] as u16) << 8 | (data[pos + 1] as u16)
}

pub open spec fn be_u24_at(data: Seq<u8>, pos: int) -> u32
    recommends
        0 <= pos,
        pos + 3 <= data.len(),
{
    (data[pos] as u32) << 16 | (data[pos + 1] as u32) << 8 | (data[pos + 2] as u32)
}

pub open spec fn be_u32_at(data: Seq<u8>, pos: int) -> u32
    recommends
        0 <= pos,
        pos + 4 <= data.len(),
{
    (data[pos] as u32) << 24 | (data[pos + 1] as u32) << 16 | (data[pos + 2] as u32) << 8 | (data[
        pos + 3
    ] as u32)
}

pub open spec fn be_u64_at(data: Seq<u8>, pos: int) -> u64
    recommends
        0 <= pos,
        pos + 8 <= data.len(),
{
    (be_u32_at(data, pos) as u64) << 32 | (be_u32_at(data, pos + 4) as u64)
}

pub open spec fn u16_be_bytes(v: u16) -> Seq<u8> {
    seq![((v >> 8) & 0xff) as u8, (v & 0xff) as u8]
}

pub open spec fn u24_be_bytes(v: u32) -> Seq<u8> {
    seq![((v >> 16) & 0xff) as u8, ((v >> 8) & 0xff) as u8, (v & 0xff) as u8]
}

pub open spec fn u32_be_bytes(v: u32) -> Seq<u8> {
    seq![((v >> 24) & 0xff) as u8, ((v >> 16) & 0xff) as u8, ((v >> 8) & 0xff) as u8, (v
        & 0xff) as u8]
}

pub open spec fn u64_be_bytes(v: u64) -> Seq<u8> {
    u32_be_bytes(((v >> 32) & 0xffff_ffff) as u32) + u32_be_bytes((v & 0xffff_ffff) as u32)
}

pub fn get_u8(data: &Vec<u8>, pos: usize) -> (r: u8)
    requires
        pos < data@.len(),
    ensures
        r == data@[pos as int],
{
    data[pos]
}

pub fn get_u16(data: &Vec<u8>, pos: usize) -> (r: u16)
    requires
        pos + 2 <= data@.len(),
    ensures
        r == be_u16_at(data@, pos as int),
{
    let _end: usize = data.len();
    (data[pos] as u16) << 8 | (data[pos + 1] as u16)
}

pub fn get_u24(data: &Vec<u8>, pos: usize) -> (r: u32)
    requires
        pos + 3 <= data@.len(),
    ensures
        r == be_u24_at(data@, pos as int),
{
    let _end: usize = data.len();
    (data[pos] as u32) << 16 | (data[pos + 1] as u32) << 8 | (data[pos + 2] as u32)
}

pub fn get_u32(data: &Vec<u8>, pos: usize) -> (r: u32)
    requires
        pos + 4 <= data@.len(),
    ensures
        r == be_u32_at(data@, pos as int),
{
    let _end: usize = data.len();
    (data[pos] as u32) << 24 | (data[pos + 1] as u32) << 16 | (data[pos + 2] as u32) << 8 | (
    data[pos + 3] as u32)
}

pub fn get_u64(data: &Vec<u8>, pos: usize) -> (r: u64)
    requires
        pos + 8 <= data@.len(),
    ensures
        r == be_u64_at(data@, pos as int),
{
    let _end: usize = data.len();
    let hi = get_u32(data, pos);
    let lo = get_u32(data, pos + 4);
    (hi as u64) << 32 | (lo as u64)
}

pub fn put_u8(out: &mut Vec<u8>, v: u8)
    ensures
        final(out)@ == old(out)@ + seq![v],
{
    out.push(v);
    proof {
        assert(out@ =~= old(out)@ + seq![v]);
    }
}

pub fn put_u16(out: &mut Vec<u8>, v: u16)
    ensures
        final(out)@ == old(out)@ + u16_be_bytes(v),
{
    proof {
        assert((v >> 8) & 0xff < 256 && v & 0xff < 256) by (bit_vector);
    }
    out.push(((v >> 8) & 0xff) as u8);
    out.push((v & 0xff) as u8);
    proof {
        assert(out@ =~= old(out)@ + u16_be_bytes(v));
    }
}

pub fn put_u24(out: &mut Vec<u8>, v: u32)
    ensures
        final(out)@ == old(out)@ + u24_be_bytes(v),
{
    proof {
        assert((v >> 16) & 0xff < 256 && (v >> 8) & 0xff < 256 && v & 0xff < 256) by (bit_vector);
    }
    out.push(((v >> 16) & 0xff) as u8);
    out.push(((v >> 8) & 0xff) as u8);
    out.push((v & 0xff) as u8);
    proof {
        assert(out@ =~= old(out)@ + u24_be_bytes(v));
    }
}

pub fn put_u32(out: &mut Vec<u8>, v: u32)
    ensures
        final(out)@ == old(out)@ + u32_be_bytes(v),
{
    proof {
        assert((v >> 24) & 0xff < 256 && (v >> 16) & 0xff < 256 && (v >> 8) & 0xff < 256 && v
            & 0xff < 256) by (bit_vector);
    }
    out.push(((v >> 24) & 0xff) as u8);
    out.push(((v >> 16) & 0xff) as u8);
    out.push(((v >> 8) & 0xff) as u8);
    out.push((v & 0xff) as u8);
    proof {
        assert(out@ =~= old(out)@ + u32_be_bytes(v));
    }
}

pub fn put_u64(out: &mut Vec<u8>, v: u64)
    ensures
        final(out)@ == old(out)@ + u64_be_bytes(v),
{
    proof {
        assert((v >> 32) & 0xffff_ffff < 0x1_0000_0000 && v & 0xffff_ffff < 0x1_0000_0000)
            by (bit_vector);
    }
    put_u32(out, ((v >> 32) & 0xffff_ffff) as u32);
    put_u32(out, (v & 0xffff_ffff) as u32);
    proof {
        assert(out@ =~= old(out)@ + u64_be_bytes(v));
    }
}

/// Reading two big-endian bytes where an integer was written recovers it.
pub proof fn lemma_be_u16_round_trip(data: Seq<u8>, pos: int, v: u16)
    requires
        0 <= pos,
        pos + 2 <= data.len(),
        data[pos] == u16_be_bytes(v)[0],
        data[pos + 1] == u16_be_bytes(v)[1],
    ensures
        be_u16_at(data, pos) == v,
{
    let b0 = data[pos];
    let b1 = data[pos + 1];
    assert((b0 == ((v >> 8) & 0xff) as u8 && b1 == (v & 0xff) as u8) ==> ((b0 as u16) << 8 | (
    b1 as u16)) == v) by (bit_vector);
}

/// Reading three big-endian bytes where an integer below 2^24 was written
/// recovers it.
pub proof fn lemma_be_u24_round_trip(data: Seq<u8>, pos: int, v: u32)
    requires
        0 <= pos,
        pos + 3 <= data.len(),
        v < 0x100_0000,
        data[pos] == u24_be_bytes(v)[0],
        data[pos + 1] == u24_be_bytes(v)[1],
        data[pos + 2] == u24_be_bytes(v)[2],
    ensures
        be_u24_at(data, pos) == v,
{
    let b0 = data[pos];
    let b1 = data[pos + 1];
    let b2 = data[pos + 2];
    assert((v < 0x100_0000 && b0 == ((v >> 16) & 0xff) as u8 && b1 == ((v >> 8) & 0xff) as u8 && b2
        == (v & 0xff) as u8) ==> ((b0 as u32) << 16 | (b1 as u32) << 8 | (b2 as u32)) == v)
        by (bit_vector);
}

/// Reading four big-endian bytes where an integer was written recovers it.
pub proof fn lemma_be_u32_round_trip(data: Seq<u8>, pos: int, v: u32)
    requires
        0 <= pos,
        pos + 4 <= data.len(),
        data[pos] == u32_be_bytes(v)[0],
        data[pos + 1] == u32_be_bytes(v)[1],
        data[pos + 2] == u32_be_bytes(v)[2],
        data[pos + 3] == u32_be_bytes(v)[3],
    ensures
        be_u32_at(data, pos) == v,
{
    let b0 = data[pos];
    let b1 = data[pos + 1];
    let b2 = data[pos + 2];
    let b3 = data[pos + 3];
    assert((b0 == ((v >> 24) & 0xff) as u8 && b1 == ((v >> 16) & 0xff) as u8 && b2 == ((v >> 8)
        & 0xff) as u8 && b3 == (v & 0xff) as u8) ==> ((b0 as u32) << 24 | (b1 as u32) << 16 | (
    b2 as u32) << 8 | (b3 as u32)) == v) by (bit_vector);
}

/// Reading eight big-endian bytes where an integer was written recovers it.
pub proof fn lemma_be_u64_round_trip(data: Seq<u8>, pos: int, v: u64)
    requires
        0 <= pos,
        pos + 8 <= data.len(),
        forall|i: int| 0 <= i < 8 ==> data[pos + i] == u64_be_bytes(v)[i],
    ensures
        be_u64_at(data, pos) == v,
{
    let hi = ((v >> 32) & 0xffff_ffff) as u32;
    let lo = (v & 0xffff_ffff) as u32;
    assert forall|i: int| 0 <= i < 4 implies data[pos + i] == u32_be_bytes(hi)[i] && data[pos + 4
        + i] == u32_be_bytes(lo)[i] by {
        assert(data[pos + i] == u64_be_bytes(v)[i]);
        assert(data[pos + 4 + i] == u64_be_bytes(v)[4 + i]);
    }
    lemma_be_u32_round_trip(data, pos, hi);
    lemma_be_u32_round_trip(data, pos + 4, lo);
    assert(((hi as u64) << 32 | (lo as u64)) == v ==> be_u64_at(data, pos) == v);
    assert((hi == ((v >> 32) & 0xffff_ffff) as u32 && lo == (v & 0xffff_ffff) as u32) ==> ((
    hi as u64) << 32 | (lo as u64)) == v) by (bit_vector);
}

} // verus!
