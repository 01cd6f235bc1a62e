//! Version-conditional field widths: a box's version byte selects a 64-bit
//! or a 32-bit wire width for certain fields.
//!
//! Reading zero-extends the 32-bit form to 64 bits. Writing emits the low
//! 32 bits under version 0 without checking — an intentional widening-only
//! guarantee: callers must not rely on values above `u32::MAX` surviving a
//! version-0 round trip.

use vstd::prelude::*;
use crate::bytes::{
    be_u32_at, be_u64_at, get_u32, get_u64, lemma_be_u32_round_trip, lemma_be_u64_round_trip,
    put_u32, put_u64, u32_be_bytes, u64_be_bytes,
};

verus! {

/// Wire width in bytes of a versioned field.
pub open spec fn spec_versioned_width(version: u8) -> int {
    if version == 1 {
        8
    } else {
        4
    }
}

pub open spec fn spec_versioned_at(data: Seq<u8>, pos: int, version: u8) -> u64
    recommends
        0 <= pos,
        pos + spec_versioned_width(version) <= data.len(),
{
    if version == 1 {
        be_u64_at(data, pos)
    } else {
        be_u32_at(data, pos) as u64
    }
}

pub open spec fn versioned_be_bytes(v: u64, version: u8) -> Seq<u8> {
    if version == 1 {
        u64_be_bytes(v)
    } else {
        u32_be_bytes((v & 0xffff_ffff) as u32)
    }
}

pub fn versioned_width(version: u8) -> (r: usize)
    ensures
        r as int == spec_versioned_width(version),
{
    if version == 1 {
        8
    } else {
        4
    }
}

pub fn get_versioned(data: &Vec<u8>, pos: usize, version: u8) -> (r: u64)
    requires
        pos + spec_versioned_width(version) <= data@.len(),
    ensures
        r == spec_versioned_at(data@, pos as int, version),
{
    if version == 1 {
        get_u64(data, pos)
    } else {
        get_u32(data, pos) as u64
    }
}

pub fn put_versioned(out: &mut Vec<u8>, v: u64, version: u8)
    ensures
        final(out)@ == old(out)@ + versioned_be_bytes(v, version),
{
    if version == 1 {
        put_u64(out, v);
    } else {
        proof {
            assert(v & 0xffff_ffff < 0x1_0000_0000) by (bit_vector);
        }
        put_u32(out, (v & 0xffff_ffff) as u32);
    }
}

/// Reading a versioned field where one was written recovers it, provided the
/// value fit the selected width.
pub proof fn lemma_versioned_round_trip(data: Seq<u8>, pos: int, v: u64, version: u8)
    requires
        0 <= pos,
        pos + spec_versioned_width(version) <= data.len(),
        version == 1 || v <= u32::MAX,
        forall|i: int|
            0 <= i < spec_versioned_width(version) ==> data[pos + i] == versioned_be_bytes(
                v,
                version,
            )[i],
    ensures
        spec_versioned_at(data, pos, version) == v,
{
    if version == 1 {
        assert forall|i: int| 0 <= i < 8 implies data[pos + i] == u64_be_bytes(v)[i] by {
            assert(data[pos + i] == versioned_be_bytes(v, version)[i]);
        }
        lemma_be_u64_round_trip(data, pos, v);
    } else {
        let w = (v & 0xffff_ffff) as u32;
        assert(v <= u32::MAX ==> v & 0xffff_ffff == v) by (bit_vector);
        assert forall|i: int| 0 <= i < 4 implies data[pos + i] == u32_be_bytes(w)[i] by {
            assert(data[pos + i] == versioned_be_bytes(v, version)[i]);
        }
        assert(data[pos] == u32_be_bytes(w)[0]) by {
            assert(data[pos + 0] == u32_be_bytes(w)[0]);
        }
        lemma_be_u32_round_trip(data, pos, w);
    }
}

} // verus!
