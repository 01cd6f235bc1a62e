//! Bit-field packing inside big-endian 32-bit words.
//!
//! The two partitions the wire format uses: a 1-bit flag over a 31-bit
//! magnitude, and a 1-bit flag, a 3-bit enumeration and a 28-bit offset.
//! Fields are packed most-significant-field-first; packing masks each value
//! to its declared width, so callers must range-check before packing.

use vstd::prelude::*;

verus! {

pub open spec fn spec_pack_1_31(v1: u32, v2: u32) -> u32 {
    (v1 & 1) << 31 | (v2 & 0x7fff_ffff)
}

pub open spec fn spec_pack_1_3_28(v1: u32, v2: u32, v3: u32) -> u32 {
    (v1 & 1) << 31 | (v2 & 7) << 28 | (v3 & 0x0fff_ffff)
}

pub fn pack_1_31(v1: u32, v2: u32) -> (r: u32)
    ensures
        r == spec_pack_1_31(v1, v2),
{
    (v1 & 1) << 31 | (v2 & 0x7fff_ffff)
}

pub fn unpack_1_31(w: u32) -> (r: (u32, u32))
    ensures
        r.0 == w >> 31,
        r.1 == w & 0x7fff_ffff,
{
    (w >> 31, w & 0x7fff_ffff)
}

pub fn pack_1_3_28(v1: u32, v2: u32, v3: u32) -> (r: u32)
    ensures
        r == spec_pack_1_3_28(v1, v2, v3),
{
    (v1 & 1) << 31 | (v2 & 7) << 28 | (v3 & 0x0fff_ffff)
}

pub fn unpack_1_3_28(w: u32) -> (r: (u32, u32, u32))
    ensures
        r.0 == w >> 31,
        r.1 == (w >> 28) & 7,
        r.2 == w & 0x0fff_ffff,
{
    (w >> 31, (w >> 28) & 7, w & 0x0fff_ffff)
}

/// Bit-field fidelity for the 1+31 partition: packing values that fit their
/// widths and unpacking the word returns exactly the values.
pub proof fn lemma_pack_unpack_1_31(v1: u32, v2: u32)
    requires
        v1 <= 1,
        v2 <= 0x7fff_ffff,
    ensures
        spec_pack_1_31(v1, v2) >> 31 == v1,
        spec_pack_1_31(v1, v2) & 0x7fff_ffff == v2,
{
    assert((v1 <= 1 && v2 <= 0x7fff_ffff) ==> (((v1 & 1) << 31 | (v2 & 0x7fff_ffff)) >> 31 == v1
        && ((v1 & 1) << 31 | (v2 & 0x7fff_ffff)) & 0x7fff_ffff == v2)) by (bit_vector);
}

/// Bit-field fidelity for the 1+3+28 partition: packing values that fit
/// their widths and unpacking the word returns exactly the values.
pub proof fn lemma_pack_unpack_1_3_28(v1: u32, v2: u32, v3: u32)
    requires
        v1 <= 1,
        v2 <= 7,
        v3 <= 0x0fff_ffff,
    ensures
        spec_pack_1_3_28(v1, v2, v3) >> 31 == v1,
        (spec_pack_1_3_28(v1, v2, v3) >> 28) & 7 == v2,
        spec_pack_1_3_28(v1, v2, v3) & 0x0fff_ffff == v3,
{
    assert((v1 <= 1 && v2 <= 7 && v3 <= 0x0fff_ffff) ==> ({
        let w = (v1 & 1) << 31 | (v2 & 7) << 28 | (v3 & 0x0fff_ffff);
        w >> 31 == v1 && (w >> 28) & 7 == v2 && w & 0x0fff_ffff == v3
    })) by (bit_vector);
}

} // verus!
